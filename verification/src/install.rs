//! What the installer decides: the hook command line, which configured hooks
//! are Harbor Light's own, how the Codex and Cursor hook configurations are
//! merged and cleaned, and the launch files that it writes.
//!
//! The hook configuration files are JSON documents; reading and writing them
//! is done by the caller, which hands the parsed document in and writes back
//! what comes out.
use vstd::prelude::*;

use crate::json::{
    array_member, empty_object, find_field, get_str_member, json_number, json_str, jv, jv_fields,
    jv_seq, lemma_field_index, lemma_jv_fields, lemma_jv_fields_ext, lemma_jv_seq,
    lemma_jv_seq_ext, lookup, put_field, remove_field, set_field, set_field_exec, str_member,
    take_field,
    JsonValue, JsonView,
};
use crate::paths::FsPath;
use crate::providers::{codex_hook_events, cursor_hook_events, provider_name, strs_view, Provider};
use crate::text::{
    ascii_lower_seq, chars_of, contains_chars, contains_seq, has_prefix, is_whitespace, is_ws,
    lower_ascii_chars, matches_at, occurs_at, starts_with, string_of_range, trim, trim_bounds,
};

verus! {

// ------------------------------------------------------------ hook commands

/// The display form of a binary path without a Windows verbatim prefix
/// (`\\?\` or `//?/`).
pub open spec fn without_verbatim_prefix(d: Seq<char>) -> Seq<char> {
    if has_prefix(d, "\\\\?\\"@) {
        d.skip(("\\\\?\\"@).len() as int)
    } else if has_prefix(d, "//?/"@) {
        d.skip(("//?/"@).len() as int)
    } else {
        d
    }
}

/// The command line that a provider's hook runs: the binary (quoted when it
/// holds a space), then `hook --provider` and the provider's name.
pub open spec fn hook_command(binary: Seq<char>, provider: Provider) -> Seq<char> {
    let d = without_verbatim_prefix(binary);
    let shown = if d.contains(' ') {
        seq!['"'] + d + seq!['"']
    } else {
        d
    };
    shown + " hook --provider "@ + provider_name(provider)
}

/// The hook command for a binary, given by its displayed path.
pub fn hook_command_for(binary: &str, provider: Provider) -> (r: String)
    ensures
        r@ == hook_command(binary@, provider),
{
    let v = chars_of(binary);
    let p1 = chars_of("\\\\?\\");
    let p2 = chars_of("//?/");
    let (start, end) = if starts_with(&v, &p1) {
        (p1.len(), v.len())
    } else if starts_with(&v, &p2) {
        (p2.len(), v.len())
    } else {
        (0, v.len())
    };
    let d = string_of_range(&v, start, end);
    proof {
        assert(d@ =~= without_verbatim_prefix(binary@));
    }
    let mut has_space = false;
    let mut i: usize = start;
    while i < end
        invariant
            start <= i <= end == v@.len(),
            d@ == v@.subrange(start as int, end as int),
            has_space == exists|j: int| start <= j < i && v@[j] == ' ',
        decreases end - i,
    {
        if v[i] == ' ' {
            has_space = true;
        }
        i = i + 1;
    }
    proof {
        if has_space {
            let j = choose|j: int| start <= j < end && v@[j] == ' ';
            assert(d@[j - start] == ' ');
        }
        if d@.contains(' ') {
            let k = choose|k: int| 0 <= k < d@.len() && d@[k] == ' ';
            assert(v@[k + start] == ' ');
        }
    }
    let mut r = String::new();
    if has_space {
        r.push('"');
        r.push_str(d.as_str());
        r.push('"');
    } else {
        r.push_str(d.as_str());
    }
    r.push_str(" hook --provider ");
    r.push_str(provider.as_str());
    proof {
        if has_space {
            assert(seq!['"'] + d@ + seq!['"'] =~= seq![].push('"') + d@ + seq!['"']);
        }
    }
    r
}

/// `s` without its double quotes.
pub open spec fn drop_quotes(s: Seq<char>) -> Seq<char>
    decreases s.len(),
{
    if s.len() == 0 {
        s
    } else if s.last() == '"' {
        drop_quotes(s.drop_last())
    } else {
        drop_quotes(s.drop_last()).push(s.last())
    }
}

/// A command line as it is matched: without quotes, trimmed, in lower case.
pub open spec fn normalized_command(s: Seq<char>) -> Seq<char> {
    ascii_lower_seq(trim(drop_quotes(s)))
}

/// Whether `word` stands in `s` at `i` as a whole white-space separated
/// word.
pub open spec fn word_at(s: Seq<char>, word: Seq<char>, i: int) -> bool {
    &&& occurs_at(s, word, i)
    &&& (i == 0 || is_ws(s[i - 1]))
    &&& (i + word.len() == s.len() || is_ws(s[i + word.len()]))
}

/// Whether a command line runs Harbor Light's hook: one of its words is
/// `hook` and it names Harbor Light or its former name Codex Light.
pub open spec fn our_hook_command(command: Seq<char>) -> bool {
    let n = normalized_command(command);
    &&& exists|i: int| word_at(n, "hook"@, i)
    &&& {
        ||| contains_seq(n, "harbor-light"@)
        ||| contains_seq(n, "harborlight"@)
        ||| contains_seq(n, "codex-light"@)
        ||| contains_seq(n, "codexlight"@)
    }
}

/// Whether a configured hook command is one of Harbor Light's own.
pub fn is_our_hook_command(command: &str) -> (r: bool)
    ensures
        r == our_hook_command(command@),
{
    let v = chars_of(command);
    let mut w: Vec<char> = Vec::new();
    let mut i: usize = 0;
    while i < v.len()
        invariant
            i <= v@.len(),
            w@ == drop_quotes(v@.take(i as int)),
        decreases v.len() - i,
    {
        proof {
            assert(v@.take(i + 1).drop_last() =~= v@.take(i as int));
        }
        if v[i] != '"' {
            w.push(v[i]);
        }
        i = i + 1;
    }
    assert(v@.take(i as int) =~= v@);
    let (start, end) = trim_bounds(&w);
    let mut t: Vec<char> = Vec::new();
    let mut k: usize = start;
    while k < end
        invariant
            start <= k <= end <= w@.len(),
            t@ == w@.subrange(start as int, k as int),
        decreases end - k,
    {
        t.push(w[k]);
        k = k + 1;
        assert(t@ =~= w@.subrange(start as int, k as int));
    }
    let n = lower_ascii_chars(&t);
    proof {
        assert(t@ =~= trim(w@));
        assert(n@ == normalized_command(command@));
    }
    let hook = chars_of("hook");
    proof {
        reveal_strlit("hook");
    }
    if !has_word(&n, &hook) {
        return false;
    }
    contains_chars(&n, &chars_of("harbor-light")) || contains_chars(&n, &chars_of("harborlight"))
        || contains_chars(&n, &chars_of("codex-light")) || contains_chars(
        &n,
        &chars_of("codexlight"),
    )
}

/// Whether a non-empty `word` stands in `s` as a whole word.
fn has_word(s: &Vec<char>, word: &Vec<char>) -> (r: bool)
    requires
        word@.len() > 0,
    ensures
        r == exists|x: int| word_at(s@, word@, x),
{
    let mut j: usize = 0;
    while j < s.len()
        invariant
            j <= s@.len(),
            word@.len() > 0,
            forall|x: int| 0 <= x < j ==> !word_at(s@, word@, x),
        decreases s.len() - j,
    {
        if matches_at(s, word, j) {
            let before = j == 0 || is_whitespace(s[j - 1]);
            let after_at = j + word.len();
            let after = after_at == s.len() || is_whitespace(s[after_at]);
            if before && after {
                assert(word_at(s@, word@, j as int));
                return true;
            }
        }
        j = j + 1;
    }
    proof {
        assert forall|x: int| !word_at(s@, word@, x) by {
            if x >= s@.len() && word_at(s@, word@, x) {
                assert(x + word@.len() <= s@.len());
            }
        }
    }
    false
}

// ------------------------------------------------------ hook configuration

/// Why a hook configuration could not be merged.
#[derive(Debug, Clone, Copy, PartialEq, Eq, Structural)]
pub enum HooksError {
    /// The document is not a JSON object.
    RootNotObject,
    /// The document's `hooks` member is not an object.
    HooksNotObject,
}

impl HooksError {
    /// The message reported for a provider's configuration file.
    pub fn message(&self, provider: Provider) -> (r: &'static str)
        ensures
            r@ == (match (*self, provider) {
                (HooksError::RootNotObject, Provider::Codex) => "hooks.json root must be an object"@,
                (HooksError::HooksNotObject, Provider::Codex) => "hooks.json missing hooks object"@,
                (HooksError::RootNotObject, Provider::Cursor) => "Cursor hooks.json root must be an object"@,
                (HooksError::HooksNotObject, Provider::Cursor) => "Cursor hooks.json missing hooks object"@,
            }),
    {
        match (*self, provider) {
            (HooksError::RootNotObject, Provider::Codex) => "hooks.json root must be an object",
            (HooksError::HooksNotObject, Provider::Codex) => "hooks.json missing hooks object",
            (HooksError::RootNotObject, Provider::Cursor) => "Cursor hooks.json root must be an object",
            (HooksError::HooksNotObject, Provider::Cursor) => "Cursor hooks.json missing hooks object",
        }
    }
}

/// The command of a configured hook entry.
pub open spec fn command_of(h: JsonView) -> Option<Seq<char>> {
    str_member(h, "command"@)
}

/// Whether a configured hook entry runs Harbor Light's hook.
pub open spec fn is_ours(h: JsonView) -> bool {
    match command_of(h) {
        Some(c) => our_hook_command(c),
        None => false,
    }
}

/// Whether an entry runs Harbor Light's hook.
pub fn entry_is_ours(h: &JsonValue) -> (r: bool)
    ensures
        r == is_ours(jv(*h)),
{
    match get_str_member(h, "command") {
        Some(c) => is_our_hook_command(c.as_str()),
        None => false,
    }
}

/// Whether one of the entries runs Harbor Light's hook.
pub open spec fn any_ours(hs: Seq<JsonView>) -> bool {
    exists|j: int| 0 <= j < hs.len() && #[trigger] is_ours(hs[j])
}

/// Whether a Codex hook group holds one of Harbor Light's hooks.
pub open spec fn group_has_ours(g: JsonView) -> bool {
    match array_member(g, "hooks"@) {
        Some(hs) => any_ours(hs),
        None => false,
    }
}

/// Whether one of the Codex hook groups holds one of Harbor Light's hooks.
pub open spec fn groups_have_ours(gs: Seq<JsonView>) -> bool {
    exists|i: int| 0 <= i < gs.len() && #[trigger] group_has_ours(gs[i])
}

/// An entry with its command and timeout set.
pub open spec fn with_command(h: JsonView, cmd: Seq<char>, timeout: Seq<char>) -> JsonView {
    match h {
        JsonView::Object(f) => JsonView::Object(
            set_field(
                set_field(f, "command"@, JsonView::Str(cmd)),
                "timeout"@,
                JsonView::Number(timeout),
            ),
        ),
        _ => h,
    }
}

/// The timeout, in seconds, of a Codex hook entry.
pub open spec fn codex_timeout() -> Seq<char> {
    "3"@
}

/// The timeout, in seconds, of a Cursor hook entry.
pub open spec fn cursor_timeout() -> Seq<char> {
    "8"@
}

/// A Codex hook entry pointed at the command when it is one of ours.
pub open spec fn replaced_hook(h: JsonView, cmd: Seq<char>) -> JsonView {
    if is_ours(h) {
        with_command(h, cmd, codex_timeout())
    } else {
        h
    }
}

/// A Codex hook group with its entries of ours pointed at the command.
pub open spec fn replaced_group(g: JsonView, cmd: Seq<char>) -> JsonView {
    match g {
        JsonView::Object(f) => match lookup(f, "hooks"@) {
            Some(JsonView::Array(hs)) => JsonView::Object(
                set_field(
                    f,
                    "hooks"@,
                    JsonView::Array(hs.map_values(|h: JsonView| replaced_hook(h, cmd))),
                ),
            ),
            _ => g,
        },
        _ => g,
    }
}

/// The Codex hook group that runs the command.
pub open spec fn codex_entry(cmd: Seq<char>) -> JsonView {
    JsonView::Object(
        seq![
            (
                "hooks"@,
                JsonView::Array(
                    seq![
                        JsonView::Object(
                            seq![
                                ("type"@, JsonView::Str("command"@)),
                                ("command"@, JsonView::Str(cmd)),
                                ("timeout"@, JsonView::Number(codex_timeout())),
                                ("statusMessage"@, JsonView::Str("Updating Harbor Light"@)),
                            ],
                        ),
                    ],
                ),
            ),
        ],
    )
}

/// An event's list of a hooks object; a missing or non-array member counts
/// as an empty list.
pub open spec fn event_list(hooks: Seq<(Seq<char>, JsonView)>, e: Seq<char>) -> Seq<JsonView> {
    match lookup(hooks, e) {
        Some(JsonView::Array(a)) => a,
        _ => Seq::empty(),
    }
}

/// A Codex event's groups after merging the command: groups holding one of
/// our hooks have those hooks pointed at the command; otherwise a new group
/// is appended.
pub open spec fn merged_codex_list(list: Seq<JsonView>, cmd: Seq<char>) -> Seq<JsonView> {
    if groups_have_ours(list) {
        list.map_values(|g: JsonView| replaced_group(g, cmd))
    } else {
        list.push(codex_entry(cmd))
    }
}

/// A hooks object after merging the command into each of the events.
pub open spec fn merged_codex_events(
    hooks: Seq<(Seq<char>, JsonView)>,
    events: Seq<Seq<char>>,
    cmd: Seq<char>,
) -> Seq<(Seq<char>, JsonView)>
    decreases events.len(),
{
    if events.len() == 0 {
        hooks
    } else {
        let h = merged_codex_events(hooks, events.drop_last(), cmd);
        let e = events.last();
        set_field(h, e, JsonView::Array(merged_codex_list(event_list(h, e), cmd)))
    }
}

/// A document's fields with a member added when it is missing.
pub open spec fn with_default(
    f: Seq<(Seq<char>, JsonView)>,
    key: Seq<char>,
    v: JsonView,
) -> Seq<(Seq<char>, JsonView)> {
    if lookup(f, key) is None {
        set_field(f, key, v)
    } else {
        f
    }
}

/// The Codex hook configuration after merging the command; `None` stands for
/// a missing or blank file.
pub open spec fn merged_codex(root: Option<JsonView>, cmd: Seq<char>) -> Result<JsonView, HooksError> {
    let r = match root {
        Some(v) => v,
        None => JsonView::Object(seq![("hooks"@, JsonView::Object(Seq::empty()))]),
    };
    match r {
        JsonView::Object(f) => {
            let f1 = with_default(f, "hooks"@, JsonView::Object(Seq::empty()));
            match lookup(f1, "hooks"@) {
                Some(JsonView::Object(h)) => Ok(
                    JsonView::Object(
                        set_field(
                            f1,
                            "hooks"@,
                            JsonView::Object(merged_codex_events(h, codex_hook_events(), cmd)),
                        ),
                    ),
                ),
                _ => Err(HooksError::HooksNotObject),
            }
        },
        _ => Err(HooksError::RootNotObject),
    }
}

/// Whether one of the entries runs Harbor Light's hook.
fn entries_have_ours(hs: &Vec<JsonValue>) -> (r: bool)
    ensures
        r == any_ours(jv_seq(hs@)),
{
    proof {
        lemma_jv_seq(hs@);
    }
    let mut j: usize = 0;
    while j < hs.len()
        invariant
            j <= hs@.len(),
            jv_seq(hs@).len() == hs@.len(),
            forall|k: int| 0 <= k < hs@.len() ==> #[trigger] jv_seq(hs@)[k] == jv(hs@[k]),
            forall|k: int| 0 <= k < j ==> !is_ours(#[trigger] jv_seq(hs@)[k]),
        decreases hs.len() - j,
    {
        if entry_is_ours(&hs[j]) {
            assert(is_ours(jv_seq(hs@)[j as int]));
            return true;
        }
        j = j + 1;
    }
    false
}

/// Whether a Codex hook group holds one of Harbor Light's hooks.
fn group_has_our_hook_one(g: &JsonValue) -> (r: bool)
    ensures
        r == group_has_ours(jv(*g)),
{
    match g {
        JsonValue::Object(fields) => match find_field(fields, "hooks") {
            Some(i) => {
                proof {
                    lemma_jv_fields(fields@);
                }
                match &fields[i].1 {
                    JsonValue::Array(hs) => entries_have_ours(hs),
                    _ => false,
                }
            },
            None => false,
        },
        _ => false,
    }
}

/// Whether one of the Codex hook groups holds one of Harbor Light's hooks.
fn group_has_our_hook(groups: &Vec<JsonValue>) -> (r: bool)
    ensures
        r == groups_have_ours(jv_seq(groups@)),
{
    proof {
        lemma_jv_seq(groups@);
    }
    let mut i: usize = 0;
    while i < groups.len()
        invariant
            i <= groups@.len(),
            jv_seq(groups@).len() == groups@.len(),
            forall|k: int| 0 <= k < groups@.len() ==> #[trigger] jv_seq(groups@)[k] == jv(groups@[k]),
            forall|k: int| 0 <= k < i ==> !group_has_ours(#[trigger] jv_seq(groups@)[k]),
        decreases groups.len() - i,
    {
        if group_has_our_hook_one(&groups[i]) {
            assert(group_has_ours(jv_seq(groups@)[i as int]));
            return true;
        }
        i = i + 1;
    }
    false
}

/// An entry with its command and timeout set.
fn set_command(h: JsonValue, command: &str, timeout: &str) -> (r: JsonValue)
    ensures
        jv(r) == with_command(jv(h), command@, timeout@),
{
    match h {
        JsonValue::Object(mut f) => {
            set_field_exec(&mut f, "command", json_str(command));
            set_field_exec(&mut f, "timeout", json_number(timeout));
            JsonValue::Object(f)
        },
        other => other,
    }
}

/// Taking a field out and putting another in its place replaces it.
proof fn lemma_take_put(s: Seq<(Seq<char>, JsonView)>, i: int, x: (Seq<char>, JsonView))
    requires
        0 <= i < s.len(),
    ensures
        s.remove(i).insert(i, x) == s.update(i, x),
{
    assert(s.remove(i).insert(i, x) =~= s.update(i, x));
}

/// Putting a value back where one was taken out replaces that one.
proof fn lemma_insert_update<A>(a: Seq<A>, before: Seq<A>, i: int, x: A)
    requires
        0 <= i <= a.len(),
        before == a.insert(i, before[i]),
    ensures
        a.insert(i, x) == before.update(i, x),
{
    let b = a.insert(i, before[i]);
    assert(b.len() == a.len() + 1);
    assert forall|j: int| 0 <= j < a.len() + 1 implies #[trigger] a.insert(i, x)[j] == before.update(
        i,
        x,
    )[j] by {
        if j < i {
            assert(b[j] == a[j]);
        } else if j > i {
            assert(b[j] == a[j - 1]);
        }
    }
    assert(a.insert(i, x) =~= before.update(i, x));
}

/// A Codex hook group with its entries of ours pointed at the command.
fn replace_in_group(g: JsonValue, command: &str) -> (r: JsonValue)
    ensures
        jv(r) == replaced_group(jv(g), command@),
{
    match g {
        JsonValue::Object(mut fields) => {
            proof {
                lemma_jv_fields(fields@);
                lemma_field_index(jv_fields(fields@), "hooks"@);
            }
            let ghost f0 = jv_fields(fields@);
            match take_field(&mut fields, "hooks") {
                Some((i, JsonValue::Array(mut hs))) => {
                    let ghost h0 = jv_seq(hs@);
                    proof {
                        lemma_jv_seq(hs@);
                    }
                    let mut k: usize = 0;
                    while k < hs.len()
                        invariant
                            k <= hs@.len(),
                            h0.len() == hs@.len(),
                            forall|x: int| 0 <= x < k ==> jv(#[trigger] hs@[x]) == replaced_hook(h0[x], command@),
                            forall|x: int| k <= x < hs@.len() ==> jv(#[trigger] hs@[x]) == h0[x],
                        decreases hs.len() - k,
                    {
                        let h = hs.remove(k);
                        let nh = if entry_is_ours(&h) {
                            set_command(h, command, "3")
                        } else {
                            h
                        };
                        hs.insert(k, nh);
                        proof {
                            assert(jv(hs@[k as int]) == replaced_hook(h0[k as int], command@));
                        }
                        k = k + 1;
                    }
                    proof {
                        lemma_jv_seq_ext(hs@, h0.map_values(|h: JsonView| replaced_hook(h, command@)));
                    }
                    let ghost mapped = jv_seq(hs@);
                    put_field(&mut fields, i, "hooks", JsonValue::Array(hs));
                    proof {
                        lemma_take_put(f0, i as int, ("hooks"@, JsonView::Array(mapped)));
                    }
                    JsonValue::Object(fields)
                },
                Some((i, other)) => {
                    let ghost ov = jv(other);
                    put_field(&mut fields, i, "hooks", other);
                    proof {
                        lemma_take_put(f0, i as int, ("hooks"@, ov));
                        assert(f0.update(i as int, ("hooks"@, ov)) =~= f0);
                    }
                    JsonValue::Object(fields)
                },
                None => JsonValue::Object(fields),
            }
        },
        other => other,
    }
}

/// The Codex hook group that runs the command.
fn hook_entry(command: &str) -> (r: JsonValue)
    ensures
        jv(r) == codex_entry(command@),
{
    let mut hook: Vec<(String, JsonValue)> = Vec::new();
    hook.push(("type".to_string(), json_str("command")));
    hook.push(("command".to_string(), json_str(command)));
    hook.push(("timeout".to_string(), json_number("3")));
    hook.push(("statusMessage".to_string(), json_str("Updating Harbor Light")));
    let ghost hv = seq![
        ("type"@, JsonView::Str("command"@)),
        ("command"@, JsonView::Str(command@)),
        ("timeout"@, JsonView::Number(codex_timeout())),
        ("statusMessage"@, JsonView::Str("Updating Harbor Light"@)),
    ];
    proof {
        lemma_jv_fields_ext(hook@, hv);
    }
    let mut hooks: Vec<JsonValue> = Vec::new();
    hooks.push(JsonValue::Object(hook));
    proof {
        lemma_jv_seq_ext(hooks@, seq![JsonView::Object(hv)]);
    }
    let ghost hsv = jv_seq(hooks@);
    let mut group: Vec<(String, JsonValue)> = Vec::new();
    group.push(("hooks".to_string(), JsonValue::Array(hooks)));
    proof {
        lemma_jv_fields_ext(group@, seq![("hooks"@, JsonView::Array(hsv))]);
    }
    JsonValue::Object(group)
}

/// A Codex event's groups after merging the command.
fn merge_codex_list(list: Vec<JsonValue>, command: &str) -> (r: Vec<JsonValue>)
    ensures
        jv_seq(r@) == merged_codex_list(jv_seq(list@), command@),
{
    let mut list = list;
    let ghost l0 = jv_seq(list@);
    proof {
        lemma_jv_seq(list@);
    }
    if group_has_our_hook(&list) {
        let mut k: usize = 0;
        while k < list.len()
            invariant
                k <= list@.len(),
                l0.len() == list@.len(),
                forall|x: int| 0 <= x < k ==> jv(#[trigger] list@[x]) == replaced_group(l0[x], command@),
                forall|x: int| k <= x < list@.len() ==> jv(#[trigger] list@[x]) == l0[x],
            decreases list.len() - k,
        {
            let g = list.remove(k);
            list.insert(k, replace_in_group(g, command));
            k = k + 1;
        }
        proof {
            lemma_jv_seq_ext(list@, l0.map_values(|g: JsonView| replaced_group(g, command@)));
        }
    } else {
        let ghost ev = codex_entry(command@);
        list.push(hook_entry(command));
        proof {
            lemma_jv_seq_ext(list@, l0.push(ev));
        }
    }
    list
}

/// Takes an event's list out of a hooks object: its position, when the
/// event is there, and its entries, empty when it is not an array.
fn take_event_list(hooks: &mut Vec<(String, JsonValue)>, event: &str) -> (r: (Option<usize>, Vec<JsonValue>))
    ensures
        jv_seq(r.1@) == event_list(jv_fields(old(hooks)@), event@),
        match r.0 {
            Some(i) => i <= final(hooks)@.len() && lookup(jv_fields(old(hooks)@), event@) is Some
                && jv_fields(old(hooks)@) == jv_fields(final(hooks)@).insert(
                i as int,
                jv_fields(old(hooks)@)[i as int],
            ) && crate::json::field_index(jv_fields(old(hooks)@), event@) == Some(i as int),
            None => lookup(jv_fields(old(hooks)@), event@) is None && final(hooks)@ == old(hooks)@,
        },
{
    let ghost f0 = jv_fields(hooks@);
    proof {
        lemma_jv_fields(hooks@);
        lemma_field_index(f0, event@);
    }
    match take_field(hooks, event) {
        Some((i, JsonValue::Array(a))) => {
            proof {
                assert(f0 =~= f0.remove(i as int).insert(i as int, f0[i as int]));
            }
            (Some(i), a)
        },
        Some((i, _)) => {
            let e: Vec<JsonValue> = Vec::new();
            proof {
                assert(f0 =~= f0.remove(i as int).insert(i as int, f0[i as int]));
                assert(jv_seq(e@) =~= Seq::<JsonView>::empty());
            }
            (Some(i), e)
        },
        None => {
            let e: Vec<JsonValue> = Vec::new();
            proof {
                assert(jv_seq(e@) =~= Seq::<JsonView>::empty());
            }
            (None, e)
        },
    }
}

/// Puts an event's list back where `take_event_list` took it from, or
/// appends it.
fn put_event_list(
    hooks: &mut Vec<(String, JsonValue)>,
    pos: Option<usize>,
    event: &str,
    list: Vec<JsonValue>,
    Ghost(before): Ghost<Seq<(Seq<char>, JsonView)>>,
)
    requires
        match pos {
            Some(i) => i <= old(hooks)@.len() && before == jv_fields(old(hooks)@).insert(
                i as int,
                before[i as int],
            ) && crate::json::field_index(before, event@) == Some(i as int),
            None => crate::json::field_index(before, event@) is None && before == jv_fields(old(hooks)@),
        },
    ensures
        jv_fields(final(hooks)@) == set_field(before, event@, JsonView::Array(jv_seq(list@))),
{
    let ghost lv = JsonView::Array(jv_seq(list@));
    proof {
        lemma_jv_fields(hooks@);
    }
    match pos {
        Some(i) => {
            put_field(hooks, i, event, JsonValue::Array(list));
            proof {
                lemma_insert_update(jv_fields(old(hooks)@), before, i as int, (event@, lv));
            }
        },
        None => {
            proof {
                lemma_jv_fields(hooks@);
            }
            let n = hooks.len();
            put_field(hooks, n, event, JsonValue::Array(list));
            proof {
                assert(before.insert(n as int, (event@, lv)) =~= before.push((event@, lv)));
            }
        },
    }
}

/// Merges the command into each Codex event of a hooks object.
fn merge_codex_events(hooks: &mut Vec<(String, JsonValue)>, command: &str)
    ensures
        jv_fields(final(hooks)@) == merged_codex_events(jv_fields(old(hooks)@), codex_hook_events(), command@),
{
    let events = Provider::Codex.hook_events();
    let ghost h0 = jv_fields(hooks@);
    let ghost evs = strs_view(events@);
    let mut k: usize = 0;
    while k < events.len()
        invariant
            k <= events@.len(),
            evs == strs_view(events@),
            evs == codex_hook_events(),
            jv_fields(hooks@) == merged_codex_events(h0, evs.take(k as int), command@),
        decreases events.len() - k,
    {
        let event = events[k];
        let ghost before = jv_fields(hooks@);
        proof {
            assert(evs.take(k + 1).drop_last() =~= evs.take(k as int));
            assert(evs.take(k + 1).last() == event@);
        }
        let (pos, list) = take_event_list(hooks, event);
        let merged = merge_codex_list(list, command);
        put_event_list(hooks, pos, event, merged, Ghost(before));
        k = k + 1;
    }
    proof {
        assert(evs.take(k as int) =~= evs);
    }
}

/// The Codex hook configuration after merging the command into each Codex
/// event; `None` stands for a missing or blank file. Existing groups that
/// hold one of Harbor Light's hooks are pointed at the command; elsewhere a
/// new group is added, and other hooks are kept.
pub fn merge_codex_hooks(root: Option<JsonValue>, command: &str) -> (r: Result<JsonValue, HooksError>)
    ensures
        match r {
            Ok(v) => merged_codex(match root {
                Some(x) => Some(jv(x)),
                None => None,
            }, command@) == Ok::<JsonView, HooksError>(jv(v)),
            Err(e) => merged_codex(match root {
                Some(x) => Some(jv(x)),
                None => None,
            }, command@) == Err::<JsonView, HooksError>(e),
        },
{
    let root = match root {
        Some(v) => v,
        None => {
            let mut f: Vec<(String, JsonValue)> = Vec::new();
            f.push(("hooks".to_string(), empty_object()));
            proof {
                lemma_jv_fields_ext(f@, seq![("hooks"@, JsonView::Object(Seq::empty()))]);
            }
            JsonValue::Object(f)
        },
    };
    match root {
        JsonValue::Object(mut fields) => {
            proof {
                lemma_jv_fields(fields@);
            }
            let ghost f0 = jv_fields(fields@);
            if find_field(&fields, "hooks").is_none() {
                set_field_exec(&mut fields, "hooks", empty_object());
            }
            let ghost f1 = jv_fields(fields@);
            assert(f1 == with_default(f0, "hooks"@, JsonView::Object(Seq::empty())));
            proof {
                lemma_jv_fields(fields@);
                lemma_field_index(f1, "hooks"@);
            }
            match take_field(&mut fields, "hooks") {
                Some((i, JsonValue::Object(mut hooks))) => {
                    merge_codex_events(&mut hooks, command);
                    let ghost hv = JsonView::Object(jv_fields(hooks@));
                    put_field(&mut fields, i, "hooks", JsonValue::Object(hooks));
                    proof {
                        lemma_take_put(f1, i as int, ("hooks"@, hv));
                    }
                    Ok(JsonValue::Object(fields))
                },
                Some((i, _)) => Err(HooksError::HooksNotObject),
                None => Err(HooksError::HooksNotObject),
            }
        },
        _ => Err(HooksError::RootNotObject),
    }
}

/// The Cursor hook entry that runs the command.
pub open spec fn cursor_entry(cmd: Seq<char>) -> JsonView {
    JsonView::Object(
        seq![("command"@, JsonView::Str(cmd)), ("timeout"@, JsonView::Number(cursor_timeout()))],
    )
}

/// A Cursor event's entries scanned in order: the first entry of ours is
/// pointed at the command, later entries of ours are dropped, other entries
/// are kept. The flag tells whether an entry of ours was found.
pub open spec fn upsert_scan(list: Seq<JsonView>, cmd: Seq<char>) -> (Seq<JsonView>, bool)
    decreases list.len(),
{
    if list.len() == 0 {
        (Seq::empty(), false)
    } else {
        let (r, found) = upsert_scan(list.drop_last(), cmd);
        let e = list.last();
        if !is_ours(e) {
            (r.push(e), found)
        } else if found {
            (r, true)
        } else {
            (r.push(with_command(e, cmd, cursor_timeout())), true)
        }
    }
}

/// A Cursor event's entries after merging the command: exactly one entry of
/// ours, pointed at the command, in the place of the first one there was,
/// or appended.
pub open spec fn upserted_cursor_list(list: Seq<JsonView>, cmd: Seq<char>) -> Seq<JsonView> {
    let (r, found) = upsert_scan(list, cmd);
    if found {
        r
    } else {
        r.push(cursor_entry(cmd))
    }
}

/// A hooks object after merging the command into each of the Cursor events.
pub open spec fn merged_cursor_events(
    hooks: Seq<(Seq<char>, JsonView)>,
    events: Seq<Seq<char>>,
    cmd: Seq<char>,
) -> Seq<(Seq<char>, JsonView)>
    decreases events.len(),
{
    if events.len() == 0 {
        hooks
    } else {
        let h = merged_cursor_events(hooks, events.drop_last(), cmd);
        let e = events.last();
        set_field(h, e, JsonView::Array(upserted_cursor_list(event_list(h, e), cmd)))
    }
}

/// The Cursor hook configuration after merging the command; `None` stands
/// for a missing or blank file.
pub open spec fn merged_cursor(root: Option<JsonView>, cmd: Seq<char>) -> Result<JsonView, HooksError> {
    let r = match root {
        Some(v) => v,
        None => JsonView::Object(
            seq![
                ("version"@, JsonView::Number("1"@)),
                ("hooks"@, JsonView::Object(Seq::empty())),
            ],
        ),
    };
    match r {
        JsonView::Object(f) => {
            let f1 = with_default(f, "version"@, JsonView::Number("1"@));
            let f2 = with_default(f1, "hooks"@, JsonView::Object(Seq::empty()));
            match lookup(f2, "hooks"@) {
                Some(JsonView::Object(h)) => Ok(
                    JsonView::Object(
                        set_field(
                            f2,
                            "hooks"@,
                            JsonView::Object(merged_cursor_events(h, cursor_hook_events(), cmd)),
                        ),
                    ),
                ),
                _ => Err(HooksError::HooksNotObject),
            }
        },
        _ => Err(HooksError::RootNotObject),
    }
}

/// The Cursor hook entry that runs the command.
fn cursor_hook_entry(command: &str) -> (r: JsonValue)
    ensures
        jv(r) == cursor_entry(command@),
{
    let mut f: Vec<(String, JsonValue)> = Vec::new();
    f.push(("command".to_string(), json_str(command)));
    f.push(("timeout".to_string(), json_number("8")));
    proof {
        lemma_jv_fields_ext(
            f@,
            seq![("command"@, JsonView::Str(command@)), ("timeout"@, JsonView::Number(cursor_timeout()))],
        );
    }
    JsonValue::Object(f)
}

/// A Cursor event's entries after merging the command.
fn upsert_our_cursor_hook(list: Vec<JsonValue>, command: &str) -> (r: Vec<JsonValue>)
    ensures
        jv_seq(r@) == upserted_cursor_list(jv_seq(list@), command@),
{
    let ghost l0 = jv_seq(list@);
    proof {
        lemma_jv_seq(list@);
    }
    let mut rest = list;
    let mut out: Vec<JsonValue> = Vec::new();
    let mut replaced = false;
    let ghost mut k: int = 0;
    proof {
        assert(jv_seq(out@) =~= Seq::<JsonView>::empty());
    }
    while rest.len() > 0
        invariant
            0 <= k <= l0.len(),
            rest@.len() == l0.len() - k,
            forall|x: int| 0 <= x < rest@.len() ==> jv(#[trigger] rest@[x]) == l0[k + x],
            (jv_seq(out@), replaced) == upsert_scan(l0.take(k), command@),
        decreases rest.len(),
    {
        let e = rest.remove(0);
        proof {
            assert(l0.take(k + 1).drop_last() =~= l0.take(k));
            assert(jv(e) == l0[k]);
            lemma_jv_seq(out@);
        }
        let ghost ov = jv_seq(out@);
        if !entry_is_ours(&e) {
            let ghost ev = jv(e);
            out.push(e);
            proof {
                lemma_jv_seq_ext(out@, ov.push(ev));
            }
        } else if !replaced {
            let ne = set_command(e, command, "8");
            let ghost nv = jv(ne);
            out.push(ne);
            replaced = true;
            proof {
                lemma_jv_seq_ext(out@, ov.push(nv));
            }
        }
        proof {
            k = k + 1;
        }
    }
    proof {
        assert(l0.take(k) =~= l0);
        lemma_jv_seq(out@);
    }
    if !replaced {
        let ghost ov = jv_seq(out@);
        out.push(cursor_hook_entry(command));
        proof {
            lemma_jv_seq_ext(out@, ov.push(cursor_entry(command@)));
        }
    }
    out
}

/// Merges the command into each Cursor event of a hooks object.
fn merge_cursor_events(hooks: &mut Vec<(String, JsonValue)>, command: &str)
    ensures
        jv_fields(final(hooks)@) == merged_cursor_events(jv_fields(old(hooks)@), cursor_hook_events(), command@),
{
    let events = Provider::Cursor.hook_events();
    let ghost h0 = jv_fields(hooks@);
    let ghost evs = strs_view(events@);
    let mut k: usize = 0;
    while k < events.len()
        invariant
            k <= events@.len(),
            evs == strs_view(events@),
            evs == cursor_hook_events(),
            jv_fields(hooks@) == merged_cursor_events(h0, evs.take(k as int), command@),
        decreases events.len() - k,
    {
        let event = events[k];
        let ghost before = jv_fields(hooks@);
        proof {
            assert(evs.take(k + 1).drop_last() =~= evs.take(k as int));
            assert(evs.take(k + 1).last() == event@);
        }
        let (pos, list) = take_event_list(hooks, event);
        let merged = upsert_our_cursor_hook(list, command);
        put_event_list(hooks, pos, event, merged, Ghost(before));
        k = k + 1;
    }
    proof {
        assert(evs.take(k as int) =~= evs);
    }
}

/// The Cursor hook configuration after merging the command into each Cursor
/// event; `None` stands for a missing or blank file. Cursor keeps a flat list
/// of commands per event: the first of Harbor Light's entries is pointed at
/// the command, later ones are dropped, and other entries are kept.
pub fn merge_cursor_hooks(root: Option<JsonValue>, command: &str) -> (r: Result<JsonValue, HooksError>)
    ensures
        match r {
            Ok(v) => merged_cursor(match root {
                Some(x) => Some(jv(x)),
                None => None,
            }, command@) == Ok::<JsonView, HooksError>(jv(v)),
            Err(e) => merged_cursor(match root {
                Some(x) => Some(jv(x)),
                None => None,
            }, command@) == Err::<JsonView, HooksError>(e),
        },
{
    let root = match root {
        Some(v) => v,
        None => {
            let mut f: Vec<(String, JsonValue)> = Vec::new();
            f.push(("version".to_string(), json_number("1")));
            f.push(("hooks".to_string(), empty_object()));
            proof {
                lemma_jv_fields_ext(
                    f@,
                    seq![
                        ("version"@, JsonView::Number("1"@)),
                        ("hooks"@, JsonView::Object(Seq::empty())),
                    ],
                );
            }
            JsonValue::Object(f)
        },
    };
    match root {
        JsonValue::Object(mut fields) => {
            proof {
                lemma_jv_fields(fields@);
            }
            let ghost f0 = jv_fields(fields@);
            if find_field(&fields, "version").is_none() {
                set_field_exec(&mut fields, "version", json_number("1"));
            }
            let ghost f1 = jv_fields(fields@);
            assert(f1 == with_default(f0, "version"@, JsonView::Number("1"@)));
            proof {
                lemma_jv_fields(fields@);
            }
            if find_field(&fields, "hooks").is_none() {
                set_field_exec(&mut fields, "hooks", empty_object());
            }
            let ghost f2 = jv_fields(fields@);
            assert(f2 == with_default(f1, "hooks"@, JsonView::Object(Seq::empty())));
            proof {
                lemma_jv_fields(fields@);
                lemma_field_index(f2, "hooks"@);
            }
            match take_field(&mut fields, "hooks") {
                Some((i, JsonValue::Object(mut hooks))) => {
                    merge_cursor_events(&mut hooks, command);
                    let ghost hv = JsonView::Object(jv_fields(hooks@));
                    put_field(&mut fields, i, "hooks", JsonValue::Object(hooks));
                    proof {
                        lemma_take_put(f2, i as int, ("hooks"@, hv));
                    }
                    Ok(JsonValue::Object(fields))
                },
                Some((i, _)) => Err(HooksError::HooksNotObject),
                None => Err(HooksError::HooksNotObject),
            }
        },
        _ => Err(HooksError::RootNotObject),
    }
}

/// The entries that are not Harbor Light's, in order.
pub open spec fn without_ours(hs: Seq<JsonView>) -> Seq<JsonView>
    decreases hs.len(),
{
    if hs.len() == 0 {
        hs
    } else if is_ours(hs.last()) {
        without_ours(hs.drop_last())
    } else {
        without_ours(hs.drop_last()).push(hs.last())
    }
}

/// A Codex hook group without Harbor Light's hooks.
pub open spec fn cleaned_group(g: JsonView) -> JsonView {
    match g {
        JsonView::Object(f) => match lookup(f, "hooks"@) {
            Some(JsonView::Array(hs)) => JsonView::Object(
                set_field(f, "hooks"@, JsonView::Array(without_ours(hs))),
            ),
            _ => g,
        },
        _ => g,
    }
}

/// Whether a Codex hook group holds hooks of Harbor Light to remove.
pub open spec fn group_changed(g: JsonView) -> bool {
    match array_member(g, "hooks"@) {
        Some(hs) => without_ours(hs).len() != hs.len(),
        None => false,
    }
}

/// Whether a Codex hook group stays: its hooks list is not empty, or it has
/// no hooks list.
pub open spec fn keeps_group(g: JsonView) -> bool {
    match array_member(g, "hooks"@) {
        Some(hs) => hs.len() > 0,
        None => true,
    }
}

/// The groups that stay, in order.
pub open spec fn kept_groups(gs: Seq<JsonView>) -> Seq<JsonView>
    decreases gs.len(),
{
    if gs.len() == 0 {
        gs
    } else if keeps_group(gs.last()) {
        kept_groups(gs.drop_last()).push(gs.last())
    } else {
        kept_groups(gs.drop_last())
    }
}

/// A Codex event's groups without Harbor Light's hooks and without the
/// groups left empty, and whether anything was removed.
pub open spec fn cleaned_codex_list(list: Seq<JsonView>) -> (Seq<JsonView>, bool) {
    let kept = kept_groups(list.map_values(|g: JsonView| cleaned_group(g)));
    (
        kept,
        (exists|i: int| 0 <= i < list.len() && #[trigger] group_changed(list[i])) || kept.len()
            != list.len(),
    )
}

/// A hooks object without Harbor Light's hooks under the Codex events, and
/// whether it changed. An event whose list ends up empty is removed.
pub open spec fn removed_codex_events(
    hooks: Seq<(Seq<char>, JsonView)>,
    events: Seq<Seq<char>>,
) -> (Seq<(Seq<char>, JsonView)>, bool)
    decreases events.len(),
{
    if events.len() == 0 {
        (hooks, false)
    } else {
        let (h, changed) = removed_codex_events(hooks, events.drop_last());
        let e = events.last();
        match lookup(h, e) {
            Some(JsonView::Array(list)) => {
                let (kept, c) = cleaned_codex_list(list);
                if kept.len() == 0 {
                    (remove_field(h, e), true)
                } else {
                    (set_field(h, e, JsonView::Array(kept)), changed || c)
                }
            },
            _ => (h, changed),
        }
    }
}

/// A Codex hook configuration without Harbor Light's hooks, and whether it
/// changed. A document without a `hooks` object is left as it is.
pub open spec fn removed_codex(root: JsonView) -> (JsonView, bool) {
    match root {
        JsonView::Object(f) => match lookup(f, "hooks"@) {
            Some(JsonView::Object(h)) => {
                let (h2, changed) = removed_codex_events(h, codex_hook_events());
                (JsonView::Object(set_field(f, "hooks"@, JsonView::Object(h2))), changed)
            },
            _ => (root, false),
        },
        _ => (root, false),
    }
}

/// A hooks object without Harbor Light's entries under the Cursor events,
/// and whether an entry was removed. An event whose list ends up empty is
/// removed.
pub open spec fn removed_cursor_events(
    hooks: Seq<(Seq<char>, JsonView)>,
    events: Seq<Seq<char>>,
) -> (Seq<(Seq<char>, JsonView)>, bool)
    decreases events.len(),
{
    if events.len() == 0 {
        (hooks, false)
    } else {
        let (h, changed) = removed_cursor_events(hooks, events.drop_last());
        let e = events.last();
        match lookup(h, e) {
            Some(JsonView::Array(list)) => {
                let kept = without_ours(list);
                let c = changed || kept.len() != list.len();
                if kept.len() == 0 {
                    (remove_field(h, e), c)
                } else {
                    (set_field(h, e, JsonView::Array(kept)), c)
                }
            },
            _ => (h, changed),
        }
    }
}

/// A Cursor hook configuration without Harbor Light's entries, and whether
/// an entry was removed.
pub open spec fn removed_cursor(root: JsonView) -> (JsonView, bool) {
    match root {
        JsonView::Object(f) => match lookup(f, "hooks"@) {
            Some(JsonView::Object(h)) => {
                let (h2, changed) = removed_cursor_events(h, cursor_hook_events());
                (JsonView::Object(set_field(f, "hooks"@, JsonView::Object(h2))), changed)
            },
            _ => (root, false),
        },
        _ => (root, false),
    }
}

/// The entries that are not Harbor Light's, in order.
fn without_our_entries(hs: Vec<JsonValue>) -> (r: Vec<JsonValue>)
    ensures
        jv_seq(r@) == without_ours(jv_seq(hs@)),
        r@.len() == without_ours(jv_seq(hs@)).len(),
{
    let ghost l0 = jv_seq(hs@);
    proof {
        lemma_jv_seq(hs@);
    }
    let mut rest = hs;
    let mut out: Vec<JsonValue> = Vec::new();
    let ghost mut k: int = 0;
    proof {
        assert(jv_seq(out@) =~= Seq::<JsonView>::empty());
    }
    while rest.len() > 0
        invariant
            0 <= k <= l0.len(),
            rest@.len() == l0.len() - k,
            forall|x: int| 0 <= x < rest@.len() ==> jv(#[trigger] rest@[x]) == l0[k + x],
            jv_seq(out@) == without_ours(l0.take(k)),
        decreases rest.len(),
    {
        let e = rest.remove(0);
        proof {
            assert(l0.take(k + 1).drop_last() =~= l0.take(k));
            assert(jv(e) == l0[k]);
            lemma_jv_seq(out@);
        }
        let ghost ov = jv_seq(out@);
        if !entry_is_ours(&e) {
            let ghost ev = jv(e);
            out.push(e);
            proof {
                lemma_jv_seq_ext(out@, ov.push(ev));
            }
        }
        proof {
            k = k + 1;
        }
    }
    proof {
        assert(l0.take(k) =~= l0);
        lemma_jv_seq(out@);
    }
    out
}

/// Whether a Codex hook group stays.
fn group_kept(g: &JsonValue) -> (r: bool)
    ensures
        r == keeps_group(jv(*g)),
{
    match g {
        JsonValue::Object(fields) => match find_field(fields, "hooks") {
            Some(i) => {
                proof {
                    lemma_jv_fields(fields@);
                }
                match &fields[i].1 {
                    JsonValue::Array(hs) => {
                        proof {
                            lemma_jv_seq(hs@);
                        }
                        hs.len() > 0
                    },
                    _ => true,
                }
            },
            None => true,
        },
        _ => true,
    }
}

/// A Codex hook group without Harbor Light's hooks, and whether it held any.
fn clean_group(g: JsonValue) -> (r: (JsonValue, bool))
    ensures
        jv(r.0) == cleaned_group(jv(g)),
        r.1 == group_changed(jv(g)),
{
    match g {
        JsonValue::Object(mut fields) => {
            proof {
                lemma_jv_fields(fields@);
                lemma_field_index(jv_fields(fields@), "hooks"@);
            }
            let ghost f0 = jv_fields(fields@);
            match take_field(&mut fields, "hooks") {
                Some((i, JsonValue::Array(hs))) => {
                    proof {
                        lemma_jv_seq(hs@);
                    }
                    let n = hs.len();
                    let kept = without_our_entries(hs);
                    let changed = kept.len() != n;
                    let ghost kv = jv_seq(kept@);
                    put_field(&mut fields, i, "hooks", JsonValue::Array(kept));
                    proof {
                        lemma_take_put(f0, i as int, ("hooks"@, JsonView::Array(kv)));
                    }
                    (JsonValue::Object(fields), changed)
                },
                Some((i, other)) => {
                    let ghost ov = jv(other);
                    put_field(&mut fields, i, "hooks", other);
                    proof {
                        lemma_take_put(f0, i as int, ("hooks"@, ov));
                        assert(f0.update(i as int, ("hooks"@, ov)) =~= f0);
                    }
                    (JsonValue::Object(fields), false)
                },
                None => (JsonValue::Object(fields), false),
            }
        },
        other => (other, false),
    }
}

/// A Codex event's groups without Harbor Light's hooks and without the
/// groups left empty, and whether anything was removed.
fn clean_codex_list(list: Vec<JsonValue>) -> (r: (Vec<JsonValue>, bool))
    ensures
        (jv_seq(r.0@), r.1) == cleaned_codex_list(jv_seq(list@)),
        r.0@.len() == jv_seq(r.0@).len(),
{
    let ghost l0 = jv_seq(list@);
    proof {
        lemma_jv_seq(list@);
    }
    let mut list = list;
    let mut any_changed = false;
    let mut k: usize = 0;
    while k < list.len()
        invariant
            k <= list@.len(),
            l0.len() == list@.len(),
            forall|x: int| 0 <= x < k ==> jv(#[trigger] list@[x]) == cleaned_group(l0[x]),
            forall|x: int| k <= x < list@.len() ==> jv(#[trigger] list@[x]) == l0[x],
            any_changed == exists|x: int| 0 <= x < k && #[trigger] group_changed(l0[x]),
        decreases list.len() - k,
    {
        let g = list.remove(k);
        assert(jv(g) == l0[k as int]);
        let (ng, c) = clean_group(g);
        list.insert(k, ng);
        if c {
            any_changed = true;
        }
        proof {
            assert(c == group_changed(l0[k as int]));
        }
        k = k + 1;
    }
    let ghost cleaned = l0.map_values(|g: JsonView| cleaned_group(g));
    proof {
        lemma_jv_seq_ext(list@, cleaned);
    }
    let mut rest = list;
    let mut out: Vec<JsonValue> = Vec::new();
    let ghost mut j: int = 0;
    proof {
        assert(jv_seq(out@) =~= Seq::<JsonView>::empty());
    }
    while rest.len() > 0
        invariant
            0 <= j <= cleaned.len(),
            cleaned.len() == l0.len(),
            rest@.len() == cleaned.len() - j,
            forall|x: int| 0 <= x < rest@.len() ==> jv(#[trigger] rest@[x]) == cleaned[j + x],
            jv_seq(out@) == kept_groups(cleaned.take(j)),
        decreases rest.len(),
    {
        let g = rest.remove(0);
        proof {
            assert(cleaned.take(j + 1).drop_last() =~= cleaned.take(j));
            assert(jv(g) == cleaned[j]);
            lemma_jv_seq(out@);
        }
        let ghost ov = jv_seq(out@);
        if group_kept(&g) {
            let ghost gv = jv(g);
            out.push(g);
            proof {
                lemma_jv_seq_ext(out@, ov.push(gv));
            }
        }
        proof {
            j = j + 1;
        }
    }
    proof {
        assert(cleaned.take(j) =~= cleaned);
        lemma_jv_seq(out@);
    }
    let changed = any_changed || out.len() != k;
    (out, changed)
}

/// Taking a value out leaves the sequence without it.
proof fn lemma_insert_remove<A>(a: Seq<A>, before: Seq<A>, i: int)
    requires
        0 <= i <= a.len(),
        before == a.insert(i, before[i]),
    ensures
        a == before.remove(i),
{
    let b = a.insert(i, before[i]);
    assert forall|j: int| 0 <= j < a.len() implies #[trigger] a[j] == before.remove(i)[j] by {
        if j < i {
            assert(b[j] == a[j]);
        } else {
            assert(b[j + 1] == a[j]);
        }
    }
    assert(a =~= before.remove(i));
}

/// Takes an event's list out of a hooks object when it is an array.
fn take_event_array(hooks: &mut Vec<(String, JsonValue)>, event: &str) -> (r: Option<(usize, Vec<JsonValue>)>)
    ensures
        match r {
            Some((i, list)) => i <= final(hooks)@.len() && lookup(jv_fields(old(hooks)@), event@)
                == Some(JsonView::Array(jv_seq(list@))) && crate::json::field_index(
                jv_fields(old(hooks)@),
                event@,
            ) == Some(i as int) && jv_fields(old(hooks)@) == jv_fields(final(hooks)@).insert(
                i as int,
                jv_fields(old(hooks)@)[i as int],
            ),
            None => !(lookup(jv_fields(old(hooks)@), event@) matches Some(JsonView::Array(_)))
                && jv_fields(final(hooks)@) == jv_fields(old(hooks)@),
        },
{
    let ghost f0 = jv_fields(hooks@);
    proof {
        lemma_jv_fields(hooks@);
        lemma_field_index(f0, event@);
    }
    match take_field(hooks, event) {
        Some((i, JsonValue::Array(a))) => {
            proof {
                assert(f0 =~= f0.remove(i as int).insert(i as int, f0[i as int]));
            }
            Some((i, a))
        },
        Some((i, other)) => {
            let ghost ov = jv(other);
            put_field(hooks, i, event, other);
            proof {
                lemma_take_put(f0, i as int, (event@, ov));
                assert(f0.update(i as int, (event@, ov)) =~= f0);
            }
            None
        },
        None => None,
    }
}

/// Removes Harbor Light's hooks under each Codex event of a hooks object.
fn remove_codex_events(hooks: &mut Vec<(String, JsonValue)>) -> (changed: bool)
    ensures
        (jv_fields(final(hooks)@), changed) == removed_codex_events(jv_fields(old(hooks)@), codex_hook_events()),
{
    let events = Provider::Codex.hook_events();
    let ghost h0 = jv_fields(hooks@);
    let ghost evs = strs_view(events@);
    let mut changed = false;
    let mut k: usize = 0;
    while k < events.len()
        invariant
            k <= events@.len(),
            evs == strs_view(events@),
            evs == codex_hook_events(),
            (jv_fields(hooks@), changed) == removed_codex_events(h0, evs.take(k as int)),
        decreases events.len() - k,
    {
        let event = events[k];
        let ghost before = jv_fields(hooks@);
        proof {
            assert(evs.take(k + 1).drop_last() =~= evs.take(k as int));
            assert(evs.take(k + 1).last() == event@);
        }
        match take_event_array(hooks, event) {
            Some((i, list)) => {
                let (kept, c) = clean_codex_list(list);
                if kept.len() == 0 {
                    changed = true;
                    proof {
                        lemma_jv_fields(hooks@);
                        lemma_insert_remove(jv_fields(hooks@), before, i as int);
                    }
                } else {
                    let ghost kv = JsonView::Array(jv_seq(kept@));
                    proof {
                        lemma_jv_fields(hooks@);
                    }
                    let ghost cur = jv_fields(hooks@);
                    put_field(hooks, i, event, JsonValue::Array(kept));
                    proof {
                        lemma_insert_update(cur, before, i as int, (event@, kv));
                    }
                    changed = changed || c;
                }
            },
            None => {},
        }
        k = k + 1;
    }
    proof {
        assert(evs.take(k as int) =~= evs);
    }
    changed
}

/// Removes Harbor Light's entries under each Cursor event of a hooks object.
fn remove_cursor_events(hooks: &mut Vec<(String, JsonValue)>) -> (changed: bool)
    ensures
        (jv_fields(final(hooks)@), changed) == removed_cursor_events(jv_fields(old(hooks)@), cursor_hook_events()),
{
    let events = Provider::Cursor.hook_events();
    let ghost h0 = jv_fields(hooks@);
    let ghost evs = strs_view(events@);
    let mut changed = false;
    let mut k: usize = 0;
    while k < events.len()
        invariant
            k <= events@.len(),
            evs == strs_view(events@),
            evs == cursor_hook_events(),
            (jv_fields(hooks@), changed) == removed_cursor_events(h0, evs.take(k as int)),
        decreases events.len() - k,
    {
        let event = events[k];
        let ghost before = jv_fields(hooks@);
        proof {
            assert(evs.take(k + 1).drop_last() =~= evs.take(k as int));
            assert(evs.take(k + 1).last() == event@);
        }
        match take_event_array(hooks, event) {
            Some((i, list)) => {
                proof {
                    lemma_jv_seq(list@);
                }
                let n = list.len();
                let kept = without_our_entries(list);
                if kept.len() != n {
                    changed = true;
                }
                if kept.len() == 0 {
                    proof {
                        lemma_jv_fields(hooks@);
                        lemma_insert_remove(jv_fields(hooks@), before, i as int);
                    }
                } else {
                    let ghost kv = JsonView::Array(jv_seq(kept@));
                    proof {
                        lemma_jv_fields(hooks@);
                    }
                    let ghost cur = jv_fields(hooks@);
                    put_field(hooks, i, event, JsonValue::Array(kept));
                    proof {
                        lemma_insert_update(cur, before, i as int, (event@, kv));
                    }
                }
            },
            None => {},
        }
        k = k + 1;
    }
    proof {
        assert(evs.take(k as int) =~= evs);
    }
    changed
}

/// Takes the `hooks` object out of a document's fields, with its position.
fn take_hooks_object(fields: &mut Vec<(String, JsonValue)>) -> (r: Option<(usize, Vec<(String, JsonValue)>)>)
    ensures
        match r {
            Some((i, h)) => i <= final(fields)@.len() && lookup(jv_fields(old(fields)@), "hooks"@)
                == Some(JsonView::Object(jv_fields(h@))) && crate::json::field_index(
                jv_fields(old(fields)@),
                "hooks"@,
            ) == Some(i as int) && jv_fields(old(fields)@) == jv_fields(final(fields)@).insert(
                i as int,
                jv_fields(old(fields)@)[i as int],
            ),
            None => !(lookup(jv_fields(old(fields)@), "hooks"@) matches Some(JsonView::Object(_)))
                && jv_fields(final(fields)@) == jv_fields(old(fields)@),
        },
{
    let ghost f0 = jv_fields(fields@);
    proof {
        lemma_jv_fields(fields@);
        lemma_field_index(f0, "hooks"@);
    }
    match take_field(fields, "hooks") {
        Some((i, JsonValue::Object(h))) => {
            proof {
                assert(f0 =~= f0.remove(i as int).insert(i as int, f0[i as int]));
            }
            Some((i, h))
        },
        Some((i, other)) => {
            let ghost ov = jv(other);
            put_field(fields, i, "hooks", other);
            proof {
                lemma_take_put(f0, i as int, ("hooks"@, ov));
                assert(f0.update(i as int, ("hooks"@, ov)) =~= f0);
            }
            None
        },
        None => None,
    }
}

/// A Codex hook configuration without Harbor Light's hooks, and whether it
/// changed: under each Codex event our hooks are removed, groups left with
/// no hooks are removed, and an event left with no groups is removed. Other
/// hooks are kept; a document without a `hooks` object is left as it is.
pub fn remove_our_codex_hooks(root: JsonValue) -> (r: (JsonValue, bool))
    ensures
        (jv(r.0), r.1) == removed_codex(jv(root)),
{
    match root {
        JsonValue::Object(mut fields) => {
            let ghost f0 = jv_fields(fields@);
            match take_hooks_object(&mut fields) {
                Some((i, mut hooks)) => {
                    let changed = remove_codex_events(&mut hooks);
                    let ghost hv = JsonView::Object(jv_fields(hooks@));
                    proof {
                        lemma_jv_fields(fields@);
                    }
                    let ghost cur = jv_fields(fields@);
                    put_field(&mut fields, i, "hooks", JsonValue::Object(hooks));
                    proof {
                        lemma_insert_update(cur, f0, i as int, ("hooks"@, hv));
                    }
                    (JsonValue::Object(fields), changed)
                },
                None => (JsonValue::Object(fields), false),
            }
        },
        other => (other, false),
    }
}

/// A Cursor hook configuration without Harbor Light's entries, and whether
/// an entry was removed. Under each Cursor event our entries are removed and
/// an event left empty is removed; other entries are kept.
pub fn remove_our_cursor_hooks(root: JsonValue) -> (r: (JsonValue, bool))
    ensures
        (jv(r.0), r.1) == removed_cursor(jv(root)),
{
    match root {
        JsonValue::Object(mut fields) => {
            let ghost f0 = jv_fields(fields@);
            match take_hooks_object(&mut fields) {
                Some((i, mut hooks)) => {
                    let changed = remove_cursor_events(&mut hooks);
                    let ghost hv = JsonView::Object(jv_fields(hooks@));
                    proof {
                        lemma_jv_fields(fields@);
                    }
                    let ghost cur = jv_fields(fields@);
                    put_field(&mut fields, i, "hooks", JsonValue::Object(hooks));
                    proof {
                        lemma_insert_update(cur, f0, i as int, ("hooks"@, hv));
                    }
                    (JsonValue::Object(fields), changed)
                },
                None => (JsonValue::Object(fields), false),
            }
        },
        other => (other, false),
    }
}

// ------------------------------------------------------------ launch files

/// The macOS bundle identifier.
pub const BUNDLE_ID: &'static str = "com.harborlight.app";

/// The bundle identifier of the former Codex Light app.
pub const LEGACY_BUNDLE_ID: &'static str = "com.codexlight.app";

/// The name of the macOS application bundle.
pub const MACOS_APP_NAME: &'static str = "HarborLight.app";

/// The name of the executable inside the macOS bundle.
pub const BIN_NAME: &'static str = "harbor-light";

/// The name of the Windows executable.
pub const WINDOWS_APP_NAME: &'static str = "HarborLight.exe";

/// The text of the bundle's `Info.plist`.
pub open spec fn info_plist_text() -> Seq<char> {
    "<?xml version=\"1.0\" encoding=\"UTF-8\"?>
<!DOCTYPE plist PUBLIC \"-//Apple//DTD PLIST 1.0//EN\" \"http://www.apple.com/DTDs/PropertyList-1.0.dtd\">
<plist version=\"1.0\">
<dict>
    <key>CFBundleDevelopmentRegion</key>
    <string>en</string>
    <key>CFBundleExecutable</key>
    <string>harbor-light</string>
    <key>CFBundleIdentifier</key>
    <string>com.harborlight.app</string>
    <key>CFBundleInfoDictionaryVersion</key>
    <string>6.0</string>
    <key>CFBundleName</key>
    <string>HarborLight</string>
    <key>CFBundlePackageType</key>
    <string>APPL</string>
    <key>CFBundleShortVersionString</key>
    <string>0.1.0</string>
    <key>CFBundleVersion</key>
    <string>1</string>
    <key>CFBundleIconFile</key>
    <string>AppIcon</string>
    <key>CFBundleIconName</key>
    <string>AppIcon</string>
    <key>LSMinimumSystemVersion</key>
    <string>12.0</string>
    <key>LSUIElement</key>
    <true/>
    <key>NSHighResolutionCapable</key>
    <true/>
</dict>
</plist>
"@
}

/// The bundle's `Info.plist`: a background (menu-bar) application that
/// runs `harbor-light` under the identifier `com.harborlight.app`.
pub fn info_plist() -> (r: String)
    ensures
        r@ == info_plist_text(),
{
    "<?xml version=\"1.0\" encoding=\"UTF-8\"?>
<!DOCTYPE plist PUBLIC \"-//Apple//DTD PLIST 1.0//EN\" \"http://www.apple.com/DTDs/PropertyList-1.0.dtd\">
<plist version=\"1.0\">
<dict>
    <key>CFBundleDevelopmentRegion</key>
    <string>en</string>
    <key>CFBundleExecutable</key>
    <string>harbor-light</string>
    <key>CFBundleIdentifier</key>
    <string>com.harborlight.app</string>
    <key>CFBundleInfoDictionaryVersion</key>
    <string>6.0</string>
    <key>CFBundleName</key>
    <string>HarborLight</string>
    <key>CFBundlePackageType</key>
    <string>APPL</string>
    <key>CFBundleShortVersionString</key>
    <string>0.1.0</string>
    <key>CFBundleVersion</key>
    <string>1</string>
    <key>CFBundleIconFile</key>
    <string>AppIcon</string>
    <key>CFBundleIconName</key>
    <string>AppIcon</string>
    <key>LSMinimumSystemVersion</key>
    <string>12.0</string>
    <key>LSUIElement</key>
    <true/>
    <key>NSHighResolutionCapable</key>
    <true/>
</dict>
</plist>
".to_string()
}

/// The LaunchAgent text before the program path.
pub open spec fn launch_agent_head() -> Seq<char> {
    "<?xml version=\"1.0\" encoding=\"UTF-8\"?>
<!DOCTYPE plist PUBLIC \"-//Apple//DTD PLIST 1.0//EN\" \"http://www.apple.com/DTDs/PropertyList-1.0.dtd\">
<plist version=\"1.0\">
<dict>
    <key>Label</key>
    <string>com.harborlight.app</string>
    <key>ProgramArguments</key>
    <array>
        <string>"@
}

/// The LaunchAgent text after the program path: started at login, and
/// started again only after an unsuccessful exit.
pub open spec fn launch_agent_tail() -> Seq<char> {
    "</string>
    </array>
    <key>RunAtLoad</key>
    <true/>
    <key>KeepAlive</key>
    <dict>
        <key>SuccessfulExit</key>
        <false/>
    </dict>
    <key>ProcessType</key>
    <string>Interactive</string>
</dict>
</plist>
"@
}

/// The LaunchAgent property list that starts the app binary at login and
/// again only after it exits unsuccessfully.
pub fn launch_agent_plist_body(app_binary: &str) -> (r: String)
    ensures
        r@ == launch_agent_head() + app_binary@ + launch_agent_tail(),
{
    let mut r = "<?xml version=\"1.0\" encoding=\"UTF-8\"?>
<!DOCTYPE plist PUBLIC \"-//Apple//DTD PLIST 1.0//EN\" \"http://www.apple.com/DTDs/PropertyList-1.0.dtd\">
<plist version=\"1.0\">
<dict>
    <key>Label</key>
    <string>com.harborlight.app</string>
    <key>ProgramArguments</key>
    <array>
        <string>".to_string();
    r.push_str(app_binary);
    r.push_str("</string>
    </array>
    <key>RunAtLoad</key>
    <true/>
    <key>KeepAlive</key>
    <dict>
        <key>SuccessfulExit</key>
        <false/>
    </dict>
    <key>ProcessType</key>
    <string>Interactive</string>
</dict>
</plist>
");
    r
}

/// Whether a file name has the extension `exe`, in any letter case: a dot
/// that is not the first character, followed by `exe`.
pub open spec fn has_exe_extension(name: Seq<char>) -> bool {
    &&& name.len() > 4
    &&& name[name.len() - 4] == '.'
    &&& ascii_lower_seq(name.skip(name.len() - 3)) == "exe"@
}

/// The Windows executable for an install destination: the destination
/// itself when its file name (the last component) has the extension `exe`,
/// otherwise `HarborLight.exe` inside it.
pub fn executable_destination(dest: FsPath) -> (r: FsPath)
    ensures
        (dest.spec_parts().len() > 0 && has_exe_extension(dest.spec_parts().last())) ==> r == dest,
        !(dest.spec_parts().len() > 0 && has_exe_extension(dest.spec_parts().last())) ==> (
        r.spec_base() == dest.spec_base() && r.spec_parts() == dest.spec_parts().push(
            WINDOWS_APP_NAME@,
        )),
{
    let n = dest.parts.len();
    if n > 0 {
        let name = chars_of(dest.parts[n - 1].as_str());
        proof {
            assert(dest.spec_parts().last() == dest.parts@[n - 1]@);
        }
        if name.len() > 4 && name[name.len() - 4] == '.' {
            let mut tail: Vec<char> = Vec::new();
            let mut i: usize = name.len() - 3;
            while i < name.len()
                invariant
                    name@.len() > 4,
                    name@.len() - 3 <= i <= name@.len(),
                    tail@ == name@.subrange(name@.len() - 3, i as int),
                decreases name.len() - i,
            {
                tail.push(name[i]);
                i = i + 1;
                assert(tail@ =~= name@.subrange(name@.len() - 3, i as int));
            }
            let lower = lower_ascii_chars(&tail);
            proof {
                assert(tail@ =~= name@.skip(name@.len() - 3));
            }
            if crate::text::seq_equal(&lower, &chars_of("exe")) {
                return dest;
            }
        }
    }
    dest.join(WINDOWS_APP_NAME)
}

/// The Windows autostart registry value: the binary path in double quotes.
pub fn autostart_value(binary: &str) -> (r: String)
    ensures
        r@ == seq!['"'] + binary@ + seq!['"'],
{
    let mut r = String::new();
    r.push('"');
    r.push_str(binary);
    r.push('"');
    proof {
        assert(r@ =~= seq!['"'] + binary@ + seq!['"']);
    }
    r
}

} // verus!
