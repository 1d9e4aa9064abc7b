//! Properties of the hook-configuration edits taken together: merging is
//! idempotent, a merge leaves exactly Harbor Light's current command in
//! place, and removal leaves none of Harbor Light's hooks behind.
use vstd::prelude::*;

use crate::install::{
    any_ours, cleaned_codex_list, cleaned_group, codex_entry, codex_timeout, command_of,
    cursor_entry, cursor_timeout, event_list, group_changed, group_has_ours, groups_have_ours,
    is_ours, keeps_group, kept_groups, merged_codex, merged_codex_events, merged_codex_list,
    drop_quotes, hook_command, merged_cursor, merged_cursor_events, normalized_command,
    our_hook_command, removed_codex, removed_codex_events, without_verbatim_prefix, word_at,
    removed_cursor, removed_cursor_events, replaced_group, replaced_hook, upsert_scan,
    upserted_cursor_list, with_command, with_default, without_ours,
};
use crate::json::{
    array_member, field_index, keys_unique, lemma_field_index, lemma_field_index_unique,
    lemma_lookup_remove_field, lemma_lookup_set_field, lemma_set_field_same,
    lemma_set_field_unique, lookup, remove_field, set_field, str_member, JsonView,
};
use crate::providers::{codex_hook_events, cursor_hook_events, provider_name, Provider};
use crate::text::{
    ascii_lower, ascii_lower_seq, contains_seq, is_ws, lemma_leading_ws, lemma_leading_ws_char,
    lemma_trailing_ws_char, leading_ws, occurs_at, trailing_ws, trim, trim_end, trim_start,
};

verus! {

/// The Codex hook events are distinct.
pub proof fn lemma_codex_events_distinct()
    ensures
        codex_hook_events().no_duplicates(),
{
    reveal_strlit("SessionStart");
    reveal_strlit("UserPromptSubmit");
    reveal_strlit("PreToolUse");
    reveal_strlit("PostToolUse");
    reveal_strlit("Stop");
    reveal_strlit("PermissionRequest");
    reveal_strlit("SessionEnd");
    let e = codex_hook_events();
    assert forall|i: int, j: int| 0 <= i < e.len() && 0 <= j < e.len() && i != j implies e[i]
        != e[j] by {
        if e[i] == e[j] {
            assert(e[i].len() == e[j].len());
            assert(e[i][0] == e[j][0]);
            assert(e[i][1] == e[j][1]);
            assert(e[i][2] == e[j][2]);
            assert(e[i][3] == e[j][3]);
        }
    }
}

/// The two fields that pointing an entry at a command sets are distinct.
proof fn lemma_command_not_timeout()
    ensures
        "command"@ != "timeout"@,
{
    reveal_strlit("command");
    reveal_strlit("timeout");
    assert("command"@[0] != "timeout"@[0]);
}

/// An entry pointed at one of our commands is one of ours, with that
/// command.
pub proof fn lemma_with_command(h: JsonView, c: Seq<char>, t: Seq<char>)
    requires
        h is Object,
    ensures
        command_of(with_command(h, c, t)) == Some(c),
        our_hook_command(c) ==> is_ours(with_command(h, c, t)),
        with_command(with_command(h, c, t), c, t) == with_command(h, c, t),
{
    lemma_command_not_timeout();
    let f = h->Object_0;
    let f1 = set_field(f, "command"@, JsonView::Str(c));
    let f2 = set_field(f1, "timeout"@, JsonView::Number(t));
    lemma_lookup_set_field(f, "command"@, JsonView::Str(c), "command"@);
    lemma_lookup_set_field(f1, "timeout"@, JsonView::Number(t), "command"@);
    lemma_lookup_set_field(f1, "timeout"@, JsonView::Number(t), "timeout"@);
    lemma_set_field_same(f2, "command"@, JsonView::Str(c));
    lemma_set_field_same(f2, "timeout"@, JsonView::Number(t));
}

/// Pointing a Codex hook at our command twice is pointing it once.
pub proof fn lemma_replaced_hook_twice(h: JsonView, c: Seq<char>)
    requires
        our_hook_command(c),
    ensures
        replaced_hook(replaced_hook(h, c), c) == replaced_hook(h, c),
        is_ours(replaced_hook(h, c)) ==> command_of(replaced_hook(h, c)) == Some(c),
{
    if is_ours(h) {
        lemma_with_command(h, c, codex_timeout());
    }
}

/// Pointing a Codex hook group at our command twice is pointing it once,
/// and a group that held one of our hooks still does.
pub proof fn lemma_replaced_group_twice(g: JsonView, c: Seq<char>)
    requires
        our_hook_command(c),
    ensures
        replaced_group(replaced_group(g, c), c) == replaced_group(g, c),
        group_has_ours(g) ==> group_has_ours(replaced_group(g, c)),
        !group_has_ours(g) ==> replaced_group(g, c) == g,
{
    reveal_strlit("hooks");
    match g {
        JsonView::Object(f) => match lookup(f, "hooks"@) {
            Some(JsonView::Array(hs)) => {
                let hs1 = hs.map_values(|h: JsonView| replaced_hook(h, c));
                let f1 = set_field(f, "hooks"@, JsonView::Array(hs1));
                lemma_lookup_set_field(f, "hooks"@, JsonView::Array(hs1), "hooks"@);
                let hs2 = hs1.map_values(|h: JsonView| replaced_hook(h, c));
                assert forall|j: int| 0 <= j < hs1.len() implies #[trigger] hs2[j] == hs1[j] by {
                    lemma_replaced_hook_twice(hs[j], c);
                }
                assert(hs2 =~= hs1);
                lemma_set_field_same(f1, "hooks"@, JsonView::Array(hs1));
                if group_has_ours(g) {
                    let j = choose|j: int| 0 <= j < hs.len() && #[trigger] is_ours(hs[j]);
                    lemma_with_command(hs[j], c, codex_timeout());
                    assert(is_ours(hs1[j]));
                    assert(array_member(replaced_group(g, c), "hooks"@) == Some(hs1));
                } else {
                    assert(hs1 =~= hs);
                    lemma_set_field_same(f, "hooks"@, JsonView::Array(hs));
                }
            },
            _ => {},
        },
        _ => {},
    }
}

/// The group that a merge adds holds our hook and is left as it is by a
/// later merge of the same command.
pub proof fn lemma_codex_entry(c: Seq<char>)
    requires
        our_hook_command(c),
    ensures
        group_has_ours(codex_entry(c)),
        replaced_group(codex_entry(c), c) == codex_entry(c),
{
    reveal_strlit("hooks");
    reveal_strlit("type");
    reveal_strlit("command");
    reveal_strlit("timeout");
    reveal_strlit("statusMessage");
    let hf = seq![
        ("type"@, JsonView::Str("command"@)),
        ("command"@, JsonView::Str(c)),
        ("timeout"@, JsonView::Number(codex_timeout())),
        ("statusMessage"@, JsonView::Str("Updating Harbor Light"@)),
    ];
    let hook = JsonView::Object(hf);
    let gf = seq![("hooks"@, JsonView::Array(seq![hook]))];
    lemma_command_not_timeout();
    assert(hf[0].0 == "type"@);
    assert(("type"@).len() == 4);
    assert(hf[0].0 != "command"@);
    assert(hf[0].0 != "timeout"@);
    assert(hf[1].0 != "timeout"@);
    lemma_field_index_unique(gf, "hooks"@, 0);
    lemma_field_index_unique(hf, "command"@, 1);
    lemma_field_index_unique(hf, "timeout"@, 2);
    assert(command_of(hook) == Some(c));
    assert(is_ours(seq![hook][0]));
    assert(any_ours(seq![hook]));
    assert(array_member(codex_entry(c), "hooks"@) == Some(seq![hook]));
    assert(group_has_ours(codex_entry(c)));
    lemma_set_field_same(hf, "command"@, JsonView::Str(c));
    lemma_set_field_same(hf, "timeout"@, JsonView::Number(codex_timeout()));
    assert(with_command(hook, c, codex_timeout()) == hook);
    assert(replaced_hook(hook, c) == hook);
    assert(seq![hook].map_values(|h: JsonView| replaced_hook(h, c)) =~= seq![hook]);
    lemma_set_field_same(gf, "hooks"@, JsonView::Array(seq![hook]));
}

/// A merged Codex list holds our hook and is left as it is by a later merge
/// of the same command.
pub proof fn lemma_merged_codex_list_twice(list: Seq<JsonView>, c: Seq<char>)
    requires
        our_hook_command(c),
    ensures
        groups_have_ours(merged_codex_list(list, c)),
        merged_codex_list(merged_codex_list(list, c), c) == merged_codex_list(list, c),
{
    let l1 = merged_codex_list(list, c);
    if groups_have_ours(list) {
        let i = choose|i: int| 0 <= i < list.len() && #[trigger] group_has_ours(list[i]);
        lemma_replaced_group_twice(list[i], c);
        assert(group_has_ours(l1[i]));
        assert forall|j: int| 0 <= j < l1.len() implies #[trigger] replaced_group(l1[j], c)
            == l1[j] by {
            lemma_replaced_group_twice(list[j], c);
        }
        assert(l1.map_values(|g: JsonView| replaced_group(g, c)) =~= l1);
    } else {
        lemma_codex_entry(c);
        assert(group_has_ours(l1[list.len() as int]));
        assert forall|j: int| 0 <= j < l1.len() implies #[trigger] replaced_group(l1[j], c)
            == l1[j] by {
            if j < list.len() {
                assert(!group_has_ours(list[j]));
                lemma_replaced_group_twice(list[j], c);
            }
        }
        assert(l1.map_values(|g: JsonView| replaced_group(g, c)) =~= l1);
    }
}

/// What a Codex merge leaves under one of its events: the merged list.
pub proof fn lemma_merged_codex_lookup(
    h0: Seq<(Seq<char>, JsonView)>,
    evs: Seq<Seq<char>>,
    c: Seq<char>,
    n: int,
)
    requires
        0 <= n < evs.len(),
        evs.no_duplicates(),
    ensures
        lookup(merged_codex_events(h0, evs, c), evs[n]) == Some(
            JsonView::Array(
                merged_codex_list(event_list(merged_codex_events(h0, evs.take(n), c), evs[n]), c),
            ),
        ),
    decreases evs.len(),
{
    let d = evs.drop_last();
    let h = merged_codex_events(h0, d, c);
    let e = evs.last();
    let v = JsonView::Array(merged_codex_list(event_list(h, e), c));
    lemma_lookup_set_field(h, e, v, evs[n]);
    if n == evs.len() - 1 {
        assert(d =~= evs.take(n));
    } else {
        assert(d.no_duplicates());
        assert(d.take(n) =~= evs.take(n));
        assert(d[n] == evs[n]);
        lemma_merged_codex_lookup(h0, d, c, n);
    }
}

/// Merging the command again into the first `m` events changes nothing.
proof fn lemma_merged_codex_events_again(
    h0: Seq<(Seq<char>, JsonView)>,
    evs: Seq<Seq<char>>,
    c: Seq<char>,
    m: int,
)
    requires
        0 <= m <= evs.len(),
        evs.no_duplicates(),
        our_hook_command(c),
    ensures
        merged_codex_events(merged_codex_events(h0, evs, c), evs.take(m), c)
            == merged_codex_events(h0, evs, c),
    decreases m,
{
    let h1 = merged_codex_events(h0, evs, c);
    if m == 0 {
        assert(evs.take(0).len() == 0);
    } else {
        lemma_merged_codex_events_again(h0, evs, c, m - 1);
        let t = evs.take(m);
        assert(t.drop_last() =~= evs.take(m - 1));
        let e = evs[m - 1];
        assert(t.last() == e);
        lemma_merged_codex_lookup(h0, evs, c, m - 1);
        let prev = event_list(merged_codex_events(h0, evs.take(m - 1), c), e);
        lemma_merged_codex_list_twice(prev, c);
        let l1 = merged_codex_list(prev, c);
        assert(event_list(h1, e) == l1);
        lemma_set_field_same(h1, e, JsonView::Array(l1));
    }
}

/// Merging Harbor Light's command into a Codex hook configuration a second
/// time changes nothing: the second merge finds our hooks in every event and
/// they already run the command.
pub proof fn law_codex_merge_idempotent(root: Option<JsonView>, cmd: Seq<char>)
    requires
        our_hook_command(cmd),
        merged_codex(root, cmd) is Ok,
    ensures
        merged_codex(Some(merged_codex(root, cmd)->Ok_0), cmd) == merged_codex(root, cmd),
{
    reveal_strlit("hooks");
    lemma_codex_events_distinct();
    let evs = codex_hook_events();
    let r = match root {
        Some(v) => v,
        None => JsonView::Object(seq![("hooks"@, JsonView::Object(Seq::empty()))]),
    };
    let f = r->Object_0;
    let f1 = with_default(f, "hooks"@, JsonView::Object(Seq::empty()));
    lemma_lookup_set_field(f, "hooks"@, JsonView::Object(Seq::empty()), "hooks"@);
    let h = lookup(f1, "hooks"@)->0->Object_0;
    let h1 = merged_codex_events(h, evs, cmd);
    let big_f = set_field(f1, "hooks"@, JsonView::Object(h1));
    lemma_lookup_set_field(f1, "hooks"@, JsonView::Object(h1), "hooks"@);
    assert(with_default(big_f, "hooks"@, JsonView::Object(Seq::empty())) == big_f);
    lemma_merged_codex_events_again(h, evs, cmd, evs.len() as int);
    assert(evs.take(evs.len() as int) =~= evs);
    lemma_set_field_same(big_f, "hooks"@, JsonView::Object(h1));
}

/// After a merge of Harbor Light's command, each Codex event holds a group
/// with one of our hooks.
proof fn lemma_codex_merge_installs_every_event(root: Option<JsonView>, cmd: Seq<char>, e: Seq<char>)
    requires
        our_hook_command(cmd),
        merged_codex(root, cmd) is Ok,
        codex_hook_events().contains(e),
    ensures
        ({
            let v = merged_codex(root, cmd)->Ok_0;
            &&& v matches JsonView::Object(f)
            &&& lookup(f, "hooks"@) matches Some(JsonView::Object(h))
            &&& lookup(h, e) matches Some(JsonView::Array(list))
            &&& groups_have_ours(list)
        }),
{
    reveal_strlit("hooks");
    lemma_codex_events_distinct();
    let evs = codex_hook_events();
    let n = choose|n: int| 0 <= n < evs.len() && evs[n] == e;
    let r = match root {
        Some(v) => v,
        None => JsonView::Object(seq![("hooks"@, JsonView::Object(Seq::empty()))]),
    };
    let f = r->Object_0;
    let f1 = with_default(f, "hooks"@, JsonView::Object(Seq::empty()));
    lemma_lookup_set_field(f, "hooks"@, JsonView::Object(Seq::empty()), "hooks"@);
    let h = lookup(f1, "hooks"@)->0->Object_0;
    let h1 = merged_codex_events(h, evs, cmd);
    lemma_lookup_set_field(f1, "hooks"@, JsonView::Object(h1), "hooks"@);
    lemma_merged_codex_lookup(h, evs, cmd, n);
    lemma_merged_codex_list_twice(event_list(merged_codex_events(h, evs.take(n), cmd), e), cmd);
}

/// The number of entries of ours.
pub open spec fn count_ours(list: Seq<JsonView>) -> nat
    decreases list.len(),
{
    if list.len() == 0 {
        0
    } else {
        count_ours(list.drop_last()) + (if is_ours(list.last()) {
            1nat
        } else {
            0nat
        })
    }
}

/// Whether every entry of ours in the list runs the command with the Cursor
/// timeout, so that pointing it at the command again leaves it as it is.
pub open spec fn ours_settled(list: Seq<JsonView>, c: Seq<char>) -> bool {
    forall|i: int|
        0 <= i < list.len() && #[trigger] is_ours(list[i]) ==> command_of(list[i]) == Some(c)
            && with_command(list[i], c, cursor_timeout()) == list[i]
}

/// No entry of ours means none counted, and the other way round.
proof fn lemma_count_ours_zero(list: Seq<JsonView>)
    ensures
        (count_ours(list) == 0) == !any_ours(list),
    decreases list.len(),
{
    if list.len() > 0 {
        let d = list.drop_last();
        lemma_count_ours_zero(d);
        if any_ours(d) {
            let j = choose|j: int| 0 <= j < d.len() && #[trigger] is_ours(d[j]);
            assert(is_ours(list[j]));
        }
        if any_ours(list) && !is_ours(list.last()) {
            let j = choose|j: int| 0 <= j < list.len() && #[trigger] is_ours(list[j]);
            assert(is_ours(d[j]));
        }
    }
}

/// The Cursor entry that a merge adds is one of ours, settled.
proof fn lemma_cursor_entry(c: Seq<char>)
    requires
        our_hook_command(c),
    ensures
        is_ours(cursor_entry(c)),
        command_of(cursor_entry(c)) == Some(c),
        with_command(cursor_entry(c), c, cursor_timeout()) == cursor_entry(c),
{
    lemma_command_not_timeout();
    let f = seq![("command"@, JsonView::Str(c)), ("timeout"@, JsonView::Number(cursor_timeout()))];
    assert(f[0].0 != "timeout"@);
    lemma_field_index_unique(f, "command"@, 0);
    lemma_field_index_unique(f, "timeout"@, 1);
    lemma_set_field_same(f, "command"@, JsonView::Str(c));
    lemma_set_field_same(f, "timeout"@, JsonView::Number(cursor_timeout()));
}

/// The scan of a Cursor list keeps exactly one settled entry of ours when
/// there was one, and none otherwise.
proof fn lemma_upsert_scan(list: Seq<JsonView>, c: Seq<char>)
    requires
        our_hook_command(c),
    ensures
        upsert_scan(list, c).1 == any_ours(list),
        count_ours(upsert_scan(list, c).0) == (if any_ours(list) {
            1nat
        } else {
            0nat
        }),
        ours_settled(upsert_scan(list, c).0, c),
    decreases list.len(),
{
    if list.len() == 0 {
        lemma_count_ours_zero(list);
    } else {
        let d = list.drop_last();
        let e = list.last();
        lemma_upsert_scan(d, c);
        let (r, found) = upsert_scan(d, c);
        let out = upsert_scan(list, c).0;
        lemma_count_ours_zero(d);
        lemma_count_ours_zero(list);
        if any_ours(d) {
            let j = choose|j: int| 0 <= j < d.len() && #[trigger] is_ours(d[j]);
            assert(is_ours(list[j]));
        }
        if !is_ours(e) {
            assert(out.drop_last() =~= r);
            if any_ours(list) {
                let j = choose|j: int| 0 <= j < list.len() && #[trigger] is_ours(list[j]);
                assert(is_ours(d[j]));
            }
            assert forall|i: int| 0 <= i < out.len() && #[trigger] is_ours(out[i]) implies command_of(
                out[i],
            ) == Some(c) && with_command(out[i], c, cursor_timeout()) == out[i] by {
                assert(out[i] == r[i]);
            }
        } else if found {
            assert(is_ours(list[list.len() - 1]));
        } else {
            assert(is_ours(list[list.len() - 1]));
            lemma_with_command(e, c, cursor_timeout());
            assert(out.drop_last() =~= r);
            assert forall|i: int| 0 <= i < out.len() && #[trigger] is_ours(out[i]) implies command_of(
                out[i],
            ) == Some(c) && with_command(out[i], c, cursor_timeout()) == out[i] by {
                if i < r.len() {
                    assert(out[i] == r[i]);
                }
            }
        }
    }
}

/// A merged Cursor list holds exactly one entry of ours, settled.
pub proof fn lemma_upserted_cursor_list(list: Seq<JsonView>, c: Seq<char>)
    requires
        our_hook_command(c),
    ensures
        count_ours(upserted_cursor_list(list, c)) == 1,
        ours_settled(upserted_cursor_list(list, c), c),
{
    lemma_upsert_scan(list, c);
    let (r, found) = upsert_scan(list, c);
    if !found {
        lemma_cursor_entry(c);
        let out = r.push(cursor_entry(c));
        assert(out.drop_last() =~= r);
        assert forall|i: int| 0 <= i < out.len() && #[trigger] is_ours(out[i]) implies command_of(
            out[i],
        ) == Some(c) && with_command(out[i], c, cursor_timeout()) == out[i] by {
            if i < r.len() {
                assert(out[i] == r[i]);
            }
        }
    }
}

/// A list with at most one entry of ours, settled, is scanned unchanged.
proof fn lemma_upsert_scan_settled(list: Seq<JsonView>, c: Seq<char>)
    requires
        count_ours(list) <= 1,
        ours_settled(list, c),
    ensures
        upsert_scan(list, c) == (list, any_ours(list)),
    decreases list.len(),
{
    if list.len() > 0 {
        let d = list.drop_last();
        let e = list.last();
        assert forall|i: int| 0 <= i < d.len() && #[trigger] is_ours(d[i]) implies command_of(d[i])
            == Some(c) && with_command(d[i], c, cursor_timeout()) == d[i] by {
            assert(list[i] == d[i]);
        }
        lemma_upsert_scan_settled(d, c);
        lemma_count_ours_zero(d);
        if is_ours(e) {
            assert(is_ours(list[list.len() - 1]));
            assert(list =~= d.push(e));
        } else {
            assert(list =~= d.push(e));
            if any_ours(list) {
                let j = choose|j: int| 0 <= j < list.len() && #[trigger] is_ours(list[j]);
                assert(is_ours(d[j]));
            }
            if any_ours(d) {
                let j = choose|j: int| 0 <= j < d.len() && #[trigger] is_ours(d[j]);
                assert(is_ours(list[j]));
            }
        }
    }
}

/// What a Cursor merge leaves under one of its events: the merged list.
pub proof fn lemma_merged_cursor_lookup(
    h0: Seq<(Seq<char>, JsonView)>,
    evs: Seq<Seq<char>>,
    c: Seq<char>,
    n: int,
)
    requires
        0 <= n < evs.len(),
        evs.no_duplicates(),
    ensures
        lookup(merged_cursor_events(h0, evs, c), evs[n]) == Some(
            JsonView::Array(
                upserted_cursor_list(event_list(merged_cursor_events(h0, evs.take(n), c), evs[n]), c),
            ),
        ),
    decreases evs.len(),
{
    let d = evs.drop_last();
    let h = merged_cursor_events(h0, d, c);
    let e = evs.last();
    let v = JsonView::Array(upserted_cursor_list(event_list(h, e), c));
    lemma_lookup_set_field(h, e, v, evs[n]);
    if n == evs.len() - 1 {
        assert(d =~= evs.take(n));
    } else {
        assert(d.no_duplicates());
        assert(d.take(n) =~= evs.take(n));
        assert(d[n] == evs[n]);
        lemma_merged_cursor_lookup(h0, d, c, n);
    }
}

/// The Cursor hook events are distinct.
pub proof fn lemma_cursor_events_distinct()
    ensures
        cursor_hook_events().no_duplicates(),
{
    reveal_strlit("beforeSubmitPrompt");
    reveal_strlit("preToolUse");
    reveal_strlit("beforeShellExecution");
    reveal_strlit("afterShellExecution");
    reveal_strlit("beforeMCPExecution");
    reveal_strlit("afterMCPExecution");
    reveal_strlit("afterAgentThought");
    reveal_strlit("stop");
    reveal_strlit("sessionEnd");
    let e = cursor_hook_events();
    assert forall|i: int, j: int| 0 <= i < e.len() && 0 <= j < e.len() && i != j implies e[i]
        != e[j] by {
        if e[i] == e[j] {
            assert(e[i].len() == e[j].len());
            assert(e[i][0] == e[j][0]);
            assert(e[i][1] == e[j][1]);
            assert(e[i][5] == e[j][5]);
            assert(e[i][6] == e[j][6]);
        }
    }
}

/// Merging the command again into the first `m` Cursor events changes
/// nothing.
proof fn lemma_merged_cursor_events_again(
    h0: Seq<(Seq<char>, JsonView)>,
    evs: Seq<Seq<char>>,
    c: Seq<char>,
    m: int,
)
    requires
        0 <= m <= evs.len(),
        evs.no_duplicates(),
        our_hook_command(c),
    ensures
        merged_cursor_events(merged_cursor_events(h0, evs, c), evs.take(m), c)
            == merged_cursor_events(h0, evs, c),
    decreases m,
{
    let h1 = merged_cursor_events(h0, evs, c);
    if m == 0 {
        assert(evs.take(0).len() == 0);
    } else {
        lemma_merged_cursor_events_again(h0, evs, c, m - 1);
        let t = evs.take(m);
        assert(t.drop_last() =~= evs.take(m - 1));
        let e = evs[m - 1];
        assert(t.last() == e);
        lemma_merged_cursor_lookup(h0, evs, c, m - 1);
        let prev = event_list(merged_cursor_events(h0, evs.take(m - 1), c), e);
        lemma_upserted_cursor_list(prev, c);
        let l1 = upserted_cursor_list(prev, c);
        lemma_upsert_scan_settled(l1, c);
        lemma_count_ours_zero(l1);
        assert(event_list(h1, e) == l1);
        assert(upserted_cursor_list(l1, c) == l1);
        lemma_set_field_same(h1, e, JsonView::Array(l1));
    }
}

/// The hooks object of a successful Cursor merge, and the merge's input
/// hooks object.
proof fn lemma_merged_cursor_shape(root: Option<JsonView>, cmd: Seq<char>) -> (r: (
    Seq<(Seq<char>, JsonView)>,
    Seq<(Seq<char>, JsonView)>,
))
    requires
        merged_cursor(root, cmd) is Ok,
    ensures
        merged_cursor(root, cmd)->Ok_0 == JsonView::Object(r.1),
        lookup(r.1, "hooks"@) == Some(
            JsonView::Object(merged_cursor_events(r.0, cursor_hook_events(), cmd)),
        ),
        lookup(r.1, "version"@) is Some,
        set_field(
            r.1,
            "hooks"@,
            JsonView::Object(merged_cursor_events(r.0, cursor_hook_events(), cmd)),
        ) == r.1,
{
    reveal_strlit("hooks");
    reveal_strlit("version");
    let r = match root {
        Some(v) => v,
        None => JsonView::Object(
            seq![
                ("version"@, JsonView::Number("1"@)),
                ("hooks"@, JsonView::Object(Seq::empty())),
            ],
        ),
    };
    let f = r->Object_0;
    let f1 = with_default(f, "version"@, JsonView::Number("1"@));
    lemma_lookup_set_field(f, "version"@, JsonView::Number("1"@), "version"@);
    let f2 = with_default(f1, "hooks"@, JsonView::Object(Seq::empty()));
    lemma_lookup_set_field(f1, "hooks"@, JsonView::Object(Seq::empty()), "hooks"@);
    lemma_lookup_set_field(f1, "hooks"@, JsonView::Object(Seq::empty()), "version"@);
    let h = lookup(f2, "hooks"@)->0->Object_0;
    let h1 = merged_cursor_events(h, cursor_hook_events(), cmd);
    let big_f = set_field(f2, "hooks"@, JsonView::Object(h1));
    lemma_lookup_set_field(f2, "hooks"@, JsonView::Object(h1), "hooks"@);
    lemma_lookup_set_field(f2, "hooks"@, JsonView::Object(h1), "version"@);
    lemma_set_field_same(big_f, "hooks"@, JsonView::Object(h1));
    (h, big_f)
}

/// Merging Harbor Light's command into a Cursor hook configuration a second
/// time changes nothing.
pub proof fn law_cursor_merge_idempotent(root: Option<JsonView>, cmd: Seq<char>)
    requires
        our_hook_command(cmd),
        merged_cursor(root, cmd) is Ok,
    ensures
        merged_cursor(Some(merged_cursor(root, cmd)->Ok_0), cmd) == merged_cursor(root, cmd),
{
    reveal_strlit("hooks");
    lemma_cursor_events_distinct();
    let evs = cursor_hook_events();
    let (h, big_f) = lemma_merged_cursor_shape(root, cmd);
    let h1 = merged_cursor_events(h, evs, cmd);
    assert(with_default(big_f, "version"@, JsonView::Number("1"@)) == big_f);
    assert(with_default(big_f, "hooks"@, JsonView::Object(Seq::empty())) == big_f);
    lemma_merged_cursor_events_again(h, evs, cmd, evs.len() as int);
    assert(evs.take(evs.len() as int) =~= evs);
}

/// After a merge of Harbor Light's command, each Cursor event holds exactly
/// one entry of ours, and it runs the command.
pub proof fn law_cursor_merge_keeps_one_entry(root: Option<JsonView>, cmd: Seq<char>, e: Seq<char>)
    requires
        our_hook_command(cmd),
        merged_cursor(root, cmd) is Ok,
        cursor_hook_events().contains(e),
    ensures
        ({
            let v = merged_cursor(root, cmd)->Ok_0;
            &&& v matches JsonView::Object(f)
            &&& lookup(f, "hooks"@) matches Some(JsonView::Object(h))
            &&& lookup(h, e) matches Some(JsonView::Array(list))
            &&& count_ours(list) == 1
            &&& forall|i: int|
                0 <= i < list.len() && #[trigger] is_ours(list[i]) ==> command_of(list[i]) == Some(
                    cmd,
                )
        }),
{
    lemma_cursor_events_distinct();
    let evs = cursor_hook_events();
    let n = choose|n: int| 0 <= n < evs.len() && evs[n] == e;
    let (h, big_f) = lemma_merged_cursor_shape(root, cmd);
    lemma_merged_cursor_lookup(h, evs, cmd, n);
    lemma_upserted_cursor_list(event_list(merged_cursor_events(h, evs.take(n), cmd), e), cmd);
}

/// Whether every hook of ours in a Codex hook group runs the command.
pub open spec fn group_runs(g: JsonView, c: Seq<char>) -> bool {
    match array_member(g, "hooks"@) {
        Some(hs) => forall|j: int|
            0 <= j < hs.len() && #[trigger] is_ours(hs[j]) ==> command_of(hs[j]) == Some(c),
        None => true,
    }
}

/// Whether every hook of ours in a list of Codex hook groups runs the
/// command.
pub open spec fn groups_run(list: Seq<JsonView>, c: Seq<char>) -> bool {
    forall|i: int| 0 <= i < list.len() ==> #[trigger] group_runs(list[i], c)
}

/// Every hook of ours in a merged Codex list runs the command.
proof fn lemma_merged_codex_list_runs(list: Seq<JsonView>, c: Seq<char>)
    requires
        our_hook_command(c),
    ensures
        groups_run(merged_codex_list(list, c), c),
{
    reveal_strlit("hooks");
    let l1 = merged_codex_list(list, c);
    if groups_have_ours(list) {
        assert forall|i: int| 0 <= i < l1.len() implies #[trigger] group_runs(l1[i], c) by {
            let g = list[i];
            match g {
                JsonView::Object(f) => match lookup(f, "hooks"@) {
                    Some(JsonView::Array(hs)) => {
                        let hs1 = hs.map_values(|h: JsonView| replaced_hook(h, c));
                        lemma_lookup_set_field(f, "hooks"@, JsonView::Array(hs1), "hooks"@);
                        assert(array_member(l1[i], "hooks"@) == Some(hs1));
                        assert forall|j: int| 0 <= j < hs1.len() && #[trigger] is_ours(hs1[j]) implies command_of(
                            hs1[j],
                        ) == Some(c) by {
                            lemma_replaced_hook_twice(hs[j], c);
                        }
                    },
                    _ => {},
                },
                _ => {},
            }
        }
    } else {
        lemma_codex_entry(c);
        assert forall|i: int| 0 <= i < l1.len() implies #[trigger] group_runs(l1[i], c) by {
            if i < list.len() {
                assert(!group_has_ours(list[i]));
                match array_member(list[i], "hooks"@) {
                    Some(hs) => {
                        assert forall|j: int| 0 <= j < hs.len() && #[trigger] is_ours(hs[j]) implies command_of(
                            hs[j],
                        ) == Some(c) by {
                            assert(any_ours(hs));
                        }
                    },
                    None => {},
                }
            } else {
                reveal_strlit("type");
                reveal_strlit("command");
                let hf = seq![
                    ("type"@, JsonView::Str("command"@)),
                    ("command"@, JsonView::Str(c)),
                    ("timeout"@, JsonView::Number(codex_timeout())),
                    ("statusMessage"@, JsonView::Str("Updating Harbor Light"@)),
                ];
                let gf = seq![("hooks"@, JsonView::Array(seq![JsonView::Object(hf)]))];
                lemma_field_index_unique(gf, "hooks"@, 0);
                assert(hf[0].0 == "type"@);
                assert(("type"@).len() == 4);
                lemma_field_index_unique(hf, "command"@, 1);
                assert(array_member(l1[i], "hooks"@) == Some(seq![JsonView::Object(hf)]));
            }
        }
    }
}

/// After a merge of Harbor Light's command, each Codex event holds a group
/// with one of our hooks, and every hook of ours there runs the command: a
/// merge points former Harbor Light and Codex Light hooks at the new binary.
pub proof fn law_codex_merge_points_every_event_at_command(
    root: Option<JsonView>,
    cmd: Seq<char>,
    e: Seq<char>,
)
    requires
        our_hook_command(cmd),
        merged_codex(root, cmd) is Ok,
        codex_hook_events().contains(e),
    ensures
        ({
            let v = merged_codex(root, cmd)->Ok_0;
            &&& v matches JsonView::Object(f)
            &&& lookup(f, "hooks"@) matches Some(JsonView::Object(h))
            &&& lookup(h, e) matches Some(JsonView::Array(list))
            &&& groups_have_ours(list)
            &&& groups_run(list, cmd)
        }),
{
    lemma_codex_events_distinct();
    let evs = codex_hook_events();
    let n = choose|n: int| 0 <= n < evs.len() && evs[n] == e;
    lemma_codex_merge_installs_every_event(root, cmd, e);
    reveal_strlit("hooks");
    let r = match root {
        Some(v) => v,
        None => JsonView::Object(seq![("hooks"@, JsonView::Object(Seq::empty()))]),
    };
    let f = r->Object_0;
    let f1 = with_default(f, "hooks"@, JsonView::Object(Seq::empty()));
    lemma_lookup_set_field(f, "hooks"@, JsonView::Object(Seq::empty()), "hooks"@);
    let h = lookup(f1, "hooks"@)->0->Object_0;
    let h1 = merged_codex_events(h, evs, cmd);
    lemma_lookup_set_field(f1, "hooks"@, JsonView::Object(h1), "hooks"@);
    lemma_merged_codex_lookup(h, evs, cmd, n);
    lemma_merged_codex_list_runs(event_list(merged_codex_events(h, evs.take(n), cmd), e), cmd);
}

/// The removal of our entries leaves none of them.
proof fn lemma_without_ours(hs: Seq<JsonView>)
    ensures
        !any_ours(without_ours(hs)),
        without_ours(hs).len() <= hs.len(),
        without_ours(hs).len() == hs.len() ==> without_ours(hs) == hs,
    decreases hs.len(),
{
    if hs.len() > 0 {
        let d = hs.drop_last();
        lemma_without_ours(d);
        let w = without_ours(hs);
        if !is_ours(hs.last()) {
            assert(w.drop_last() =~= without_ours(d));
            if any_ours(w) {
                let j = choose|j: int| 0 <= j < w.len() && #[trigger] is_ours(w[j]);
                if j < w.len() - 1 {
                    assert(is_ours(without_ours(d)[j]));
                }
            }
            if w.len() == hs.len() {
                assert(hs =~= d.push(hs.last()));
            }
        }
    }
}

/// The groups that stay hold none of our hooks when none of the groups do,
/// and they are all the groups when none is dropped.
proof fn lemma_kept_groups(gs: Seq<JsonView>)
    ensures
        !groups_have_ours(gs) ==> !groups_have_ours(kept_groups(gs)),
        kept_groups(gs).len() <= gs.len(),
        kept_groups(gs).len() == gs.len() ==> kept_groups(gs) == gs,
    decreases gs.len(),
{
    if gs.len() > 0 {
        let d = gs.drop_last();
        lemma_kept_groups(d);
        let k = kept_groups(gs);
        if !groups_have_ours(gs) {
            assert(!groups_have_ours(d)) by {
                if groups_have_ours(d) {
                    let j = choose|j: int| 0 <= j < d.len() && #[trigger] group_has_ours(d[j]);
                    assert(group_has_ours(gs[j]));
                }
            }
            if groups_have_ours(k) {
                let j = choose|j: int| 0 <= j < k.len() && #[trigger] group_has_ours(k[j]);
                if keeps_group(gs.last()) {
                    assert(k.drop_last() =~= kept_groups(d));
                    if j < k.len() - 1 {
                        assert(group_has_ours(kept_groups(d)[j]));
                    } else {
                        assert(group_has_ours(gs[gs.len() - 1]));
                    }
                }
            }
        }
        if keeps_group(gs.last()) && k.len() == gs.len() {
            assert(gs =~= d.push(gs.last()));
        }
    }
}

/// A cleaned Codex group holds none of our hooks.
proof fn lemma_cleaned_group(g: JsonView)
    ensures
        !group_has_ours(cleaned_group(g)),
        !group_changed(g) ==> cleaned_group(g) == g,
{
    reveal_strlit("hooks");
    match g {
        JsonView::Object(f) => match lookup(f, "hooks"@) {
            Some(JsonView::Array(hs)) => {
                lemma_without_ours(hs);
                lemma_lookup_set_field(f, "hooks"@, JsonView::Array(without_ours(hs)), "hooks"@);
                if !group_changed(g) {
                    lemma_set_field_same(f, "hooks"@, JsonView::Array(hs));
                }
            },
            _ => {},
        },
        _ => {},
    }
}

/// A cleaned Codex list holds none of our hooks, and it is the list itself
/// when nothing was removed.
proof fn lemma_cleaned_codex_list(list: Seq<JsonView>)
    ensures
        !groups_have_ours(cleaned_codex_list(list).0),
        !cleaned_codex_list(list).1 ==> cleaned_codex_list(list).0 == list,
{
    let cleaned = list.map_values(|g: JsonView| cleaned_group(g));
    assert(!groups_have_ours(cleaned)) by {
        if groups_have_ours(cleaned) {
            let j = choose|j: int| 0 <= j < cleaned.len() && #[trigger] group_has_ours(cleaned[j]);
            lemma_cleaned_group(list[j]);
        }
    }
    lemma_kept_groups(cleaned);
    if !cleaned_codex_list(list).1 {
        assert forall|i: int| 0 <= i < list.len() implies #[trigger] cleaned[i] == list[i] by {
            assert(!group_changed(list[i]));
            lemma_cleaned_group(list[i]);
        }
        assert(cleaned =~= list);
    }
}

/// The hooks object of a document, when it has one.
pub open spec fn hooks_object(v: JsonView) -> Option<Seq<(Seq<char>, JsonView)>> {
    match v {
        JsonView::Object(f) => match lookup(f, "hooks"@) {
            Some(JsonView::Object(h)) => Some(h),
            _ => None,
        },
        _ => None,
    }
}

/// Whether an event of a hooks object holds a Codex group with one of our
/// hooks.
pub open spec fn codex_event_has_ours(h: Seq<(Seq<char>, JsonView)>, e: Seq<char>) -> bool {
    match lookup(h, e) {
        Some(JsonView::Array(list)) => groups_have_ours(list),
        _ => false,
    }
}

/// Whether an event of a hooks object holds a Cursor entry of ours.
pub open spec fn cursor_event_has_ours(h: Seq<(Seq<char>, JsonView)>, e: Seq<char>) -> bool {
    match lookup(h, e) {
        Some(JsonView::Array(list)) => any_ours(list),
        _ => false,
    }
}

/// Removal under the Codex events leaves none of our hooks under them, keeps
/// keys unique, and changes nothing when it reports no change.
proof fn lemma_removed_codex_events(h: Seq<(Seq<char>, JsonView)>, evs: Seq<Seq<char>>)
    requires
        evs.no_duplicates(),
    ensures
        keys_unique(h) ==> keys_unique(removed_codex_events(h, evs).0),
        keys_unique(h) ==> forall|n: int|
            0 <= n < evs.len() ==> !codex_event_has_ours(removed_codex_events(h, evs).0, #[trigger] evs[n]),
        !removed_codex_events(h, evs).1 ==> removed_codex_events(h, evs).0 == h,
    decreases evs.len(),
{
    if evs.len() > 0 {
        let d = evs.drop_last();
        let e = evs.last();
        assert(d.no_duplicates());
        lemma_removed_codex_events(h, d);
        let (h1, c1) = removed_codex_events(h, d);
        let out = removed_codex_events(h, evs).0;
        match lookup(h1, e) {
            Some(JsonView::Array(list)) => {
                lemma_cleaned_codex_list(list);
                let (kept, c) = cleaned_codex_list(list);
                if keys_unique(h) {
                    if kept.len() == 0 {
                        assert forall|n: int| 0 <= n < evs.len() implies !codex_event_has_ours(
                            out,
                            #[trigger] evs[n],
                        ) by {
                            lemma_lookup_remove_field(h1, e, evs[n]);
                            if n < evs.len() - 1 {
                                assert(d[n] == evs[n]);
                            }
                        }
                        lemma_lookup_remove_field(h1, e, e);
                    } else {
                        lemma_set_field_unique(h1, e, JsonView::Array(kept));
                        assert forall|n: int| 0 <= n < evs.len() implies !codex_event_has_ours(
                            out,
                            #[trigger] evs[n],
                        ) by {
                            lemma_lookup_set_field(h1, e, JsonView::Array(kept), evs[n]);
                            if n < evs.len() - 1 {
                                assert(d[n] == evs[n]);
                            }
                        }
                    }
                }
                if !removed_codex_events(h, evs).1 {
                    lemma_set_field_same(h1, e, JsonView::Array(list));
                }
            },
            _ => {
                if keys_unique(h) {
                    assert forall|n: int| 0 <= n < evs.len() implies !codex_event_has_ours(
                        out,
                        #[trigger] evs[n],
                    ) by {
                        if n < evs.len() - 1 {
                            assert(d[n] == evs[n]);
                        }
                    }
                }
            },
        }
    }
}

/// Removal under the Cursor events leaves none of our entries under them and
/// keeps keys unique.
proof fn lemma_removed_cursor_events(h: Seq<(Seq<char>, JsonView)>, evs: Seq<Seq<char>>)
    requires
        evs.no_duplicates(),
        keys_unique(h),
    ensures
        keys_unique(removed_cursor_events(h, evs).0),
        forall|n: int|
            0 <= n < evs.len() ==> !cursor_event_has_ours(removed_cursor_events(h, evs).0, #[trigger] evs[n]),
    decreases evs.len(),
{
    if evs.len() > 0 {
        let d = evs.drop_last();
        let e = evs.last();
        assert(d.no_duplicates());
        lemma_removed_cursor_events(h, d);
        let (h1, c1) = removed_cursor_events(h, d);
        let out = removed_cursor_events(h, evs).0;
        match lookup(h1, e) {
            Some(JsonView::Array(list)) => {
                lemma_without_ours(list);
                let kept = without_ours(list);
                if kept.len() == 0 {
                    assert forall|n: int| 0 <= n < evs.len() implies !cursor_event_has_ours(
                        out,
                        #[trigger] evs[n],
                    ) by {
                        lemma_lookup_remove_field(h1, e, evs[n]);
                        if n < evs.len() - 1 {
                            assert(d[n] == evs[n]);
                        }
                    }
                    lemma_lookup_remove_field(h1, e, e);
                } else {
                    lemma_set_field_unique(h1, e, JsonView::Array(kept));
                    assert forall|n: int| 0 <= n < evs.len() implies !cursor_event_has_ours(
                        out,
                        #[trigger] evs[n],
                    ) by {
                        lemma_lookup_set_field(h1, e, JsonView::Array(kept), evs[n]);
                        if n < evs.len() - 1 {
                            assert(d[n] == evs[n]);
                        }
                    }
                }
            },
            _ => {
                assert forall|n: int| 0 <= n < evs.len() implies !cursor_event_has_ours(
                    out,
                    #[trigger] evs[n],
                ) by {
                    if n < evs.len() - 1 {
                        assert(d[n] == evs[n]);
                    }
                }
            },
        }
    }
}

/// After Harbor Light's hooks are removed from a Codex hook configuration
/// whose hooks object has distinct keys, no Codex event holds one of our
/// hooks.
pub proof fn law_codex_removal_leaves_none_of_ours(root: JsonView, e: Seq<char>)
    requires
        codex_hook_events().contains(e),
        hooks_object(root) matches Some(h) ==> keys_unique(h),
    ensures
        hooks_object(removed_codex(root).0) == (match hooks_object(root) {
            Some(h) => Some(removed_codex_events(h, codex_hook_events()).0),
            None => None,
        }),
        hooks_object(removed_codex(root).0) matches Some(h2) ==> !codex_event_has_ours(h2, e),
{
    reveal_strlit("hooks");
    lemma_codex_events_distinct();
    let evs = codex_hook_events();
    let n = choose|n: int| 0 <= n < evs.len() && evs[n] == e;
    match hooks_object(root) {
        Some(h) => {
            let f = root->Object_0;
            let h2 = removed_codex_events(h, evs).0;
            lemma_lookup_set_field(f, "hooks"@, JsonView::Object(h2), "hooks"@);
            lemma_removed_codex_events(h, evs);
        },
        None => {},
    }
}

/// A removal from a Codex hook configuration that reports no change returns
/// the configuration as it was, so that nothing needs to be written.
pub proof fn law_codex_removal_without_change_is_identity(root: JsonView)
    ensures
        !removed_codex(root).1 ==> removed_codex(root).0 == root,
{
    reveal_strlit("hooks");
    lemma_codex_events_distinct();
    match hooks_object(root) {
        Some(h) => {
            let f = root->Object_0;
            lemma_removed_codex_events(h, codex_hook_events());
            if !removed_codex(root).1 {
                lemma_set_field_same(f, "hooks"@, JsonView::Object(h));
            }
        },
        None => {},
    }
}

/// After Harbor Light's entries are removed from a Cursor hook configuration
/// whose hooks object has distinct keys, no Cursor event holds one of our
/// entries.
pub proof fn law_cursor_removal_leaves_none_of_ours(root: JsonView, e: Seq<char>)
    requires
        cursor_hook_events().contains(e),
        hooks_object(root) matches Some(h) ==> keys_unique(h),
    ensures
        hooks_object(removed_cursor(root).0) == (match hooks_object(root) {
            Some(h) => Some(removed_cursor_events(h, cursor_hook_events()).0),
            None => None,
        }),
        hooks_object(removed_cursor(root).0) matches Some(h2) ==> !cursor_event_has_ours(h2, e),
{
    reveal_strlit("hooks");
    lemma_cursor_events_distinct();
    let evs = cursor_hook_events();
    let n = choose|n: int| 0 <= n < evs.len() && evs[n] == e;
    match hooks_object(root) {
        Some(h) => {
            let f = root->Object_0;
            let h2 = removed_cursor_events(h, evs).0;
            lemma_lookup_set_field(f, "hooks"@, JsonView::Object(h2), "hooks"@);
            lemma_removed_cursor_events(h, evs);
        },
        None => {},
    }
}

/// A merge under some events leaves the other keys of the hooks object as
/// they were.
proof fn lemma_merged_codex_other_keys(
    h0: Seq<(Seq<char>, JsonView)>,
    evs: Seq<Seq<char>>,
    c: Seq<char>,
    k: Seq<char>,
)
    requires
        !evs.contains(k),
    ensures
        lookup(merged_codex_events(h0, evs, c), k) == lookup(h0, k),
    decreases evs.len(),
{
    if evs.len() > 0 {
        let d = evs.drop_last();
        assert(!d.contains(k)) by {
            if d.contains(k) {
                let j = choose|j: int| 0 <= j < d.len() && d[j] == k;
                assert(evs[j] == k);
            }
        }
        lemma_merged_codex_other_keys(h0, d, c, k);
        let h = merged_codex_events(h0, d, c);
        let e = evs.last();
        assert(evs[evs.len() - 1] == e);
        lemma_lookup_set_field(h, e, JsonView::Array(merged_codex_list(event_list(h, e), c)), k);
    }
}

/// The same for Cursor merges.
proof fn lemma_merged_cursor_other_keys(
    h0: Seq<(Seq<char>, JsonView)>,
    evs: Seq<Seq<char>>,
    c: Seq<char>,
    k: Seq<char>,
)
    requires
        !evs.contains(k),
    ensures
        lookup(merged_cursor_events(h0, evs, c), k) == lookup(h0, k),
    decreases evs.len(),
{
    if evs.len() > 0 {
        let d = evs.drop_last();
        assert(!d.contains(k)) by {
            if d.contains(k) {
                let j = choose|j: int| 0 <= j < d.len() && d[j] == k;
                assert(evs[j] == k);
            }
        }
        lemma_merged_cursor_other_keys(h0, d, c, k);
        let h = merged_cursor_events(h0, d, c);
        let e = evs.last();
        assert(evs[evs.len() - 1] == e);
        lemma_lookup_set_field(h, e, JsonView::Array(upserted_cursor_list(event_list(h, e), c)), k);
    }
}

/// The prefix of distinct events before `n` does not hold the event at `n`.
proof fn lemma_prefix_excludes(evs: Seq<Seq<char>>, n: int)
    requires
        evs.no_duplicates(),
        0 <= n < evs.len(),
    ensures
        !evs.take(n).contains(evs[n]),
{
    if evs.take(n).contains(evs[n]) {
        let j = choose|j: int| 0 <= j < n && evs.take(n)[j] == evs[n];
        assert(evs[j] == evs[n]);
    }
}

/// The hooks object of a document before and after a Codex merge.
proof fn lemma_merged_codex_shape(root: Option<JsonView>, cmd: Seq<char>) -> (r: (
    Seq<(Seq<char>, JsonView)>,
    Seq<(Seq<char>, JsonView)>,
))
    requires
        merged_codex(root, cmd) is Ok,
    ensures
        r.0 == (match root {
            Some(v) => match hooks_object(v) {
                Some(h) => h,
                None => Seq::empty(),
            },
            None => Seq::empty(),
        }),
        hooks_object(merged_codex(root, cmd)->Ok_0) == Some(r.1),
        r.1 == merged_codex_events(r.0, codex_hook_events(), cmd),
{
    reveal_strlit("hooks");
    let r = match root {
        Some(v) => v,
        None => JsonView::Object(seq![("hooks"@, JsonView::Object(Seq::empty()))]),
    };
    let f = r->Object_0;
    let f1 = with_default(f, "hooks"@, JsonView::Object(Seq::empty()));
    lemma_lookup_set_field(f, "hooks"@, JsonView::Object(Seq::empty()), "hooks"@);
    let h = lookup(f1, "hooks"@)->0->Object_0;
    let h1 = merged_codex_events(h, codex_hook_events(), cmd);
    lemma_lookup_set_field(f1, "hooks"@, JsonView::Object(h1), "hooks"@);
    if root is None {
        lemma_field_index_unique(seq![("hooks"@, JsonView::Object(Seq::empty()))], "hooks"@, 0);
    }
    (h, h1)
}

/// A Codex merge keeps what is not Harbor Light's: members of the hooks
/// object other than the Codex events stay as they were, and in each Codex
/// event's list every group without one of our hooks keeps its place.
pub proof fn law_codex_merge_preserves_other_hooks(root: Option<JsonView>, cmd: Seq<char>, k: Seq<char>)
    requires
        our_hook_command(cmd),
        merged_codex(root, cmd) is Ok,
    ensures
        ({
            let (h0, h1) = (
                match root {
                    Some(v) => match hooks_object(v) {
                        Some(h) => h,
                        None => Seq::empty(),
                    },
                    None => Seq::empty(),
                },
                hooks_object(merged_codex(root, cmd)->Ok_0)->0,
            );
            &&& !codex_hook_events().contains(k) ==> lookup(h1, k) == lookup(h0, k)
            &&& codex_hook_events().contains(k) ==> (lookup(h1, k) matches Some(JsonView::Array(m))
                && m.len() >= event_list(h0, k).len() && forall|i: int|
                0 <= i < event_list(h0, k).len() && !group_has_ours(#[trigger] event_list(h0, k)[i])
                    ==> m[i] == event_list(h0, k)[i])
        }),
{
    lemma_codex_events_distinct();
    let evs = codex_hook_events();
    let (h0, h1) = lemma_merged_codex_shape(root, cmd);
    if !evs.contains(k) {
        lemma_merged_codex_other_keys(h0, evs, cmd, k);
    } else {
        let n = choose|n: int| 0 <= n < evs.len() && evs[n] == k;
        lemma_merged_codex_lookup(h0, evs, cmd, n);
        lemma_prefix_excludes(evs, n);
        lemma_merged_codex_other_keys(h0, evs.take(n), cmd, k);
        let l = event_list(h0, k);
        assert(event_list(merged_codex_events(h0, evs.take(n), cmd), k) == l);
        let m = merged_codex_list(l, cmd);
        assert forall|i: int| 0 <= i < l.len() && !group_has_ours(#[trigger] l[i]) implies m[i]
            == l[i] by {
            lemma_replaced_group_twice(l[i], cmd);
        }
    }
}

/// Removing our entries from a scanned Cursor list and from the list itself
/// leaves the same entries.
proof fn lemma_upsert_scan_keeps_others(list: Seq<JsonView>, c: Seq<char>)
    requires
        our_hook_command(c),
    ensures
        without_ours(upsert_scan(list, c).0) == without_ours(list),
    decreases list.len(),
{
    if list.len() > 0 {
        let d = list.drop_last();
        let e = list.last();
        lemma_upsert_scan_keeps_others(d, c);
        let (r, found) = upsert_scan(d, c);
        let out = upsert_scan(list, c).0;
        if !is_ours(e) {
            assert(out.drop_last() =~= r);
        } else if !found {
            lemma_with_command(e, c, cursor_timeout());
            assert(out.drop_last() =~= r);
        }
    }
}

/// The hooks object of a document before a Cursor merge, and what the merge
/// makes of it.
proof fn lemma_merged_cursor_hooks(root: Option<JsonView>, cmd: Seq<char>) -> (h: Seq<(Seq<char>, JsonView)>)
    requires
        merged_cursor(root, cmd) is Ok,
    ensures
        h == (match root {
            Some(v) => match hooks_object(v) {
                Some(h) => h,
                None => Seq::empty(),
            },
            None => Seq::empty(),
        }),
        hooks_object(merged_cursor(root, cmd)->Ok_0) == Some(
            merged_cursor_events(h, cursor_hook_events(), cmd),
        ),
{
    reveal_strlit("hooks");
    reveal_strlit("version");
    let r = match root {
        Some(v) => v,
        None => JsonView::Object(
            seq![
                ("version"@, JsonView::Number("1"@)),
                ("hooks"@, JsonView::Object(Seq::empty())),
            ],
        ),
    };
    let f = r->Object_0;
    let f1 = with_default(f, "version"@, JsonView::Number("1"@));
    assert("version"@.len() == 7);
    assert("hooks"@.len() == 5);
    lemma_lookup_set_field(f, "version"@, JsonView::Number("1"@), "hooks"@);
    let f2 = with_default(f1, "hooks"@, JsonView::Object(Seq::empty()));
    lemma_lookup_set_field(f1, "hooks"@, JsonView::Object(Seq::empty()), "hooks"@);
    if root is None {
        let sf = seq![
            ("version"@, JsonView::Number("1"@)),
            ("hooks"@, JsonView::Object(Seq::empty())),
        ];
        assert(sf[0].0 == "version"@);
        assert(sf[0].0 != "hooks"@);
        lemma_field_index_unique(sf, "hooks"@, 1);
    }
    let h = lookup(f2, "hooks"@)->0->Object_0;
    let h1 = merged_cursor_events(h, cursor_hook_events(), cmd);
    lemma_lookup_set_field(f2, "hooks"@, JsonView::Object(h1), "hooks"@);
    h
}

/// A Cursor merge keeps what is not Harbor Light's: members of the hooks
/// object other than the Cursor events stay as they were, and each Cursor
/// event keeps its other entries, in order.
pub proof fn law_cursor_merge_preserves_other_hooks(root: Option<JsonView>, cmd: Seq<char>, k: Seq<char>)
    requires
        our_hook_command(cmd),
        merged_cursor(root, cmd) is Ok,
    ensures
        ({
            let (h0, h1) = (
                match root {
                    Some(v) => match hooks_object(v) {
                        Some(h) => h,
                        None => Seq::empty(),
                    },
                    None => Seq::empty(),
                },
                hooks_object(merged_cursor(root, cmd)->Ok_0)->0,
            );
            &&& !cursor_hook_events().contains(k) ==> lookup(h1, k) == lookup(h0, k)
            &&& cursor_hook_events().contains(k) ==> (lookup(h1, k) matches Some(JsonView::Array(m))
                && without_ours(m) == without_ours(event_list(h0, k)))
        }),
{
    lemma_cursor_events_distinct();
    let evs = cursor_hook_events();
    let h = lemma_merged_cursor_hooks(root, cmd);
    if !evs.contains(k) {
        lemma_merged_cursor_other_keys(h, evs, cmd, k);
    } else {
        let n = choose|n: int| 0 <= n < evs.len() && evs[n] == k;
        lemma_merged_cursor_lookup(h, evs, cmd, n);
        lemma_prefix_excludes(evs, n);
        lemma_merged_cursor_other_keys(h, evs.take(n), cmd, k);
        let l = event_list(h, k);
        assert(event_list(merged_cursor_events(h, evs.take(n), cmd), k) == l);
        lemma_upsert_scan_keeps_others(l, cmd);
        let (sr, found) = upsert_scan(l, cmd);
        if !found {
            lemma_cursor_entry(cmd);
            assert(sr.push(cursor_entry(cmd)).drop_last() =~= sr);
        }
    }
}

// ------------------------------------------------------ written commands

/// Whether a text names Harbor Light or its former name Codex Light.
pub open spec fn names_harbor_light(s: Seq<char>) -> bool {
    ||| contains_seq(s, "harbor-light"@)
    ||| contains_seq(s, "harborlight"@)
    ||| contains_seq(s, "codex-light"@)
    ||| contains_seq(s, "codexlight"@)
}

/// Dropping quotes works piece by piece.
proof fn lemma_drop_quotes_concat(x: Seq<char>, y: Seq<char>)
    ensures
        drop_quotes(x + y) == drop_quotes(x) + drop_quotes(y),
    decreases y.len(),
{
    if y.len() == 0 {
        assert(x + y =~= x);
        assert(drop_quotes(x) + drop_quotes(y) =~= drop_quotes(x));
    } else {
        lemma_drop_quotes_concat(x, y.drop_last());
        assert((x + y).drop_last() =~= x + y.drop_last());
        assert((x + y).last() == y.last());
        if y.last() != '"' {
            assert(drop_quotes(x) + drop_quotes(y) =~= (drop_quotes(x) + drop_quotes(y.drop_last())).push(
                y.last(),
            ));
        }
    }
}

/// A text without quotes keeps all of its characters.
proof fn lemma_drop_quotes_none(x: Seq<char>)
    requires
        forall|i: int| 0 <= i < x.len() ==> x[i] != '"',
    ensures
        drop_quotes(x) == x,
    decreases x.len(),
{
    if x.len() > 0 {
        lemma_drop_quotes_none(x.drop_last());
        assert(x.drop_last().push(x.last()) =~= x);
    }
}

/// Lower-casing keeps white space and everything else apart.
proof fn lemma_ascii_lower_ws(c: char)
    ensures
        is_ws(ascii_lower(c)) == is_ws(c),
{
    if 'A' <= c && c <= 'Z' {
        assert(('a' as u32) <= ((c as u32) + 32) as char as u32 <= ('z' as u32));
    }
}

/// The text after the binary in a hook command.
pub open spec fn command_tail(p: Provider) -> Seq<char> {
    " hook --provider "@ + provider_name(p)
}

/// What is known of the text after the binary.
proof fn lemma_command_tail(p: Provider)
    ensures
        command_tail(p).len() > 6,
        forall|i: int| 0 <= i < command_tail(p).len() ==> command_tail(p)[i] != '"',
        ascii_lower_seq(command_tail(p)) == command_tail(p),
        command_tail(p)[0] == ' ',
        command_tail(p).subrange(1, 5) == "hook"@,
        command_tail(p)[5] == ' ',
        !is_ws(command_tail(p).last()),
{
    reveal_strlit(" hook --provider ");
    reveal_strlit("hook");
    reveal_strlit("codex");
    reveal_strlit("cursor");
    let t = command_tail(p);
    assert(ascii_lower_seq(t) =~= t);
    assert(t.subrange(1, 5) =~= "hook"@);
}

/// A name that occurs in the lower-cased text after its leading white space
/// occurs in the lower-cased trimmed text.
proof fn lemma_name_survives(q: Seq<char>, tail: Seq<char>, k: int, name: Seq<char>, j: int)
    requires
        0 <= k <= q.len(),
        forall|x: int| 0 <= x < k ==> is_ws(#[trigger] q[x]),
        occurs_at(ascii_lower_seq(q), name, j),
        name.len() > 0,
        !is_ws(name[0]),
    ensures
        contains_seq(ascii_lower_seq(q.skip(k)) + tail, name),
{
    let lq = ascii_lower_seq(q);
    assert(lq[j] == name[0]);
    lemma_ascii_lower_ws(q[j]);
    assert(j >= k) by {
        if j < k {
            assert(is_ws(q[j]));
        }
    }
    let n = ascii_lower_seq(q.skip(k)) + tail;
    assert(n.subrange(j - k, j - k + name.len()) =~= lq.subrange(j, j + name.len()));
    assert(occurs_at(n, name, j - k));
}

/// Harbor Light recognizes the hook commands that it writes: a command made
/// for a binary whose path names Harbor Light (or Codex Light), apart from
/// letter case and quotes, is one of ours. Reinstalling therefore replaces
/// the hooks that an earlier install wrote instead of adding new ones.
pub proof fn law_written_commands_are_ours(binary: Seq<char>, p: Provider)
    requires
        names_harbor_light(ascii_lower_seq(drop_quotes(without_verbatim_prefix(binary)))),
    ensures
        our_hook_command(hook_command(binary, p)),
{
    let d = without_verbatim_prefix(binary);
    let q = drop_quotes(d);
    let tail = command_tail(p);
    lemma_command_tail(p);
    let shown = if d.contains(' ') {
        seq!['"'] + d + seq!['"']
    } else {
        d
    };
    assert(hook_command(binary, p) == shown + tail) by {
        assert(shown + " hook --provider "@ + provider_name(p) =~= shown + tail);
    }
    // Without quotes, the command is the path's text followed by the tail.
    lemma_drop_quotes_none(tail);
    lemma_drop_quotes_concat(shown, tail);
    if d.contains(' ') {
        lemma_drop_quotes_concat(seq!['"'] + d, seq!['"']);
        lemma_drop_quotes_concat(seq!['"'], d);
        assert(seq!['"'].drop_last() =~= Seq::<char>::empty());
        assert(seq!['"'].last() == '"');
        assert(drop_quotes(Seq::<char>::empty()) == Seq::<char>::empty());
        assert(drop_quotes(seq!['"']) == drop_quotes(seq!['"'].drop_last()));
        assert(drop_quotes(seq!['"']) == Seq::<char>::empty());
        assert(Seq::<char>::empty() + q + Seq::<char>::empty() =~= q);
    }
    let nq = q + tail;
    assert(drop_quotes(hook_command(binary, p)) == nq);
    // The path's text holds a character that is not white space.
    let lq = ascii_lower_seq(q);
    let (name, j) = if contains_seq(lq, "harbor-light"@) {
        ("harbor-light"@, choose|j: int| occurs_at(lq, "harbor-light"@, j))
    } else if contains_seq(lq, "harborlight"@) {
        ("harborlight"@, choose|j: int| occurs_at(lq, "harborlight"@, j))
    } else if contains_seq(lq, "codex-light"@) {
        ("codex-light"@, choose|j: int| occurs_at(lq, "codex-light"@, j))
    } else {
        ("codexlight"@, choose|j: int| occurs_at(lq, "codexlight"@, j))
    };
    reveal_strlit("harbor-light");
    reveal_strlit("harborlight");
    reveal_strlit("codex-light");
    reveal_strlit("codexlight");
    assert(occurs_at(lq, name, j));
    assert(lq[j] == name[0]);
    lemma_ascii_lower_ws(q[j]);
    lemma_leading_ws(q);
    let k = leading_ws(q) as int;
    assert(k <= j);
    // Trimming removes the leading white space of the path's text only.
    assert forall|x: int| 0 <= x < k implies is_ws(#[trigger] nq[x]) by {
        assert(nq[x] == q[x]);
    }
    assert(nq[k] == q[k]);
    lemma_leading_ws_char(nq, k);
    let ts = trim_start(nq);
    assert(ts =~= q.skip(k) + tail);
    assert(ts.last() == tail.last());
    lemma_trailing_ws_char(ts, 0);
    assert(trim_end(ts) =~= ts);
    assert(trim(nq) == q.skip(k) + tail);
    let n = normalized_command(hook_command(binary, p));
    assert(ascii_lower_seq(q.skip(k) + tail) =~= ascii_lower_seq(q.skip(k)) + ascii_lower_seq(tail));
    assert(n == ascii_lower_seq(q.skip(k)) + tail);
    // The word `hook` follows the path's text.
    let at = q.len() - k + 1;
    let lqs = ascii_lower_seq(q.skip(k));
    assert(n.subrange(at, at + 4) =~= tail.subrange(1, 5));
    assert(n[at - 1] == tail[0]);
    assert(n[at + 4] == tail[5]);
    assert(word_at(n, "hook"@, at));
    // The name survives the trimming.
    assert forall|x: int| 0 <= x < k implies is_ws(#[trigger] q[x]) by {}
    lemma_name_survives(q, tail, k, name, j);
}

} // verus!
