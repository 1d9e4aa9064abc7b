//! The hook entry point's own logic: cleaning the raw input, salvaging
//! truncated payloads, and the legacy status record written for Codex.
use vstd::prelude::*;

use crate::activity::{
    apply_hook_action, hook_action_effect, opt_view, ActivitySnapshot, StoreOp, StoreOpView,
};
use crate::providers::{CodexHookPayload, CursorHookPayload, HookAction, HookPayload, Provider};
use crate::status::StatusSnapshot;
use crate::text::{
    chars_of, copy_opt_string, find_from, has_prefix, is_whitespace, is_ws, leading_ws, occurs_at,
    starts_with, string_of, string_of_range, trim, trim_bounds, trim_start,
};
use crate::time::Timestamp;

verus! {

// ----------------------------------------------------------------- input

/// The number of leading byte-order marks (U+FEFF) of `s`.
pub open spec fn leading_boms(s: Seq<char>) -> nat
    decreases s.len(),
{
    if s.len() > 0 && s[0] == '\u{feff}' {
        1 + leading_boms(s.drop_first())
    } else {
        0
    }
}

proof fn lemma_leading_boms(s: Seq<char>, k: int)
    requires
        0 <= k <= s.len(),
        forall|j: int| 0 <= j < k ==> #[trigger] s[j] == '\u{feff}',
        k < s.len() ==> s[k] != '\u{feff}',
    ensures
        leading_boms(s) == k,
    decreases s.len(),
{
    if k > 0 {
        assert(s[0] == '\u{feff}');
        assert forall|j: int| 0 <= j < k - 1 implies #[trigger] s.drop_first()[j] == '\u{feff}' by {
            assert(s.drop_first()[j] == s[j + 1]);
        }
        if k - 1 < s.drop_first().len() {
            assert(s.drop_first()[k - 1] == s[k]);
        }
        lemma_leading_boms(s.drop_first(), k - 1);
    }
}

/// The hook input without leading byte-order marks (Cursor on Windows may
/// send one; `str::trim` keeps U+FEFF) and without surrounding white space.
pub open spec fn cleaned_input(raw: Seq<char>) -> Seq<char> {
    trim(raw.skip(leading_boms(raw) as int))
}

/// Cleans the raw hook input; `None` when nothing is left.
pub fn prepare_hook_input(raw: &str) -> (r: Option<String>)
    ensures
        match r {
            Some(s) => s@ == cleaned_input(raw@) && s@.len() > 0,
            None => cleaned_input(raw@).len() == 0,
        },
{
    let v = chars_of(raw);
    let mut start: usize = 0;
    while start < v.len() && v[start] == '\u{feff}'
        invariant
            start <= v@.len(),
            forall|j: int| 0 <= j < start ==> #[trigger] v@[j] == '\u{feff}',
        decreases v.len() - start,
    {
        start = start + 1;
    }
    proof {
        lemma_leading_boms(v@, start as int);
    }
    let mut rest: Vec<char> = Vec::new();
    let mut i: usize = start;
    while i < v.len()
        invariant
            start <= i <= v@.len(),
            rest@ == v@.subrange(start as int, i as int),
        decreases v.len() - i,
    {
        rest.push(v[i]);
        i = i + 1;
        assert(rest@ =~= v@.subrange(start as int, i as int));
    }
    assert(rest@ =~= v@.skip(start as int));
    let (a, b) = trim_bounds(&rest);
    if a == b {
        None
    } else {
        Some(string_of_range(&rest, a, b))
    }
}

// ------------------------------------------------------ string literals

/// The value of a hexadecimal digit.
pub open spec fn hex_value(c: char) -> Option<u32> {
    if '0' <= c && c <= '9' {
        Some((c as u32 - '0' as u32) as u32)
    } else if 'a' <= c && c <= 'f' {
        Some((c as u32 - 'a' as u32 + 10) as u32)
    } else if 'A' <= c && c <= 'F' {
        Some((c as u32 - 'A' as u32 + 10) as u32)
    } else {
        None
    }
}

/// The value of a sequence of hexadecimal digits, most significant first.
pub open spec fn hex_digits_value(s: Seq<char>) -> Option<int>
    decreases s.len(),
{
    if s.len() == 0 {
        Some(0)
    } else {
        match (hex_digits_value(s.drop_last()), hex_value(s.last())) {
            (Some(h), Some(d)) => Some(h * 16 + d),
            _ => None,
        }
    }
}

/// How `u32::from_str_radix(s, 16)` reads four characters: an optional
/// leading '+' followed by at least one hexadecimal digit.
pub open spec fn hex4_value(s: Seq<char>) -> Option<int> {
    if s.len() > 0 && s[0] == '+' {
        if s.len() == 1 {
            None
        } else {
            hex_digits_value(s.skip(1))
        }
    } else if s.len() == 0 {
        None
    } else {
        hex_digits_value(s)
    }
}

/// Whether a code point is a Unicode scalar value (what `char::from_u32`
/// accepts).
pub open spec fn is_scalar(v: int) -> bool {
    (0 <= v < 0xD800) || (0xE000 <= v <= 0x10FFFF)
}

/// The control characters (general category Cc), which `char::is_control`
/// accepts.
pub open spec fn is_control_char(c: char) -> bool {
    (c as u32) <= 0x1f || (0x7f <= (c as u32) && (c as u32) <= 0x9f)
}

/// The contents of a JSON string literal whose opening quote has been
/// consumed, given the characters `s` that follow and the contents `acc` read
/// so far: `None` when the input ends first, when a control character
/// occurs, or when a `\u` escape is not a valid scalar value. The escapes
/// `\"`, `\\`, `\n`, `\r`, `\t` and `\uXXXX` are decoded; any other escaped
/// character stands for itself.
pub open spec fn string_body(s: Seq<char>, acc: Seq<char>) -> Option<Seq<char>>
    decreases s.len(),
{
    if s.len() == 0 {
        None
    } else if s[0] == '"' {
        Some(acc)
    } else if s[0] == '\\' {
        if s.len() < 2 {
            None
        } else {
            let e = s[1];
            if e == 'u' {
                if s.len() < 6 {
                    None
                } else {
                    match hex4_value(s.subrange(2, 6)) {
                        Some(v) => if is_scalar(v) {
                            string_body(s.skip(6), acc.push(v as char))
                        } else {
                            None
                        },
                        None => None,
                    }
                }
            } else {
                let d = if e == 'n' {
                    '\n'
                } else if e == 'r' {
                    '\r'
                } else if e == 't' {
                    '\t'
                } else {
                    e
                };
                string_body(s.skip(2), acc.push(d))
            }
        }
    } else if is_control_char(s[0]) {
        None
    } else {
        string_body(s.skip(1), acc.push(s[0]))
    }
}

/// The contents of the JSON string literal that starts `s`, if `s` starts
/// with one.
pub open spec fn json_string_at(s: Seq<char>) -> Option<Seq<char>> {
    if s.len() > 0 && s[0] == '"' {
        string_body(s.skip(1), Seq::empty())
    } else {
        None
    }
}

/// The character with the given code point, when it is a Unicode scalar
/// value (`char::from_u32`).
#[verifier::external_body]
fn char_from_u32(v: u32) -> (r: Option<char>)
    ensures
        r == (if is_scalar(v as int) {
            Some(v as char)
        } else {
            None
        }),
{
    char::from_u32(v)
}

fn hex_value_of(c: char) -> (r: Option<u32>)
    ensures
        r == hex_value(c),
{
    if '0' <= c && c <= '9' {
        Some((c as u32) - ('0' as u32))
    } else if 'a' <= c && c <= 'f' {
        Some((c as u32) - ('a' as u32) + 10)
    } else if 'A' <= c && c <= 'F' {
        Some((c as u32) - ('A' as u32) + 10)
    } else {
        None
    }
}

proof fn lemma_hex_digits_bound(s: Seq<char>)
    ensures
        hex_digits_value(s) matches Some(v) ==> 0 <= v < pow16(s.len()),
    decreases s.len(),
{
    if s.len() > 0 {
        lemma_hex_digits_bound(s.drop_last());
        if let (Some(h), Some(d)) = (hex_digits_value(s.drop_last()), hex_value(s.last())) {
            assert(pow16(s.len()) == 16 * pow16(s.drop_last().len()));
            assert(h * 16 + d < pow16(s.len())) by (nonlinear_arith)
                requires
                    0 <= h < pow16(s.drop_last().len()),
                    0 <= d < 16,
                    pow16(s.len()) == 16 * pow16(s.drop_last().len()),
            ;
        }
    }
}

proof fn lemma_pow16_4()
    ensures
        pow16(4) == 65536,
{
    assert(pow16(0) == 1);
    assert(pow16(1) == 16);
    assert(pow16(2) == 256);
    assert(pow16(3) == 4096);
}

/// 16 to the given power.
pub open spec fn pow16(n: nat) -> int
    decreases n,
{
    if n == 0 {
        1
    } else {
        16 * pow16((n - 1) as nat)
    }
}

/// The value of the hexadecimal digits `v[from..to]` (at most four).
fn hex_digits_of(v: &Vec<char>, from: usize, to: usize) -> (r: Option<u32>)
    requires
        from <= to <= v@.len(),
        to - from <= 4,
    ensures
        match hex_digits_value(v@.subrange(from as int, to as int)) {
            Some(x) => r == Some(x as u32) && 0 <= x < 0x10000,
            None => r is None,
        },
{
    let mut acc: u32 = 0;
    let mut i: usize = from;
    while i < to
        invariant
            from <= i <= to <= v@.len(),
            to - from <= 4,
            hex_digits_value(v@.subrange(from as int, i as int)) == Some(acc as int),
            acc < pow16((i - from) as nat),
        decreases to - i,
    {
        proof {
            assert(v@.subrange(from as int, i + 1).drop_last() =~= v@.subrange(
                from as int,
                i as int,
            ));
            assert(pow16((i + 1 - from) as nat) == 16 * pow16((i - from) as nat));
            lemma_pow16_4();
            lemma_pow16_mono((i - from) as nat, 3);
        }
        match hex_value_of(v[i]) {
            Some(d) => {
                assert(acc * 16 + d < pow16((i + 1 - from) as nat)) by (nonlinear_arith)
                    requires
                        acc < pow16((i - from) as nat),
                        d < 16,
                        pow16((i + 1 - from) as nat) == 16 * pow16((i - from) as nat),
                ;
                acc = acc * 16 + d;
            },
            None => {
                proof {
                    lemma_hex_none_propagates(v@.subrange(from as int, to as int), (i - from) as int);
                    assert(v@.subrange(from as int, to as int).subrange(0, i - from + 1)
                        =~= v@.subrange(from as int, i + 1));
                }
                return None;
            },
        }
        i = i + 1;
    }
    proof {
        lemma_pow16_mono((to - from) as nat, 4);
        lemma_pow16_4();
    }
    Some(acc)
}

proof fn lemma_pow16_pos(n: nat)
    ensures
        pow16(n) >= 1,
    decreases n,
{
    if n > 0 {
        lemma_pow16_pos((n - 1) as nat);
    }
}

proof fn lemma_pow16_mono(a: nat, b: nat)
    requires
        a <= b,
    ensures
        pow16(a) <= pow16(b),
        pow16(a) >= 1,
    decreases b,
{
    lemma_pow16_pos(a);
    if a < b {
        lemma_pow16_mono(a, (b - 1) as nat);
    }
}

/// A digit that is not hexadecimal makes the whole value `None`.
proof fn lemma_hex_none_propagates(s: Seq<char>, k: int)
    requires
        0 <= k < s.len(),
        hex_value(s[k]) is None,
    ensures
        hex_digits_value(s) is None,
        hex_digits_value(s.subrange(0, k + 1)) is None,
    decreases s.len(),
{
    assert(s.subrange(0, k + 1).last() == s[k]);
    if k < s.len() - 1 {
        assert(s.drop_last()[k] == s[k]);
        lemma_hex_none_propagates(s.drop_last(), k);
    }
}

/// How the four characters after `\u` are read (`u32::from_str_radix`).
fn hex4_of(v: &Vec<char>, from: usize, to: usize) -> (r: Option<u32>)
    requires
        to == from + 4,
        to <= v@.len(),
    ensures
        match hex4_value(v@.subrange(from as int, to as int)) {
            Some(x) => r == Some(x as u32) && 0 <= x < 0x10000,
            None => r is None,
        },
{
    let ghost s = v@.subrange(from as int, to as int);
    if v[from] == '+' {
        proof {
            assert(s.skip(1) =~= v@.subrange(from + 1, to as int));
        }
        hex_digits_of(v, from + 1, to)
    } else {
        hex_digits_of(v, from, to)
    }
}

/// Reads the contents of a JSON string literal from `v[start..]`, where the
/// opening quote has been consumed.
fn read_string_body(v: &Vec<char>, start: usize) -> (r: Option<String>)
    requires
        start <= v@.len(),
    ensures
        r.deep_view() == string_body(v@.skip(start as int), Seq::empty()),
{
    let mut out = String::new();
    let mut i: usize = start;
    let vlen = v.len();
    while i < vlen
        invariant
            start <= i <= v@.len(),
            vlen == v@.len(),
            string_body(v@.skip(start as int), Seq::empty()) == string_body(
                v@.skip(i as int),
                out@,
            ),
        decreases vlen - i,
    {
        let ghost s = v@.skip(i as int);
        let ghost before = out@;
        let c = v[i];
        assert(s[0] == c);
        if c == '"' {
            return Some(out);
        } else if c == '\\' {
            if i + 1 >= vlen {
                return None;
            }
            let e = v[i + 1];
            assert(s[1] == e);
            if e == 'u' {
                if vlen - i < 6 {
                    return None;
                }
                assert(s.subrange(2, 6) =~= v@.subrange(i + 2, i + 6));
                match hex4_of(v, i + 2, i + 6) {
                    Some(code) => match char_from_u32(code) {
                        Some(ch) => {
                            out.push(ch);
                            proof {
                                let x = hex4_value(s.subrange(2, 6))->0;
                                assert(code as int == x);
                                assert(ch == x as char);
                                assert(string_body(s, before) == string_body(s.skip(6), out@));
                                assert(s.skip(6) =~= v@.skip(i + 6));
                            }
                            i = i + 6;
                        },
                        None => {
                            return None;
                        },
                    },
                    None => {
                        return None;
                    },
                }
            } else {
                let d = if e == 'n' {
                    '\n'
                } else if e == 'r' {
                    '\r'
                } else if e == 't' {
                    '\t'
                } else {
                    e
                };
                out.push(d);
                proof {
                    assert(string_body(s, before) == string_body(s.skip(2), out@));
                    assert(s.skip(2) =~= v@.skip(i + 2));
                }
                i = i + 2;
            }
        } else if (c as u32) <= 0x1f || (0x7f <= (c as u32) && (c as u32) <= 0x9f) {
            return None;
        } else {
            out.push(c);
            proof {
                assert(string_body(s, before) == string_body(s.skip(1), out@));
                assert(s.skip(1) =~= v@.skip(i + 1));
            }
            i = i + 1;
        }
    }
    assert(v@.skip(i as int) =~= Seq::<char>::empty());
    None
}

/// Reads the JSON string literal that starts `v[start..]`.
fn read_json_string(v: &Vec<char>, start: usize) -> (r: Option<String>)
    requires
        start <= v@.len(),
    ensures
        r.deep_view() == json_string_at(v@.skip(start as int)),
{
    if start < v.len() && v[start] == '"' {
        assert(v@.skip(start as int).skip(1) =~= v@.skip(start + 1));
        read_string_body(v, start + 1)
    } else {
        None
    }
}

/// The contents of the JSON string literal that starts `input`.
pub fn parse_json_string(input: &str) -> (r: Option<String>)
    ensures
        r.deep_view() == json_string_at(input@),
{
    let v = chars_of(input);
    assert(v@.skip(0) =~= v@);
    read_json_string(&v, 0)
}

// ----------------------------------------------------------- key lookup

/// The first position at or after `from` where `needle` occurs in `s`.
pub open spec fn first_occurrence(s: Seq<char>, needle: Seq<char>, from: int) -> Option<int>
    decreases s.len() + 1 - from,
{
    if from < 0 || from > s.len() {
        None
    } else if occurs_at(s, needle, from) {
        Some(from)
    } else {
        first_occurrence(s, needle, from + 1)
    }
}

/// A first occurrence found from `from` lies at or after `from` and is an occurrence.
pub proof fn lemma_first_occurrence_props(s: Seq<char>, needle: Seq<char>, from: int)
    ensures
        first_occurrence(s, needle, from) matches Some(i) ==> from <= i && occurs_at(s, needle, i),
    decreases s.len() + 1 - from,
{
    if 0 <= from <= s.len() && !occurs_at(s, needle, from) {
        lemma_first_occurrence_props(s, needle, from + 1);
    }
}

proof fn lemma_first_occurrence(s: Seq<char>, needle: Seq<char>, from: int, i: int)
    requires
        0 <= from <= i,
        occurs_at(s, needle, i),
        forall|j: int| from <= j < i ==> !occurs_at(s, needle, j),
    ensures
        first_occurrence(s, needle, from) == Some(i),
    decreases i - from,
{
    if from < i {
        lemma_first_occurrence(s, needle, from + 1, i);
    }
}

proof fn lemma_no_occurrence(s: Seq<char>, needle: Seq<char>, from: int)
    requires
        0 <= from,
        forall|j: int| from <= j ==> !occurs_at(s, needle, j),
    ensures
        first_occurrence(s, needle, from) is None,
    decreases s.len() + 1 - from,
{
    if from <= s.len() {
        lemma_no_occurrence(s, needle, from + 1);
    }
}

/// The string value that follows a key mention at the end position `p`:
/// optional white space, ':', optional white space, a JSON string literal.
pub open spec fn value_after(s: Seq<char>, p: int) -> Option<Seq<char>> {
    let after = trim_start(s.skip(p));
    if after.len() > 0 && after[0] == ':' {
        json_string_at(trim_start(after.skip(1)))
    } else {
        None
    }
}

/// The string value of the first mention of `needle` at or after `from`
/// that is followed by ':' and a well-formed string literal.
pub open spec fn string_value_from(s: Seq<char>, needle: Seq<char>, from: int) -> Option<Seq<char>>
    decreases s.len() + 1 - from,
{
    if needle.len() == 0 || from < 0 {
        None
    } else {
        match first_occurrence(s, needle, from) {
            None => None,
            Some(i) => {
                let p = i + needle.len();
                if p > s.len() {
                    None
                } else {
                    match value_after(s, p) {
                        Some(v) => Some(v),
                        None => {
                            proof {
                                lemma_first_occurrence_props(s, needle, from);
                            }
                            string_value_from(s, needle, p)
                        },
                    }
                }
            },
        }
    }
}

/// `"key"`, the way a key is written in JSON text.
pub open spec fn quoted_key(key: Seq<char>) -> Seq<char> {
    seq!['"'] + key + seq!['"']
}

/// The quoted form of a key.
fn quoted(key: &str) -> (r: Vec<char>)
    ensures
        r@ == quoted_key(key@),
{
    let k = chars_of(key);
    let mut r: Vec<char> = Vec::new();
    r.push('"');
    let mut i: usize = 0;
    while i < k.len()
        invariant
            i <= k@.len(),
            r@ == seq!['"'] + k@.take(i as int),
        decreases k.len() - i,
    {
        r.push(k[i]);
        i = i + 1;
        assert(r@ =~= seq!['"'] + k@.take(i as int));
    }
    r.push('"');
    assert(k@.take(i as int) =~= k@);
    assert(r@ =~= quoted_key(key@));
    r
}

/// The position of the first non-white-space character at or after `p`.
fn skip_ws(v: &Vec<char>, p: usize) -> (r: usize)
    requires
        p <= v@.len(),
    ensures
        r == p + leading_ws(v@.skip(p as int)),
        r <= v@.len(),
        v@.skip(r as int) == trim_start(v@.skip(p as int)),
{
    let mut r: usize = p;
    while r < v.len() && is_whitespace(v[r])
        invariant
            p <= r <= v@.len(),
            forall|j: int| p <= j < r ==> crate::text::is_ws(#[trigger] v@[j]),
        decreases v.len() - r,
    {
        r = r + 1;
    }
    proof {
        let t = v@.skip(p as int);
        assert forall|j: int| 0 <= j < r - p implies crate::text::is_ws(#[trigger] t[j]) by {
            assert(t[j] == v@[p + j]);
        }
        if r < v@.len() {
            assert(t[r - p] == v@[r as int]);
        }
        crate::text::lemma_leading_ws_char(t, r - p);
        assert(v@.skip(r as int) =~= t.skip(r - p));
    }
    r
}

/// The value of `"key": "<string>"` read at key end position `p`.
fn read_value_after(v: &Vec<char>, p: usize) -> (r: Option<String>)
    requires
        p <= v@.len(),
    ensures
        r.deep_view() == value_after(v@, p as int),
{
    let q = skip_ws(v, p);
    if q < v.len() && v[q] == ':' {
        let q1 = skip_ws(v, q + 1);
        proof {
            let after = trim_start(v@.skip(p as int));
            assert(after.skip(1) =~= v@.skip(q + 1));
        }
        read_json_string(v, q1)
    } else {
        None
    }
}

/// The string value of the first mention of `"key"` in `raw` that is
/// followed by ':' and a well-formed string literal. Used on JSON text that
/// did not parse, to salvage what a truncated payload still holds.
pub fn extract_json_string(raw: &str, key: &str) -> (r: Option<String>)
    ensures
        r.deep_view() == string_value_from(raw@, quoted_key(key@), 0),
{
    let v = chars_of(raw);
    let needle = quoted(key);
    let vlen = v.len();
    let mut from: usize = 0;
    loop
        invariant
            from <= vlen,
            vlen == v@.len(),
            v@ == raw@,
            needle@ == quoted_key(key@),
            string_value_from(v@, needle@, 0) == string_value_from(v@, needle@, from as int),
            needle@.len() >= 2,
        decreases vlen + 1 - from,
    {
        match find_from(&v, &needle, from) {
            None => {
                proof {
                    lemma_no_occurrence(v@, needle@, from as int);
                }
                return None;
            },
            Some(i) => {
                proof {
                    lemma_first_occurrence(v@, needle@, from as int, i as int);
                }
                let p = i + needle.len();
                match read_value_after(&v, p) {
                    Some(val) => {
                        return Some(val);
                    },
                    None => {
                        from = p;
                    },
                }
            },
        }
    }
}

/// The boolean that follows the first mention of `needle`: optional white
/// space, ':', optional white space, then `true` or `false`.
pub open spec fn bool_value(s: Seq<char>, needle: Seq<char>) -> Option<bool> {
    match first_occurrence(s, needle, 0) {
        None => None,
        Some(i) => {
            let after = trim_start(s.skip(i + needle.len()));
            if after.len() > 0 && after[0] == ':' {
                let rest = trim_start(after.skip(1));
                if has_prefix(rest, "true"@) {
                    Some(true)
                } else if has_prefix(rest, "false"@) {
                    Some(false)
                } else {
                    None
                }
            } else {
                None
            }
        },
    }
}

/// The boolean after the first mention of `"key"` in `raw`.
pub fn extract_json_bool(raw: &str, key: &str) -> (r: Option<bool>)
    ensures
        r == bool_value(raw@, quoted_key(key@)),
{
    let v = chars_of(raw);
    let needle = quoted(key);
    let vlen = v.len();
    match find_from(&v, &needle, 0) {
        None => {
            proof {
                lemma_no_occurrence(v@, needle@, 0);
            }
            None
        },
        Some(i) => {
            proof {
                lemma_first_occurrence(v@, needle@, 0, i as int);
            }
            let p = i + needle.len();
            let q = skip_ws(&v, p);
            if q < vlen && v[q] == ':' {
                let q1 = skip_ws(&v, q + 1);
                proof {
                    let after = trim_start(v@.skip(p as int));
                    assert(after.skip(1) =~= v@.skip(q + 1));
                }
                let mut rest: Vec<char> = Vec::new();
                let mut k: usize = q1;
                while k < v.len()
                    invariant
                        q1 <= k <= v@.len(),
                        rest@ == v@.subrange(q1 as int, k as int),
                    decreases v.len() - k,
                {
                    rest.push(v[k]);
                    k = k + 1;
                    assert(rest@ =~= v@.subrange(q1 as int, k as int));
                }
                assert(rest@ =~= v@.skip(q1 as int));
                if starts_with(&rest, &chars_of("true")) {
                    Some(true)
                } else if starts_with(&rest, &chars_of("false")) {
                    Some(false)
                } else {
                    None
                }
            } else {
                None
            }
        },
    }
}

// --------------------------------------------------------------- salvage

/// What a truncated hook payload still holds.
#[derive(Debug)]
pub struct SalvagedHook {
    pub hook_event_name: String,
    pub conversation_id: Option<String>,
    pub session_id: Option<String>,
    pub generation_id: Option<String>,
    pub status: Option<String>,
    pub cwd: Option<String>,
    pub permission: Option<String>,
    pub approval_required: Option<bool>,
}

/// The string value of a key in salvaged text.
pub open spec fn salvaged_string(raw: Seq<char>, key: Seq<char>) -> Option<Seq<char>> {
    string_value_from(raw, quoted_key(key), 0)
}

/// The approval flag of salvaged text, under any of its spellings.
pub open spec fn salvaged_approval(raw: Seq<char>) -> Option<bool> {
    match bool_value(raw, quoted_key("approval_required"@)) {
        Some(b) => Some(b),
        None => match bool_value(raw, quoted_key("approvalRequired"@)) {
            Some(b) => Some(b),
            None => bool_value(raw, quoted_key("requiresApproval"@)),
        },
    }
}

/// The boolean after the first mention of `needle`, when that mention is
/// directly followed by `:true` or `:false`.
proof fn lemma_bool_after_mention(raw: Seq<char>, needle: Seq<char>, i: int)
    requires
        occurs_at(raw, needle, i),
        forall|j: int| 0 <= j < i ==> !occurs_at(raw, needle, j),
    ensures
        has_prefix(raw.skip(i + needle.len()), ":true"@) ==> bool_value(raw, needle) == Some(true),
        has_prefix(raw.skip(i + needle.len()), ":false"@) ==> bool_value(raw, needle) == Some(
            false,
        ),
{
    reveal_strlit(":true");
    reveal_strlit(":false");
    reveal_strlit("true");
    reveal_strlit("false");
    lemma_first_occurrence(raw, needle, 0, i);
    let tail = raw.skip(i + needle.len());
    if has_prefix(tail, ":true"@) {
        let rest = tail.skip(1);
        assert(tail[0] == tail.take(5)[0]);
        assert(rest[0] == tail.take(5)[1]);
        assert(trim_start(tail) =~= tail);
        assert(trim_start(rest) =~= rest);
        assert(rest.take(4) =~= tail.take(5).skip(1));
        assert(":true"@.skip(1) =~= "true"@);
    }
    if has_prefix(tail, ":false"@) {
        let rest = tail.skip(1);
        assert(tail[0] == tail.take(6)[0]);
        assert(rest[0] == tail.take(6)[1]);
        assert(trim_start(tail) =~= tail);
        assert(trim_start(rest) =~= rest);
        assert(rest.take(4)[0] != "true"@[0]);
        assert(rest.take(5) =~= tail.take(6).skip(1));
        assert(":false"@.skip(1) =~= "false"@);
    }
}

/// When the first mention of `"approval_required"` in salvaged text is
/// directly followed by `:true` or `:false`, the salvaged approval flag is
/// that value, whatever the other spellings say.
pub proof fn law_salvaged_approval_flag(raw: Seq<char>, i: int)
    requires
        occurs_at(raw, quoted_key("approval_required"@), i),
        forall|j: int| 0 <= j < i ==> !occurs_at(raw, quoted_key("approval_required"@), j),
    ensures
        has_prefix(raw.skip(i + 19), ":true"@) ==> salvaged_approval(raw) == Some(true),
        has_prefix(raw.skip(i + 19), ":false"@) ==> salvaged_approval(raw) == Some(false),
{
    reveal_strlit("approval_required");
    lemma_bool_after_mention(raw, quoted_key("approval_required"@), i);
}

/// Without any mention of `"approval_required"`, the spelling
/// `"approvalRequired"` gives the salvaged approval flag when its first
/// mention is directly followed by `:true` or `:false`.
pub proof fn law_salvaged_approval_other_spelling(raw: Seq<char>, i: int)
    requires
        forall|j: int| !occurs_at(raw, quoted_key("approval_required"@), j),
        occurs_at(raw, quoted_key("approvalRequired"@), i),
        forall|j: int| 0 <= j < i ==> !occurs_at(raw, quoted_key("approvalRequired"@), j),
    ensures
        has_prefix(raw.skip(i + 18), ":true"@) ==> salvaged_approval(raw) == Some(true),
        has_prefix(raw.skip(i + 18), ":false"@) ==> salvaged_approval(raw) == Some(false),
{
    reveal_strlit("approvalRequired");
    lemma_no_occurrence(raw, quoted_key("approval_required"@), 0);
    lemma_bool_after_mention(raw, quoted_key("approvalRequired"@), i);
}

/// Salvages the fields of a hook payload from JSON text that did not parse
/// (Cursor may truncate long payloads). Nothing is salvaged without an event
/// name.
pub fn salvage_hook_payload(raw: &str) -> (r: Option<SalvagedHook>)
    ensures
        match salvaged_string(raw@, "hook_event_name"@) {
            None => r is None,
            Some(e) => r matches Some(h) && {
                &&& h.hook_event_name@ == e
                &&& h.conversation_id.deep_view() == salvaged_string(raw@, "conversation_id"@)
                &&& h.session_id.deep_view() == salvaged_string(raw@, "session_id"@)
                &&& h.generation_id.deep_view() == salvaged_string(raw@, "generation_id"@)
                &&& h.status.deep_view() == salvaged_string(raw@, "status"@)
                &&& h.cwd.deep_view() == salvaged_string(raw@, "cwd"@)
                &&& h.permission.deep_view() == salvaged_string(raw@, "permission"@)
                &&& h.approval_required == salvaged_approval(raw@)
            },
        },
{
    let hook_event_name = match extract_json_string(raw, "hook_event_name") {
        Some(e) => e,
        None => {
            return None;
        },
    };
    let approval_required = match extract_json_bool(raw, "approval_required") {
        Some(b) => Some(b),
        None => match extract_json_bool(raw, "approvalRequired") {
            Some(b) => Some(b),
            None => extract_json_bool(raw, "requiresApproval"),
        },
    };
    Some(
        SalvagedHook {
            hook_event_name,
            conversation_id: extract_json_string(raw, "conversation_id"),
            session_id: extract_json_string(raw, "session_id"),
            generation_id: extract_json_string(raw, "generation_id"),
            status: extract_json_string(raw, "status"),
            cwd: extract_json_string(raw, "cwd"),
            permission: extract_json_string(raw, "permission"),
            approval_required,
        },
    )
}

impl SalvagedHook {
    /// The Codex payload holding the salvaged fields.
    pub fn into_codex(self) -> (r: CodexHookPayload)
        ensures
            r.hook_event_name.deep_view() == Some(self.hook_event_name@),
            r.session_id.deep_view() == self.session_id.deep_view(),
            r.cwd.deep_view() == self.cwd.deep_view(),
    {
        CodexHookPayload {
            hook_event_name: Some(self.hook_event_name),
            session_id: self.session_id,
            cwd: self.cwd,
        }
    }

    /// The Cursor payload holding the salvaged fields.
    pub fn into_cursor(self) -> (r: CursorHookPayload)
        ensures
            r.hook_event_name.deep_view() == Some(self.hook_event_name@),
            r.conversation_id.deep_view() == self.conversation_id.deep_view(),
            r.session_id.deep_view() == self.session_id.deep_view(),
            r.generation_id.deep_view() == self.generation_id.deep_view(),
            r.workspace_roots@.len() == 0,
            r.cwd.deep_view() == self.cwd.deep_view(),
            r.status.deep_view() == self.status.deep_view(),
            r.reason is None,
            r.approval_required == self.approval_required,
            r.permission.deep_view() == self.permission.deep_view(),
    {
        CursorHookPayload {
            hook_event_name: Some(self.hook_event_name),
            conversation_id: self.conversation_id,
            session_id: self.session_id,
            generation_id: self.generation_id,
            workspace_roots: Vec::new(),
            cwd: self.cwd,
            status: self.status,
            reason: None,
            approval_required: self.approval_required,
            permission: self.permission,
        }
    }
}

// ---------------------------------------------------------------- payload

/// What reading the cleaned hook input as JSON gave.
#[derive(Debug)]
pub enum ParsedInput {
    /// The input is JSON of the provider's payload shape.
    Payload(HookPayload),
    /// The input is not JSON (it may be truncated).
    NotJson,
    /// The input is JSON, but not of the provider's payload shape.
    WrongShape,
}

/// The payload that a hook run normalizes: the parsed payload; for input
/// that is not JSON, the fields salvaged from it as the provider's payload;
/// nothing for JSON of another shape or when nothing can be salvaged.
pub fn hook_payload(provider: Provider, parsed: ParsedInput, input: &str) -> (r: Option<HookPayload>)
    ensures
        match parsed {
            ParsedInput::Payload(p) => r == Some(p),
            ParsedInput::WrongShape => r is None,
            ParsedInput::NotJson => match salvaged_string(input@, "hook_event_name"@) {
                None => r is None,
                Some(e) => match (provider, r) {
                    (Provider::Codex, Some(HookPayload::Codex(p))) => {
                        &&& p.hook_event_name.deep_view() == Some(e)
                        &&& p.session_id.deep_view() == salvaged_string(input@, "session_id"@)
                        &&& p.cwd.deep_view() == salvaged_string(input@, "cwd"@)
                    },
                    (Provider::Cursor, Some(HookPayload::Cursor(p))) => {
                        &&& p.hook_event_name.deep_view() == Some(e)
                        &&& p.conversation_id.deep_view() == salvaged_string(input@, "conversation_id"@)
                        &&& p.session_id.deep_view() == salvaged_string(input@, "session_id"@)
                        &&& p.generation_id.deep_view() == salvaged_string(input@, "generation_id"@)
                        &&& p.workspace_roots@.len() == 0
                        &&& p.cwd.deep_view() == salvaged_string(input@, "cwd"@)
                        &&& p.status.deep_view() == salvaged_string(input@, "status"@)
                        &&& p.reason is None
                        &&& p.approval_required == salvaged_approval(input@)
                        &&& p.permission.deep_view() == salvaged_string(input@, "permission"@)
                    },
                    _ => false,
                },
            },
        },
{
    match parsed {
        ParsedInput::Payload(p) => Some(p),
        ParsedInput::WrongShape => None,
        ParsedInput::NotJson => match salvage_hook_payload(input) {
            Some(h) => match provider {
                Provider::Codex => Some(HookPayload::Codex(h.into_codex())),
                Provider::Cursor => Some(HookPayload::Cursor(h.into_cursor())),
            },
            None => None,
        },
    }
}

// ---------------------------------------------------------- legacy record

/// The legacy status record written after a hook action at time `now`: only
/// Codex activities are mirrored there, with the activity's state, event
/// and conversation, so existing scripts keep working.
pub fn legacy_status_for(provider: Provider, snapshot: Option<&ActivitySnapshot>, now: Timestamp) -> (r:
    Option<StatusSnapshot>)
    ensures
        match snapshot {
            Some(a) => if provider == Provider::Codex {
                r matches Some(l) && {
                    &&& l.state == a.state
                    &&& l.updated_at == now
                    &&& l.source@ == "hook"@
                    &&& l.event.deep_view() == Some(a.event@)
                    &&& l.session_id.deep_view() == a.conversation_id.deep_view()
                }
            } else {
                r is None
            },
            None => r is None,
        },
{
    if provider != Provider::Codex {
        return None;
    }
    match snapshot {
        Some(a) => Some(
            StatusSnapshot::new_at(
                a.state,
                "hook",
                Some(a.event.clone()),
                copy_opt_string(&a.conversation_id),
                now,
            ),
        ),
        None => None,
    }
}

/// What a hook action writes at time `now`, given the activity stored under
/// its target (`existing`): the store operation, and for Codex the legacy
/// status record that mirrors the activity left behind. An ignored event
/// writes nothing.
pub fn hook_writes(
    provider: Provider,
    action: HookAction,
    existing: Option<ActivitySnapshot>,
    now: Timestamp,
) -> (r: (StoreOp, Option<StatusSnapshot>))
    ensures
        r.0@ == hook_action_effect(action, opt_view(existing), now).0,
        match hook_action_effect(action, opt_view(existing), now).1 {
            Some(a) => if provider == Provider::Codex {
                r.1 matches Some(l) && {
                    &&& l.state == a.state
                    &&& l.updated_at == now
                    &&& l.source@ == "hook"@
                    &&& l.event.deep_view() == Some(a.event)
                    &&& l.session_id.deep_view() == a.conversation_id
                }
            } else {
                r.1 is None
            },
            None => r.1 is None,
        },
        action is Ignore ==> r.0@ == StoreOpView::Keep && r.1 is None,
{
    let (op, snapshot) = apply_hook_action(action, existing, now);
    let legacy = legacy_status_for(provider, snapshot.as_ref(), now);
    (op, legacy)
}

} // verus!
