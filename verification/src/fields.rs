//! Fields that a list of tool calls gives twice.
//!
//! A JSON value holds each field of an object once, so whether a text names one
//! twice is a question about the text. [`repeats_field`] answers it for texts
//! that are JSON: it follows brackets and string literals, and leaves it to the
//! JSON reader what a literal stands for.

use vstd::prelude::*;

use crate::json::{
    hex_digit, json_escaped, json_escaped_char, json_parse, json_quoted, json_str, parse_json,
    value_str,
};
use crate::text::chars_of;

verus! {

/// What a reader of JSON text knows at some point of it.
#[verifier::ext_equal]
pub struct Scan {
    /// Number of brackets that are open.
    pub depth: nat,
    /// Number of the list's items that have begun.
    pub item: nat,
    /// Whether a string literal is open.
    pub quoted: bool,
    /// Whether the next character of a string literal is escaped.
    pub escaped: bool,
    /// Where the last string literal began.
    pub opened: int,
}

/// The scan after one more character, which stands at index `at`.
pub open spec fn scanned(scan: Scan, c: char, at: int) -> Scan {
    if scan.escaped {
        Scan { escaped: false, ..scan }
    } else if scan.quoted {
        if c == '\\' {
            Scan { escaped: true, ..scan }
        } else if c == '"' {
            Scan { quoted: false, ..scan }
        } else {
            scan
        }
    } else if c == '"' {
        Scan { quoted: true, opened: at, ..scan }
    } else if c == '[' || c == '{' {
        Scan {
            depth: scan.depth + 1,
            item: if scan.depth == 1 {
                scan.item + 1
            } else {
                scan.item
            },
            ..scan
        }
    } else if c == ']' || c == '}' {
        Scan {
            depth: if scan.depth > 0 {
                (scan.depth - 1) as nat
            } else {
                0
            },
            ..scan
        }
    } else {
        scan
    }
}

/// The scan of the first `n` characters of a text.
pub open spec fn scan_of(text: Seq<char>, n: int) -> Scan
    decreases n,
{
    if n <= 0 {
        Scan { depth: 0, item: 0, quoted: false, escaped: false, opened: 0 }
    } else {
        scanned(scan_of(text, n - 1), text[n - 1], n - 1)
    }
}

/// Whether a character is white space in JSON.
pub open spec fn is_json_space(c: char) -> bool {
    c == ' ' || c == '\t' || c == '\n' || c == '\r'
}

/// Whether the first character at or after `n` that is no white space is a
/// colon.
pub open spec fn colon_follows(text: Seq<char>, n: int) -> bool
    decreases text.len() - n,
{
    if n < 0 || n >= text.len() {
        false
    } else if is_json_space(text[n]) {
        colon_follows(text, n + 1)
    } else {
        text[n] == ':'
    }
}

/// Which field of a tool call a string literal names: the id, the name or the
/// arguments, in this order.
pub open spec fn field_of_literal(literal: Seq<char>) -> Option<int> {
    match json_parse(literal) {
        Ok(value) => if json_str(value) == Some("id"@) {
            Some(0)
        } else if json_str(value) == Some("name"@) {
            Some(1)
        } else if json_str(value) == Some("args"@) {
            Some(2)
        } else {
            None
        },
        Err(_) => None,
    }
}

/// The field of a tool call whose key ends at index `i`: a string literal
/// directly inside an item, with a colon after it.
pub open spec fn field_at(text: Seq<char>, i: int) -> Option<int> {
    let scan = scan_of(text, i);
    if text[i] == '"' && scan.quoted && !scan.escaped && scan.depth == 2 && colon_follows(
        text,
        i + 1,
    ) {
        field_of_literal(text.subrange(scan.opened, i + 1))
    } else {
        None
    }
}

/// Whether the keys that end at `i` and `k` name the same field of the same
/// item.
pub open spec fn same_field(text: Seq<char>, i: int, k: int) -> bool {
    &&& field_at(text, i) is Some
    &&& field_at(text, i) == field_at(text, k)
    &&& scan_of(text, i).item == scan_of(text, k).item
}

/// Whether an item of the list in a JSON text gives a field of a tool call twice.
pub open spec fn repeats_field(text: Seq<char>) -> bool {
    exists|i: int, k: int| 0 <= i < k < text.len() && #[trigger] same_field(text, i, k)
}

fn colon_from(chars: &Vec<char>, from: usize) -> (r: bool)
    requires
        from <= chars.len(),
    ensures
        r == colon_follows(chars@, from as int),
{
    let mut n: usize = from;
    while n < chars.len()
        invariant
            from <= n <= chars.len(),
            colon_follows(chars@, from as int) == colon_follows(chars@, n as int),
        decreases chars.len() - n,
    {
        let c = chars[n];
        if c != ' ' && c != '\t' && c != '\n' && c != '\r' {
            return c == ':';
        }
        n = n + 1;
    }
    false
}

fn literal_field(literal: &str) -> (r: Option<usize>)
    ensures
        match r {
            Some(f) => f < 3 && field_of_literal(literal@) == Some(f as int),
            None => field_of_literal(literal@) is None,
        },
{
    match parse_json(literal) {
        Ok(value) => match value_str(&value) {
            Some(text) => {
                let name = text.to_owned();
                if name == "id".to_owned() {
                    Some(0)
                } else if name == "name".to_owned() {
                    Some(1)
                } else if name == "args".to_owned() {
                    Some(2)
                } else {
                    None
                }
            },
            None => None,
        },
        Err(_) => None,
    }
}

/// Whether the key of a field of this item ends before index `n`.
spec fn seen_before(text: Seq<char>, n: int, item: nat, field: int) -> bool {
    exists|i: int|
        0 <= i < n && #[trigger] field_at(text, i) == Some(field) && scan_of(text, i).item == item
}

/// Whether an item of the list in a JSON text gives a field of a tool call twice.
pub fn gives_field_twice(text: &str) -> (r: bool)
    ensures
        r == repeats_field(text@),
{
    let chars = chars_of(text);
    let mut depth: usize = 0;
    let mut item: usize = 0;
    let mut quoted: bool = false;
    let mut escaped: bool = false;
    let mut opened: usize = 0;
    let mut seen: [bool; 3] = [false, false, false];
    let mut n: usize = 0;
    while n < chars.len()
        invariant
            chars@ == text@,
            n <= chars.len(),
            depth <= n,
            item <= n,
            opened <= n,
            scan_of(text@, n as int) == (Scan {
                depth: depth as nat,
                item: item as nat,
                quoted,
                escaped,
                opened: opened as int,
            }),
            forall|f: int|
                0 <= f < 3 ==> #[trigger] seen@[f] == seen_before(text@, n as int, item as nat, f),
            forall|i: int| 0 <= i < n ==> #[trigger] scan_of(text@, i).item <= item,
            forall|i: int, k: int| 0 <= i < k < n ==> !#[trigger] same_field(text@, i, k),
        decreases chars.len() - n,
    {
        let c = chars[n];
        let ghost seen_until = seen@;
        let mut found: Option<usize> = None;
        if c == '"' && quoted && !escaped && depth == 2 && colon_from(&chars, n + 1) {
            found = literal_field(text.substring_char(opened, n + 1));
        }
        assert(match found {
            Some(f) => f < 3 && field_at(text@, n as int) == Some(f as int),
            None => field_at(text@, n as int) is None,
        });
        if let Some(f) = found {
            if seen[f] {
                proof {
                    let i = choose|i: int|
                        0 <= i < n && #[trigger] field_at(text@, i) == Some(f as int) && scan_of(
                            text@,
                            i,
                        ).item == item;
                    assert(same_field(text@, i, n as int));
                }
                return true;
            }
            seen[f] = true;
        }
        let ghost item_before = item as nat;
        proof {
            assert forall|f: int| 0 <= f < 3 implies #[trigger] seen@[f] == seen_before(
                text@,
                n + 1,
                item_before,
                f,
            ) by {
                if seen_until[f] {
                    let i = choose|i: int|
                        0 <= i < n && #[trigger] field_at(text@, i) == Some(f) && scan_of(
                            text@,
                            i,
                        ).item == item_before;
                    assert(field_at(text@, i) == Some(f));
                }
                if field_at(text@, n as int) == Some(f) {
                    assert(scan_of(text@, n as int).item == item_before);
                }
            }
            assert forall|i: int, k: int| 0 <= i < k < n + 1 implies !#[trigger] same_field(
                text@,
                i,
                k,
            ) by {
                if k == n && same_field(text@, i, k) {
                    let f = field_at(text@, i)->0;
                    assert(seen_before(text@, n as int, item_before, f));
                    assert(seen_until[f]);
                }
            }
        }
        if escaped {
            escaped = false;
        } else if quoted {
            if c == '\\' {
                escaped = true;
            } else if c == '"' {
                quoted = false;
            }
        } else if c == '"' {
            quoted = true;
            opened = n;
        } else if c == '[' || c == '{' {
            if depth == 1 {
                item = item + 1;
                seen = [false, false, false];
                proof {
                    assert forall|f: int| 0 <= f < 3 implies #[trigger] seen@[f] == seen_before(
                        text@,
                        n + 1,
                        item as nat,
                        f,
                    ) by {
                        if seen_before(text@, n + 1, item as nat, f) {
                            let i = choose|i: int|
                                0 <= i < n + 1 && #[trigger] field_at(text@, i) == Some(f)
                                    && scan_of(text@, i).item == item;
                            assert(scan_of(text@, i).item <= item_before);
                        }
                    }
                }
            }
            depth = depth + 1;
        } else if c == ']' || c == '}' {
            if depth > 0 {
                depth = depth - 1;
            }
        }
        n = n + 1;
    }
    false
}

/// A colon follows just where one comes next but for white space.
pub proof fn law_colon_follows_white_space(text: Seq<char>, n: int, m: int)
    requires
        0 <= n <= m <= text.len(),
        forall|i: int|
            n <= i < m ==> (#[trigger] text[i] == ' ' || text[i] == '\t' || text[i] == '\n'
                || text[i] == '\r'),
        m < text.len() ==> text[m] != ' ' && text[m] != '\t' && text[m] != '\n' && text[m]
            != '\r',
    ensures
        colon_follows(text, n) <==> m < text.len() && text[m] == ':',
    decreases m - n,
{
    if n < m {
        assert(is_json_space(text[n]));
        law_colon_follows_white_space(text, n + 1, m);
    }
}

/// Two keys name the same field of a tool call just where they are read as the
/// same text, and that is one of `id`, `name` and `args`.
pub proof fn law_keys_name_fields_by_their_text(first: Seq<char>, second: Seq<char>)
    requires
        json_parse(first) is Ok,
        json_str(json_parse(first)->Ok_0) is Some,
        json_parse(second) is Ok,
        json_str(json_parse(second)->Ok_0) is Some,
    ensures
        ({
            let one = json_str(json_parse(first)->Ok_0)->0;
            let other = json_str(json_parse(second)->Ok_0)->0;
            &&& field_of_literal(first) is Some <==> one == "id"@ || one == "name"@ || one
                == "args"@
            &&& field_of_literal(first) is Some && field_of_literal(second) is Some ==> (
            field_of_literal(first) == field_of_literal(second) <==> one == other)
        }),
{
    reveal_strlit("id");
    reveal_strlit("name");
    reveal_strlit("args");
    assert("name"@[0] != "args"@[0]);
}

/// Whether a text holds no quotation marks, backslashes or brackets.
pub open spec fn is_plain(text: Seq<char>) -> bool {
    forall|i: int|
        0 <= i < text.len() ==> (#[trigger] text[i]) != '"' && text[i] != '\\' && text[i] != '['
            && text[i] != ']' && text[i] != '{' && text[i] != '}'
}

/// A string literal with this text between its quotation marks.
pub open spec fn quoted_key(key: Seq<char>) -> Seq<char> {
    seq!['"'] + key + seq!['"']
}

proof fn lemma_scan_plain(text: Seq<char>, from: int, to: int)
    requires
        0 <= from <= to <= text.len(),
        is_plain(text.subrange(from, to)),
        !scan_of(text, from).escaped,
    ensures
        scan_of(text, to) == scan_of(text, from),
    decreases to - from,
{
    if from < to {
        assert(text.subrange(from, to)[to - 1 - from] == text[to - 1]);
        assert(text.subrange(from, to - 1) =~= text.subrange(from, to).drop_last());
        lemma_scan_plain(text, from, to - 1);
    }
}

/// Follows the two brackets that open a list and its first object.
proof fn lemma_scan_head(text: Seq<char>)
    requires
        text.len() >= 2,
        text[0] == '[',
        text[1] == '{',
    ensures
        scan_of(text, 2) == (Scan { depth: 2, item: 1, quoted: false, escaped: false, opened: 0 }),
        field_at(text, 0) is None,
        field_at(text, 1) is None,
{
    assert(scan_of(text, 1) == scanned(scan_of(text, 0), text[0], 0));
}

/// Follows a string literal without escapes.
proof fn lemma_scan_key(text: Seq<char>, at: int, key: Seq<char>)
    requires
        0 <= at,
        at + key.len() + 2 <= text.len(),
        text.subrange(at, at + key.len() + 2) == quoted_key(key),
        is_plain(key),
        !scan_of(text, at).quoted,
        !scan_of(text, at).escaped,
    ensures
        ({
            let scan = scan_of(text, at);
            let end = at + key.len() + 1;
            &&& scan_of(text, end) == (Scan { quoted: true, opened: at, ..scan })
            &&& scan_of(text, end + 1) == (Scan { opened: at, ..scan })
            &&& text[at] == '"'
            &&& text[end] == '"'
            &&& field_at(text, end) == if scan.depth == 2 && colon_follows(text, end + 1) {
                field_of_literal(quoted_key(key))
            } else {
                None
            }
            &&& field_at(text, at) is None
        }),
{
    let part = text.subrange(at, at + key.len() + 2);
    let end = at + key.len() + 1;
    assert(part[0] == text[at]);
    assert(part[end - at] == text[end]);
    assert(text.subrange(at + 1, end) =~= key) by {
        assert forall|i: int| 0 <= i < key.len() implies text[at + 1 + i] == key[i] by {
            assert(part[i + 1] == text[at + 1 + i]);
        }
    }
    lemma_scan_plain(text, at + 1, end);
    assert(text.subrange(at, end + 1) =~= part);
}

/// Where the only quotation marks are those of two keys, only these can repeat a
/// field.
proof fn lemma_two_keys(text: Seq<char>, p1: int, p2: int, p3: int, p4: int)
    requires
        0 <= p1 < p2 < p3 < p4 < text.len(),
        forall|i: int|
            0 <= i < text.len() && #[trigger] text[i] == '"' ==> i == p1 || i == p2 || i == p3 || i
                == p4,
        field_at(text, p1) is None,
        field_at(text, p3) is None,
    ensures
        repeats_field(text) <==> same_field(text, p2, p4),
{
    if repeats_field(text) {
        let (i, k) = choose|i: int, k: int|
            0 <= i < k < text.len() && #[trigger] same_field(text, i, k);
        assert(text[i] == '"');
        assert(text[k] == '"');
    }
    if same_field(text, p2, p4) {
        assert(0 <= p2 < p4 < text.len());
    }
}

/// A field given twice in one object of the list is found, whatever follows.
pub proof fn law_field_given_twice_is_found(
    first: Seq<char>,
    between: Seq<char>,
    second: Seq<char>,
    rest: Seq<char>,
)
    requires
        is_plain(first),
        is_plain(between),
        is_plain(second),
        between.len() > 0,
        between[0] == ':',
        rest.len() > 0,
        rest[0] == ':',
        field_of_literal(quoted_key(first)) is Some,
        field_of_literal(quoted_key(first)) == field_of_literal(quoted_key(second)),
    ensures
        repeats_field(
            seq!['[', '{'] + quoted_key(first) + between + quoted_key(second) + rest,
        ),
{
    let text = seq!['[', '{'] + quoted_key(first) + between + quoted_key(second) + rest;
    let p2 = 3 + first.len() as int;
    let p3 = p2 + 1 + between.len();
    let p4 = p3 + second.len() + 1;
    lemma_scan_head(text);
    assert(text.subrange(2, 2 + first.len() as int + 2) =~= quoted_key(first));
    lemma_scan_key(text, 2, first);
    assert(text.subrange(p2 + 1, p3) =~= between);
    lemma_scan_plain(text, p2 + 1, p3);
    assert(text.subrange(p3, p3 + second.len() + 2) =~= quoted_key(second));
    lemma_scan_key(text, p3, second);
    assert(text[p2 + 1] == between[0]);
    assert(text[p4 + 1] == rest[0]);
    law_colon_follows_white_space(text, p2 + 1, p2 + 1);
    law_colon_follows_white_space(text, p4 + 1, p4 + 1);
    assert(same_field(text, p2, p4));
}

/// Two keys in one object of the list repeat no field where they do not name the
/// same one.
pub proof fn law_different_fields_do_not_repeat(
    first: Seq<char>,
    between: Seq<char>,
    second: Seq<char>,
    rest: Seq<char>,
)
    requires
        is_plain(first),
        is_plain(between),
        is_plain(second),
        is_plain(rest),
        field_of_literal(quoted_key(first)) is None || field_of_literal(quoted_key(first))
            != field_of_literal(quoted_key(second)),
    ensures
        !repeats_field(
            seq!['[', '{'] + quoted_key(first) + between + quoted_key(second) + rest + seq![
                '}',
                ']',
            ],
        ),
{
    let text = seq!['[', '{'] + quoted_key(first) + between + quoted_key(second) + rest + seq![
        '}',
        ']',
    ];
    let p2 = 3 + first.len() as int;
    let p3 = p2 + 1 + between.len();
    let p4 = p3 + second.len() + 1;
    lemma_scan_head(text);
    assert(text.subrange(2, 2 + first.len() as int + 2) =~= quoted_key(first));
    lemma_scan_key(text, 2, first);
    assert(text.subrange(p2 + 1, p3) =~= between);
    lemma_scan_plain(text, p2 + 1, p3);
    assert(text.subrange(p3, p3 + second.len() + 2) =~= quoted_key(second));
    lemma_scan_key(text, p3, second);
    assert forall|i: int| 0 <= i < text.len() && #[trigger] text[i] == '"' implies i == 2 || i == p2
        || i == p3 || i == p4 by {
        if 2 < i < p2 {
            assert(text[i] == first[i - 3]);
        } else if p2 < i < p3 {
            assert(text[i] == between[i - p2 - 1]);
        } else if p3 < i < p4 {
            assert(text[i] == second[i - p3 - 1]);
        } else if p4 < i < text.len() - 2 {
            assert(text[i] == rest[i - p4 - 1]);
        }
    }
    lemma_two_keys(text, 2, p2, p3, p4);
}

/// Two objects of the list may give the same field, each for itself.
pub proof fn law_fields_of_different_calls_do_not_repeat(
    first: Seq<char>,
    between: Seq<char>,
    second: Seq<char>,
    rest: Seq<char>,
)
    requires
        is_plain(first),
        is_plain(between),
        is_plain(second),
        is_plain(rest),
    ensures
        !repeats_field(
            seq!['[', '{'] + quoted_key(first) + between + seq!['}', ',', '{'] + quoted_key(second)
                + rest + seq!['}', ']'],
        ),
{
    let text = seq!['[', '{'] + quoted_key(first) + between + seq!['}', ',', '{'] + quoted_key(
        second,
    ) + rest + seq!['}', ']'];
    let p2 = 3 + first.len() as int;
    let q = p2 + 1 + between.len();
    let p3 = q + 3;
    let p4 = p3 + second.len() + 1;
    lemma_scan_head(text);
    assert(text.subrange(2, 2 + first.len() as int + 2) =~= quoted_key(first));
    lemma_scan_key(text, 2, first);
    assert(text.subrange(p2 + 1, q) =~= between);
    lemma_scan_plain(text, p2 + 1, q);
    assert(text[q] == '}' && text[q + 1] == ',' && text[q + 2] == '{');
    assert(scan_of(text, q + 1) == scanned(scan_of(text, q), '}', q));
    assert(scan_of(text, q + 2) == scanned(scan_of(text, q + 1), ',', q + 1));
    assert(scan_of(text, q + 3) == scanned(scan_of(text, q + 2), '{', q + 2));
    assert(text.subrange(p3, p3 + second.len() + 2) =~= quoted_key(second));
    lemma_scan_key(text, p3, second);
    assert forall|i: int| 0 <= i < text.len() && #[trigger] text[i] == '"' implies i == 2 || i == p2
        || i == p3 || i == p4 by {
        if 2 < i < p2 {
            assert(text[i] == first[i - 3]);
        } else if p2 < i < q {
            assert(text[i] == between[i - p2 - 1]);
        } else if p3 < i < p4 {
            assert(text[i] == second[i - p3 - 1]);
        } else if p4 < i < text.len() - 2 {
            assert(text[i] == rest[i - p4 - 1]);
        }
    }
    lemma_two_keys(text, 2, p2, p3, p4);
}

/// A field inside of another one's value is none of the call's.
pub proof fn law_inner_fields_do_not_repeat(
    first: Seq<char>,
    between: Seq<char>,
    second: Seq<char>,
    rest: Seq<char>,
)
    requires
        is_plain(first),
        is_plain(between),
        is_plain(second),
        is_plain(rest),
    ensures
        !repeats_field(
            seq!['[', '{'] + quoted_key(first) + between + seq!['{'] + quoted_key(second) + rest
                + seq!['}', '}', ']'],
        ),
{
    let text = seq!['[', '{'] + quoted_key(first) + between + seq!['{'] + quoted_key(second) + rest
        + seq!['}', '}', ']'];
    let p2 = 3 + first.len() as int;
    let q = p2 + 1 + between.len();
    let p3 = q + 1;
    let p4 = p3 + second.len() + 1;
    lemma_scan_head(text);
    assert(text.subrange(2, 2 + first.len() as int + 2) =~= quoted_key(first));
    lemma_scan_key(text, 2, first);
    assert(text.subrange(p2 + 1, q) =~= between);
    lemma_scan_plain(text, p2 + 1, q);
    assert(text[q] == '{');
    assert(scan_of(text, q + 1) == scanned(scan_of(text, q), '{', q));
    assert(text.subrange(p3, p3 + second.len() + 2) =~= quoted_key(second));
    lemma_scan_key(text, p3, second);
    assert forall|i: int| 0 <= i < text.len() && #[trigger] text[i] == '"' implies i == 2 || i == p2
        || i == p3 || i == p4 by {
        if 2 < i < p2 {
            assert(text[i] == first[i - 3]);
        } else if p2 < i < q {
            assert(text[i] == between[i - p2 - 1]);
        } else if p3 < i < p4 {
            assert(text[i] == second[i - p3 - 1]);
        } else if p4 < i < text.len() - 3 {
            assert(text[i] == rest[i - p4 - 1]);
        }
    }
    lemma_two_keys(text, 2, p2, p3, p4);
}

/// Follows the inside of a printed string literal: what looks like its end there
/// is escaped.
proof fn lemma_scan_escaped(text: Seq<char>, at: int, value: Seq<char>)
    requires
        0 <= at,
        at + json_escaped(value).len() <= text.len(),
        text.subrange(at, at + json_escaped(value).len()) == json_escaped(value),
        scan_of(text, at).quoted,
        !scan_of(text, at).escaped,
    ensures
        scan_of(text, at + json_escaped(value).len()) == scan_of(text, at),
        forall|i: int|
            at <= i < at + json_escaped(value).len() ==> #[trigger] field_at(text, i) is None,
    decreases value.len(),
{
    if value.len() > 0 {
        let head = json_escaped(value.drop_last());
        let c = value.last();
        let last = json_escaped_char(c);
        let mid = at + head.len();
        let whole = text.subrange(at, at + json_escaped(value).len());
        assert(json_escaped(value) == head + last);
        assert(text.subrange(at, mid) =~= whole.take(head.len() as int));
        assert(whole.take(head.len() as int) =~= head);
        lemma_scan_escaped(text, at, value.drop_last());
        assert forall|k: int| 0 <= k < last.len() implies text[mid + k] == #[trigger] last[k] by {
            assert(whole[head.len() + k] == last[k]);
        }
        assert(text[mid] == last[0]);
        assert(scan_of(text, mid + 1) == scanned(scan_of(text, mid), text[mid], mid));
        if last.len() >= 2 {
            assert(text[mid + 1] == last[1]);
            assert(scan_of(text, mid + 2) == scanned(
                scan_of(text, mid + 1),
                text[mid + 1],
                mid + 1,
            ));
        }
        if last.len() == 6 {
            lemma_hex_digit_is_plain(c as u32 / 16);
            lemma_hex_digit_is_plain(c as u32 % 16);
            assert(text[mid + 2] == last[2]);
            assert(text[mid + 3] == last[3]);
            assert(text[mid + 4] == last[4]);
            assert(text[mid + 5] == last[5]);
            assert(scan_of(text, mid + 3) == scanned(
                scan_of(text, mid + 2),
                text[mid + 2],
                mid + 2,
            ));
            assert(scan_of(text, mid + 4) == scanned(
                scan_of(text, mid + 3),
                text[mid + 3],
                mid + 3,
            ));
            assert(scan_of(text, mid + 5) == scanned(
                scan_of(text, mid + 4),
                text[mid + 4],
                mid + 4,
            ));
            assert(scan_of(text, mid + 6) == scanned(
                scan_of(text, mid + 5),
                text[mid + 5],
                mid + 5,
            ));
        }
        assert forall|i: int|
            at <= i < at + json_escaped(value).len() implies #[trigger] field_at(
            text,
            i,
        ) is None by {
            if i >= mid {
                assert(i == mid || i == mid + 1 || i == mid + 2 || i == mid + 3 || i == mid + 4 || i
                    == mid + 5);
            }
        }
    }
}

proof fn lemma_hex_digit_is_plain(d: u32)
    requires
        d < 16,
    ensures
        hex_digit(d) != '"',
        hex_digit(d) != '\\',
{
}

/// Follows a printed string literal.
proof fn lemma_scan_quoted(text: Seq<char>, at: int, value: Seq<char>)
    requires
        0 <= at,
        at + json_quoted(value).len() <= text.len(),
        text.subrange(at, at + json_quoted(value).len()) == json_quoted(value),
        !scan_of(text, at).quoted,
        !scan_of(text, at).escaped,
    ensures
        scan_of(text, at + json_quoted(value).len()) == (Scan { opened: at, ..scan_of(text, at) }),
        forall|i: int|
            at <= i < at + json_quoted(value).len() - 1 ==> #[trigger] field_at(text, i) is None,
{
    let inner = json_escaped(value);
    let part = text.subrange(at, at + json_quoted(value).len());
    let end = at + 1 + inner.len();
    assert(part[0] == text[at]);
    assert(part[end - at] == text[end]);
    assert(text.subrange(at + 1, end) =~= inner) by {
        assert forall|k: int| 0 <= k < inner.len() implies text[at + 1 + k] == inner[k] by {
            assert(part[k + 1] == text[at + 1 + k]);
        }
    }
    assert(scan_of(text, at + 1) == scanned(scan_of(text, at), text[at], at));
    lemma_scan_escaped(text, at + 1, value);
    assert(scan_of(text, end + 1) == scanned(scan_of(text, end), text[end], end));
}

/// What a printed string holds is none of the call's fields, whatever it says:
/// an object with one key and such a value repeats nothing.
pub proof fn law_texts_do_not_repeat_fields(key: Seq<char>, value: Seq<char>)
    requires
        is_plain(key),
    ensures
        !repeats_field(
            seq!['[', '{'] + quoted_key(key) + seq![':'] + json_quoted(value) + seq!['}', ']'],
        ),
{
    let text = seq!['[', '{'] + quoted_key(key) + seq![':'] + json_quoted(value) + seq!['}', ']'];
    let p2 = 3 + key.len() as int;
    let v = p2 + 2;
    let end = v + json_quoted(value).len();
    lemma_scan_head(text);
    assert(text.subrange(2, 2 + key.len() as int + 2) =~= quoted_key(key));
    lemma_scan_key(text, 2, key);
    assert(text[p2 + 1] == ':');
    assert(scan_of(text, v) == scanned(scan_of(text, p2 + 1), text[p2 + 1], p2 + 1));
    assert(text.subrange(v, end) =~= json_quoted(value));
    lemma_scan_quoted(text, v, value);
    assert(text[end] == '}');
    law_colon_follows_white_space(text, end, end);
    assert forall|j: int| 0 <= j < text.len() && j != p2 implies #[trigger] field_at(
        text,
        j,
    ) is None by {
        if 2 < j < p2 {
            assert(text[j] == key[j - 3]);
        } else if j == end - 1 {
            assert(!colon_follows(text, j + 1));
        } else if j == end + 1 {
            assert(text[j] == ']');
        }
    }
    if repeats_field(text) {
        let (i, k) = choose|i: int, k: int|
            0 <= i < k < text.len() && #[trigger] same_field(text, i, k);
        assert(field_at(text, i) is Some);
        assert(field_at(text, k) is Some);
    }
}

/// A field given twice is found past a printed string of whatever text.
pub proof fn law_texts_do_not_hide_fields(
    first: Seq<char>,
    value: Seq<char>,
    second: Seq<char>,
    rest: Seq<char>,
)
    requires
        is_plain(first),
        is_plain(second),
        rest.len() > 0,
        rest[0] == ':',
        field_of_literal(quoted_key(first)) is Some,
        field_of_literal(quoted_key(first)) == field_of_literal(quoted_key(second)),
    ensures
        repeats_field(
            seq!['[', '{'] + quoted_key(first) + seq![':'] + json_quoted(value) + seq![',']
                + quoted_key(second) + rest,
        ),
{
    let text = seq!['[', '{'] + quoted_key(first) + seq![':'] + json_quoted(value) + seq![',']
        + quoted_key(second) + rest;
    let p2 = 3 + first.len() as int;
    let v = p2 + 2;
    let end = v + json_quoted(value).len();
    let p3 = end + 1;
    let p4 = p3 + second.len() + 1;
    lemma_scan_head(text);
    assert(text.subrange(2, 2 + first.len() as int + 2) =~= quoted_key(first));
    lemma_scan_key(text, 2, first);
    assert(text[p2 + 1] == ':');
    assert(scan_of(text, v) == scanned(scan_of(text, p2 + 1), text[p2 + 1], p2 + 1));
    assert(text.subrange(v, end) =~= json_quoted(value));
    lemma_scan_quoted(text, v, value);
    assert(text[end] == ',');
    assert(scan_of(text, p3) == scanned(scan_of(text, end), text[end], end));
    assert(text.subrange(p3, p3 + second.len() + 2) =~= quoted_key(second));
    lemma_scan_key(text, p3, second);
    assert(text[p4 + 1] == rest[0]);
    law_colon_follows_white_space(text, p2 + 1, p2 + 1);
    law_colon_follows_white_space(text, p4 + 1, p4 + 1);
    assert(same_field(text, p2, p4));
}

/// Follows a text that stands later in another one, behind one object of a list.
proof fn lemma_scan_later(text: Seq<char>, longer: Seq<char>, by: int, n: int)
    requires
        0 < by,
        1 <= n <= text.len(),
        longer.len() == text.len() + by,
        forall|i: int| 1 <= i < text.len() ==> #[trigger] text[i] == longer[i + by],
        scan_of(text, 1) == (Scan { depth: 1, item: 0, quoted: false, escaped: false, opened: 0 }),
        scan_of(longer, 1 + by).depth == 1,
        scan_of(longer, 1 + by).item == 1,
        !scan_of(longer, 1 + by).quoted,
        !scan_of(longer, 1 + by).escaped,
    ensures
        ({
            let scan = scan_of(text, n);
            let later = scan_of(longer, n + by);
            &&& later.depth == scan.depth
            &&& later.item == scan.item + 1
            &&& later.quoted == scan.quoted
            &&& later.escaped == scan.escaped
            &&& scan.quoted ==> later.opened == scan.opened + by && 1 <= scan.opened < n
            &&& scan.escaped ==> scan.quoted
        }),
    decreases n,
{
    if n > 1 {
        lemma_scan_later(text, longer, by, n - 1);
        assert(text[n - 1] == longer[n - 1 + by]);
        assert(scan_of(longer, n + by) == scanned(
            scan_of(longer, n - 1 + by),
            longer[n - 1 + by],
            n - 1 + by,
        ));
    }
}

proof fn lemma_colon_follows_later(text: Seq<char>, longer: Seq<char>, by: int, n: int)
    requires
        0 <= by,
        1 <= n,
        longer.len() == text.len() + by,
        forall|i: int| 1 <= i < text.len() ==> #[trigger] text[i] == longer[i + by],
    ensures
        colon_follows(text, n) == colon_follows(longer, n + by),
    decreases text.len() - n,
{
    if n < text.len() {
        assert(text[n] == longer[n + by]);
        lemma_colon_follows_later(text, longer, by, n + 1);
    }
}

/// A field given twice in one of a list's objects is found behind another
/// object, and so behind any number of them.
pub proof fn law_earlier_calls_do_not_hide_fields(object: Seq<char>, list: Seq<char>)
    requires
        is_plain(object),
        repeats_field(seq!['['] + list),
    ensures
        repeats_field(seq!['[', '{'] + object + seq!['}', ','] + list),
{
    let text = seq!['['] + list;
    let longer = seq!['[', '{'] + object + seq!['}', ','] + list;
    let by = object.len() + 3;
    let end = 2 + object.len() as int;
    lemma_scan_head(longer);
    assert(longer.subrange(2, end) =~= object);
    lemma_scan_plain(longer, 2, end);
    assert(longer[end] == '}');
    assert(longer[end + 1] == ',');
    assert(scan_of(longer, end + 1) == scanned(scan_of(longer, end), longer[end], end));
    assert(scan_of(longer, end + 2) == scanned(
        scan_of(longer, end + 1),
        longer[end + 1],
        end + 1,
    ));
    assert(text[0] == '[');
    assert(scan_of(text, 1) == scanned(scan_of(text, 0), text[0], 0));
    let (i, k) = choose|i: int, k: int|
        0 <= i < k < text.len() && #[trigger] same_field(text, i, k);
    assert(text[i] == '"');
    lemma_scan_later(text, longer, by as int, i);
    lemma_scan_later(text, longer, by as int, k);
    lemma_colon_follows_later(text, longer, by as int, i + 1);
    lemma_colon_follows_later(text, longer, by as int, k + 1);
    let from_i = scan_of(text, i).opened;
    let from_k = scan_of(text, k).opened;
    assert(text.subrange(from_i, i + 1) =~= longer.subrange(from_i + by, i + by + 1));
    assert(text.subrange(from_k, k + 1) =~= longer.subrange(from_k + by, k + by + 1));
    assert(longer[i + by] == text[i]);
    assert(longer[k + by] == text[k]);
    assert(field_at(longer, i + by) == field_at(text, i));
    assert(field_at(longer, k + by) == field_at(text, k));
    assert(same_field(longer, i + by, k + by));
}

} // verus!
