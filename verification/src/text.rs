//! Text helpers over sequences of characters: searching, trimming, joining,
//! byte widths and decimal numerals.

use vstd::prelude::*;
use vstd::utf8::{encode_scalar, encode_utf8};

verus! {

/// The least index at or after `from` at which `pattern` occurs in `text`.
pub open spec fn find_from(text: Seq<char>, pattern: Seq<char>, from: int) -> Option<int>
    decreases text.len() - from + 1,
{
    if from + pattern.len() > text.len() {
        None
    } else if text.subrange(from, from + pattern.len()) == pattern {
        Some(from)
    } else {
        find_from(text, pattern, from + 1)
    }
}

/// `find_from` reports an occurrence, and the first one; `None` means that
/// there is none.
pub proof fn lemma_find_from_is_first(text: Seq<char>, pattern: Seq<char>, from: int)
    requires
        0 <= from,
    ensures
        match find_from(text, pattern, from) {
            Some(k) => {
                &&& from <= k
                &&& k + pattern.len() <= text.len()
                &&& text.subrange(k, k + pattern.len()) == pattern
                &&& forall|j: int|
                    from <= j < k ==> #[trigger] text.subrange(j, j + pattern.len()) != pattern
            },
            None => forall|j: int|
                from <= j && j + pattern.len() <= text.len() ==> #[trigger] text.subrange(
                    j,
                    j + pattern.len(),
                ) != pattern,
        },
    decreases text.len() - from + 1,
{
    if from + pattern.len() <= text.len() && text.subrange(from, from + pattern.len()) != pattern {
        lemma_find_from_is_first(text, pattern, from + 1);
    }
}

/// An occurrence with none before it, at or after `from`, is the one that
/// `find_from` reports.
pub proof fn lemma_find_from_unique(text: Seq<char>, pattern: Seq<char>, from: int, at: int)
    requires
        0 <= from <= at,
        at + pattern.len() <= text.len(),
        text.subrange(at, at + pattern.len()) == pattern,
        forall|j: int| from <= j < at ==> #[trigger] text.subrange(j, j + pattern.len()) != pattern,
    ensures
        find_from(text, pattern, from) == Some(at),
{
    lemma_find_from_is_first(text, pattern, from);
    assert(text.subrange(at, at + pattern.len()) == pattern);
    if let Some(k) = find_from(text, pattern, from) {
        assert(text.subrange(k, k + pattern.len()) == pattern);
    }
}

/// Unicode's `White_Space` property.
pub open spec fn is_white_space(c: char) -> bool {
    let u = c as u32;
    ||| 0x09 <= u <= 0x0d
    ||| u == 0x20
    ||| u == 0x85
    ||| u == 0xa0
    ||| u == 0x1680
    ||| 0x2000 <= u <= 0x200a
    ||| u == 0x2028
    ||| u == 0x2029
    ||| u == 0x202f
    ||| u == 0x205f
    ||| u == 0x3000
}

/// `text` without its leading white space.
pub open spec fn trim_start(text: Seq<char>) -> Seq<char>
    decreases text.len(),
{
    if text.len() > 0 && is_white_space(text.first()) {
        trim_start(text.drop_first())
    } else {
        text
    }
}

/// `text` without its trailing white space.
pub open spec fn trim_end(text: Seq<char>) -> Seq<char>
    decreases text.len(),
{
    if text.len() > 0 && is_white_space(text.last()) {
        trim_end(text.drop_last())
    } else {
        text
    }
}

/// `text` without leading and trailing white space.
pub open spec fn trimmed(text: Seq<char>) -> Seq<char> {
    trim_end(trim_start(text))
}

/// What is left after trimming begins and ends with no white space.
pub proof fn lemma_trimmed_ends(text: Seq<char>)
    ensures
        trimmed(text).len() > 0 ==> !is_white_space(trimmed(text).first()) && !is_white_space(
            trimmed(text).last(),
        ),
{
    lemma_trim_start_ends(text);
    lemma_trim_end_ends(trim_start(text));
}

proof fn lemma_trim_start_ends(text: Seq<char>)
    ensures
        trim_start(text).len() > 0 ==> !is_white_space(trim_start(text).first()),
    decreases text.len(),
{
    if text.len() > 0 && is_white_space(text.first()) {
        lemma_trim_start_ends(text.drop_first());
    }
}

proof fn lemma_trim_end_ends(text: Seq<char>)
    ensures
        trim_end(text).len() > 0 ==> !is_white_space(trim_end(text).last()) && trim_end(
            text,
        ).first() == text.first(),
    decreases text.len(),
{
    if text.len() > 0 && is_white_space(text.last()) {
        lemma_trim_end_ends(text.drop_last());
    }
}

/// A text with a character that is no white space is not trimmed to nothing.
pub proof fn lemma_trimmed_keeps(text: Seq<char>, i: int)
    requires
        0 <= i < text.len(),
        !is_white_space(text[i]),
    ensures
        trimmed(text).len() > 0,
{
    lemma_trim_start_keeps(text, i);
    let rest = trim_start(text);
    lemma_trim_start_ends(text);
    lemma_trim_end_keeps(rest, 0);
}

proof fn lemma_trim_start_keeps(text: Seq<char>, i: int)
    requires
        0 <= i < text.len(),
        !is_white_space(text[i]),
    ensures
        trim_start(text).len() > 0,
    decreases text.len(),
{
    if is_white_space(text.first()) {
        lemma_trim_start_keeps(text.drop_first(), i - 1);
    }
}

proof fn lemma_trim_end_keeps(text: Seq<char>, i: int)
    requires
        0 <= i < text.len(),
        !is_white_space(text[i]),
    ensures
        trim_end(text).len() > 0,
    decreases text.len(),
{
    if is_white_space(text.last()) {
        lemma_trim_end_keeps(text.drop_last(), i);
    }
}

/// The parts in order, with `separator` between neighbours.
pub open spec fn joined(parts: Seq<Seq<char>>, separator: Seq<char>) -> Seq<char>
    decreases parts.len(),
{
    if parts.len() == 0 {
        Seq::empty()
    } else if parts.len() == 1 {
        parts[0]
    } else {
        joined(parts.drop_last(), separator) + separator + parts.last()
    }
}

/// The character of a decimal digit.
pub open spec fn digit_char(d: nat) -> char {
    if d == 0 {
        '0'
    } else if d == 1 {
        '1'
    } else if d == 2 {
        '2'
    } else if d == 3 {
        '3'
    } else if d == 4 {
        '4'
    } else if d == 5 {
        '5'
    } else if d == 6 {
        '6'
    } else if d == 7 {
        '7'
    } else if d == 8 {
        '8'
    } else {
        '9'
    }
}

/// The decimal numeral of `n`, without leading zeros.
pub open spec fn decimal(n: nat) -> Seq<char>
    decreases n,
{
    if n < 10 {
        seq![digit_char(n)]
    } else {
        decimal(n / 10).push(digit_char(n % 10))
    }
}

/// Number of bytes of the UTF-8 encoding of `text`.
pub open spec fn byte_len(text: Seq<char>) -> nat {
    encode_utf8(text).len()
}

/// `String::from` of a `&str`: the same text.
pub assume_specification<'a>[ <String as From<&'a str>>::from ](s: &str) -> (r: String)
    ensures
        r@ == s@,
;

/// `String::from` of a `&String`: the same text.
pub assume_specification<'a>[ <String as From<&'a String>>::from ](s: &String) -> (r: String)
    ensures
        r@ == s@,
;

/// `From` of a type for itself: the argument, unchanged.
pub assume_specification<Same>[ <Same as From<Same>>::from ](t: Same) -> (r: Same)
    ensures
        r == t,
;

/// Whether `content` converts into a string with this text. What a `&str`, a
/// `&String` or a `String` converts into has its own text.
pub open spec fn converts<S: Into<String>>(content: S, text: Seq<char>) -> bool {
    exists|s: String| #[trigger] call_ensures(S::into, (content,), s) && s@ == text
}

/// The contents of each string.
pub open spec fn string_views(strings: Seq<String>) -> Seq<Seq<char>> {
    Seq::new(strings.len(), |i: int| strings[i]@)
}

pub(crate) fn is_whitespace(c: char) -> (r: bool)
    ensures
        r == is_white_space(c),
{
    let u: u32 = c as u32;
    (0x09 <= u && u <= 0x0d) || u == 0x20 || u == 0x85 || u == 0xa0 || u == 0x1680 || (0x2000 <= u
        && u <= 0x200a) || u == 0x2028 || u == 0x2029 || u == 0x202f || u == 0x205f || u == 0x3000
}

/// The characters of `text`.
pub(crate) fn chars_of(text: &str) -> (r: Vec<char>)
    ensures
        r@ == text@,
{
    let mut out: Vec<char> = Vec::new();
    for c in it: text.chars()
        invariant
            out@ == it.seq().take(it.index() as int),
            it.seq() == text@,
    {
        out.push(c);
    }
    out
}

/// Number of bytes of the UTF-8 encoding of one character.
pub open spec fn char_width(c: char) -> nat {
    encode_scalar(c as u32).len()
}

/// Number of characters in the longest prefix of `text` that takes at most
/// `max` bytes.
pub open spec fn fitting(text: Seq<char>, max: nat) -> nat
    decreases text.len(),
{
    if text.len() == 0 || char_width(text[0]) > max {
        0
    } else {
        1 + fitting(text.drop_first(), (max - char_width(text[0])) as nat)
    }
}

/// The prefix that `fitting` measures takes at most `max` bytes, and one more
/// character would not fit.
pub proof fn lemma_fitting_is_longest(text: Seq<char>, max: nat)
    ensures
        fitting(text, max) <= text.len(),
        byte_len(text.take(fitting(text, max) as int)) <= max,
        fitting(text, max) < text.len() ==> byte_len(
            text.take(fitting(text, max) as int + 1),
        ) > max,
    decreases text.len(),
{
    let k = fitting(text, max) as int;
    if text.len() == 0 || char_width(text[0]) > max {
        if text.len() > 0 {
            assert(text.take(1).drop_first() =~= Seq::<char>::empty());
        }
    } else {
        let rest = text.drop_first();
        lemma_fitting_is_longest(rest, (max - char_width(text[0])) as nat);
        assert(text.take(k).drop_first() =~= rest.take(k - 1));
        if k < text.len() {
            assert(text.take(k + 1).drop_first() =~= rest.take(k));
        }
    }
}

/// The bytes of a concatenation are those of its parts.
pub proof fn lemma_byte_len_concat(left: Seq<char>, right: Seq<char>)
    ensures
        byte_len(left + right) == byte_len(left) + byte_len(right),
    decreases left.len(),
{
    if left.len() == 0 {
        assert(left + right =~= right);
    } else {
        assert((left + right).drop_first() =~= left.drop_first() + right);
        lemma_byte_len_concat(left.drop_first(), right);
    }
}

/// A prefix that takes at most `max` bytes is no longer than the fitting one.
pub proof fn lemma_fitting_bounds_prefixes(text: Seq<char>, max: nat, n: int)
    requires
        0 <= n <= text.len(),
        byte_len(text.take(n)) <= max,
    ensures
        n <= fitting(text, max),
    decreases text.len(),
{
    if n > 0 {
        let rest = text.drop_first();
        assert(text.take(n).drop_first() =~= rest.take(n - 1));
        lemma_fitting_bounds_prefixes(rest, (max - char_width(text[0])) as nat, n - 1);
    }
}

fn width_of(c: char) -> (r: usize)
    ensures
        r == char_width(c),
        1 <= r <= 4,
{
    let u: u32 = c as u32;
    if u <= 0x7f {
        1
    } else if u <= 0x7ff {
        2
    } else if u <= 0xffff {
        3
    } else {
        4
    }
}

/// The longest prefix of `text` that takes at most `max` bytes.
pub(crate) fn fitting_prefix<'a>(text: &'a str, max: usize) -> (r: &'a str)
    ensures
        r@ == text@.take(fitting(text@, max as nat) as int),
{
    let chars = chars_of(text);
    let mut count: usize = 0;
    let mut room: usize = max;
    assert(text@.skip(0) =~= text@);
    while count < chars.len() && width_of(chars[count]) <= room
        invariant
            chars@ == text@,
            count <= chars.len(),
            fitting(text@, max as nat) == count + fitting(text@.skip(count as int), room as nat),
        decreases chars.len() - count,
    {
        assert(text@.skip(count as int).drop_first() =~= text@.skip(count + 1));
        room = room - width_of(chars[count]);
        count = count + 1;
    }
    assert(fitting(text@.skip(count as int), room as nat) == 0);
    text.substring_char(0, count)
}

/// First index at or after `from` at which `pattern` occurs in `text`.
pub(crate) fn find(text: &Vec<char>, pattern: &Vec<char>, from: usize) -> (r: Option<usize>)
    requires
        from <= text.len(),
    ensures
        match r {
            Some(k) => find_from(text@, pattern@, from as int) == Some(k as int) && k
                + pattern.len() <= text.len(),
            None => find_from(text@, pattern@, from as int) is None,
        },
{
    let mut at: usize = from;
    while text.len() - at >= pattern.len()
        invariant
            from <= at <= text.len(),
            find_from(text@, pattern@, from as int) == find_from(text@, pattern@, at as int),
        decreases text.len() - at,
    {
        if occurs_at(text, pattern, at) {
            return Some(at);
        }
        assert(at < text.len()) by {
            if at == text.len() {
                assert(text@.subrange(at as int, at + pattern.len()) =~= pattern@);
            }
        }
        at = at + 1;
    }
    None
}

fn occurs_at(text: &Vec<char>, pattern: &Vec<char>, at: usize) -> (r: bool)
    requires
        at + pattern.len() <= text.len(),
    ensures
        r == (text@.subrange(at as int, at + pattern.len()) == pattern@),
{
    let mut i: usize = 0;
    while i < pattern.len()
        invariant
            i <= pattern.len(),
            at + pattern.len() <= text.len(),
            forall|j: int| 0 <= j < i ==> text@[at + j] == pattern@[j],
        decreases pattern.len() - i,
    {
        if text[at + i] != pattern[i] {
            assert(text@.subrange(at as int, at + pattern.len())[i as int] != pattern@[i as int]);
            return false;
        }
        i = i + 1;
    }
    assert(text@.subrange(at as int, at + pattern.len()) =~= pattern@);
    true
}

/// `text` without leading and trailing white space.
pub(crate) fn trim<'a>(text: &'a str) -> (r: &'a str)
    ensures
        r@ == trimmed(text@),
{
    let chars = chars_of(text);
    let mut start: usize = 0;
    assert(text@.skip(0) =~= text@);
    while start < chars.len() && is_whitespace(chars[start])
        invariant
            chars@ == text@,
            start <= chars.len(),
            trim_start(text@) == trim_start(text@.skip(start as int)),
        decreases chars.len() - start,
    {
        assert(text@.skip(start as int).drop_first() =~= text@.skip(start + 1));
        start = start + 1;
    }
    let ghost rest = text@.skip(start as int);
    let mut end: usize = chars.len();
    assert(text@.subrange(start as int, end as int) =~= rest);
    while start < end && is_whitespace(chars[end - 1])
        invariant
            chars@ == text@,
            start <= end <= chars.len(),
            trim_end(rest) == trim_end(text@.subrange(start as int, end as int)),
        decreases end,
    {
        assert(text@.subrange(start as int, end as int).drop_last() =~= text@.subrange(
            start as int,
            end - 1,
        ));
        end = end - 1;
    }
    text.substring_char(start, end)
}

/// The parts in order, with `separator` between neighbours.
pub(crate) fn join(parts: &Vec<String>, separator: &str) -> (r: String)
    ensures
        r@ == joined(string_views(parts@), separator@),
{
    let mut out = String::new();
    let mut i: usize = 0;
    let ghost views = string_views(parts@);
    while i < parts.len()
        invariant
            i <= parts.len(),
            views == string_views(parts@),
            out@ == joined(views.take(i as int), separator@),
        decreases parts.len() - i,
    {
        if i > 0 {
            out.append(separator);
        }
        out.append(parts[i].as_str());
        assert(views.take(i + 1).drop_last() =~= views.take(i as int));
        i = i + 1;
    }
    assert(views.take(i as int) =~= views);
    out
}

fn digit(d: usize) -> (r: &'static str)
    requires
        d < 10,
    ensures
        r@ == seq![digit_char(d as nat)],
{
    proof {
        reveal_strlit("0");
        reveal_strlit("1");
        reveal_strlit("2");
        reveal_strlit("3");
        reveal_strlit("4");
        reveal_strlit("5");
        reveal_strlit("6");
        reveal_strlit("7");
        reveal_strlit("8");
        reveal_strlit("9");
    }
    let r = match d {
        0 => "0",
        1 => "1",
        2 => "2",
        3 => "3",
        4 => "4",
        5 => "5",
        6 => "6",
        7 => "7",
        8 => "8",
        _ => "9",
    };
    assert(r@ =~= seq![digit_char(d as nat)]);
    r
}

/// The decimal numeral of `n`.
pub(crate) fn decimal_text(n: usize) -> (r: String)
    ensures
        r@ == decimal(n as nat),
    decreases n,
{
    if n < 10 {
        digit(n).to_owned()
    } else {
        let mut out = decimal_text(n / 10);
        out.append(digit(n % 10));
        assert(out@ =~= decimal((n / 10) as nat).push(digit_char((n % 10) as nat)));
        out
    }
}

/// White space is the tabulators and line ends, the spaces, and the separators
/// of lines and paragraphs; nothing between or beyond them is.
pub proof fn law_white_space(c: char)
    ensures
        c == '\t' || c == '\n' || c == '\u{b}' || c == '\u{c}' || c == '\r' ==> is_white_space(c),
        c == ' ' || c == '\u{85}' || c == '\u{a0}' || c == '\u{1680}' ==> is_white_space(c),
        0x2000 <= c as u32 && c as u32 <= 0x200a ==> is_white_space(c),
        c == '\u{2028}' || c == '\u{2029}' || c == '\u{202f}' ==> is_white_space(c),
        c == '\u{205f}' || c == '\u{3000}' ==> is_white_space(c),
        c as u32 <= 0x08 || (0x0e <= c as u32 && c as u32 <= 0x1f) ==> !is_white_space(c),
        0x21 <= c as u32 && c as u32 <= 0x84 ==> !is_white_space(c),
        0x86 <= c as u32 && c as u32 <= 0x9f ==> !is_white_space(c),
        0xa1 <= c as u32 && c as u32 <= 0x167f ==> !is_white_space(c),
        0x1681 <= c as u32 && c as u32 <= 0x1fff ==> !is_white_space(c),
        0x200b <= c as u32 && c as u32 <= 0x2027 ==> !is_white_space(c),
        0x202a <= c as u32 && c as u32 <= 0x202e ==> !is_white_space(c),
        0x2030 <= c as u32 && c as u32 <= 0x205e ==> !is_white_space(c),
        0x2060 <= c as u32 && c as u32 <= 0x2fff ==> !is_white_space(c),
        0x3001 <= c as u32 ==> !is_white_space(c),
{
}

proof fn lemma_trim_start_split(text: Seq<char>) -> (n: int)
    ensures
        0 <= n <= text.len(),
        trim_start(text) == text.skip(n),
        forall|i: int| 0 <= i < n ==> is_white_space(#[trigger] text[i]),
    decreases text.len(),
{
    if text.len() > 0 && is_white_space(text.first()) {
        let rest = text.drop_first();
        let n = lemma_trim_start_split(rest);
        assert(rest.skip(n) =~= text.skip(n + 1));
        assert forall|i: int| 0 <= i < n + 1 implies is_white_space(#[trigger] text[i]) by {
            if i > 0 {
                assert(rest[i - 1] == text[i]);
            }
        }
        n + 1
    } else {
        assert(text.skip(0) =~= text);
        0
    }
}

proof fn lemma_trim_end_split(text: Seq<char>) -> (n: int)
    ensures
        0 <= n <= text.len(),
        trim_end(text) == text.take(n),
        forall|i: int| n <= i < text.len() ==> is_white_space(#[trigger] text[i]),
    decreases text.len(),
{
    if text.len() > 0 && is_white_space(text.last()) {
        let rest = text.drop_last();
        let n = lemma_trim_end_split(rest);
        assert(rest.take(n) =~= text.take(n));
        assert forall|i: int| n <= i < text.len() implies is_white_space(#[trigger] text[i]) by {
            if i < text.len() - 1 {
                assert(rest[i] == text[i]);
            }
        }
        n
    } else {
        assert(text.take(text.len() as int) =~= text);
        text.len() as int
    }
}

/// Trimming cuts white space off both ends and nothing else: what is left is a
/// piece of the text with only white space around it, and neither begins nor
/// ends with any. The piece is the one between the two indices.
pub proof fn law_trimming_cuts_white_space_only(text: Seq<char>) -> (r: (int, int))
    ensures
        0 <= r.0 <= r.1 <= text.len(),
        trimmed(text) == text.subrange(r.0, r.1),
        forall|i: int| 0 <= i < r.0 ==> is_white_space(#[trigger] text[i]),
        forall|i: int| r.1 <= i < text.len() ==> is_white_space(#[trigger] text[i]),
        r.0 < r.1 ==> !is_white_space(text[r.0]) && !is_white_space(text[r.1 - 1]),
{
    let a = lemma_trim_start_split(text);
    let rest = text.skip(a);
    let n = lemma_trim_end_split(rest);
    assert(rest.take(n) =~= text.subrange(a, a + n));
    assert forall|i: int| a + n <= i < text.len() implies is_white_space(#[trigger] text[i]) by {
        assert(rest[i - a] == text[i]);
    }
    lemma_trimmed_ends(text);
    if n > 0 {
        assert(trimmed(text).first() == text[a]);
        assert(trimmed(text).last() == text[a + n - 1]);
    }
    (a, a + n)
}

/// Joining parts and joining further parts to them is one joining; a single part
/// is joined to itself.
pub proof fn law_joining_is_associative(
    first: Seq<Seq<char>>,
    second: Seq<Seq<char>>,
    separator: Seq<char>,
)
    requires
        first.len() > 0,
        second.len() > 0,
    ensures
        joined(first + second, separator) == joined(first, separator) + separator + joined(
            second,
            separator,
        ),
    decreases second.len(),
{
    assert((first + second).drop_last() =~= first + second.drop_last());
    if second.len() == 1 {
        assert(first + second.drop_last() =~= first);
    } else {
        law_joining_is_associative(first, second.drop_last(), separator);
        assert(joined(first + second, separator) =~= joined(first, separator) + separator + joined(
            second,
            separator,
        ));
    }
}

/// Number of characters before the part with this index, in parts that are
/// followed by one character each.
pub open spec fn part_start(parts: Seq<Seq<char>>, i: int) -> int
    decreases i,
{
    if i <= 0 {
        0
    } else {
        part_start(parts, i - 1) + parts[i - 1].len() + 1
    }
}

/// Every part occurs in what is joined, at its own place, one after the other,
/// with the separator between neighbours, and nothing else does.
pub proof fn law_joining_keeps_every_part(parts: Seq<Seq<char>>, separator: char, i: int)
    requires
        0 <= i < parts.len(),
    ensures
        ({
            let text = joined(parts, seq![separator]);
            let start = part_start(parts, i);
            &&& 0 <= start
            &&& start + parts[i].len() <= text.len()
            &&& text.subrange(start, start + parts[i].len() as int) == parts[i]
            &&& i > 0 ==> start > 0 && text[start - 1] == separator
            &&& i + 1 < parts.len() ==> start + parts[i].len() < text.len() && text[start
                + parts[i].len()] == separator
            &&& text.len() + 1 == part_start(parts, parts.len() as int)
        }),
    decreases parts.len(),
{
    let sep = seq![separator];
    let text = joined(parts, sep);
    let start = part_start(parts, i);
    if parts.len() == 1 {
        assert(part_start(parts, 0) == 0);
        assert(part_start(parts, 1) == parts[0].len() + 1);
        assert(text.subrange(0, parts[0].len() as int) =~= parts[0]);
    } else {
        let before = parts.drop_last();
        let head = joined(before, sep);
        let last = parts.len() - 1;
        lemma_part_start_prefix(parts, last);
        assert(text =~= head + sep + parts.last());
        if i < last {
            law_joining_keeps_every_part(before, separator, i);
            lemma_part_start_prefix(parts, i);
            assert(text.subrange(start, start + parts[i].len()) =~= head.subrange(
                start,
                start + before[i].len(),
            ));
            if i + 1 == last {
                assert(part_start(parts, last) == start + parts[i].len() + 1);
            }
        } else {
            law_joining_keeps_every_part(before, separator, 0);
            assert(start == head.len() + 1);
            assert(text.subrange(start, start + parts[i].len()) =~= parts.last());
        }
    }
}

proof fn lemma_part_start_prefix(parts: Seq<Seq<char>>, i: int)
    requires
        parts.len() > 0,
        i < parts.len(),
    ensures
        part_start(parts, i) == part_start(parts.drop_last(), i),
    decreases i,
{
    if i > 0 {
        lemma_part_start_prefix(parts, i - 1);
    }
}

/// The number that decimal digits stand for.
pub open spec fn number_of(digits: Seq<char>) -> int
    decreases digits.len(),
{
    if digits.len() == 0 {
        0
    } else {
        10 * number_of(digits.drop_last()) + (digits.last() as u32 - '0' as u32)
    }
}

/// A numeral is made of decimal digits, stands for its number, and has no zero
/// in front.
pub proof fn law_decimal_stands_for_its_number(n: nat)
    ensures
        decimal(n).len() > 0,
        forall|i: int|
            0 <= i < decimal(n).len() ==> '0' as u32 <= (#[trigger] decimal(n)[i]) as u32
                && decimal(n)[i] as u32 <= '9' as u32,
        number_of(decimal(n)) == n,
        n > 0 ==> decimal(n)[0] != '0',
    decreases n,
{
    if n < 10 {
        assert(decimal(n).drop_last() =~= Seq::empty());
        assert(number_of(Seq::empty()) == 0);
    } else {
        law_decimal_stands_for_its_number(n / 10);
        assert(decimal(n).drop_last() =~= decimal(n / 10));
    }
}

/// A text that is taken as a string is taken with all of its characters.
pub proof fn law_conversion_keeps_the_text(
    text: &str,
    shared: &String,
    owned: String,
    result: Seq<char>,
)
    ensures
        converts(text, result) ==> result == text@,
        converts(shared, result) ==> result == shared@,
        converts(owned, result) ==> result == owned@,
{
}

/// The contents of a list of strings are those of each, in order.
pub proof fn law_string_views_show_every_string(strings: Seq<String>, i: int)
    requires
        0 <= i < strings.len(),
    ensures
        string_views(strings).len() == strings.len(),
        string_views(strings)[i] == strings[i]@,
{
}

/// Nothing joined is nothing, and one part joined is that part.
pub proof fn law_joining_one_part(part: Seq<char>, separator: Seq<char>)
    ensures
        joined(Seq::empty(), separator).len() == 0,
        joined(seq![part], separator) == part,
{
}

} // verus!
