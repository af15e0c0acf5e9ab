//! Text: characters in and out of strings, decimal numbers, prefixes and
//! suffixes.
use vstd::prelude::*;
use vstd::utf8::{decode_utf8, valid_utf8};

verus! {

/// `String::push` appends one character.
pub assume_specification[ String::push ](s: &mut String, c: char)
    ensures
        final(s)@ == old(s)@.push(c),
;

/// `==` on `str` compares the characters.
pub assume_specification[ <str as PartialEq<str>>::eq ](a: &str, b: &str) -> (r: bool)
    ensures
        r == (a@ == b@),
;

/// `std::str::from_utf8`: the text that bytes in UTF-8 hold; there is one if and
/// only if they are valid.
#[verifier::external_body]
pub(crate) fn text_of_bytes(bytes: &[u8]) -> (text: Option<String>)
    ensures
        match text {
            Some(s) => valid_utf8(bytes@) && s@ == decode_utf8(bytes@),
            None => !valid_utf8(bytes@),
        },
{
    std::str::from_utf8(bytes).ok().map(|s| s.to_owned())
}

/// The text that `str::to_lowercase` gives.
pub uninterp spec fn lowercased(s: Seq<char>) -> Seq<char>;

/// `str::to_lowercase`, by the tables of Unicode.
#[verifier::external_body]
pub(crate) fn lowercase(s: &str) -> (lower: String)
    ensures
        lower@ == lowercased(s@),
{
    s.to_lowercase()
}

/// The text in double quotes that `{:?}` gives of a text.
pub uninterp spec fn quoted_text(s: Seq<char>) -> Seq<char>;

/// `str` printed with `{:?}`: in double quotes, with what cannot be shown escaped.
#[verifier::external_body]
pub(crate) fn quoted(s: &str) -> (text: String)
    ensures
        text@ == quoted_text(s@),
{
    format!("{s:?}")
}

/// The decimal digit with value `d`.
pub open spec fn digit(d: nat) -> char {
    (48 + d) as char
}

/// A natural number in decimal, without leading zeros.
pub open spec fn decimal(n: nat) -> Seq<char>
    decreases n,
{
    if n < 10 {
        seq![digit(n)]
    } else {
        decimal(n / 10).push(digit(n % 10))
    }
}

/// A number in decimal is made of digits.
pub proof fn lemma_decimal_is_digits(n: nat)
    ensures
        decimal(n).len() > 0,
        forall|i: int| 0 <= i < decimal(n).len() ==> '0' <= #[trigger] decimal(n)[i] <= '9',
    decreases n,
{
    if n >= 10 {
        lemma_decimal_is_digits(n / 10);
    }
}

/// An integer in decimal, a minus sign before it where it is negative.
pub open spec fn signed_decimal(n: int) -> Seq<char> {
    if n < 0 {
        seq!['-'] + decimal((-n) as nat)
    } else {
        decimal(n as nat)
    }
}

/// A number in decimal.
pub fn decimal_text(n: u64) -> (text: String)
    ensures
        text@ == decimal(n as nat),
    decreases n,
{
    let last: u8 = 48 + (n % 10) as u8;
    let mut text = if n < 10 {
        String::new()
    } else {
        decimal_text(n / 10)
    };
    text.push(last as char);
    assert(text@ =~= decimal(n as nat));
    text
}

/// An integer in decimal.
pub fn signed_decimal_text(n: i64) -> (text: String)
    ensures
        text@ == signed_decimal(n as int),
{
    if n < 0 {
        let mut text = String::new();
        text.push('-');
        let magnitude: u64 = if n == i64::MIN {
            9223372036854775808
        } else {
            (-n) as u64
        };
        text.append(decimal_text(magnitude).as_str());
        assert(text@ =~= signed_decimal(n as int));
        text
    } else {
        decimal_text(n as u64)
    }
}

/// The characters of a text.
pub fn chars_of(s: &str) -> (out: Vec<char>)
    ensures
        out@ == s@,
{
    let mut out: Vec<char> = Vec::new();
    for c in it: s.chars()
        invariant
            out@ == it.seq().take(it.index()),
            it.seq() == s@,
    {
        out.push(c);
    }
    assert(out@ =~= s@);
    out
}

/// The text of the characters from `from` up to, not including, `to`.
pub fn text_between(chars: &Vec<char>, from: usize, to: usize) -> (text: String)
    requires
        from <= to <= chars@.len(),
    ensures
        text@ == chars@.subrange(from as int, to as int),
{
    let mut text = String::new();
    let mut i: usize = from;
    while i < to
        invariant
            from <= i <= to <= chars@.len(),
            text@ == chars@.subrange(from as int, i as int),
        decreases to - i,
    {
        text.push(chars[i]);
        i += 1;
        assert(text@ =~= chars@.subrange(from as int, i as int));
    }
    text
}

/// The first text followed by the second.
pub fn joined(a: &str, b: &str) -> (text: String)
    ensures
        text@ == a@ + b@,
{
    let mut text = a.to_owned();
    text.append(b);
    text
}

/// `s` begins with `prefix`.
pub open spec fn begins_with(s: Seq<char>, prefix: Seq<char>) -> bool {
    prefix.len() <= s.len() && s.take(prefix.len() as int) == prefix
}

/// `s` ends with `suffix`.
pub open spec fn ends_in(s: Seq<char>, suffix: Seq<char>) -> bool {
    suffix.len() <= s.len() && s.skip(s.len() - suffix.len()) == suffix
}

/// What follows `prefix` in `s`, if `s` begins with it.
pub fn after_prefix(s: &str, prefix: &str) -> (rest: Option<String>)
    ensures
        match rest {
            Some(r) => begins_with(s@, prefix@) && r@ == s@.skip(prefix@.len() as int),
            None => !begins_with(s@, prefix@),
        },
{
    let chars = chars_of(s);
    let head = chars_of(prefix);
    if head.len() > chars.len() {
        return None;
    }
    let front = text_between(&chars, 0, head.len());
    if *front.as_str() == *prefix {
        Some(text_between(&chars, head.len(), chars.len()))
    } else {
        None
    }
}

/// What comes before `suffix` in `s`, if `s` ends with it.
pub fn before_suffix(s: &str, suffix: &str) -> (rest: Option<String>)
    ensures
        match rest {
            Some(r) => ends_in(s@, suffix@) && r@ == s@.take(s@.len() - suffix@.len()),
            None => !ends_in(s@, suffix@),
        },
{
    let chars = chars_of(s);
    let tail = chars_of(suffix);
    if tail.len() > chars.len() {
        return None;
    }
    let cut = chars.len() - tail.len();
    let back = text_between(&chars, cut, chars.len());
    if *back.as_str() == *suffix {
        Some(text_between(&chars, 0, cut))
    } else {
        None
    }
}

/// `s` without the characters `c` at its end.
pub open spec fn without_trailing(s: Seq<char>, c: char) -> Seq<char>
    decreases s.len(),
{
    if s.len() > 0 && s.last() == c {
        without_trailing(s.drop_last(), c)
    } else {
        s
    }
}

/// `s` without the characters `c` at its start.
pub open spec fn without_leading(s: Seq<char>, c: char) -> Seq<char>
    decreases s.len(),
{
    if s.len() > 0 && s[0] == c {
        without_leading(s.skip(1), c)
    } else {
        s
    }
}

/// Drops the characters `c` at the end of `s`.
pub fn trim_trailing(s: &str, c: char) -> (text: String)
    ensures
        text@ == without_trailing(s@, c),
{
    let mut chars = chars_of(s);
    assert(s@.take(chars@.len() as int) =~= s@);
    while chars.len() > 0 && chars[chars.len() - 1] == c
        invariant
            without_trailing(chars@, c) == without_trailing(s@, c),
        decreases chars@.len(),
    {
        let _ = chars.pop();
    }
    let text = text_between(&chars, 0, chars.len());
    assert(text@ =~= chars@);
    text
}

/// Drops the characters `c` at the start of `s`.
pub fn trim_leading(s: &str, c: char) -> (text: String)
    ensures
        text@ == without_leading(s@, c),
{
    let chars = chars_of(s);
    let mut i: usize = 0;
    assert(s@.skip(0) =~= s@);
    while i < chars.len() && chars[i] == c
        invariant
            i <= chars@.len(),
            chars@ == s@,
            without_leading(s@.skip(i as int), c) == without_leading(s@, c),
        decreases chars@.len() - i,
    {
        assert(s@.skip(i as int).skip(1) =~= s@.skip(i + 1));
        i += 1;
    }
    let text = text_between(&chars, i, chars.len());
    assert(text@ =~= s@.skip(i as int));
    text
}

/// What is dropped at an end of a text is that character alone, and all of it: what is
/// left does not end, or does not begin, with it.
pub proof fn law_trimming_drops_all_and_nothing_else(s: Seq<char>, c: char)
    ensures
        ({
            let left = without_trailing(s, c);
            &&& left.len() <= s.len()
            &&& left == s.take(left.len() as int)
            &&& left.len() > 0 ==> left.last() != c
            &&& forall|i: int| left.len() <= i < s.len() ==> #[trigger] s[i] == c
        }),
        ({
            let left = without_leading(s, c);
            &&& left.len() <= s.len()
            &&& left == s.skip(s.len() - left.len())
            &&& left.len() > 0 ==> left[0] != c
            &&& forall|i: int| 0 <= i < s.len() - left.len() ==> #[trigger] s[i] == c
        }),
    decreases s.len(),
{
    if s.len() > 0 && s.last() == c {
        let front = s.drop_last();
        law_trimming_drops_all_and_nothing_else(front, c);
        let left = without_trailing(s, c);
        assert(left =~= s.take(left.len() as int));
        assert forall|i: int| left.len() <= i < s.len() implies #[trigger] s[i] == c by {
            if i < front.len() {
                assert(front[i] == s[i]);
            }
        }
    } else {
        assert(without_trailing(s, c) =~= s.take(s.len() as int));
    }
    if s.len() > 0 && s[0] == c {
        let back = s.skip(1);
        law_trimming_drops_all_and_nothing_else(back, c);
        let left = without_leading(s, c);
        assert(left =~= s.skip(s.len() - left.len()));
        assert forall|i: int| 0 <= i < s.len() - left.len() implies #[trigger] s[i] == c by {
            if i > 0 {
                assert(back[i - 1] == s[i]);
            }
        }
    } else {
        assert(without_leading(s, c) =~= s.skip(0));
    }
}

/// A text begins with another if and only if it is that one and something after it, and
/// ends in another if and only if it is something and that one after it.
pub proof fn law_beginnings_and_ends(s: Seq<char>, part: Seq<char>)
    ensures
        begins_with(s, part) <==> part.is_prefix_of(s),
        ends_in(s, part) <==> part.is_suffix_of(s),
        begins_with(part + s, part),
        ends_in(s + part, part),
{
    assert((part + s).take(part.len() as int) =~= part);
    assert((s + part).skip(s.len() as int) =~= part);
    if part.is_suffix_of(s) {
        assert(s.skip(s.len() - part.len()) =~= part);
    }
    if ends_in(s, part) {
        assert(s.subrange(s.len() - part.len(), s.len() as int) =~= s.skip(s.len() - part.len()));
    }
}

/// A number in decimal ends in its last digit, and what comes before that is the number
/// without it; no number begins with a zero but zero itself.
pub proof fn law_decimals_are_read_from_the_left(n: nat)
    ensures
        n < 10 ==> decimal(n) == seq![(48 + n) as char],
        n > 0 ==> forall|d: nat| d < 10 ==> #[trigger] decimal(10 * n + d) == decimal(n).push(
            (48 + d) as char,
        ),
        n > 0 ==> decimal(n)[0] != '0',
        signed_decimal(n as int) == decimal(n),
        n > 0 ==> signed_decimal(-(n as int)) == seq!['-'] + decimal(n),
    decreases n,
{
    if n > 0 {
        assert forall|d: nat| d < 10 implies #[trigger] decimal(10 * n + d) == decimal(n).push(
            (48 + d) as char,
        ) by {
            assert((10 * n + d) / 10 == n);
            assert((10 * n + d) % 10 == d);
        }
        if n >= 10 {
            law_decimals_are_read_from_the_left(n / 10);
            lemma_decimal_is_digits(n / 10);
        } else {
            assert((48 + n) as char != '0');
        }
    }
}

/// What an optional text says.
pub open spec fn opt_text(s: Option<String>) -> Option<Seq<char>> {
    match s {
        Some(s) => Some(s@),
        None => None,
    }
}

/// A copy of an optional text.
pub fn copy_opt(s: &Option<String>) -> (r: Option<String>)
    ensures
        opt_text(r) == opt_text(*s),
{
    match s {
        Some(s) => Some(s.clone()),
        None => None,
    }
}

} // verus!
