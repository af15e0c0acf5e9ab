//! Regular expressions, as the `regex` crate compiles and matches them.
use regex::Regex;
use vstd::prelude::*;

verus! {

/// `regex::Regex`: a compiled pattern.
#[verifier::external_type_specification]
#[verifier::external_body]
pub struct ExRegex(regex::Regex);

/// What `Regex::new` makes of a pattern: the compiled pattern, or the text of
/// its complaint.
pub uninterp spec fn regex_compiled(pattern: Seq<char>) -> Result<Regex, Seq<char>>;

/// Whether a compiled pattern matches somewhere in a text.
pub uninterp spec fn regex_matches(re: Regex, text: Seq<char>) -> bool;

/// A text with every match of a compiled pattern replaced.
pub uninterp spec fn regex_replaced(re: Regex, text: Seq<char>, replacement: Seq<char>) -> Seq<
    char,
>;

/// A pattern whose matches do not depend on what stands around them: it has no
/// anchor and no boundary, since no `^`, `$` or backslash stands in it.
pub open spec fn plain(pattern: Seq<char>) -> bool {
    !pattern.contains('^') && !pattern.contains('$') && !pattern.contains('\\')
}

/// These parts, with the same text between each and the next.
pub open spec fn joined_by(parts: Seq<Seq<char>>, between: Seq<char>) -> Seq<char>
    decreases parts.len(),
{
    if parts.len() <= 1 {
        parts[0]
    } else {
        joined_by(parts.drop_last(), between) + between + parts.last()
    }
}

/// The pattern was compiled from a plain text, and does not match nothing at all.
pub open spec fn strikes_plainly(re: Regex) -> bool {
    &&& exists|pattern: Seq<char>|
        plain(pattern) && #[trigger] regex_compiled(pattern) == Ok::<Regex, Seq<char>>(re)
    &&& !regex_matches(re, Seq::empty())
}

/// Parts of a text that the pattern matches nowhere in, joined by the replacement.
pub open spec fn struck_out(re: Regex, out: Seq<char>, replacement: Seq<char>) -> bool {
    exists|parts: Seq<Seq<char>>|
        parts.len() > 0 && #[trigger] joined_by(parts, replacement) == out && forall|i: int|
            0 <= i < parts.len() ==> !regex_matches(re, #[trigger] parts[i])
}

/// The replacement leaves nothing to strike: it stands for itself, and joins no two
/// texts that the pattern does not match in to one that it does match in.
pub open spec fn seals(re: Regex, replacement: Seq<char>) -> bool {
    &&& strikes_plainly(re)
    &&& !replacement.contains('$')
    &&& forall|a: Seq<char>, b: Seq<char>|
        !regex_matches(re, a) && !regex_matches(re, b) ==> !regex_matches(
            re,
            #[trigger] (a + replacement + b),
        )
}

/// `Regex::new`: compiles a pattern, or says in words why it does not compile.
#[verifier::external_body]
pub(crate) fn compile(pattern: &str) -> (re: Result<Regex, String>)
    ensures
        match re {
            Ok(re) => regex_compiled(pattern@) == Ok::<Regex, Seq<char>>(re),
            Err(complaint) => regex_compiled(pattern@) == Err::<Regex, Seq<char>>(complaint@),
        },
{
    Regex::new(pattern).map_err(|e| e.to_string())
}

/// `Regex::clone` gives the same compiled pattern.
pub assume_specification[ <Regex as Clone>::clone ](re: &Regex) -> (r: Regex)
    ensures
        r == *re,
;

/// `Regex::is_match`: whether the pattern matches somewhere in the text.
pub assume_specification[ Regex::is_match ](re: &Regex, haystack: &str) -> (r: bool)
    ensures
        r == regex_matches(*re, haystack@),
;

/// `Regex::replace_all` with a replacement text. Where the pattern matches
/// nowhere, the text comes back as it was. A replacement without a `$` stands for
/// itself, so that what comes out is the parts of the text between its matches,
/// joined by it. Of a plain pattern that matches no empty text no such part has a
/// match, since the matches are found from the left, each the first after the last.
#[verifier::external_body]
fn replace_all(re: &Regex, text: &str, replacement: &str) -> (out: String)
    ensures
        out@ == regex_replaced(*re, text@, replacement@),
        !regex_matches(*re, text@) ==> out@ == text@,
        strikes_plainly(*re) && !replacement@.contains('$') ==> struck_out(
            *re,
            out@,
            replacement@,
        ),
{
    re.replace_all(text, replacement).into_owned()
}

/// Texts that the pattern does not match in, joined by a replacement that seals, are
/// one that it does not match in.
proof fn lemma_joined_is_clean(re: Regex, parts: Seq<Seq<char>>, replacement: Seq<char>)
    requires
        seals(re, replacement),
        parts.len() > 0,
        forall|i: int| 0 <= i < parts.len() ==> !regex_matches(re, #[trigger] parts[i]),
    ensures
        !regex_matches(re, joined_by(parts, replacement)),
    decreases parts.len(),
{
    if parts.len() > 1 {
        let front = parts.drop_last();
        assert forall|i: int| 0 <= i < front.len() implies !regex_matches(
            re,
            #[trigger] front[i],
        ) by {
            assert(front[i] == parts[i]);
        }
        lemma_joined_is_clean(re, front, replacement);
        let a = joined_by(front, replacement);
        let b = parts.last();
        assert(!regex_matches(re, a + replacement + b));
    }
}

/// The text with every match of a pattern replaced. A text without a match stays as
/// it is, and a replacement that seals leaves no match.
pub fn replaced(re: &Regex, text: &str, replacement: &str) -> (out: String)
    ensures
        out@ == regex_replaced(*re, text@, replacement@),
        !regex_matches(*re, text@) ==> out@ == text@,
        seals(*re, replacement@) ==> !regex_matches(*re, out@),
{
    let out = replace_all(re, text, replacement);
    proof {
        if seals(*re, replacement@) {
            let parts = choose|parts: Seq<Seq<char>>|
                parts.len() > 0 && #[trigger] joined_by(parts, replacement@) == out@ && forall|
                    i: int,
                |
                    0 <= i < parts.len() ==> !regex_matches(*re, #[trigger] parts[i]);
            lemma_joined_is_clean(*re, parts, replacement@);
        }
    }
    out
}

} // verus!
