//! Texts that are read one after the other.
use vstd::prelude::*;

use super::condition::{
    digits_end, lemma_ends, lexeme, quote_end, tokens_from, word_end, Fault, Lexeme, Token,
};
use crate::chars::{digit_char, word_char};

verus! {

/// A character between tokens.
pub open spec fn blank(c: char) -> bool {
    c == ' ' || c == '\t' || c == '\n' || c == '\r'
}

/// `s` is `a`, a blank, and more.
spec fn goes_on(s: Seq<char>, a: Seq<char>) -> bool {
    &&& a.len() < s.len()
    &&& s.take(a.len() as int) == a
    &&& blank(s[a.len() as int])
}

/// A run that ends before the blank, or at it, ends there in the longer text too.
proof fn lemma_ends_before_blank(s: Seq<char>, a: Seq<char>, i: int)
    requires
        goes_on(s, a),
        0 <= i <= a.len(),
    ensures
        digits_end(s, i) == digits_end(a, i),
        word_end(s, i) == word_end(a, i),
        quote_end(a, i) < a.len() ==> quote_end(s, i) == quote_end(a, i),
    decreases a.len() - i,
{
    if i < a.len() {
        assert(s.take(a.len() as int)[i] == s[i]);
        lemma_ends_before_blank(s, a, i + 1);
    } else {
        assert(!digit_char(s[i]) && !word_char(s[i]));
        assert(digits_end(s, i) == i);
        assert(word_end(s, i) == i);
    }
}

/// A run ends as far on in a text that has more in front.
proof fn lemma_ends_shifted(s: Seq<char>, n: int, b: Seq<char>, i: int)
    requires
        0 <= n <= s.len(),
        s.skip(n) == b,
        0 <= i <= b.len(),
    ensures
        digits_end(s, n + i) == n + digits_end(b, i),
        word_end(s, n + i) == n + word_end(b, i),
        quote_end(s, n + i) == n + quote_end(b, i),
    decreases b.len() - i,
{
    if i < b.len() {
        assert(s.skip(n)[i] == s[n + i]);
        lemma_ends_shifted(s, n, b, i + 1);
    }
}

/// A text reads the same with more in front.
proof fn lemma_tokens_shifted(s: Seq<char>, n: int, b: Seq<char>, i: int)
    requires
        0 <= n <= s.len(),
        s.skip(n) == b,
        0 <= i <= b.len(),
        tokens_from(b, i) is Ok,
    ensures
        tokens_from(s, n + i) == tokens_from(b, i),
    decreases b.len() - i,
{
    if i < b.len() {
        lemma_ends(b, i);
        lemma_ends(b, i + 1);
        assert(s.skip(n)[i] == s[n + i]);
        if i + 1 < b.len() {
            assert(s.skip(n)[i + 1] == s[n + i + 1]);
        }
        lemma_ends_shifted(s, n, b, i);
        lemma_ends_shifted(s, n, b, i + 1);
        match lexeme(b, i) {
            Lexeme::Blank => {
                lemma_tokens_shifted(s, n, b, i + 1);
            },
            Lexeme::Token(token, end) => {
                let quoted = quote_end(b, i + 1);
                assert(s.subrange(n + i + 1, n + quoted) =~= b.subrange(i + 1, quoted));
                assert(s.subrange(n + i, n + digits_end(b, i)) =~= b.subrange(i, digits_end(b, i)));
                assert(s.subrange(n + i, n + word_end(b, i + 1)) =~= b.subrange(
                    i,
                    word_end(b, i + 1),
                ));
                assert(lexeme(s, n + i) == Lexeme::Token(token, n + end));
                lemma_tokens_shifted(s, n, b, end);
            },
            Lexeme::Fault(_) => {},
        }
    }
}

/// Up to the blank a text reads as it does alone, and goes on after it.
proof fn lemma_tokens_to_blank(s: Seq<char>, a: Seq<char>, i: int, rest: Seq<Token>)
    requires
        goes_on(s, a),
        0 <= i <= a.len(),
        tokens_from(a, i) is Ok,
        tokens_from(s, a.len() as int + 1) == Ok::<Seq<Token>, Fault>(rest),
    ensures
        tokens_from(s, i) == Ok::<Seq<Token>, Fault>(tokens_from(a, i)->Ok_0.drop_last() + rest),
        tokens_from(a, i)->Ok_0.len() > 0,
    decreases a.len() - i,
{
    if i == a.len() {
        assert(lexeme(s, i) == Lexeme::Blank);
        assert(tokens_from(a, i)->Ok_0.drop_last() + rest =~= rest);
    } else {
        lemma_ends(a, i);
        lemma_ends(a, i + 1);
        assert(s.take(a.len() as int)[i] == s[i]);
        if i + 1 < a.len() {
            assert(s.take(a.len() as int)[i + 1] == s[i + 1]);
        }
        lemma_ends_before_blank(s, a, i);
        lemma_ends_before_blank(s, a, i + 1);
        match lexeme(a, i) {
            Lexeme::Blank => {
                lemma_tokens_to_blank(s, a, i + 1, rest);
            },
            Lexeme::Token(token, end) => {
                let quoted = quote_end(a, i + 1);
                if quoted < a.len() {
                    assert(s.subrange(i + 1, quoted) =~= a.subrange(i + 1, quoted));
                }
                assert(s.subrange(i, digits_end(a, i)) =~= a.subrange(i, digits_end(a, i)));
                assert(s.subrange(i, word_end(a, i + 1)) =~= a.subrange(i, word_end(a, i + 1)));
                assert(lexeme(s, i) == Lexeme::Token(token, end));
                lemma_tokens_to_blank(s, a, end, rest);
                let tail = tokens_from(a, end)->Ok_0;
                assert((seq![token] + tail).drop_last() + rest =~= seq![token] + (tail.drop_last()
                    + rest));
            },
            Lexeme::Fault(_) => {},
        }
    }
}

/// The tokens of two texts that are joined by a blank, a tab or a line break are
/// those of the first, but for its end mark, and then those of the second.
pub proof fn law_joined_texts_are_read_one_after_the_other(
    a: Seq<char>,
    between: char,
    b: Seq<char>,
)
    requires
        blank(between),
        tokens_from(a, 0) is Ok,
        tokens_from(b, 0) is Ok,
    ensures
        tokens_from(a + seq![between] + b, 0) == Ok::<Seq<Token>, Fault>(
            tokens_from(a, 0)->Ok_0.drop_last() + tokens_from(b, 0)->Ok_0,
        ),
{
    let s = a + seq![between] + b;
    let n = a.len() as int;
    assert(s.take(n) =~= a);
    assert(s.skip(n + 1) =~= b);
    lemma_tokens_shifted(s, n + 1, b, 0);
    lemma_tokens_to_blank(s, a, 0, tokens_from(b, 0)->Ok_0);
}

} // verus!
