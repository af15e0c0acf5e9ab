//! What conditions mean, told by their texts.
use vstd::prelude::*;

use super::condition::{
    and_at, and_rest, atom_at, condition_of, digits_end, holds, lemma_ends, lexeme, meaning, not_at,
    or_at, or_rest, primary_at, quote_end, then_tokens, token_at, tokens_from, word_end, word_token,
    CmpOp, Fault, Form, Kw, Lexeme, Parsed, Token,
};
use super::grammar::{lemma_decimal_value, lemma_keyword, lemma_quote_end, lemma_word_end};
use super::joining::law_joined_texts_are_read_one_after_the_other;
use crate::chars::{digit_char, word_char, word_start};
use crate::document::{json_text, Doc};
use crate::pattern::{regex_compiled, regex_matches};
use crate::text::{decimal, lemma_decimal_is_digits};

verus! {

/// No end mark stands among the tokens from `p` to `q`.
spec fn solid(ts: Seq<Token>, p: int, q: int) -> bool {
    &&& 0 <= p < q <= ts.len()
    &&& forall|i: int| p <= i < q ==> #[trigger] ts[i] != Token::Eof
}

proof fn lemma_or_solid(ts: Seq<Token>, p: int)
    requires
        0 <= p,
        or_at(ts, p) is Ok,
    ensures
        solid(ts, p, or_at(ts, p)->Ok_0.1),
    decreases ts.len() - p, 4int,
{
    lemma_and_solid(ts, p);
    let (left, q) = and_at(ts, p)->Ok_0;
    lemma_or_rest_solid(ts, left, q);
}

proof fn lemma_or_rest_solid(ts: Seq<Token>, left: Form, p: int)
    requires
        0 <= p <= ts.len(),
        or_rest(ts, left, p) is Ok,
    ensures
        p <= or_rest(ts, left, p)->Ok_0.1 <= ts.len(),
        forall|i: int| p <= i < or_rest(ts, left, p)->Ok_0.1 ==> #[trigger] ts[i] != Token::Eof,
    decreases ts.len() - p, 5int,
{
    if token_at(ts, p) == Token::Kw(Kw::Or) {
        lemma_and_solid(ts, p + 1);
        let (right, q) = and_at(ts, p + 1)->Ok_0;
        lemma_or_rest_solid(ts, Form::Or(Box::new(left), Box::new(right)), q);
    }
}

proof fn lemma_and_solid(ts: Seq<Token>, p: int)
    requires
        0 <= p,
        and_at(ts, p) is Ok,
    ensures
        solid(ts, p, and_at(ts, p)->Ok_0.1),
    decreases ts.len() - p, 3int,
{
    lemma_not_solid(ts, p);
    let (left, q) = not_at(ts, p)->Ok_0;
    lemma_and_rest_solid(ts, left, q);
}

proof fn lemma_and_rest_solid(ts: Seq<Token>, left: Form, p: int)
    requires
        0 <= p <= ts.len(),
        and_rest(ts, left, p) is Ok,
    ensures
        p <= and_rest(ts, left, p)->Ok_0.1 <= ts.len(),
        forall|i: int| p <= i < and_rest(ts, left, p)->Ok_0.1 ==> #[trigger] ts[i] != Token::Eof,
    decreases ts.len() - p, 4int,
{
    if token_at(ts, p) == Token::Kw(Kw::And) {
        lemma_not_solid(ts, p + 1);
        let (right, q) = not_at(ts, p + 1)->Ok_0;
        lemma_and_rest_solid(ts, Form::And(Box::new(left), Box::new(right)), q);
    }
}

proof fn lemma_not_solid(ts: Seq<Token>, p: int)
    requires
        0 <= p,
        not_at(ts, p) is Ok,
    ensures
        solid(ts, p, not_at(ts, p)->Ok_0.1),
    decreases ts.len() - p, 2int,
{
    if token_at(ts, p) == Token::Kw(Kw::Not) {
        lemma_not_solid(ts, p + 1);
    } else if token_at(ts, p) == Token::LParen {
        assert(primary_at(ts, p) is Ok);
        assert(or_at(ts, p + 1) is Ok);
        lemma_or_solid(ts, p + 1);
        let q = or_at(ts, p + 1)->Ok_0.1;
        assert(token_at(ts, q) == Token::RParen);
    }
}

/// The tokens from `p` to `q` stand in another row too, `d` places further on.
spec fn moved(ts: Seq<Token>, us: Seq<Token>, d: int, p: int, q: int) -> bool {
    &&& 0 <= p <= q <= ts.len()
    &&& 0 <= d
    &&& q + d <= us.len()
    &&& forall|i: int| p <= i < q ==> #[trigger] ts[i] == us[i + d]
}

/// What was read, `d` places further on.
spec fn further(got: Parsed, d: int) -> Parsed {
    Ok((got->Ok_0.0, got->Ok_0.1 + d))
}

proof fn lemma_or_moved(ts: Seq<Token>, us: Seq<Token>, d: int, p: int)
    requires
        or_at(ts, p) is Ok,
        moved(ts, us, d, p, or_at(ts, p)->Ok_0.1),
        token_at(us, or_at(ts, p)->Ok_0.1 + d) != Token::Kw(Kw::And),
        token_at(us, or_at(ts, p)->Ok_0.1 + d) != Token::Kw(Kw::Or),
    ensures
        or_at(us, p + d) == further(or_at(ts, p), d),
    decreases ts.len() - p, 4int,
{
    lemma_or_solid(ts, p);
    lemma_and_solid(ts, p);
    let (left, q) = and_at(ts, p)->Ok_0;
    lemma_or_rest_solid(ts, left, q);
    let end = or_at(ts, p)->Ok_0.1;
    if q < end {
        assert(ts[q] == us[q + d]);
    }
    lemma_and_moved(ts, us, d, p);
    lemma_or_rest_moved(ts, us, d, left, q);
}

proof fn lemma_or_rest_moved(ts: Seq<Token>, us: Seq<Token>, d: int, left: Form, p: int)
    requires
        0 <= p <= ts.len(),
        or_rest(ts, left, p) is Ok,
        moved(ts, us, d, p, or_rest(ts, left, p)->Ok_0.1),
        token_at(us, or_rest(ts, left, p)->Ok_0.1 + d) != Token::Kw(Kw::And),
        token_at(us, or_rest(ts, left, p)->Ok_0.1 + d) != Token::Kw(Kw::Or),
    ensures
        or_rest(us, left, p + d) == further(or_rest(ts, left, p), d),
    decreases ts.len() - p, 5int,
{
    let end = or_rest(ts, left, p)->Ok_0.1;
    lemma_or_rest_solid(ts, left, p);
    if token_at(ts, p) == Token::Kw(Kw::Or) {
        lemma_and_solid(ts, p + 1);
        let (right, q) = and_at(ts, p + 1)->Ok_0;
        let both = Form::Or(Box::new(left), Box::new(right));
        lemma_or_rest_solid(ts, both, q);
        assert(ts[p] == us[p + d]);
        if q < end {
            assert(ts[q] == us[q + d]);
        }
        lemma_and_moved(ts, us, d, p + 1);
        lemma_or_rest_moved(ts, us, d, both, q);
    }
}

proof fn lemma_and_moved(ts: Seq<Token>, us: Seq<Token>, d: int, p: int)
    requires
        and_at(ts, p) is Ok,
        moved(ts, us, d, p, and_at(ts, p)->Ok_0.1),
        token_at(us, and_at(ts, p)->Ok_0.1 + d) != Token::Kw(Kw::And),
    ensures
        and_at(us, p + d) == further(and_at(ts, p), d),
    decreases ts.len() - p, 3int,
{
    lemma_and_solid(ts, p);
    lemma_not_solid(ts, p);
    let (left, q) = not_at(ts, p)->Ok_0;
    lemma_and_rest_solid(ts, left, q);
    lemma_not_moved(ts, us, d, p);
    lemma_and_rest_moved(ts, us, d, left, q);
}

proof fn lemma_and_rest_moved(ts: Seq<Token>, us: Seq<Token>, d: int, left: Form, p: int)
    requires
        0 <= p <= ts.len(),
        and_rest(ts, left, p) is Ok,
        moved(ts, us, d, p, and_rest(ts, left, p)->Ok_0.1),
        token_at(us, and_rest(ts, left, p)->Ok_0.1 + d) != Token::Kw(Kw::And),
    ensures
        and_rest(us, left, p + d) == further(and_rest(ts, left, p), d),
    decreases ts.len() - p, 4int,
{
    lemma_and_rest_solid(ts, left, p);
    if token_at(ts, p) == Token::Kw(Kw::And) {
        lemma_not_solid(ts, p + 1);
        let (right, q) = not_at(ts, p + 1)->Ok_0;
        let both = Form::And(Box::new(left), Box::new(right));
        lemma_and_rest_solid(ts, both, q);
        assert(ts[p] == us[p + d]);
        lemma_not_moved(ts, us, d, p + 1);
        lemma_and_rest_moved(ts, us, d, both, q);
    }
}

proof fn lemma_not_moved(ts: Seq<Token>, us: Seq<Token>, d: int, p: int)
    requires
        not_at(ts, p) is Ok,
        moved(ts, us, d, p, not_at(ts, p)->Ok_0.1),
    ensures
        not_at(us, p + d) == further(not_at(ts, p), d),
    decreases ts.len() - p, 2int,
{
    lemma_not_solid(ts, p);
    let end = not_at(ts, p)->Ok_0.1;
    assert(ts[p] == us[p + d]);
    if token_at(ts, p) == Token::Kw(Kw::Not) {
        lemma_not_moved(ts, us, d, p + 1);
    } else if token_at(ts, p) == Token::LParen {
        assert(primary_at(ts, p) is Ok);
        assert(or_at(ts, p + 1) is Ok);
        lemma_or_solid(ts, p + 1);
        let q = or_at(ts, p + 1)->Ok_0.1;
        assert(token_at(ts, q) == Token::RParen);
        assert(ts[q] == us[q + d]);
        lemma_or_moved(ts, us, d, p + 1);
        assert(primary_at(us, p + d) == further(primary_at(ts, p), d));
    } else {
        assert(atom_at(ts, p) is Ok);
        if p + 1 < end {
            assert(ts[p + 1] == us[p + d + 1]);
        }
        if p + 2 < end {
            assert(ts[p + 2] == us[p + d + 2]);
        }
        if p + 3 < end {
            assert(ts[p + 3] == us[p + d + 3]);
        }
        if p + 4 < end {
            assert(ts[p + 4] == us[p + d + 4]);
        }
        assert(atom_at(us, p + d) == further(atom_at(ts, p), d));
    }
}

/// The end mark stands at the end of the tokens of a text, and nowhere else.
proof fn lemma_one_end(s: Seq<char>, i: int)
    requires
        0 <= i <= s.len(),
        tokens_from(s, i) is Ok,
    ensures
        ({
            let ts = tokens_from(s, i)->Ok_0;
            &&& ts.len() > 0
            &&& ts.last() == Token::Eof
            &&& forall|k: int| 0 <= k < ts.len() - 1 ==> #[trigger] ts[k] != Token::Eof
        }),
    decreases s.len() - i,
{
    if i < s.len() {
        lemma_ends(s, i);
        lemma_ends(s, i + 1);
        match lexeme(s, i) {
            Lexeme::Blank => {
                lemma_one_end(s, i + 1);
            },
            Lexeme::Token(token, end) => {
                lemma_one_end(s, end);
                let rest = tokens_from(s, end)->Ok_0;
                let ts = tokens_from(s, i)->Ok_0;
                assert(token != Token::Eof);
                assert forall|k: int| 0 <= k < ts.len() - 1 implies #[trigger] ts[k]
                    != Token::Eof by {
                    if k > 0 {
                        assert(ts[k] == rest[k - 1]);
                    }
                }
            },
            Lexeme::Fault(_) => {},
        }
    }
}

/// A condition is read to the end of its tokens.
proof fn lemma_whole(s: Seq<char>)
    requires
        meaning(s) is Ok,
    ensures
        tokens_from(s, 0) is Ok,
        ({
            let ts = tokens_from(s, 0)->Ok_0;
            &&& ts.len() > 1
            &&& or_at(ts, 0) == Ok::<(Form, int), Fault>((meaning(s)->Ok_0, ts.len() - 1))
        }),
{
    let ts = tokens_from(s, 0)->Ok_0;
    lemma_one_end(s, 0);
    lemma_or_solid(ts, 0);
    let q = or_at(ts, 0)->Ok_0.1;
    assert(ts[ts.len() - 1] == Token::Eof);
}

/// The text in parentheses, blanks around it.
pub open spec fn in_parens(s: Seq<char>) -> Seq<char> {
    "( "@ + s + " )"@
}

/// The tokens of a text in parentheses.
spec fn paren_tokens(s: Seq<char>) -> Seq<Token> {
    seq![Token::LParen] + tokens_from(s, 0)->Ok_0.drop_last() + seq![Token::RParen]
}

#[verifier::spinoff_prover]
#[verifier::rlimit(40)]
proof fn lemma_paren_tokens(s: Seq<char>)
    requires
        tokens_from(s, 0) is Ok,
    ensures
        tokens_from(in_parens(s), 0) == Ok::<Seq<Token>, Fault>(
            paren_tokens(s).push(Token::Eof),
        ),
{
    reveal_strlit("( ");
    reveal_strlit(" )");
    let open = seq!['('];
    let close = seq![')'];
    reveal_with_fuel(tokens_from, 3);
    assert(lexeme(open, 0) == Lexeme::Token(Token::LParen, 1));
    assert(tokens_from(open, 1) == Ok::<Seq<Token>, Fault>(seq![Token::Eof]));
    assert(tokens_from(open, 0) == Ok::<Seq<Token>, Fault>(
        seq![Token::LParen] + seq![Token::Eof],
    ));
    assert(lexeme(close, 0) == Lexeme::Token(Token::RParen, 1));
    assert(tokens_from(close, 1) == Ok::<Seq<Token>, Fault>(seq![Token::Eof]));
    assert(tokens_from(close, 0) == Ok::<Seq<Token>, Fault>(
        seq![Token::RParen] + seq![Token::Eof],
    ));
    lemma_one_end(s, 0);
    let ts = tokens_from(s, 0)->Ok_0;
    law_joined_texts_are_read_one_after_the_other(open, ' ', s);
    let front = open + seq![' '] + s;
    law_joined_texts_are_read_one_after_the_other(front, ' ', close);
    assert(in_parens(s) =~= front + seq![' '] + close);
    assert(((seq![Token::LParen] + seq![Token::Eof]).drop_last() + ts).drop_last() + (
    seq![Token::RParen] + seq![Token::Eof]) =~= paren_tokens(s).push(Token::Eof));
}

/// Where the tokens of a condition in parentheses stand, it is read as one part.
proof fn lemma_paren_read(us: Seq<Token>, at: int, s: Seq<char>)
    requires
        meaning(s) is Ok,
        0 <= at,
        at + paren_tokens(s).len() <= us.len(),
        forall|i: int| 0 <= i < paren_tokens(s).len() ==> us[at + i] == #[trigger] paren_tokens(
            s,
        )[i],
    ensures
        not_at(us, at) == Ok::<(Form, int), Fault>(
            (meaning(s)->Ok_0, at + paren_tokens(s).len()),
        ),
{
    lemma_whole(s);
    let ts = tokens_from(s, 0)->Ok_0;
    let row = paren_tokens(s);
    let q = ts.len() - 1;
    assert(us[at + 0] == row[0]);
    assert(us[at + (q + 1)] == row[q + 1]);
    assert forall|i: int| 0 <= i < q implies #[trigger] ts[i] == us[i + (at + 1)] by {
        assert(row[i + 1] == ts[i]);
        assert(us[at + (i + 1)] == row[i + 1]);
    }
    lemma_or_moved(ts, us, at + 1, 0);
    assert(primary_at(us, at) == Ok::<(Form, int), Fault>((meaning(s)->Ok_0, at + q + 2)));
}

/// The tokens of a word alone.
proof fn lemma_word_alone(word: Seq<char>)
    requires
        word.len() > 0,
        word_start(word[0]),
        forall|i: int| 0 <= i < word.len() ==> word_char(#[trigger] word[i]),
        word[0] != '\'' && !digit_char(word[0]),
    ensures
        tokens_from(word, 0) == Ok::<Seq<Token>, Fault>(
            seq![word_token(word)] + seq![Token::Eof],
        ),
{
    lemma_word_to_end(word, 1);
    assert(word.subrange(0, word.len() as int) =~= word);
    reveal_with_fuel(tokens_from, 2);
    assert(lexeme(word, 0) == Lexeme::Token(word_token(word), word.len() as int));
}

proof fn lemma_word_to_end(word: Seq<char>, i: int)
    requires
        0 <= i <= word.len(),
        forall|k: int| i <= k < word.len() ==> word_char(#[trigger] word[k]),
    ensures
        word_end(word, i) == word.len(),
    decreases word.len() - i,
{
    if i < word.len() {
        lemma_word_to_end(word, i + 1);
    }
}

proof fn lemma_joining_words()
    ensures
        tokens_from("or"@, 0) == Ok::<Seq<Token>, Fault>(
            seq![Token::Kw(Kw::Or)] + seq![Token::Eof],
        ),
        tokens_from("and"@, 0) == Ok::<Seq<Token>, Fault>(
            seq![Token::Kw(Kw::And)] + seq![Token::Eof],
        ),
        tokens_from("not"@, 0) == Ok::<Seq<Token>, Fault>(
            seq![Token::Kw(Kw::Not)] + seq![Token::Eof],
        ),
{
    reveal_strlit("arguments");
    reveal_strlit("time");
    reveal_strlit("hour");
    reveal_strlit("matches");
    reveal_strlit("contains_pattern");
    reveal_strlit("or");
    reveal_strlit("and");
    reveal_strlit("not");
    assert("or"@.len() == 2 && "and"@.len() == 3 && "not"@.len() == 3);
    assert("arguments"@.len() == 9 && "time"@.len() == 4 && "hour"@.len() == 4);
    assert("matches"@.len() == 7 && "contains_pattern"@.len() == 16);
    assert("and"@[0] == 'a' && "not"@[0] == 'n');
    lemma_word_alone("or"@);
    lemma_word_alone("and"@);
    lemma_word_alone("not"@);
}

/// Two conditions in parentheses with `or` between them hold if and only if one of
/// them does.
#[verifier::spinoff_prover]
#[verifier::rlimit(40)]
pub proof fn law_or_holds_if_one_does(
    a: Seq<char>,
    b: Seq<char>,
    arguments: Option<Doc>,
    hour: u32,
)
    requires
        meaning(a) is Ok,
        meaning(b) is Ok,
    ensures
        meaning(in_parens(a) + " or "@ + in_parens(b)) is Ok,
        holds(meaning(in_parens(a) + " or "@ + in_parens(b))->Ok_0, arguments, hour) <==> (holds(
            meaning(a)->Ok_0,
            arguments,
            hour,
        ) || holds(meaning(b)->Ok_0, arguments, hour)),
{
    let s = in_parens(a) + " or "@ + in_parens(b);
    lemma_row(a, "or"@, Token::Kw(Kw::Or), b);
    reveal_strlit(" or ");
    reveal_strlit("or");
    assert(s =~= in_parens(a) + seq![' '] + "or"@ + seq![' '] + in_parens(b));
    let ts = row_tokens(a, Token::Kw(Kw::Or), b);
    let m = paren_tokens(a).len() as int;
    let q = ts.len() - 1;
    assert(and_at(ts, 0) == Ok::<(Form, int), Fault>((meaning(a)->Ok_0, m)));
    assert(and_at(ts, m + 1) == Ok::<(Form, int), Fault>((meaning(b)->Ok_0, q)));
    reveal_with_fuel(or_rest, 2);
    assert(or_at(ts, 0) == Ok::<(Form, int), Fault>(
        (Form::Or(Box::new(meaning(a)->Ok_0), Box::new(meaning(b)->Ok_0)), q),
    ));
}

/// Two conditions in parentheses with `and` between them hold if and only if both do.
#[verifier::spinoff_prover]
#[verifier::rlimit(40)]
pub proof fn law_and_holds_if_both_do(
    a: Seq<char>,
    b: Seq<char>,
    arguments: Option<Doc>,
    hour: u32,
)
    requires
        meaning(a) is Ok,
        meaning(b) is Ok,
    ensures
        meaning(in_parens(a) + " and "@ + in_parens(b)) is Ok,
        holds(meaning(in_parens(a) + " and "@ + in_parens(b))->Ok_0, arguments, hour) <==> (holds(
            meaning(a)->Ok_0,
            arguments,
            hour,
        ) && holds(meaning(b)->Ok_0, arguments, hour)),
{
    let s = in_parens(a) + " and "@ + in_parens(b);
    lemma_row(a, "and"@, Token::Kw(Kw::And), b);
    reveal_strlit(" and ");
    reveal_strlit("and");
    assert(s =~= in_parens(a) + seq![' '] + "and"@ + seq![' '] + in_parens(b));
    let ts = row_tokens(a, Token::Kw(Kw::And), b);
    let m = paren_tokens(a).len() as int;
    let q = ts.len() - 1;
    reveal_with_fuel(and_rest, 2);
    assert(and_at(ts, 0) == Ok::<(Form, int), Fault>(
        (Form::And(Box::new(meaning(a)->Ok_0), Box::new(meaning(b)->Ok_0)), q),
    ));
    assert(or_at(ts, 0) == Ok::<(Form, int), Fault>(
        (Form::And(Box::new(meaning(a)->Ok_0), Box::new(meaning(b)->Ok_0)), q),
    ));
}

/// The tokens of two conditions in parentheses with a word between them.
spec fn row_tokens(a: Seq<char>, between: Token, b: Seq<char>) -> Seq<Token> {
    paren_tokens(a) + seq![between] + paren_tokens(b) + seq![Token::Eof]
}

#[verifier::spinoff_prover]
#[verifier::rlimit(40)]
proof fn lemma_row(a: Seq<char>, word: Seq<char>, between: Token, b: Seq<char>)
    requires
        meaning(a) is Ok,
        meaning(b) is Ok,
        word == "or"@ && between == Token::Kw(Kw::Or) || word == "and"@ && between == Token::Kw(
            Kw::And,
        ),
    ensures
        tokens_from(in_parens(a) + seq![' '] + word + seq![' '] + in_parens(b), 0) == Ok::<
            Seq<Token>,
            Fault,
        >(row_tokens(a, between, b)),
        ({
            let ts = row_tokens(a, between, b);
            let m = paren_tokens(a).len() as int;
            &&& not_at(ts, 0) == Ok::<(Form, int), Fault>((meaning(a)->Ok_0, m))
            &&& token_at(ts, m) == between
            &&& not_at(ts, m + 1) == Ok::<(Form, int), Fault>((meaning(b)->Ok_0, ts.len() - 1))
            &&& token_at(ts, ts.len() - 1) == Token::Eof
            &&& m > 0 && m + 1 < ts.len() - 1
        }),
{
    lemma_joining_words();
    lemma_whole(a);
    lemma_whole(b);
    lemma_paren_tokens(a);
    lemma_paren_tokens(b);
    let left = in_parens(a);
    let right = in_parens(b);
    let ra = paren_tokens(a);
    let rb = paren_tokens(b);
    law_joined_texts_are_read_one_after_the_other(left, ' ', word);
    let mid = left + seq![' '] + word;
    assert(ra.push(Token::Eof).drop_last() =~= ra);
    law_joined_texts_are_read_one_after_the_other(mid, ' ', right);
    assert((ra + (seq![between] + seq![Token::Eof])).drop_last() + rb.push(Token::Eof)
        =~= row_tokens(a, between, b));
    let ts = row_tokens(a, between, b);
    assert forall|i: int| 0 <= i < ra.len() implies ts[0 + i] == #[trigger] ra[i] by {}
    assert forall|i: int| 0 <= i < rb.len() implies ts[ra.len() + 1 + i] == #[trigger] rb[i] by {}
    lemma_paren_read(ts, 0, a);
    lemma_paren_read(ts, ra.len() as int + 1, b);
}

/// A condition in parentheses with `not` in front holds if and only if it does not
/// hold itself.
#[verifier::spinoff_prover]
#[verifier::rlimit(40)]
pub proof fn law_not_holds_if_it_does_not(a: Seq<char>, arguments: Option<Doc>, hour: u32)
    requires
        meaning(a) is Ok,
    ensures
        meaning("not "@ + in_parens(a)) is Ok,
        holds(meaning("not "@ + in_parens(a))->Ok_0, arguments, hour) <==> !holds(
            meaning(a)->Ok_0,
            arguments,
            hour,
        ),
{
    reveal_strlit("not ");
    reveal_strlit("not");
    lemma_joining_words();
    lemma_whole(a);
    lemma_paren_tokens(a);
    let ra = paren_tokens(a);
    law_joined_texts_are_read_one_after_the_other("not"@, ' ', in_parens(a));
    assert("not "@ + in_parens(a) =~= "not"@ + seq![' '] + in_parens(a));
    let ts = seq![Token::Kw(Kw::Not)] + ra + seq![Token::Eof];
    assert((seq![Token::Kw(Kw::Not)] + seq![Token::Eof]).drop_last() + ra.push(Token::Eof) =~= ts);
    assert forall|i: int| 0 <= i < ra.len() implies ts[1 + i] == #[trigger] ra[i] by {}
    lemma_paren_read(ts, 1, a);
    reveal_with_fuel(not_at, 2);
    assert(not_at(ts, 0) == Ok::<(Form, int), Fault>(
        (Form::Not(Box::new(meaning(a)->Ok_0)), ts.len() - 1),
    ));
}

/// The tokens of three conditions in parentheses with words between them.
spec fn row_of_three(
    a: Seq<char>,
    first: Token,
    b: Seq<char>,
    second: Token,
    c: Seq<char>,
) -> Seq<Token> {
    paren_tokens(a) + seq![first] + paren_tokens(b) + seq![second] + paren_tokens(c) + seq![
        Token::Eof,
    ]
}

spec fn joins(word: Seq<char>, t: Token) -> bool {
    word == "or"@ && t == Token::Kw(Kw::Or) || word == "and"@ && t == Token::Kw(Kw::And)
}

#[verifier::spinoff_prover]
#[verifier::rlimit(40)]
proof fn lemma_row_of_three(
    a: Seq<char>,
    first_word: Seq<char>,
    first: Token,
    b: Seq<char>,
    second_word: Seq<char>,
    second: Token,
    c: Seq<char>,
)
    requires
        meaning(a) is Ok,
        meaning(b) is Ok,
        meaning(c) is Ok,
        joins(first_word, first),
        joins(second_word, second),
    ensures
        tokens_from(
            in_parens(a) + seq![' '] + first_word + seq![' '] + in_parens(b) + seq![' ']
                + second_word + seq![' '] + in_parens(c),
            0,
        ) == Ok::<Seq<Token>, Fault>(row_of_three(a, first, b, second, c)),
        ({
            let ts = row_of_three(a, first, b, second, c);
            let m = paren_tokens(a).len() as int;
            let n = m + 1 + paren_tokens(b).len();
            &&& not_at(ts, 0) == Ok::<(Form, int), Fault>((meaning(a)->Ok_0, m))
            &&& token_at(ts, m) == first
            &&& not_at(ts, m + 1) == Ok::<(Form, int), Fault>((meaning(b)->Ok_0, n))
            &&& token_at(ts, n) == second
            &&& not_at(ts, n + 1) == Ok::<(Form, int), Fault>((meaning(c)->Ok_0, ts.len() - 1))
            &&& token_at(ts, ts.len() - 1) == Token::Eof
            &&& 0 < m < n < n + 1 < ts.len() - 1
        }),
{
    lemma_joining_words();
    lemma_whole(a);
    lemma_whole(b);
    lemma_whole(c);
    lemma_row(a, first_word, first, b);
    lemma_paren_tokens(c);
    let ra = paren_tokens(a);
    let rb = paren_tokens(b);
    let rc = paren_tokens(c);
    let left = in_parens(a) + seq![' '] + first_word + seq![' '] + in_parens(b);
    law_joined_texts_are_read_one_after_the_other(left, ' ', second_word);
    let mid = left + seq![' '] + second_word;
    law_joined_texts_are_read_one_after_the_other(mid, ' ', in_parens(c));
    let ts = row_of_three(a, first, b, second, c);
    assert((row_tokens(a, first, b).drop_last() + (seq![second] + seq![Token::Eof])).drop_last()
        + rc.push(Token::Eof) =~= ts);
    assert forall|i: int| 0 <= i < ra.len() implies ts[0 + i] == #[trigger] ra[i] by {}
    assert forall|i: int| 0 <= i < rb.len() implies ts[ra.len() + 1 + i] == #[trigger] rb[i] by {}
    assert forall|i: int| 0 <= i < rc.len() implies ts[ra.len() + rb.len() + 2 + i]
        == #[trigger] rc[i] by {}
    lemma_paren_read(ts, 0, a);
    lemma_paren_read(ts, ra.len() as int + 1, b);
    lemma_paren_read(ts, ra.len() as int + rb.len() + 2, c);
}

/// `and` binds closer than `or`, on whichever side of it.
pub proof fn law_and_binds_closer_than_or(
    a: Seq<char>,
    b: Seq<char>,
    c: Seq<char>,
    arguments: Option<Doc>,
    hour: u32,
)
    requires
        meaning(a) is Ok,
        meaning(b) is Ok,
        meaning(c) is Ok,
    ensures
        ({
            let x = holds(meaning(a)->Ok_0, arguments, hour);
            let y = holds(meaning(b)->Ok_0, arguments, hour);
            let z = holds(meaning(c)->Ok_0, arguments, hour);
            let right = meaning(
                in_parens(a) + " or "@ + in_parens(b) + " and "@ + in_parens(c),
            );
            let left = meaning(
                in_parens(a) + " and "@ + in_parens(b) + " or "@ + in_parens(c),
            );
            &&& right is Ok
            &&& holds(right->Ok_0, arguments, hour) <==> x || (y && z)
            &&& left is Ok
            &&& holds(left->Ok_0, arguments, hour) <==> (x && y) || z
        }),
{
    lemma_or_before_and(a, b, c);
    lemma_and_before_or(a, b, c);
    reveal_with_fuel(holds, 3);
}

#[verifier::spinoff_prover]
#[verifier::rlimit(40)]
proof fn lemma_or_before_and(a: Seq<char>, b: Seq<char>, c: Seq<char>)
    requires
        meaning(a) is Ok,
        meaning(b) is Ok,
        meaning(c) is Ok,
    ensures
        meaning(in_parens(a) + " or "@ + in_parens(b) + " and "@ + in_parens(c)) == Ok::<
            Form,
            Fault,
        >(
            Form::Or(
                Box::new(meaning(a)->Ok_0),
                Box::new(Form::And(Box::new(meaning(b)->Ok_0), Box::new(meaning(c)->Ok_0))),
            ),
        ),
{
    reveal_strlit(" or ");
    reveal_strlit("or");
    reveal_strlit(" and ");
    reveal_strlit("and");
    let or = Token::Kw(Kw::Or);
    let and = Token::Kw(Kw::And);
    let (x, y, z) = (meaning(a)->Ok_0, meaning(b)->Ok_0, meaning(c)->Ok_0);
    lemma_row_of_three(a, "or"@, or, b, "and"@, and, c);
    assert(in_parens(a) + " or "@ + in_parens(b) + " and "@ + in_parens(c) =~= in_parens(a) + seq![
        ' ',
    ] + "or"@ + seq![' '] + in_parens(b) + seq![' '] + "and"@ + seq![' '] + in_parens(c));
    let ts = row_of_three(a, or, b, and, c);
    let m = paren_tokens(a).len() as int;
    let n = m + 1 + paren_tokens(b).len();
    let end = ts.len() - 1;
    let both = Form::And(Box::new(y), Box::new(z));
    let all = Form::Or(Box::new(x), Box::new(both));
    assert(and_rest(ts, both, end) == Ok::<(Form, int), Fault>((both, end)));
    assert(and_rest(ts, y, n) == Ok::<(Form, int), Fault>((both, end)));
    assert(and_at(ts, m + 1) == Ok::<(Form, int), Fault>((both, end)));
    assert(and_rest(ts, x, m) == Ok::<(Form, int), Fault>((x, m)));
    assert(and_at(ts, 0) == Ok::<(Form, int), Fault>((x, m)));
    assert(or_rest(ts, all, end) == Ok::<(Form, int), Fault>((all, end)));
    assert(or_rest(ts, x, m) == Ok::<(Form, int), Fault>((all, end)));
    assert(or_at(ts, 0) == Ok::<(Form, int), Fault>((all, end)));
}

#[verifier::spinoff_prover]
#[verifier::rlimit(40)]
proof fn lemma_and_before_or(a: Seq<char>, b: Seq<char>, c: Seq<char>)
    requires
        meaning(a) is Ok,
        meaning(b) is Ok,
        meaning(c) is Ok,
    ensures
        meaning(in_parens(a) + " and "@ + in_parens(b) + " or "@ + in_parens(c)) == Ok::<
            Form,
            Fault,
        >(
            Form::Or(
                Box::new(Form::And(Box::new(meaning(a)->Ok_0), Box::new(meaning(b)->Ok_0))),
                Box::new(meaning(c)->Ok_0),
            ),
        ),
{
    reveal_strlit(" or ");
    reveal_strlit("or");
    reveal_strlit(" and ");
    reveal_strlit("and");
    let or = Token::Kw(Kw::Or);
    let and = Token::Kw(Kw::And);
    let (x, y, z) = (meaning(a)->Ok_0, meaning(b)->Ok_0, meaning(c)->Ok_0);
    lemma_row_of_three(a, "and"@, and, b, "or"@, or, c);
    assert(in_parens(a) + " and "@ + in_parens(b) + " or "@ + in_parens(c) =~= in_parens(a) + seq![
        ' ',
    ] + "and"@ + seq![' '] + in_parens(b) + seq![' '] + "or"@ + seq![' '] + in_parens(c));
    let ts = row_of_three(a, and, b, or, c);
    let m = paren_tokens(a).len() as int;
    let n = m + 1 + paren_tokens(b).len();
    let end = ts.len() - 1;
    let both = Form::And(Box::new(x), Box::new(y));
    let all = Form::Or(Box::new(both), Box::new(z));
    assert(and_rest(ts, both, n) == Ok::<(Form, int), Fault>((both, n)));
    assert(and_rest(ts, x, m) == Ok::<(Form, int), Fault>((both, n)));
    assert(and_at(ts, 0) == Ok::<(Form, int), Fault>((both, n)));
    assert(and_rest(ts, z, end) == Ok::<(Form, int), Fault>((z, end)));
    assert(and_at(ts, n + 1) == Ok::<(Form, int), Fault>((z, end)));
    assert(or_rest(ts, all, end) == Ok::<(Form, int), Fault>((all, end)));
    assert(or_rest(ts, both, n) == Ok::<(Form, int), Fault>((all, end)));
    assert(or_at(ts, 0) == Ok::<(Form, int), Fault>((all, end)));
}

/// `not` binds closer than `and` and `or`: it turns round what stands right after it
/// and nothing further.
#[verifier::spinoff_prover]
#[verifier::rlimit(40)]
pub proof fn law_not_binds_closest(
    a: Seq<char>,
    b: Seq<char>,
    arguments: Option<Doc>,
    hour: u32,
)
    requires
        meaning(a) is Ok,
        meaning(b) is Ok,
    ensures
        ({
            let x = holds(meaning(a)->Ok_0, arguments, hour);
            let y = holds(meaning(b)->Ok_0, arguments, hour);
            let with_and = meaning("not "@ + (in_parens(a) + " and "@ + in_parens(b)));
            let with_or = meaning("not "@ + (in_parens(a) + " or "@ + in_parens(b)));
            &&& with_and is Ok
            &&& holds(with_and->Ok_0, arguments, hour) <==> !x && y
            &&& with_or is Ok
            &&& holds(with_or->Ok_0, arguments, hour) <==> !x || y
        }),
{
    lemma_not_first(a, "and"@, Token::Kw(Kw::And), b);
    lemma_not_first(a, "or"@, Token::Kw(Kw::Or), b);
    reveal_strlit("not ");
    reveal_strlit("not");
    reveal_strlit(" and ");
    reveal_strlit("and");
    reveal_strlit(" or ");
    reveal_strlit("or");
    assert("not "@ + (in_parens(a) + " and "@ + in_parens(b)) =~= "not"@ + seq![' '] + (in_parens(a)
        + seq![' '] + "and"@ + seq![' '] + in_parens(b)));
    assert("not "@ + (in_parens(a) + " or "@ + in_parens(b)) =~= "not"@ + seq![' '] + (in_parens(a)
        + seq![' '] + "or"@ + seq![' '] + in_parens(b)));
    let x = Form::Not(Box::new(meaning(a)->Ok_0));
    assert(holds(x, arguments, hour) == !holds(meaning(a)->Ok_0, arguments, hour));
}

/// The tokens of a `not` before two conditions in parentheses are read with the `not`
/// on the first alone.
#[verifier::spinoff_prover]
#[verifier::rlimit(40)]
proof fn lemma_not_row(a: Seq<char>, between: Token, b: Seq<char>)
    requires
        meaning(a) is Ok,
        meaning(b) is Ok,
        between == Token::Kw(Kw::And) || between == Token::Kw(Kw::Or),
    ensures
        condition_of(seq![Token::Kw(Kw::Not)] + row_tokens(a, between, b)) == Ok::<Form, Fault>(
            if between == Token::Kw(Kw::And) {
                Form::And(
                    Box::new(Form::Not(Box::new(meaning(a)->Ok_0))),
                    Box::new(meaning(b)->Ok_0),
                )
            } else {
                Form::Or(
                    Box::new(Form::Not(Box::new(meaning(a)->Ok_0))),
                    Box::new(meaning(b)->Ok_0),
                )
            },
        ),
{
    lemma_whole(a);
    lemma_whole(b);
    let row = row_tokens(a, between, b);
    let ts = seq![Token::Kw(Kw::Not)] + row;
    let ra = paren_tokens(a);
    let rb = paren_tokens(b);
    assert forall|i: int| 0 <= i < ra.len() implies ts[1 + i] == #[trigger] ra[i] by {}
    assert forall|i: int| 0 <= i < rb.len() implies ts[ra.len() + 2 + i] == #[trigger] rb[i] by {}
    lemma_paren_read(ts, 1, a);
    lemma_paren_read(ts, ra.len() as int + 2, b);
    let (x, y) = (Form::Not(Box::new(meaning(a)->Ok_0)), meaning(b)->Ok_0);
    let m = ra.len() as int + 1;
    let end = ts.len() - 1;
    assert(token_at(ts, m) == between);
    assert(token_at(ts, end) == Token::Eof);
    assert(not_at(ts, 0) == Ok::<(Form, int), Fault>((x, m)));
    assert(not_at(ts, m + 1) == Ok::<(Form, int), Fault>((y, end)));
    if between == Token::Kw(Kw::And) {
        let both = Form::And(Box::new(x), Box::new(y));
        assert(and_rest(ts, both, end) == Ok::<(Form, int), Fault>((both, end)));
        assert(and_rest(ts, x, m) == Ok::<(Form, int), Fault>((both, end)));
        assert(and_at(ts, 0) == Ok::<(Form, int), Fault>((both, end)));
        assert(or_rest(ts, both, end) == Ok::<(Form, int), Fault>((both, end)));
        assert(or_at(ts, 0) == Ok::<(Form, int), Fault>((both, end)));
    } else {
        let either = Form::Or(Box::new(x), Box::new(y));
        assert(and_rest(ts, x, m) == Ok::<(Form, int), Fault>((x, m)));
        assert(and_at(ts, 0) == Ok::<(Form, int), Fault>((x, m)));
        assert(and_rest(ts, y, end) == Ok::<(Form, int), Fault>((y, end)));
        assert(and_at(ts, m + 1) == Ok::<(Form, int), Fault>((y, end)));
        assert(or_rest(ts, either, end) == Ok::<(Form, int), Fault>((either, end)));
        assert(or_rest(ts, x, m) == Ok::<(Form, int), Fault>((either, end)));
        assert(or_at(ts, 0) == Ok::<(Form, int), Fault>((either, end)));
    }
}

#[verifier::spinoff_prover]
#[verifier::rlimit(40)]
proof fn lemma_not_first(a: Seq<char>, word: Seq<char>, between: Token, b: Seq<char>)
    requires
        meaning(a) is Ok,
        meaning(b) is Ok,
        joins(word, between),
    ensures
        meaning(
            "not"@ + seq![' '] + (in_parens(a) + seq![' '] + word + seq![' '] + in_parens(b)),
        ) == Ok::<Form, Fault>(
            if between == Token::Kw(Kw::And) {
                Form::And(
                    Box::new(Form::Not(Box::new(meaning(a)->Ok_0))),
                    Box::new(meaning(b)->Ok_0),
                )
            } else {
                Form::Or(
                    Box::new(Form::Not(Box::new(meaning(a)->Ok_0))),
                    Box::new(meaning(b)->Ok_0),
                )
            },
        ),
{
    lemma_joining_words();
    lemma_row(a, word, between, b);
    let row = row_tokens(a, between, b);
    law_joined_texts_are_read_one_after_the_other(
        "not"@,
        ' ',
        in_parens(a) + seq![' '] + word + seq![' '] + in_parens(b),
    );
    assert((seq![Token::Kw(Kw::Not)] + seq![Token::Eof]).drop_last() + row =~= seq![
        Token::Kw(Kw::Not),
    ] + row);
    lemma_not_row(a, between, b);
}

/// Two words with a dot between them.
#[verifier::spinoff_prover]
#[verifier::rlimit(40)]
proof fn lemma_dotted(a: Seq<char>, b: Seq<char>)
    requires
        a.len() > 0,
        b.len() > 0,
        word_start(a[0]),
        word_start(b[0]),
        forall|i: int| 0 <= i < a.len() ==> word_char(#[trigger] a[i]),
        forall|i: int| 0 <= i < b.len() ==> word_char(#[trigger] b[i]),
    ensures
        tokens_from(a + seq!['.'] + b, 0) == Ok::<Seq<Token>, Fault>(
            seq![word_token(a), Token::Dot, word_token(b), Token::Eof],
        ),
{
    let s = a + seq!['.'] + b;
    let m = a.len() as int;
    let n = s.len() as int;
    assert(s[m] == '.');
    assert forall|k: int| 1 <= k < m implies word_char(#[trigger] s[k]) by {
        assert(s[k] == a[k]);
    }
    assert(s[0] == a[0]);
    lemma_word_end(s, 1, m);
    assert(s.subrange(0, m) =~= a);
    assert(s[m + 1] == b[0]);
    assert forall|k: int| m + 2 <= k < n implies word_char(#[trigger] s[k]) by {
        assert(s[k] == b[k - m - 1]);
    }
    lemma_word_to_end(s, m + 2);
    assert(s.subrange(m + 1, n) =~= b);
    assert(lexeme(s, 0) == Lexeme::Token(word_token(a), m));
    assert(lexeme(s, m) == Lexeme::Token(Token::Dot, m + 1));
    assert(lexeme(s, m + 1) == Lexeme::Token(word_token(b), n));
    assert(tokens_from(s, n) == Ok::<Seq<Token>, Fault>(seq![Token::Eof]));
    assert(tokens_from(s, m + 1) == then_tokens(seq![word_token(b)], tokens_from(s, n)));
    assert(tokens_from(s, m) == then_tokens(seq![Token::Dot], tokens_from(s, m + 1)));
    assert(tokens_from(s, 0) == then_tokens(seq![word_token(a)], tokens_from(s, m)));
    assert(seq![word_token(a)] + (seq![Token::Dot] + (seq![word_token(b)] + seq![Token::Eof]))
        =~= seq![word_token(a), Token::Dot, word_token(b), Token::Eof]);
}

/// A number alone.
proof fn lemma_number_alone(n: u32)
    ensures
        tokens_from(decimal(n as nat), 0) == Ok::<Seq<Token>, Fault>(
            seq![Token::Num(n)] + seq![Token::Eof],
        ),
{
    let s = decimal(n as nat);
    lemma_decimal_is_digits(n as nat);
    lemma_decimal_value(n as nat);
    lemma_digits_to_end(s, 0);
    assert(s.subrange(0, s.len() as int) =~= s);
    reveal_with_fuel(tokens_from, 2);
    assert(lexeme(s, 0) == Lexeme::Token(Token::Num(n), s.len() as int));
}

proof fn lemma_digits_to_end(s: Seq<char>, i: int)
    requires
        0 <= i <= s.len(),
        forall|k: int| i <= k < s.len() ==> digit_char(#[trigger] s[k]),
    ensures
        digits_end(s, i) == s.len(),
    decreases s.len() - i,
{
    if i < s.len() {
        lemma_digits_to_end(s, i + 1);
    }
}

/// A comparison sign alone.
proof fn lemma_sign_alone(sign: Seq<char>, op: CmpOp)
    requires
        match op {
            CmpOp::Lt => sign == seq!['<'],
            CmpOp::Gt => sign == seq!['>'],
            CmpOp::Le => sign == seq!['<', '='],
            CmpOp::Ge => sign == seq!['>', '='],
            CmpOp::Eq => sign == seq!['=', '='],
        },
    ensures
        tokens_from(sign, 0) == Ok::<Seq<Token>, Fault>(seq![Token::Cmp(op)] + seq![Token::Eof]),
{
    reveal_with_fuel(tokens_from, 2);
    assert(lexeme(sign, 0) == Lexeme::Token(Token::Cmp(op), sign.len() as int));
}

/// The tokens of a comparison of the hour are read as that comparison.
proof fn lemma_hour_tokens(op: CmpOp, n: u32)
    ensures
        condition_of(
            seq![
                Token::Kw(Kw::Time),
                Token::Dot,
                Token::Kw(Kw::Hour),
                Token::Cmp(op),
                Token::Num(n),
                Token::Eof,
            ],
        ) == Ok::<Form, Fault>(Form::Hour { op, value: n }),
{
    let ts = seq![
        Token::Kw(Kw::Time),
        Token::Dot,
        Token::Kw(Kw::Hour),
        Token::Cmp(op),
        Token::Num(n),
        Token::Eof,
    ];
    assert(primary_at(ts, 0) == Ok::<(Form, int), Fault>((Form::Hour { op, value: n }, 5)));
    assert(not_at(ts, 0) == Ok::<(Form, int), Fault>((Form::Hour { op, value: n }, 5)));
    assert(and_at(ts, 0) == Ok::<(Form, int), Fault>((Form::Hour { op, value: n }, 5)));
    assert(or_at(ts, 0) == Ok::<(Form, int), Fault>((Form::Hour { op, value: n }, 5)));
}

/// The text of a comparison of the hour is read as that comparison.
#[verifier::spinoff_prover]
#[verifier::rlimit(40)]
proof fn lemma_hour_text(sign: Seq<char>, op: CmpOp, n: u32)
    requires
        match op {
            CmpOp::Lt => sign == seq!['<'],
            CmpOp::Gt => sign == seq!['>'],
            CmpOp::Le => sign == seq!['<', '='],
            CmpOp::Ge => sign == seq!['>', '='],
            CmpOp::Eq => sign == seq!['=', '='],
        },
    ensures
        meaning("time.hour "@ + sign + " "@ + decimal(n as nat)) == Ok::<Form, Fault>(
            Form::Hour { op, value: n },
        ),
{
    reveal_strlit("time.hour ");
    reveal_strlit(" ");
    reveal_strlit("time");
    reveal_strlit("hour");
    let number = decimal(n as nat);
    lemma_keyword(Kw::Time);
    lemma_keyword(Kw::Hour);
    lemma_dotted("time"@, "hour"@);
    lemma_number_alone(n);
    lemma_sign_alone(sign, op);
    let front = "time"@ + seq!['.'] + "hour"@;
    law_joined_texts_are_read_one_after_the_other(front, ' ', sign);
    law_joined_texts_are_read_one_after_the_other(front + seq![' '] + sign, ' ', number);
    let ts = seq![
        Token::Kw(Kw::Time),
        Token::Dot,
        Token::Kw(Kw::Hour),
        Token::Cmp(op),
        Token::Num(n),
        Token::Eof,
    ];
    assert((seq![Token::Kw(Kw::Time), Token::Dot, Token::Kw(Kw::Hour), Token::Eof].drop_last() + (
    seq![Token::Cmp(op)] + seq![Token::Eof])).drop_last() + (seq![Token::Num(n)] + seq![Token::Eof])
        =~= ts);
    assert("time.hour "@ + sign + " "@ + number =~= front + seq![' '] + sign + seq![' '] + number);
    lemma_hour_tokens(op, n);
}

/// A condition that compares the hour of the day with a number holds at an hour if
/// and only if the two numbers compare so: `time.hour >= 9` from nine o'clock on,
/// `time.hour < 9` before.
#[verifier::spinoff_prover]
#[verifier::rlimit(40)]
pub proof fn law_hour_conditions_compare_numbers(n: u32, arguments: Option<Doc>, hour: u32)
    ensures
        ({
            let condition = meaning("time.hour >= "@ + decimal(n as nat));
            &&& condition is Ok
            &&& holds(condition->Ok_0, arguments, hour) <==> hour as int >= n as int
        }),
        ({
            let condition = meaning("time.hour <= "@ + decimal(n as nat));
            &&& condition is Ok
            &&& holds(condition->Ok_0, arguments, hour) <==> hour as int <= n as int
        }),
        ({
            let condition = meaning("time.hour > "@ + decimal(n as nat));
            &&& condition is Ok
            &&& holds(condition->Ok_0, arguments, hour) <==> hour as int > n as int
        }),
        ({
            let condition = meaning("time.hour < "@ + decimal(n as nat));
            &&& condition is Ok
            &&& holds(condition->Ok_0, arguments, hour) <==> (hour as int) < n as int
        }),
        ({
            let condition = meaning("time.hour == "@ + decimal(n as nat));
            &&& condition is Ok
            &&& holds(condition->Ok_0, arguments, hour) <==> hour as int == n as int
        }),
{
    let number = decimal(n as nat);
    reveal_strlit("time.hour ");
    reveal_strlit(" ");
    reveal_strlit("time.hour >= ");
    reveal_strlit("time.hour <= ");
    reveal_strlit("time.hour > ");
    reveal_strlit("time.hour < ");
    reveal_strlit("time.hour == ");
    lemma_hour_text(seq!['>', '='], CmpOp::Ge, n);
    lemma_hour_text(seq!['<', '='], CmpOp::Le, n);
    lemma_hour_text(seq!['>'], CmpOp::Gt, n);
    lemma_hour_text(seq!['<'], CmpOp::Lt, n);
    lemma_hour_text(seq!['=', '='], CmpOp::Eq, n);
    assert("time.hour >= "@ + number =~= "time.hour "@ + seq!['>', '='] + " "@ + number);
    assert("time.hour <= "@ + number =~= "time.hour "@ + seq!['<', '='] + " "@ + number);
    assert("time.hour > "@ + number =~= "time.hour "@ + seq!['>'] + " "@ + number);
    assert("time.hour < "@ + number =~= "time.hour "@ + seq!['<'] + " "@ + number);
    assert("time.hour == "@ + number =~= "time.hour "@ + seq!['=', '='] + " "@ + number);
}

/// The five comparisons of the hour agree with each other: at least is not less, at
/// most is not more, equal is both. One that holds of an hour and says at least
/// holds of every later hour of the day, and one that says at most of every earlier.
pub proof fn law_hour_comparisons_agree(value: u32, arguments: Option<Doc>, hour: u32, other: u32)
    ensures
        holds(Form::Hour { op: CmpOp::Ge, value }, arguments, hour) <==> !holds(
            Form::Hour { op: CmpOp::Lt, value },
            arguments,
            hour,
        ),
        holds(Form::Hour { op: CmpOp::Le, value }, arguments, hour) <==> !holds(
            Form::Hour { op: CmpOp::Gt, value },
            arguments,
            hour,
        ),
        holds(Form::Hour { op: CmpOp::Eq, value }, arguments, hour) <==> (holds(
            Form::Hour { op: CmpOp::Le, value },
            arguments,
            hour,
        ) && holds(Form::Hour { op: CmpOp::Ge, value }, arguments, hour)),
        hour <= other && holds(Form::Hour { op: CmpOp::Ge, value }, arguments, hour) ==> holds(
            Form::Hour { op: CmpOp::Ge, value },
            arguments,
            other,
        ),
        hour >= other && holds(Form::Hour { op: CmpOp::Le, value }, arguments, hour) ==> holds(
            Form::Hour { op: CmpOp::Le, value },
            arguments,
            other,
        ),
        holds(Form::Hour { op: CmpOp::Ge, value }, arguments, hour) <==> hour >= value,
        holds(Form::Hour { op: CmpOp::Gt, value }, arguments, hour) <==> hour > value,
        holds(Form::Hour { op: CmpOp::Le, value }, arguments, hour) <==> hour <= value,
        holds(Form::Hour { op: CmpOp::Lt, value }, arguments, hour) <==> hour < value,
        holds(Form::Hour { op: CmpOp::Eq, value }, arguments, hour) <==> hour == value,
{
}

/// A name that a field can have in a condition: letters, digits and underscores, no
/// digit first, and none of the words that conditions use themselves.
pub open spec fn plain_name(name: Seq<char>) -> bool {
    &&& name.len() > 0
    &&& !('0' <= name[0] <= '9')
    &&& forall|i: int|
        0 <= i < name.len() ==> 'a' <= #[trigger] name[i] <= 'z' || 'A' <= name[i] <= 'Z' || '0'
            <= name[i] <= '9' || name[i] == '_'
    &&& name != "arguments"@
    &&& name != "time"@
    &&& name != "hour"@
    &&& name != "matches"@
    &&& name != "contains_pattern"@
    &&& name != "or"@
    &&& name != "and"@
    &&& name != "not"@
}

/// Quoted text alone.
proof fn lemma_quoted_alone(text: Seq<char>)
    requires
        !text.contains('\''),
    ensures
        tokens_from(seq!['\''] + text + seq!['\''], 0) == Ok::<Seq<Token>, Fault>(
            seq![Token::Str(text)] + seq![Token::Eof],
        ),
{
    let s = seq!['\''] + text + seq!['\''];
    let end = s.len() - 1;
    assert forall|k: int| 1 <= k < end implies #[trigger] s[k] != '\'' by {
        assert(s[k] == text[k - 1]);
        assert(text.contains(text[k - 1]));
    }
    lemma_quote_end(s, 1, end);
    assert(s.subrange(1, end) =~= text);
    assert(lexeme(s, 0) == Lexeme::Token(Token::Str(text), s.len() as int));
    assert(tokens_from(s, s.len() as int) == Ok::<Seq<Token>, Fault>(seq![Token::Eof]));
    assert(tokens_from(s, 0) == then_tokens(
        seq![Token::Str(text)],
        tokens_from(s, s.len() as int),
    ));
}

/// `arguments.field matches 'pattern'` holds if and only if the pattern matches in
/// the text of that field: the field's own text where the arguments have the field
/// and it is text, the empty text in every other case.
#[verifier::spinoff_prover]
#[verifier::rlimit(40)]
pub proof fn law_field_conditions_look_at_the_field(
    field: Seq<char>,
    pattern: Seq<char>,
    arguments: Option<Doc>,
    hour: u32,
)
    requires
        plain_name(field),
        !pattern.contains('\''),
        regex_compiled(pattern) is Ok,
    ensures
        ({
            let condition = meaning("arguments."@ + field + " matches '"@ + pattern + "'"@);
            let re = regex_compiled(pattern)->Ok_0;
            &&& condition is Ok
            &&& match arguments {
                Some(Doc::Object(members)) => if members.contains_key(field) {
                    match members[field] {
                        Doc::Text(text) => holds(condition->Ok_0, arguments, hour)
                            <==> regex_matches(re, text),
                        _ => holds(condition->Ok_0, arguments, hour) <==> regex_matches(
                            re,
                            Seq::empty(),
                        ),
                    }
                } else {
                    holds(condition->Ok_0, arguments, hour) <==> regex_matches(re, Seq::empty())
                },
                _ => holds(condition->Ok_0, arguments, hour) <==> regex_matches(re, Seq::empty()),
            }
        }),
{
    reveal_strlit("arguments.");
    reveal_strlit("arguments");
    reveal_strlit(" matches '");
    reveal_strlit("matches");
    reveal_strlit("'");
    let re = regex_compiled(pattern)->Ok_0;
    lemma_keyword(Kw::Arguments);
    lemma_keyword(Kw::Matches);
    assert forall|i: int| 0 <= i < field.len() implies word_char(#[trigger] field[i]) by {}
    assert(word_start(field[0]));
    lemma_dotted("arguments"@, field);
    lemma_word_alone("matches"@);
    lemma_quoted_alone(pattern);
    let front = "arguments"@ + seq!['.'] + field;
    let quoted = seq!['\''] + pattern + seq!['\''];
    law_joined_texts_are_read_one_after_the_other(front, ' ', "matches"@);
    law_joined_texts_are_read_one_after_the_other(
        front + seq![' '] + "matches"@,
        ' ',
        quoted,
    );
    let ts = seq![
        Token::Kw(Kw::Arguments),
        Token::Dot,
        Token::Ident(field),
        Token::Kw(Kw::Matches),
        Token::Str(pattern),
        Token::Eof,
    ];
    assert((seq![Token::Kw(Kw::Arguments), Token::Dot, Token::Ident(field), Token::Eof].drop_last()
        + (seq![Token::Kw(Kw::Matches)] + seq![Token::Eof])).drop_last() + (seq![
        Token::Str(pattern),
    ] + seq![Token::Eof]) =~= ts);
    assert("arguments."@ + field + " matches '"@ + pattern + "'"@ =~= front + seq![' ']
        + "matches"@ + seq![' '] + quoted);
    let form = Form::FieldMatches { field, re };
    assert(primary_at(ts, 0) == Ok::<(Form, int), Fault>((form, 5)));
    assert(not_at(ts, 0) == Ok::<(Form, int), Fault>((form, 5)));
    assert(and_at(ts, 0) == Ok::<(Form, int), Fault>((form, 5)));
    assert(or_at(ts, 0) == Ok::<(Form, int), Fault>((form, 5)));
}

/// `arguments contains_pattern 'pattern'` holds if and only if the pattern matches in
/// the arguments printed as JSON, or in the empty text where there are no arguments.
#[verifier::spinoff_prover]
#[verifier::rlimit(40)]
pub proof fn law_argument_conditions_look_at_all_arguments(
    pattern: Seq<char>,
    arguments: Option<Doc>,
    hour: u32,
)
    requires
        !pattern.contains('\''),
        regex_compiled(pattern) is Ok,
    ensures
        ({
            let condition = meaning("arguments contains_pattern '"@ + pattern + "'"@);
            let re = regex_compiled(pattern)->Ok_0;
            &&& condition is Ok
            &&& match arguments {
                Some(d) => holds(condition->Ok_0, arguments, hour) <==> regex_matches(
                    re,
                    json_text(d),
                ),
                None => holds(condition->Ok_0, arguments, hour) <==> regex_matches(
                    re,
                    Seq::empty(),
                ),
            }
        }),
{
    reveal_strlit("arguments");
    reveal_strlit("arguments contains_pattern '");
    reveal_strlit("contains_pattern");
    reveal_strlit("'");
    let re = regex_compiled(pattern)->Ok_0;
    lemma_keyword(Kw::Arguments);
    lemma_keyword(Kw::ContainsPattern);
    lemma_word_alone("arguments"@);
    lemma_word_alone("contains_pattern"@);
    lemma_quoted_alone(pattern);
    let front = "arguments"@ + seq![' '] + "contains_pattern"@;
    let quoted = seq!['\''] + pattern + seq!['\''];
    law_joined_texts_are_read_one_after_the_other("arguments"@, ' ', "contains_pattern"@);
    law_joined_texts_are_read_one_after_the_other(front, ' ', quoted);
    let ts = seq![
        Token::Kw(Kw::Arguments),
        Token::Kw(Kw::ContainsPattern),
        Token::Str(pattern),
        Token::Eof,
    ];
    assert(((seq![Token::Kw(Kw::Arguments)] + seq![Token::Eof]).drop_last() + (seq![
        Token::Kw(Kw::ContainsPattern),
    ] + seq![Token::Eof])).drop_last() + (seq![Token::Str(pattern)] + seq![Token::Eof]) =~= ts);
    assert("arguments contains_pattern '"@ + pattern + "'"@ =~= front + seq![' '] + quoted);
    let form = Form::ArgumentsMatch { re };
    assert(primary_at(ts, 0) == Ok::<(Form, int), Fault>((form, 3)));
    assert(not_at(ts, 0) == Ok::<(Form, int), Fault>((form, 3)));
    assert(and_at(ts, 0) == Ok::<(Form, int), Fault>((form, 3)));
    assert(or_at(ts, 0) == Ok::<(Form, int), Fault>((form, 3)));
}

/// The tokens of a comparison of the hour that is written without blanks.
#[verifier::spinoff_prover]
#[verifier::rlimit(40)]
proof fn lemma_tight_hour(sign: Seq<char>, op: CmpOp, n: u32)
    requires
        match op {
            CmpOp::Lt => sign == seq!['<'],
            CmpOp::Gt => sign == seq!['>'],
            CmpOp::Le => sign == seq!['<', '='],
            CmpOp::Ge => sign == seq!['>', '='],
            CmpOp::Eq => sign == seq!['=', '='],
        },
    ensures
        meaning("time.hour"@ + sign + decimal(n as nat)) == Ok::<Form, Fault>(
            Form::Hour { op, value: n },
        ),
{
    reveal_strlit("time.hour");
    reveal_strlit("time");
    reveal_strlit("hour");
    lemma_keyword(Kw::Time);
    lemma_keyword(Kw::Hour);
    let number = decimal(n as nat);
    let s = "time.hour"@ + sign + number;
    let m = 9 + sign.len() as int;
    let end = s.len() as int;
    lemma_decimal_is_digits(n as nat);
    lemma_decimal_value(n as nat);
    assert(s[4] == '.');
    lemma_word_end(s, 1, 4);
    assert(s.subrange(0, 4) =~= "time"@);
    assert(s[9] == sign[0]);
    lemma_word_end(s, 6, 9);
    assert(s.subrange(5, 9) =~= "hour"@);
    assert(s[m] == number[0]);
    if sign.len() == 2 {
        assert(s[10] == sign[1]);
    }
    assert forall|k: int| m <= k < end implies digit_char(#[trigger] s[k]) by {
        assert(s[k] == number[k - m]);
    }
    lemma_digits_to_end(s, m);
    assert(s.subrange(m, end) =~= number);
    assert(lexeme(s, 0) == Lexeme::Token(Token::Kw(Kw::Time), 4));
    assert(lexeme(s, 4) == Lexeme::Token(Token::Dot, 5));
    assert(lexeme(s, 5) == Lexeme::Token(Token::Kw(Kw::Hour), 9));
    assert(lexeme(s, 9) == Lexeme::Token(Token::Cmp(op), m));
    assert(lexeme(s, m) == Lexeme::Token(Token::Num(n), end));
    assert(tokens_from(s, end) == Ok::<Seq<Token>, Fault>(seq![Token::Eof]));
    assert(tokens_from(s, m) == then_tokens(seq![Token::Num(n)], tokens_from(s, end)));
    assert(tokens_from(s, 9) == then_tokens(seq![Token::Cmp(op)], tokens_from(s, m)));
    assert(tokens_from(s, 5) == then_tokens(seq![Token::Kw(Kw::Hour)], tokens_from(s, 9)));
    assert(tokens_from(s, 4) == then_tokens(seq![Token::Dot], tokens_from(s, 5)));
    assert(tokens_from(s, 0) == then_tokens(seq![Token::Kw(Kw::Time)], tokens_from(s, 4)));
    let ts = seq![
        Token::Kw(Kw::Time),
        Token::Dot,
        Token::Kw(Kw::Hour),
        Token::Cmp(op),
        Token::Num(n),
        Token::Eof,
    ];
    assert(seq![Token::Kw(Kw::Time)] + (seq![Token::Dot] + (seq![Token::Kw(Kw::Hour)] + (seq![
        Token::Cmp(op),
    ] + (seq![Token::Num(n)] + seq![Token::Eof])))) =~= ts);
    lemma_hour_tokens(op, n);
}

/// The sign of a comparison.
pub open spec fn sign_of(op: CmpOp) -> Seq<char> {
    match op {
        CmpOp::Lt => "<"@,
        CmpOp::Gt => ">"@,
        CmpOp::Le => "<="@,
        CmpOp::Ge => ">="@,
        CmpOp::Eq => "=="@,
    }
}

/// Blanks around a comparison make no difference: `time.hour>=9` says what
/// `time.hour >= 9` says.
#[verifier::spinoff_prover]
#[verifier::rlimit(40)]
pub proof fn law_comparisons_need_no_blanks(op: CmpOp, n: u32)
    ensures
        meaning("time.hour"@ + sign_of(op) + decimal(n as nat)) == meaning(
            "time.hour "@ + sign_of(op) + " "@ + decimal(n as nat),
        ),
        meaning("time.hour"@ + sign_of(op) + decimal(n as nat)) is Ok,
{
    reveal_strlit("<");
    reveal_strlit(">");
    reveal_strlit("<=");
    reveal_strlit(">=");
    reveal_strlit("==");
    let sign = sign_of(op);
    match op {
        CmpOp::Lt => {
            assert(sign =~= seq!['<']);
        },
        CmpOp::Gt => {
            assert(sign =~= seq!['>']);
        },
        CmpOp::Le => {
            assert(sign =~= seq!['<', '=']);
        },
        CmpOp::Ge => {
            assert(sign =~= seq!['>', '=']);
        },
        CmpOp::Eq => {
            assert(sign =~= seq!['=', '=']);
        },
    }
    lemma_hour_text(sign, op, n);
    lemma_tight_hour(sign, op, n);
}

/// What is no condition is refused, and it is said why: a character that begins nothing,
/// a quote that does not end, one `=` alone, a number beyond 32 bits, and no text at all.
#[verifier::spinoff_prover]
#[verifier::rlimit(40)]
pub proof fn law_broken_texts_are_refused(c: char, rest: Seq<char>, open: Seq<char>, n: nat)
    requires
        !open.contains('\''),
        n > u32::MAX,
        c == '"' || c == '#' || c == '!' || c == '&' || c == '|' || c == '[' || c == '{' || c
            == ',' || c == '*' || c == '-',
        rest.len() == 0 || rest[0] != '=',
    ensures
        meaning(seq![c] + rest) == Err::<Form, Fault>(
            Fault::UnexpectedCharacter { character: c, position: 0 },
        ),
        meaning(seq!['\''] + open) == Err::<Form, Fault>(Fault::UnterminatedString),
        meaning(seq!['='] + rest) == Err::<Form, Fault>(Fault::ExpectedDoubleEquals { position: 0 }),
        meaning(decimal(n)) == Err::<Form, Fault>(Fault::NumberTooLarge),
        meaning(Seq::empty()) == Err::<Form, Fault>(Fault::UnexpectedToken { got: Token::Eof }),
{
    let a = seq![c] + rest;
    assert(a[0] == c);
    assert(lexeme(a, 0) == Lexeme::Fault(Fault::UnexpectedCharacter { character: c, position: 0 }));
    let b = seq!['\''] + open;
    assert(b[0] == '\'');
    assert forall|k: int| 1 <= k < b.len() implies #[trigger] b[k] != '\'' by {
        assert(b[k] == open[k - 1]);
        assert(open.contains(open[k - 1]));
    }
    lemma_no_quote(b, 1);
    let e = seq!['='] + rest;
    assert(e[0] == '=');
    if e.len() > 1 {
        assert(e[1] == rest[0]);
    }
    lemma_decimal_is_digits(n);
    lemma_decimal_value(n);
    let d = decimal(n);
    lemma_digits_to_end(d, 0);
    assert(d.subrange(0, d.len() as int) =~= d);
    let ts = seq![Token::Eof];
    assert(tokens_from(Seq::<char>::empty(), 0) == Ok::<Seq<Token>, Fault>(ts));
    assert(primary_at(ts, 0) == Err::<(Form, int), Fault>(
        Fault::UnexpectedToken { got: Token::Eof },
    ));
    assert(not_at(ts, 0) is Err);
    assert(and_at(ts, 0) is Err);
}

proof fn lemma_no_quote(s: Seq<char>, i: int)
    requires
        0 <= i <= s.len(),
        forall|k: int| i <= k < s.len() ==> #[trigger] s[k] != '\'',
    ensures
        quote_end(s, i) == s.len(),
    decreases s.len() - i,
{
    if i < s.len() {
        lemma_no_quote(s, i + 1);
    }
}

/// Two conditions with nothing between them are none, nor is one in a parenthesis that
/// does not close.
#[verifier::spinoff_prover]
#[verifier::rlimit(40)]
pub proof fn law_loose_ends_are_refused(a: Seq<char>, b: Seq<char>)
    requires
        meaning(a) is Ok,
        meaning(b) is Ok,
    ensures
        meaning(in_parens(a) + " "@ + in_parens(b)) == Err::<Form, Fault>(Fault::TrailingTokens),
        meaning("( "@ + a) == Err::<Form, Fault>(Fault::ExpectedClosingParen),
{
    reveal_strlit(" ");
    reveal_strlit("( ");
    lemma_whole(a);
    lemma_whole(b);
    lemma_paren_tokens(a);
    lemma_paren_tokens(b);
    let ra = paren_tokens(a);
    let rb = paren_tokens(b);
    law_joined_texts_are_read_one_after_the_other(in_parens(a), ' ', in_parens(b));
    assert(in_parens(a) + " "@ + in_parens(b) =~= in_parens(a) + seq![' '] + in_parens(b));
    let ts = ra + rb + seq![Token::Eof];
    assert(ra.push(Token::Eof).drop_last() + rb.push(Token::Eof) =~= ts);
    assert forall|i: int| 0 <= i < ra.len() implies ts[0 + i] == #[trigger] ra[i] by {}
    lemma_paren_read(ts, 0, a);
    let m = ra.len() as int;
    assert(ts[m] == rb[0]);
    assert(token_at(ts, m) == Token::LParen);
    let x = meaning(a)->Ok_0;
    assert(and_at(ts, 0) == Ok::<(Form, int), Fault>((x, m)));
    assert(or_at(ts, 0) == Ok::<(Form, int), Fault>((x, m)));
    lemma_unclosed(a);
}

#[verifier::spinoff_prover]
#[verifier::rlimit(40)]
proof fn lemma_unclosed(a: Seq<char>)
    requires
        meaning(a) is Ok,
    ensures
        meaning("( "@ + a) == Err::<Form, Fault>(Fault::ExpectedClosingParen),
{
    reveal_strlit("( ");
    lemma_whole(a);
    let ta = tokens_from(a, 0)->Ok_0;
    let open = seq!['('];
    assert(tokens_from(open, 0) == Ok::<Seq<Token>, Fault>(seq![Token::LParen] + seq![Token::Eof]))
        by {
        reveal_with_fuel(tokens_from, 3);
        assert(lexeme(open, 0) == Lexeme::Token(Token::LParen, 1));
        assert(tokens_from(open, 1) == Ok::<Seq<Token>, Fault>(seq![Token::Eof]));
    }
    law_joined_texts_are_read_one_after_the_other(open, ' ', a);
    assert("( "@ + a =~= open + seq![' '] + a);
    let us = seq![Token::LParen] + ta;
    assert((seq![Token::LParen] + seq![Token::Eof]).drop_last() + ta =~= us);
    lemma_one_end(a, 0);
    let q = ta.len() - 1;
    assert forall|i: int| 0 <= i < q implies #[trigger] ta[i] == us[i + 1] by {}
    assert(us[q + 1] == ta[q]);
    lemma_or_moved(ta, us, 1, 0);
    assert(or_at(us, 1) == Ok::<(Form, int), Fault>((meaning(a)->Ok_0, q + 1)));
    assert(token_at(us, q + 1) == Token::Eof);
    assert(us[0] == Token::LParen);
    assert(primary_at(us, 0) == Err::<(Form, int), Fault>(Fault::ExpectedClosingParen));
    assert(not_at(us, 0) == Err::<(Form, int), Fault>(Fault::ExpectedClosingParen));
    assert(and_at(us, 0) == Err::<(Form, int), Fault>(Fault::ExpectedClosingParen));
    assert(or_at(us, 0) == Err::<(Form, int), Fault>(Fault::ExpectedClosingParen));
}

/// What is missing in a comparison is named: what should follow `arguments`, `time` and
/// their parts, and what stands there instead.
#[verifier::spinoff_prover]
#[verifier::rlimit(40)]
pub proof fn law_broken_comparisons_are_refused(ts: Seq<Token>)
    requires
        ts.len() > 5,
    ensures
        !(ts[0] is Kw) && ts[0] != Token::LParen ==> condition_of(ts) == Err::<Form, Fault>(
            Fault::UnexpectedToken { got: ts[0] },
        ),
        ts[0] == Token::Kw(Kw::Time) && ts[1] != Token::Dot ==> condition_of(ts) == Err::<
            Form,
            Fault,
        >(Fault::ExpectedDotAfterTime),
        ts[0] == Token::Kw(Kw::Time) && ts[1] == Token::Dot && ts[2] != Token::Kw(Kw::Hour)
            ==> condition_of(ts) == Err::<Form, Fault>(Fault::ExpectedHour),
        ts[0] == Token::Kw(Kw::Time) && ts[1] == Token::Dot && ts[2] == Token::Kw(Kw::Hour)
            && !(ts[3] is Cmp) ==> condition_of(ts) == Err::<Form, Fault>(
            Fault::ExpectedOperator { got: ts[3] },
        ),
        ts[0] == Token::Kw(Kw::Time) && ts[1] == Token::Dot && ts[2] == Token::Kw(Kw::Hour)
            && ts[3] is Cmp && !(ts[4] is Num) ==> condition_of(ts) == Err::<Form, Fault>(
            Fault::ExpectedInteger { got: ts[4] },
        ),
        ts[0] == Token::Kw(Kw::Arguments) && ts[1] != Token::Dot && ts[1] != Token::Kw(
            Kw::ContainsPattern,
        ) ==> condition_of(ts) == Err::<Form, Fault>(Fault::ExpectedDotOrContains { got: ts[1] }),
        ts[0] == Token::Kw(Kw::Arguments) && ts[1] == Token::Kw(Kw::ContainsPattern) && !(
        ts[2] is Str) ==> condition_of(ts) == Err::<Form, Fault>(
            Fault::ExpectedPatternAfterContains { got: ts[2] },
        ),
        ts[0] == Token::Kw(Kw::Arguments) && ts[1] == Token::Dot && !(ts[2] is Ident)
            ==> condition_of(ts) == Err::<Form, Fault>(Fault::ExpectedFieldName { got: ts[2] }),
        ts[0] == Token::Kw(Kw::Arguments) && ts[1] == Token::Dot && ts[2] is Ident && ts[3]
            != Token::Kw(Kw::Matches) ==> condition_of(ts) == Err::<Form, Fault>(
            Fault::ExpectedMatches,
        ),
        ts[0] == Token::Kw(Kw::Arguments) && ts[1] == Token::Dot && ts[2] is Ident && ts[3]
            == Token::Kw(Kw::Matches) && !(ts[4] is Str) ==> condition_of(ts) == Err::<Form, Fault>(
            Fault::ExpectedPatternAfterMatches { got: ts[4] },
        ),
{
    if ts[0] != Token::LParen && ts[0] != Token::Kw(Kw::Not) {
        assert(token_at(ts, 0) == ts[0] && token_at(ts, 1) == ts[1] && token_at(ts, 2) == ts[2]);
        assert(token_at(ts, 3) == ts[3] && token_at(ts, 4) == ts[4]);
        assert(primary_at(ts, 0) == atom_at(ts, 0));
        assert(not_at(ts, 0) == atom_at(ts, 0));
        if let Err(fault) = atom_at(ts, 0) {
            assert(and_at(ts, 0) == Err::<(Form, int), Fault>(fault));
            assert(or_at(ts, 0) == Err::<(Form, int), Fault>(fault));
        }
    }
}

} // verus!
