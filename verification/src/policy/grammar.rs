//! How conditions are written: what binds closer than what.
use vstd::prelude::*;

use super::condition::{
    and_at, and_rest, condition_of, digits_end, digits_value, lexeme, meaning, not_at, or_at,
    or_rest, primary_at, quote_end, token_at, tokens_from, word_end, word_token, CmpOp, Fault,
    Form, Kw, Lexeme, Token,
};
use crate::chars::{digit_char, word_char, word_start};
use crate::pattern::regex_compiled;
use crate::text::{decimal, lemma_decimal_is_digits};

verus! {

/// A condition as its author thinks of it, patterns not compiled yet.
pub enum Written {
    Field { field: Seq<char>, pattern: Seq<char> },
    Arguments { pattern: Seq<char> },
    Hour { op: CmpOp, value: u32 },
    And(Box<Written>, Box<Written>),
    Or(Box<Written>, Box<Written>),
    Not(Box<Written>),
}

/// Where a part of a condition stands.
pub enum Level {
    /// As a whole, or before an `or`.
    Whole,
    /// After an `or`, or before an `and`.
    Part,
    /// After an `and` or a `not`.
    Unit,
}

/// Every pattern in the condition compiles.
pub open spec fn compiles(w: Written) -> bool
    decreases w,
{
    match w {
        Written::Field { pattern, .. } => regex_compiled(pattern) is Ok,
        Written::Arguments { pattern } => regex_compiled(pattern) is Ok,
        Written::Hour { .. } => true,
        Written::And(a, b) => compiles(*a) && compiles(*b),
        Written::Or(a, b) => compiles(*a) && compiles(*b),
        Written::Not(e) => compiles(*e),
    }
}

/// The condition with its patterns compiled.
pub open spec fn form_of(w: Written) -> Form
    decreases w,
{
    match w {
        Written::Field { field, pattern } => Form::FieldMatches {
            field,
            re: regex_compiled(pattern)->Ok_0,
        },
        Written::Arguments { pattern } => Form::ArgumentsMatch {
            re: regex_compiled(pattern)->Ok_0,
        },
        Written::Hour { op, value } => Form::Hour { op, value },
        Written::And(a, b) => Form::And(Box::new(form_of(*a)), Box::new(form_of(*b))),
        Written::Or(a, b) => Form::Or(Box::new(form_of(*a)), Box::new(form_of(*b))),
        Written::Not(e) => Form::Not(Box::new(form_of(*e))),
    }
}

/// The tokens of a condition, without parentheses where none are needed.
pub open spec fn bare(w: Written) -> Seq<Token>
    decreases w, 0int,
{
    match w {
        Written::Field { field, pattern } => seq![
            Token::Kw(Kw::Arguments),
            Token::Dot,
            Token::Ident(field),
            Token::Kw(Kw::Matches),
            Token::Str(pattern),
        ],
        Written::Arguments { pattern } => seq![
            Token::Kw(Kw::Arguments),
            Token::Kw(Kw::ContainsPattern),
            Token::Str(pattern),
        ],
        Written::Hour { op, value } => seq![
            Token::Kw(Kw::Time),
            Token::Dot,
            Token::Kw(Kw::Hour),
            Token::Cmp(op),
            Token::Num(value),
        ],
        Written::And(a, b) => spelled(*a, Level::Part) + seq![Token::Kw(Kw::And)] + spelled(
            *b,
            Level::Unit,
        ),
        Written::Or(a, b) => spelled(*a, Level::Whole) + seq![Token::Kw(Kw::Or)] + spelled(
            *b,
            Level::Part,
        ),
        Written::Not(e) => seq![Token::Kw(Kw::Not)] + spelled(*e, Level::Unit),
    }
}

/// A condition binds too loosely to stand at a place without parentheses.
pub open spec fn loose(w: Written, level: Level) -> bool {
    match level {
        Level::Whole => false,
        Level::Part => w is Or,
        Level::Unit => w is Or || w is And,
    }
}

/// The tokens of a condition at a place.
pub open spec fn spelled(w: Written, level: Level) -> Seq<Token>
    decreases w, 1int,
{
    if loose(w, level) {
        seq![Token::LParen] + bare(w) + seq![Token::RParen]
    } else {
        bare(w)
    }
}

/// The tokens stand at place `p`.
pub open spec fn stand_at(ts: Seq<Token>, p: int, part: Seq<Token>) -> bool {
    &&& 0 <= p
    &&& p + part.len() <= ts.len()
    &&& forall|i: int| 0 <= i < part.len() ==> ts[p + i] == #[trigger] part[i]
}

spec fn rank(w: Written, level: Level) -> int {
    match (w, level) {
        (Written::Or(..), Level::Whole) => 0,
        (Written::Or(..), Level::Part) => 2,
        (Written::Or(..), Level::Unit) => 1,
        (Written::And(..), Level::Whole) => 1,
        (Written::And(..), Level::Part) => 0,
        (Written::And(..), Level::Unit) => 2,
        (_, Level::Whole) => 2,
        (_, Level::Part) => 1,
        (_, Level::Unit) => 0,
    }
}

/// Where the tokens of a condition stand, the condition is read, and reading goes
/// on after them.
proof fn lemma_read_at(ts: Seq<Token>, p: int, w: Written, level: Level)
    requires
        compiles(w),
        stand_at(ts, p, spelled(w, level)),
    ensures
        spelled(w, level).len() > 0,
        ({
            let q = p + spelled(w, level).len();
            match level {
                Level::Whole => token_at(ts, q) != Token::Kw(Kw::And) ==> or_at(ts, p) == or_rest(
                    ts,
                    form_of(w),
                    q,
                ),
                Level::Part => and_at(ts, p) == and_rest(ts, form_of(w), q),
                Level::Unit => not_at(ts, p) == Ok::<(Form, int), Fault>((form_of(w), q)),
            }
        }),
    decreases w, rank(w, level),
{
    let all = spelled(w, level);
    let q = p + all.len();
    if loose(w, level) {
        let inner = bare(w);
        assert(inner == spelled(w, Level::Whole));
        assert forall|i: int| 0 <= i < inner.len() implies ts[p + 1 + i] == #[trigger] inner[i] by {
            assert(all[i + 1] == inner[i]);
        }
        assert(ts[p] == all[0]);
        assert(ts[q - 1] == all[all.len() - 1]);
        if level is Unit {
            lemma_read_at(ts, p + 1, w, Level::Whole);
            assert(or_at(ts, p + 1) == Ok::<(Form, int), Fault>((form_of(w), q - 1)));
            assert(primary_at(ts, p) == Ok::<(Form, int), Fault>((form_of(w), q)));
        } else {
            lemma_read_at(ts, p, w, Level::Unit);
        }
    } else {
        match (w, level) {
            (Written::Or(a, b), _) => {
                let left = spelled(*a, Level::Whole);
                let right = spelled(*b, Level::Part);
                let mid = p + left.len();
                assert forall|i: int| 0 <= i < left.len() implies ts[p + i] == #[trigger] left[i] by {
                    assert(all[i] == left[i]);
                }
                assert(ts[mid] == all[left.len() as int]);
                assert forall|i: int| 0 <= i < right.len() implies ts[mid + 1 + i]
                    == #[trigger] right[i] by {
                    assert(all[left.len() + 1 + i] == right[i]);
                }
                lemma_read_at(ts, p, *a, Level::Whole);
                lemma_read_at(ts, mid + 1, *b, Level::Part);
            },
            (Written::And(a, b), Level::Part) => {
                let left = spelled(*a, Level::Part);
                let right = spelled(*b, Level::Unit);
                let mid = p + left.len();
                assert forall|i: int| 0 <= i < left.len() implies ts[p + i] == #[trigger] left[i] by {
                    assert(all[i] == left[i]);
                }
                assert(ts[mid] == all[left.len() as int]);
                assert forall|i: int| 0 <= i < right.len() implies ts[mid + 1 + i]
                    == #[trigger] right[i] by {
                    assert(all[left.len() + 1 + i] == right[i]);
                }
                lemma_read_at(ts, p, *a, Level::Part);
                lemma_read_at(ts, mid + 1, *b, Level::Unit);
            },
            (_, Level::Whole) => {
                lemma_read_at(ts, p, w, Level::Part);
            },
            (_, Level::Part) => {
                lemma_read_at(ts, p, w, Level::Unit);
            },
            (Written::Not(e), Level::Unit) => {
                let inner = spelled(*e, Level::Unit);
                assert(ts[p] == all[0]);
                assert forall|i: int| 0 <= i < inner.len() implies ts[p + 1 + i]
                    == #[trigger] inner[i] by {
                    assert(all[i + 1] == inner[i]);
                }
                lemma_read_at(ts, p + 1, *e, Level::Unit);
            },
            (_, Level::Unit) => {
                assert(ts[p] == all[0] && ts[p + 1] == all[1] && ts[p + 2] == all[2]);
                if !(w is Arguments) {
                    assert(ts[p + 3] == all[3] && ts[p + 4] == all[4]);
                }
            },
        }
    }
}

/// A condition that is written down is read as it was meant: `not` binds closer
/// than `and`, `and` closer than `or`, each groups from the left, and parentheses
/// stand where that would be read otherwise.
pub proof fn law_conditions_are_read_as_written(w: Written)
    requires
        compiles(w),
    ensures
        condition_of(spelled(w, Level::Whole).push(Token::Eof)) == Ok::<Form, Fault>(form_of(w)),
{
    let part = spelled(w, Level::Whole);
    let ts = part.push(Token::Eof);
    lemma_read_at(ts, 0, w, Level::Whole);
    assert(token_at(ts, part.len() as int) == Token::Eof);
}

/// The word for a keyword.
pub open spec fn keyword(k: Kw) -> Seq<char> {
    match k {
        Kw::Arguments => "arguments"@,
        Kw::Time => "time"@,
        Kw::Hour => "hour"@,
        Kw::Matches => "matches"@,
        Kw::ContainsPattern => "contains_pattern"@,
        Kw::Or => "or"@,
        Kw::And => "and"@,
        Kw::Not => "not"@,
    }
}

/// The text of a token.
pub open spec fn token_text(t: Token) -> Seq<char> {
    match t {
        Token::Kw(k) => keyword(k),
        Token::Ident(name) => name,
        Token::Str(text) => seq!['\''] + text + seq!['\''],
        Token::Num(n) => decimal(n as nat),
        Token::Dot => seq!['.'],
        Token::Cmp(CmpOp::Lt) => seq!['<'],
        Token::Cmp(CmpOp::Gt) => seq!['>'],
        Token::Cmp(CmpOp::Le) => seq!['<', '='],
        Token::Cmp(CmpOp::Ge) => seq!['>', '='],
        Token::Cmp(CmpOp::Eq) => seq!['=', '='],
        Token::LParen => seq!['('],
        Token::RParen => seq![')'],
        Token::Eof => Seq::empty(),
    }
}

/// The tokens as text, a blank after each.
pub open spec fn tokens_text(ts: Seq<Token>) -> Seq<char>
    decreases ts.len(),
{
    if ts.len() == 0 {
        Seq::empty()
    } else {
        token_text(ts[0]) + seq![' '] + tokens_text(ts.skip(1))
    }
}

/// A name that can stand for a field: a word that is no keyword.
pub open spec fn is_name(name: Seq<char>) -> bool {
    &&& name.len() > 0
    &&& word_start(name[0])
    &&& forall|i: int| 1 <= i < name.len() ==> word_char(#[trigger] name[i])
    &&& word_token(name) == Token::Ident(name)
}

/// The token can be written: names are names, and quoted text holds no quote.
pub open spec fn writable(t: Token) -> bool {
    match t {
        Token::Ident(name) => is_name(name),
        Token::Str(text) => !text.contains('\''),
        Token::Eof => false,
        _ => true,
    }
}

/// Every token can be written.
pub open spec fn all_writable(ts: Seq<Token>) -> bool {
    forall|k: int| 0 <= k < ts.len() ==> writable(#[trigger] ts[k])
}

pub proof fn lemma_word_end(s: Seq<char>, i: int, end: int)
    requires
        0 <= i <= end < s.len(),
        forall|k: int| i <= k < end ==> word_char(#[trigger] s[k]),
        !word_char(s[end]),
    ensures
        word_end(s, i) == end,
    decreases end - i,
{
    if i < end {
        lemma_word_end(s, i + 1, end);
    }
}

proof fn lemma_digits_end(s: Seq<char>, i: int, end: int)
    requires
        0 <= i <= end < s.len(),
        forall|k: int| i <= k < end ==> digit_char(#[trigger] s[k]),
        !digit_char(s[end]),
    ensures
        digits_end(s, i) == end,
    decreases end - i,
{
    if i < end {
        lemma_digits_end(s, i + 1, end);
    }
}

pub proof fn lemma_quote_end(s: Seq<char>, i: int, end: int)
    requires
        0 <= i <= end < s.len(),
        forall|k: int| i <= k < end ==> #[trigger] s[k] != '\'',
        s[end] == '\'',
    ensures
        quote_end(s, i) == end,
    decreases end - i,
{
    if i < end {
        lemma_quote_end(s, i + 1, end);
    }
}

/// The digits of a number stand for it.
pub proof fn lemma_decimal_value(n: nat)
    ensures
        digits_value(decimal(n)) == n,
    decreases n,
{
    let s = decimal(n);
    if n >= 10 {
        lemma_decimal_value(n / 10);
        assert(s.drop_last() =~= decimal(n / 10));
    } else {
        assert(s.drop_last() =~= Seq::empty());
        assert(digits_value(s.drop_last()) == 0);
    }
}

/// A keyword is a word, and its token is its own.
pub proof fn lemma_keyword(k: Kw)
    ensures
        keyword(k).len() > 0,
        word_start(keyword(k)[0]),
        forall|i: int| 0 <= i < keyword(k).len() ==> word_char(#[trigger] keyword(k)[i]),
        word_token(keyword(k)) == Token::Kw(k),
{
    reveal_strlit("arguments");
    reveal_strlit("time");
    reveal_strlit("hour");
    reveal_strlit("matches");
    reveal_strlit("contains_pattern");
    reveal_strlit("or");
    reveal_strlit("and");
    reveal_strlit("not");
    assert("time"@[0] == 't' && "hour"@[0] == 'h');
    assert("and"@[0] == 'a' && "not"@[0] == 'n');
    assert("arguments"@.len() == 9 && "time"@.len() == 4 && "hour"@.len() == 4);
    assert("matches"@.len() == 7 && "contains_pattern"@.len() == 16 && "or"@.len() == 2);
    assert("and"@.len() == 3 && "not"@.len() == 3);
}

/// A token that is written at a place, a blank after it, is read there.
proof fn lemma_token_read(s: Seq<char>, i: int, t: Token)
    requires
        writable(t),
        0 <= i,
        i + token_text(t).len() < s.len(),
        s.subrange(i, i + token_text(t).len()) == token_text(t),
        s[i + token_text(t).len()] == ' ',
    ensures
        lexeme(s, i) == Lexeme::Token(t, i + token_text(t).len()),
        token_text(t).len() > 0,
{
    let text = token_text(t);
    let end = i + text.len();
    assert forall|k: int| i <= k < end implies s[k] == #[trigger] text[k - i] by {
        assert(s.subrange(i, end)[k - i] == s[k]);
    }
    match t {
        Token::Kw(k) => {
            lemma_keyword(k);
            assert(s[i] == text[0]);
            assert forall|j: int| i + 1 <= j < end implies word_char(#[trigger] s[j]) by {
                assert(s[j] == text[j - i]);
            }
            lemma_word_end(s, i + 1, end);
        },
        Token::Ident(name) => {
            assert(s[i] == text[0]);
            assert forall|j: int| i + 1 <= j < end implies word_char(#[trigger] s[j]) by {
                assert(s[j] == text[j - i]);
            }
            lemma_word_end(s, i + 1, end);
        },
        Token::Str(inner) => {
            assert(s[i] == text[0]);
            assert(s[end - 1] == text[text.len() - 1]);
            assert forall|j: int| i + 1 <= j < end - 1 implies #[trigger] s[j] != '\'' by {
                assert(s[j] == text[j - i]);
                assert(text[j - i] == inner[j - i - 1]);
                assert(inner.contains(inner[j - i - 1]));
            }
            lemma_quote_end(s, i + 1, end - 1);
            assert(s.subrange(i + 1, end - 1) =~= inner) by {
                assert forall|j: int| 0 <= j < inner.len() implies s[i + 1 + j]
                    == #[trigger] inner[j] by {
                    assert(text[j + 1] == inner[j]);
                }
            }
        },
        Token::Num(n) => {
            lemma_decimal_is_digits(n as nat);
            lemma_decimal_value(n as nat);
            assert(s[i] == text[0]);
            assert forall|j: int| i <= j < end implies digit_char(#[trigger] s[j]) by {
                assert(s[j] == text[j - i]);
            }
            lemma_digits_end(s, i, end);
        },
        _ => {
            assert(s[i] == text[0]);
            if text.len() == 2 {
                assert(s[i + 1] == text[1]);
            }
        },
    }
}

/// Tokens that are written at a place are read there, the end mark after them.
proof fn lemma_tokens_read(s: Seq<char>, i: int, ts: Seq<Token>)
    requires
        0 <= i <= s.len(),
        s.skip(i) == tokens_text(ts),
        all_writable(ts),
    ensures
        tokens_from(s, i) == Ok::<Seq<Token>, Fault>(ts.push(Token::Eof)),
    decreases ts.len(),
{
    if ts.len() == 0 {
        assert(s.skip(i).len() == 0);
        assert(ts.push(Token::Eof) =~= seq![Token::Eof]);
    } else {
        let text = token_text(ts[0]);
        let rest = ts.skip(1);
        let end = i + text.len();
        let all = tokens_text(ts);
        assert(all.len() == s.len() - i);
        assert(s.subrange(i, end) =~= text) by {
            assert forall|k: int| 0 <= k < text.len() implies s[i + k] == #[trigger] text[k] by {
                assert(s.skip(i)[k] == all[k]);
            }
        }
        assert(s[end] == ' ') by {
            assert(s.skip(i)[text.len() as int] == all[text.len() as int]);
        }
        assert(s.skip(end + 1) =~= tokens_text(rest)) by {
            assert forall|k: int| 0 <= k < tokens_text(rest).len() implies s[end + 1 + k]
                == #[trigger] tokens_text(rest)[k] by {
                assert(s.skip(i)[text.len() + 1 + k] == all[text.len() + 1 + k]);
            }
        }
        assert forall|k: int| 0 <= k < rest.len() implies writable(#[trigger] rest[k]) by {
            assert(rest[k] == ts[k + 1]);
        }
        lemma_token_read(s, i, ts[0]);
        lemma_tokens_read(s, end + 1, rest);
        assert(lexeme(s, end) == Lexeme::Blank);
        assert(tokens_from(s, end) == tokens_from(s, end + 1));
        assert(seq![ts[0]] + rest.push(Token::Eof) =~= ts.push(Token::Eof));
    }
}

/// The condition can be written: its fields are names, and its patterns hold no
/// quote.
pub open spec fn can_be_written(w: Written) -> bool
    decreases w,
{
    match w {
        Written::Field { field, pattern } => is_name(field) && !pattern.contains('\''),
        Written::Arguments { pattern } => !pattern.contains('\''),
        Written::Hour { .. } => true,
        Written::And(a, b) => can_be_written(*a) && can_be_written(*b),
        Written::Or(a, b) => can_be_written(*a) && can_be_written(*b),
        Written::Not(e) => can_be_written(*e),
    }
}

proof fn lemma_joined_writable(a: Seq<Token>, t: Token, b: Seq<Token>)
    requires
        all_writable(a),
        writable(t),
        all_writable(b),
    ensures
        all_writable(a + seq![t] + b),
{
    let all = a + seq![t] + b;
    assert forall|k: int| 0 <= k < all.len() implies writable(#[trigger] all[k]) by {
        if k < a.len() {
            assert(all[k] == a[k]);
        } else if k == a.len() {
            assert(all[k] == t);
        } else {
            assert(all[k] == b[k - a.len() - 1]);
        }
    }
}

proof fn lemma_writable(w: Written, level: Level)
    requires
        can_be_written(w),
    ensures
        all_writable(bare(w)),
        all_writable(spelled(w, level)),
    decreases w,
{
    let inner = bare(w);
    match w {
        Written::And(a, b) => {
            lemma_writable(*a, Level::Part);
            lemma_writable(*b, Level::Unit);
            lemma_joined_writable(
                spelled(*a, Level::Part),
                Token::Kw(Kw::And),
                spelled(*b, Level::Unit),
            );
        },
        Written::Or(a, b) => {
            lemma_writable(*a, Level::Whole);
            lemma_writable(*b, Level::Part);
            lemma_joined_writable(
                spelled(*a, Level::Whole),
                Token::Kw(Kw::Or),
                spelled(*b, Level::Part),
            );
        },
        Written::Not(e) => {
            lemma_writable(*e, Level::Unit);
            let rest = spelled(*e, Level::Unit);
            lemma_joined_writable(Seq::empty(), Token::Kw(Kw::Not), rest);
            assert(Seq::empty() + seq![Token::Kw(Kw::Not)] + rest =~= inner);
        },
        _ => {},
    }
    if loose(w, level) {
        let all = spelled(w, level);
        assert forall|k: int| 0 <= k < all.len() implies writable(#[trigger] all[k]) by {
            if 0 < k < all.len() - 1 {
                assert(all[k] == inner[k - 1]);
            }
        }
    }
}

/// The text of a condition.
pub open spec fn written_text(w: Written) -> Seq<char> {
    tokens_text(spelled(w, Level::Whole))
}

/// The text of a condition, read, is that condition.
pub proof fn law_condition_text_is_read_as_written(w: Written)
    requires
        compiles(w),
        can_be_written(w),
    ensures
        meaning(written_text(w)) == Ok::<Form, Fault>(form_of(w)),
{
    let ts = spelled(w, Level::Whole);
    let s = written_text(w);
    lemma_writable(w, Level::Whole);
    assert(s.skip(0) =~= s);
    lemma_tokens_read(s, 0, ts);
    law_conditions_are_read_as_written(w);
}

} // verus!
