//! Conditions: the small language in which a rule says when it applies.
//!
//! ```text
//! condition = and-part { "or" and-part }
//! and-part  = not-part { "and" not-part }
//! not-part  = "not" not-part | "(" condition ")" | atom
//! atom      = "arguments" "." field "matches" 'pattern'
//!           | "arguments" "contains_pattern" 'pattern'
//!           | "time" "." "hour" ( "<" | ">" | "<=" | ">=" | "==" ) number
//! ```
use regex::Regex;
use vstd::prelude::*;

use crate::chars::{continues_word, digit_char, is_digit, starts_word, word_char, word_start};
use crate::document::{json_text, Doc};
use crate::json::Json;
use crate::pattern::{compile, regex_compiled, regex_matches};
use crate::text::{chars_of, text_between};

verus! {

/// How an hour is compared.
#[derive(Debug, Clone, Copy, PartialEq, Eq, Structural)]
pub enum CmpOp {
    Lt,
    Gt,
    Le,
    Ge,
    Eq,
}

/// The words that the language keeps for itself.
#[derive(Debug, Clone, Copy, PartialEq, Eq, Structural)]
pub enum Kw {
    Arguments,
    Time,
    Hour,
    Matches,
    ContainsPattern,
    Or,
    And,
    Not,
}

/// A token of a condition.
#[derive(Debug)]
pub enum Tok {
    Kw(Kw),
    Ident(String),
    Str(String),
    Num(u32),
    Dot,
    Cmp(CmpOp),
    LParen,
    RParen,
    Eof,
}

/// What a token says.
#[verifier::ext_equal]
pub enum Token {
    Kw(Kw),
    Ident(Seq<char>),
    Str(Seq<char>),
    Num(u32),
    Dot,
    Cmp(CmpOp),
    LParen,
    RParen,
    Eof,
}

impl View for Tok {
    type V = Token;

    open spec fn view(&self) -> Token {
        match self {
            Tok::Kw(k) => Token::Kw(*k),
            Tok::Ident(s) => Token::Ident(s@),
            Tok::Str(s) => Token::Str(s@),
            Tok::Num(n) => Token::Num(*n),
            Tok::Dot => Token::Dot,
            Tok::Cmp(op) => Token::Cmp(*op),
            Tok::LParen => Token::LParen,
            Tok::RParen => Token::RParen,
            Tok::Eof => Token::Eof,
        }
    }
}

impl Clone for Tok {
    fn clone(&self) -> (t: Tok)
        ensures
            t@ == self@,
    {
        match self {
            Tok::Kw(k) => Tok::Kw(*k),
            Tok::Ident(s) => Tok::Ident(s.clone()),
            Tok::Str(s) => Tok::Str(s.clone()),
            Tok::Num(n) => Tok::Num(*n),
            Tok::Dot => Tok::Dot,
            Tok::Cmp(op) => Tok::Cmp(*op),
            Tok::LParen => Tok::LParen,
            Tok::RParen => Tok::RParen,
            Tok::Eof => Tok::Eof,
        }
    }
}

/// Why a text is no condition.
#[derive(Debug)]
pub enum ConditionError {
    /// A single `=` stands at this place.
    ExpectedDoubleEquals { position: usize },
    /// A quoted text is not closed.
    UnterminatedString,
    /// A number does not fit in 32 bits.
    NumberTooLarge,
    /// No token begins with this character.
    UnexpectedCharacter { character: char, position: usize },
    /// Something follows a whole condition.
    TrailingTokens,
    /// A parenthesis is not closed.
    ExpectedClosingParen,
    /// No field name follows `arguments.`.
    ExpectedFieldName { got: Tok },
    /// No `matches` follows the field.
    ExpectedMatches,
    /// No quoted pattern follows `matches`.
    ExpectedPatternAfterMatches { got: Tok },
    /// No quoted pattern follows `contains_pattern`.
    ExpectedPatternAfterContains { got: Tok },
    /// The pattern does not compile.
    InvalidRegex { pattern: String, reason: String },
    /// Neither `.` nor `contains_pattern` follows `arguments`.
    ExpectedDotOrContains { got: Tok },
    /// No `.` follows `time`.
    ExpectedDotAfterTime,
    /// No `hour` follows `time.`.
    ExpectedHour,
    /// No comparison follows `time.hour`.
    ExpectedOperator { got: Tok },
    /// No number follows the comparison.
    ExpectedInteger { got: Tok },
    /// No condition begins with this token.
    UnexpectedToken { got: Tok },
}

/// What an error says.
#[verifier::ext_equal]
pub enum Fault {
    ExpectedDoubleEquals { position: int },
    UnterminatedString,
    NumberTooLarge,
    UnexpectedCharacter { character: char, position: int },
    TrailingTokens,
    ExpectedClosingParen,
    ExpectedFieldName { got: Token },
    ExpectedMatches,
    ExpectedPatternAfterMatches { got: Token },
    ExpectedPatternAfterContains { got: Token },
    InvalidRegex { pattern: Seq<char>, reason: Seq<char> },
    ExpectedDotOrContains { got: Token },
    ExpectedDotAfterTime,
    ExpectedHour,
    ExpectedOperator { got: Token },
    ExpectedInteger { got: Token },
    UnexpectedToken { got: Token },
}

impl View for ConditionError {
    type V = Fault;

    open spec fn view(&self) -> Fault {
        match self {
            ConditionError::ExpectedDoubleEquals { position } => Fault::ExpectedDoubleEquals {
                position: *position as int,
            },
            ConditionError::UnterminatedString => Fault::UnterminatedString,
            ConditionError::NumberTooLarge => Fault::NumberTooLarge,
            ConditionError::UnexpectedCharacter {
                character,
                position,
            } => Fault::UnexpectedCharacter { character: *character, position: *position as int },
            ConditionError::TrailingTokens => Fault::TrailingTokens,
            ConditionError::ExpectedClosingParen => Fault::ExpectedClosingParen,
            ConditionError::ExpectedFieldName { got } => Fault::ExpectedFieldName { got: got@ },
            ConditionError::ExpectedMatches => Fault::ExpectedMatches,
            ConditionError::ExpectedPatternAfterMatches {
                got,
            } => Fault::ExpectedPatternAfterMatches { got: got@ },
            ConditionError::ExpectedPatternAfterContains {
                got,
            } => Fault::ExpectedPatternAfterContains { got: got@ },
            ConditionError::InvalidRegex { pattern, reason } => Fault::InvalidRegex {
                pattern: pattern@,
                reason: reason@,
            },
            ConditionError::ExpectedDotOrContains { got } => Fault::ExpectedDotOrContains {
                got: got@,
            },
            ConditionError::ExpectedDotAfterTime => Fault::ExpectedDotAfterTime,
            ConditionError::ExpectedHour => Fault::ExpectedHour,
            ConditionError::ExpectedOperator { got } => Fault::ExpectedOperator { got: got@ },
            ConditionError::ExpectedInteger { got } => Fault::ExpectedInteger { got: got@ },
            ConditionError::UnexpectedToken { got } => Fault::UnexpectedToken { got: got@ },
        }
    }
}

/// Where the digits that begin at `i` end.
pub open spec fn digits_end(s: Seq<char>, i: int) -> int
    decreases s.len() - i,
{
    if 0 <= i < s.len() && digit_char(s[i]) {
        digits_end(s, i + 1)
    } else {
        i
    }
}

/// Where the word that goes on at `i` ends.
pub open spec fn word_end(s: Seq<char>, i: int) -> int
    decreases s.len() - i,
{
    if 0 <= i < s.len() && word_char(s[i]) {
        word_end(s, i + 1)
    } else {
        i
    }
}

/// Where the next quote from `i` on stands, or the end of the text.
pub open spec fn quote_end(s: Seq<char>, i: int) -> int
    decreases s.len() - i,
{
    if 0 <= i < s.len() && s[i] != '\'' {
        quote_end(s, i + 1)
    } else {
        i
    }
}

/// The number that digits stand for.
pub open spec fn digits_value(s: Seq<char>) -> nat
    decreases s.len(),
{
    if s.len() == 0 {
        0
    } else {
        10 * digits_value(s.drop_last()) + (s.last() as nat - 48) as nat
    }
}

/// The token of a word.
pub open spec fn word_token(word: Seq<char>) -> Token {
    if word == "arguments"@ {
        Token::Kw(Kw::Arguments)
    } else if word == "time"@ {
        Token::Kw(Kw::Time)
    } else if word == "hour"@ {
        Token::Kw(Kw::Hour)
    } else if word == "matches"@ {
        Token::Kw(Kw::Matches)
    } else if word == "contains_pattern"@ {
        Token::Kw(Kw::ContainsPattern)
    } else if word == "or"@ {
        Token::Kw(Kw::Or)
    } else if word == "and"@ {
        Token::Kw(Kw::And)
    } else if word == "not"@ {
        Token::Kw(Kw::Not)
    } else {
        Token::Ident(word)
    }
}

/// What stands at one place of a text.
pub enum Lexeme {
    Blank,
    /// A token, and where it ends.
    Token(Token, int),
    Fault(Fault),
}

/// What stands at place `i`.
pub open spec fn lexeme(s: Seq<char>, i: int) -> Lexeme {
    let c = s[i];
    let equals_next = i + 1 < s.len() && s[i + 1] == '=';
    if c == ' ' || c == '\t' || c == '\n' || c == '\r' {
        Lexeme::Blank
    } else if c == '.' {
        Lexeme::Token(Token::Dot, i + 1)
    } else if c == '(' {
        Lexeme::Token(Token::LParen, i + 1)
    } else if c == ')' {
        Lexeme::Token(Token::RParen, i + 1)
    } else if c == '<' {
        if equals_next {
            Lexeme::Token(Token::Cmp(CmpOp::Le), i + 2)
        } else {
            Lexeme::Token(Token::Cmp(CmpOp::Lt), i + 1)
        }
    } else if c == '>' {
        if equals_next {
            Lexeme::Token(Token::Cmp(CmpOp::Ge), i + 2)
        } else {
            Lexeme::Token(Token::Cmp(CmpOp::Gt), i + 1)
        }
    } else if c == '=' {
        if equals_next {
            Lexeme::Token(Token::Cmp(CmpOp::Eq), i + 2)
        } else {
            Lexeme::Fault(Fault::ExpectedDoubleEquals { position: i })
        }
    } else if c == '\'' {
        let end = quote_end(s, i + 1);
        if end >= s.len() {
            Lexeme::Fault(Fault::UnterminatedString)
        } else {
            Lexeme::Token(Token::Str(s.subrange(i + 1, end)), end + 1)
        }
    } else if digit_char(c) {
        let end = digits_end(s, i);
        let n = digits_value(s.subrange(i, end));
        if n > u32::MAX {
            Lexeme::Fault(Fault::NumberTooLarge)
        } else {
            Lexeme::Token(Token::Num(n as u32), end)
        }
    } else if word_start(c) {
        let end = word_end(s, i + 1);
        Lexeme::Token(word_token(s.subrange(i, end)), end)
    } else {
        Lexeme::Fault(Fault::UnexpectedCharacter { character: c, position: i })
    }
}

/// A token in front of what follows it.
pub open spec fn then_tokens(front: Seq<Token>, rest: Result<Seq<Token>, Fault>) -> Result<
    Seq<Token>,
    Fault,
> {
    match rest {
        Ok(tokens) => Ok(front + tokens),
        Err(fault) => Err(fault),
    }
}

/// The tokens from place `i` on, the end mark last; or the first fault.
pub open spec fn tokens_from(s: Seq<char>, i: int) -> Result<Seq<Token>, Fault>
    decreases s.len() - i,
{
    if !(0 <= i < s.len()) {
        Ok(seq![Token::Eof])
    } else {
        proof {
            lemma_ends(s, i);
            lemma_ends(s, i + 1);
        }
        match lexeme(s, i) {
            Lexeme::Blank => tokens_from(s, i + 1),
            Lexeme::Token(token, end) => then_tokens(seq![token], tokens_from(s, end)),
            Lexeme::Fault(fault) => Err(fault),
        }
    }
}

/// A run of characters ends no earlier than it begins, and inside the text.
pub proof fn lemma_ends(s: Seq<char>, i: int)
    requires
        0 <= i <= s.len(),
    ensures
        i <= digits_end(s, i) <= s.len(),
        i <= word_end(s, i) <= s.len(),
        i <= quote_end(s, i) <= s.len(),
        i < s.len() && digit_char(s[i]) ==> digits_end(s, i) > i,
    decreases s.len() - i,
{
    if i < s.len() {
        lemma_ends(s, i + 1);
    }
}

/// What the tokens say.
pub open spec fn token_views(tokens: Seq<Tok>) -> Seq<Token> {
    Seq::new(tokens.len(), |i: int| tokens[i]@)
}

/// Reads the number whose digits stand from `start` to `end`.
fn read_number(chars: &Vec<char>, start: usize, end: usize) -> (n: Option<u32>)
    requires
        start <= end <= chars@.len(),
        forall|i: int| start <= i < end ==> digit_char(#[trigger] chars@[i]),
    ensures
        match n {
            Some(n) => n == digits_value(chars@.subrange(start as int, end as int)),
            None => digits_value(chars@.subrange(start as int, end as int)) > u32::MAX,
        },
{
    let mut value: u64 = 0;
    let mut too_large = false;
    let mut i: usize = start;
    assert(chars@.subrange(start as int, start as int).len() == 0);
    while i < end
        invariant
            start <= i <= end <= chars@.len(),
            forall|k: int| start <= k < end ==> digit_char(#[trigger] chars@[k]),
            too_large ==> digits_value(chars@.subrange(start as int, i as int)) > u32::MAX,
            !too_large ==> value <= u32::MAX && value == digits_value(
                chars@.subrange(start as int, i as int),
            ),
        decreases end - i,
    {
        let c = chars[i];
        assert(chars@.subrange(start as int, i + 1).drop_last() =~= chars@.subrange(
            start as int,
            i as int,
        ));
        if !too_large {
            value = value * 10 + (c as u64 - 48);
            if value > u32::MAX as u64 {
                too_large = true;
            }
        }
        i += 1;
    }
    if too_large {
        None
    } else {
        Some(value as u32)
    }
}

/// The token of a word.
fn read_word(word: String) -> (tok: Tok)
    ensures
        tok@ == word_token(word@),
{
    let w = word.as_str();
    if *w == *"arguments" {
        Tok::Kw(Kw::Arguments)
    } else if *w == *"time" {
        Tok::Kw(Kw::Time)
    } else if *w == *"hour" {
        Tok::Kw(Kw::Hour)
    } else if *w == *"matches" {
        Tok::Kw(Kw::Matches)
    } else if *w == *"contains_pattern" {
        Tok::Kw(Kw::ContainsPattern)
    } else if *w == *"or" {
        Tok::Kw(Kw::Or)
    } else if *w == *"and" {
        Tok::Kw(Kw::And)
    } else if *w == *"not" {
        Tok::Kw(Kw::Not)
    } else {
        Tok::Ident(word)
    }
}

/// What [`next_lexeme`] finds.
enum Scanned {
    Blank,
    Token(Tok, usize),
    Fault(ConditionError),
}

/// What stands at place `i`.
fn next_lexeme(chars: &Vec<char>, i: usize) -> (found: Scanned)
    requires
        i < chars@.len(),
    ensures
        match found {
            Scanned::Blank => lexeme(chars@, i as int) == Lexeme::Blank,
            Scanned::Token(tok, end) => lexeme(chars@, i as int) == Lexeme::Token(tok@, end as int),
            Scanned::Fault(e) => lexeme(chars@, i as int) == Lexeme::Fault(e@),
        },
{
    let len = chars.len();
    let c = chars[i];
    let equals_next = i + 1 < len && chars[i + 1] == '=';
    if c == ' ' || c == '\t' || c == '\n' || c == '\r' {
        Scanned::Blank
    } else if c == '.' {
        Scanned::Token(Tok::Dot, i + 1)
    } else if c == '(' {
        Scanned::Token(Tok::LParen, i + 1)
    } else if c == ')' {
        Scanned::Token(Tok::RParen, i + 1)
    } else if c == '<' {
        if equals_next {
            Scanned::Token(Tok::Cmp(CmpOp::Le), i + 2)
        } else {
            Scanned::Token(Tok::Cmp(CmpOp::Lt), i + 1)
        }
    } else if c == '>' {
        if equals_next {
            Scanned::Token(Tok::Cmp(CmpOp::Ge), i + 2)
        } else {
            Scanned::Token(Tok::Cmp(CmpOp::Gt), i + 1)
        }
    } else if c == '=' {
        if equals_next {
            Scanned::Token(Tok::Cmp(CmpOp::Eq), i + 2)
        } else {
            Scanned::Fault(ConditionError::ExpectedDoubleEquals { position: i })
        }
    } else if c == '\'' {
        let start = i + 1;
        let mut end: usize = start;
        while end < chars.len() && chars[end] != '\''
            invariant
                start <= end <= chars@.len(),
                quote_end(chars@, start as int) == quote_end(chars@, end as int),
            decreases chars@.len() - end,
        {
            end += 1;
        }
        if end >= chars.len() {
            Scanned::Fault(ConditionError::UnterminatedString)
        } else {
            Scanned::Token(Tok::Str(text_between(chars, start, end)), end + 1)
        }
    } else if is_digit(c) {
        let mut end: usize = i;
        while end < chars.len() && is_digit(chars[end])
            invariant
                i <= end <= chars@.len(),
                digits_end(chars@, i as int) == digits_end(chars@, end as int),
                forall|k: int| i <= k < end ==> digit_char(#[trigger] chars@[k]),
            decreases chars@.len() - end,
        {
            end += 1;
        }
        match read_number(chars, i, end) {
            Some(n) => Scanned::Token(Tok::Num(n), end),
            None => Scanned::Fault(ConditionError::NumberTooLarge),
        }
    } else if starts_word(c) {
        let mut end: usize = i + 1;
        while end < chars.len() && continues_word(chars[end])
            invariant
                i < end <= chars@.len(),
                word_end(chars@, i + 1) == word_end(chars@, end as int),
            decreases chars@.len() - end,
        {
            end += 1;
        }
        Scanned::Token(read_word(text_between(chars, i, end)), end)
    } else {
        Scanned::Fault(ConditionError::UnexpectedCharacter { character: c, position: i })
    }
}

/// Splits a condition into its tokens.
pub fn tokenize(input: &str) -> (tokens: Result<Vec<Tok>, ConditionError>)
    ensures
        match tokens {
            Ok(tokens) => tokens_from(input@, 0) == Ok::<Seq<Token>, Fault>(token_views(tokens@)),
            Err(e) => tokens_from(input@, 0) == Err::<Seq<Token>, Fault>(e@),
        },
{
    let chars = chars_of(input);
    let mut tokens: Vec<Tok> = Vec::new();
    let mut i: usize = 0;
    assert(then_tokens(token_views(tokens@), tokens_from(input@, 0)) == tokens_from(input@, 0)) by {
        if let Ok(t) = tokens_from(input@, 0) {
            assert(token_views(tokens@) + t =~= t);
        }
    }
    while i < chars.len()
        invariant
            chars@ == input@,
            i <= chars@.len(),
            tokens_from(input@, 0) == then_tokens(
                token_views(tokens@),
                tokens_from(input@, i as int),
            ),
        decreases chars@.len() - i,
    {
        proof {
            lemma_ends(input@, i as int);
            lemma_ends(input@, i + 1);
        }
        match next_lexeme(&chars, i) {
            Scanned::Blank => {
                i += 1;
            },
            Scanned::Token(tok, end) => {
                let ghost before = token_views(tokens@);
                let ghost rest = tokens_from(input@, end as int);
                tokens.push(tok);
                proof {
                    assert(token_views(tokens@) =~= before.push(tok@));
                    if let Ok(t) = rest {
                        assert(before + (seq![tok@] + t) =~= before.push(tok@) + t);
                    }
                }
                i = end;
            },
            Scanned::Fault(e) => {
                return Err(e);
            },
        }
    }
    let ghost before = token_views(tokens@);
    tokens.push(Tok::Eof);
    assert(token_views(tokens@) =~= before + seq![Token::Eof]);
    Ok(tokens)
}

/// A condition.
#[derive(Debug)]
pub enum Expr {
    /// A field of the arguments, taken as text, matches a pattern.
    ArgumentFieldMatches { field: String, re: Regex },
    /// The arguments, printed as JSON, match a pattern.
    ArgumentsContainPattern { re: Regex },
    /// The hour of the day, in UTC, compares so to a number.
    TimeHour { op: CmpOp, value: u32 },
    And(Box<Expr>, Box<Expr>),
    Or(Box<Expr>, Box<Expr>),
    Not(Box<Expr>),
}

/// What a condition says.
pub enum Form {
    FieldMatches { field: Seq<char>, re: Regex },
    ArgumentsMatch { re: Regex },
    Hour { op: CmpOp, value: u32 },
    And(Box<Form>, Box<Form>),
    Or(Box<Form>, Box<Form>),
    Not(Box<Form>),
}

impl Expr {
    /// What the condition says.
    pub open spec fn form(self) -> Form
        decreases self,
    {
        match self {
            Expr::ArgumentFieldMatches { field, re } => Form::FieldMatches { field: field@, re },
            Expr::ArgumentsContainPattern { re } => Form::ArgumentsMatch { re },
            Expr::TimeHour { op, value } => Form::Hour { op, value },
            Expr::And(a, b) => Form::And(Box::new(a.form()), Box::new(b.form())),
            Expr::Or(a, b) => Form::Or(Box::new(a.form()), Box::new(b.form())),
            Expr::Not(e) => Form::Not(Box::new(e.form())),
        }
    }
}

impl View for Expr {
    type V = Form;

    open spec fn view(&self) -> Form {
        self.form()
    }
}

/// The token at place `p`; past the end, the end mark.
pub open spec fn token_at(ts: Seq<Token>, p: int) -> Token {
    if 0 <= p < ts.len() {
        ts[p]
    } else {
        Token::Eof
    }
}

/// A part of a condition, and the place after it; or why there is none.
pub type Parsed = Result<(Form, int), Fault>;

/// A condition at place `p`: parts joined by `or`, grouped from the left.
pub open spec fn or_at(ts: Seq<Token>, p: int) -> Parsed
    decreases ts.len() - p, 4int,
{
    match and_at(ts, p) {
        Ok((left, q)) => if p < q <= ts.len() {
            or_rest(ts, left, q)
        } else {
            Ok((left, q))
        },
        Err(fault) => Err(fault),
    }
}

/// What follows the part `left` of a condition, which ends at `p`.
pub open spec fn or_rest(ts: Seq<Token>, left: Form, p: int) -> Parsed
    decreases ts.len() - p, 5int,
{
    if token_at(ts, p) == Token::Kw(Kw::Or) {
        match and_at(ts, p + 1) {
            Ok((right, q)) => if p < q <= ts.len() {
                or_rest(ts, Form::Or(Box::new(left), Box::new(right)), q)
            } else {
                Ok((left, p))
            },
            Err(fault) => Err(fault),
        }
    } else {
        Ok((left, p))
    }
}

/// Parts joined by `and`, grouped from the left.
pub open spec fn and_at(ts: Seq<Token>, p: int) -> Parsed
    decreases ts.len() - p, 3int,
{
    match not_at(ts, p) {
        Ok((left, q)) => if p < q <= ts.len() {
            and_rest(ts, left, q)
        } else {
            Ok((left, q))
        },
        Err(fault) => Err(fault),
    }
}

/// What follows the part `left` of such a row, which ends at `p`.
pub open spec fn and_rest(ts: Seq<Token>, left: Form, p: int) -> Parsed
    decreases ts.len() - p, 4int,
{
    if token_at(ts, p) == Token::Kw(Kw::And) {
        match not_at(ts, p + 1) {
            Ok((right, q)) => if p < q <= ts.len() {
                and_rest(ts, Form::And(Box::new(left), Box::new(right)), q)
            } else {
                Ok((left, p))
            },
            Err(fault) => Err(fault),
        }
    } else {
        Ok((left, p))
    }
}

/// A part with any number of `not` in front.
pub open spec fn not_at(ts: Seq<Token>, p: int) -> Parsed
    decreases ts.len() - p, 2int,
{
    if token_at(ts, p) == Token::Kw(Kw::Not) {
        match not_at(ts, p + 1) {
            Ok((inner, q)) => Ok((Form::Not(Box::new(inner)), q)),
            Err(fault) => Err(fault),
        }
    } else {
        primary_at(ts, p)
    }
}

/// A condition in parentheses, or an atom.
pub open spec fn primary_at(ts: Seq<Token>, p: int) -> Parsed
    decreases ts.len() - p, 1int,
{
    if token_at(ts, p) == Token::LParen {
        match or_at(ts, p + 1) {
            Ok((inner, q)) => if token_at(ts, q) == Token::RParen {
                Ok((inner, q + 1))
            } else {
                Err(Fault::ExpectedClosingParen)
            },
            Err(fault) => Err(fault),
        }
    } else {
        atom_at(ts, p)
    }
}

/// A comparison of the arguments or of the hour.
pub open spec fn atom_at(ts: Seq<Token>, p: int) -> Parsed {
    match token_at(ts, p) {
        Token::Kw(Kw::Arguments) => match token_at(ts, p + 1) {
            Token::Dot => match token_at(ts, p + 2) {
                Token::Ident(field) => if token_at(ts, p + 3) != Token::Kw(Kw::Matches) {
                    Err(Fault::ExpectedMatches)
                } else {
                    match token_at(ts, p + 4) {
                        Token::Str(pattern) => match regex_compiled(pattern) {
                            Ok(re) => Ok((Form::FieldMatches { field, re }, p + 5)),
                            Err(reason) => Err(Fault::InvalidRegex { pattern, reason }),
                        },
                        got => Err(Fault::ExpectedPatternAfterMatches { got }),
                    }
                },
                got => Err(Fault::ExpectedFieldName { got }),
            },
            Token::Kw(Kw::ContainsPattern) => match token_at(ts, p + 2) {
                Token::Str(pattern) => match regex_compiled(pattern) {
                    Ok(re) => Ok((Form::ArgumentsMatch { re }, p + 3)),
                    Err(reason) => Err(Fault::InvalidRegex { pattern, reason }),
                },
                got => Err(Fault::ExpectedPatternAfterContains { got }),
            },
            got => Err(Fault::ExpectedDotOrContains { got }),
        },
        Token::Kw(Kw::Time) => if token_at(ts, p + 1) != Token::Dot {
            Err(Fault::ExpectedDotAfterTime)
        } else if token_at(ts, p + 2) != Token::Kw(Kw::Hour) {
            Err(Fault::ExpectedHour)
        } else {
            match token_at(ts, p + 3) {
                Token::Cmp(op) => match token_at(ts, p + 4) {
                    Token::Num(value) => Ok((Form::Hour { op, value }, p + 5)),
                    got => Err(Fault::ExpectedInteger { got }),
                },
                got => Err(Fault::ExpectedOperator { got }),
            }
        },
        got => Err(Fault::UnexpectedToken { got }),
    }
}

/// The condition that tokens, the end mark last, stand for.
pub open spec fn condition_of(ts: Seq<Token>) -> Result<Form, Fault> {
    match or_at(ts, 0) {
        Ok((form, p)) => if token_at(ts, p) == Token::Eof {
            Ok(form)
        } else {
            Err(Fault::TrailingTokens)
        },
        Err(fault) => Err(fault),
    }
}

/// The condition that a text stands for.
pub open spec fn meaning(input: Seq<char>) -> Result<Form, Fault> {
    match tokens_from(input, 0) {
        Ok(ts) => condition_of(ts),
        Err(fault) => Err(fault),
    }
}

/// Reads tokens from front to back.
struct Parser {
    tokens: Vec<Tok>,
    pos: usize,
}

/// What is begun in a condition and waits for its next part to end.
enum Open {
    /// A row of parts joined by `or` that begins at this place.
    OrFirst { at: usize },
    /// Such a row so far, and the place of the `or` after it.
    OrNext { left: Expr, at: usize },
    /// A row of parts joined by `and` that begins at this place.
    AndFirst { at: usize },
    /// Such a row so far, and the place of the `and` after it.
    AndNext { left: Expr, at: usize },
    Not,
    Paren,
}

/// What is begun, and what it says so far.
enum Opened {
    OrFirst { at: int },
    OrNext { left: Form, at: int },
    AndFirst { at: int },
    AndNext { left: Form, at: int },
    Not,
    Paren,
}

impl Open {
    spec fn view(&self) -> Opened {
        match self {
            Open::OrFirst { at } => Opened::OrFirst { at: *at as int },
            Open::OrNext { left, at } => Opened::OrNext { left: left@, at: *at as int },
            Open::AndFirst { at } => Opened::AndFirst { at: *at as int },
            Open::AndNext { left, at } => Opened::AndNext { left: left@, at: *at as int },
            Open::Not => Opened::Not,
            Open::Paren => Opened::Paren,
        }
    }

    /// The place that it keeps, if it keeps one.
    spec fn place(self) -> int {
        match self {
            Open::OrFirst { at } => at as int,
            Open::OrNext { left, at } => at as int,
            Open::AndFirst { at } => at as int,
            Open::AndNext { left, at } => at as int,
            Open::Not => 0,
            Open::Paren => 0,
        }
    }
}

/// What things that are begun say so far.
spec fn open_views(open: Seq<Open>) -> Seq<Opened> {
    Seq::new(open.len(), |i: int| open[i]@)
}

/// What becomes of something begun when its next part is this.
spec fn closed_by(ts: Seq<Token>, open: Opened, got: Parsed) -> Parsed {
    match got {
        Err(fault) => Err(fault),
        Ok((form, q)) => match open {
            Opened::OrFirst { at } => if at < q <= ts.len() {
                or_rest(ts, form, q)
            } else {
                Ok((form, q))
            },
            Opened::OrNext { left, at } => if at < q <= ts.len() {
                or_rest(ts, Form::Or(Box::new(left), Box::new(form)), q)
            } else {
                Ok((left, at))
            },
            Opened::AndFirst { at } => if at < q <= ts.len() {
                and_rest(ts, form, q)
            } else {
                Ok((form, q))
            },
            Opened::AndNext { left, at } => if at < q <= ts.len() {
                and_rest(ts, Form::And(Box::new(left), Box::new(form)), q)
            } else {
                Ok((left, at))
            },
            Opened::Not => Ok((Form::Not(Box::new(form)), q)),
            Opened::Paren => if token_at(ts, q) == Token::RParen {
                Ok((form, q + 1))
            } else {
                Err(Fault::ExpectedClosingParen)
            },
        },
    }
}

/// What becomes of all that is begun, the last first, when its next part is this.
spec fn closed_over(ts: Seq<Token>, open: Seq<Opened>, got: Parsed) -> Parsed
    decreases open.len(),
{
    if open.len() == 0 {
        got
    } else {
        closed_over(ts, open.drop_last(), closed_by(ts, open.last(), got))
    }
}

/// A fault ends all that is begun.
proof fn lemma_fault_ends_all(ts: Seq<Token>, open: Seq<Opened>, fault: Fault)
    ensures
        closed_over(ts, open, Err(fault)) == Err::<(Form, int), Fault>(fault),
    decreases open.len(),
{
    if open.len() > 0 {
        lemma_fault_ends_all(ts, open.drop_last(), fault);
    }
}

/// What comes next.
enum Want {
    Or,
    And,
    Not,
}

/// How far reading has come: something comes next, or a part has just ended.
enum State {
    Wants(Want),
    Has(Expr),
}

impl State {
    /// The part that comes next, or that has just ended, where reading is at `p`.
    spec fn gives(self, ts: Seq<Token>, p: int) -> Parsed {
        match self {
            State::Wants(Want::Or) => or_at(ts, p),
            State::Wants(Want::And) => and_at(ts, p),
            State::Wants(Want::Not) => not_at(ts, p),
            State::Has(e) => Ok((e@, p)),
        }
    }

    /// How many steps there are at most before a token is read, where so many things
    /// are begun.
    spec fn rank(self, open: nat) -> nat {
        match self {
            State::Wants(Want::Or) => 2,
            State::Wants(Want::And) => 1,
            State::Wants(Want::Not) => 0,
            State::Has(_) => open,
        }
    }
}

/// The outcome of a parsing step is the one that the grammar gives.
spec fn agrees(before: Parser, after: Parser, got: Result<Expr, ConditionError>, want: Parsed) -> bool {
    &&& after.tokens == before.tokens
    &&& match (got, want) {
        (Ok(e), Ok((form, p))) => e@ == form && after.pos == p && before.pos < p <= after.tokens@.len(),
        (Err(e), Err(fault)) => e@ == fault,
        _ => false,
    }
}

impl Parser {
    spec fn view(&self) -> Seq<Token> {
        token_views(self.tokens@)
    }

    /// The token to read next.
    fn peek(&self) -> (tok: Tok)
        ensures
            tok@ == token_at(self@, self.pos as int),
    {
        if self.pos < self.tokens.len() {
            self.tokens[self.pos].clone()
        } else {
            Tok::Eof
        }
    }

    /// Reads a token.
    fn advance(&mut self) -> (tok: Tok)
        ensures
            final(self).tokens == old(self).tokens,
            tok@ == token_at(old(self)@, old(self).pos as int),
            old(self).pos < old(self)@.len() ==> final(self).pos == old(self).pos + 1,
            old(self).pos >= old(self)@.len() ==> final(self).pos == old(self).pos,
    {
        let tok = self.peek();
        if self.pos < self.tokens.len() {
            self.pos = self.pos + 1;
        }
        tok
    }

    /// Reads a condition. What is begun and not yet ended waits in a list, so that
    /// a condition may nest as deep as memory allows.
    fn parse_or(&mut self) -> (expr: Result<Expr, ConditionError>)
        ensures
            agrees(*old(self), *final(self), expr, or_at(old(self)@, old(self).pos as int)),
    {
        let ghost ts = self@;
        let ghost start = self.pos;
        let ghost want = or_at(ts, start as int);
        let mut open: Vec<Open> = Vec::new();
        let mut state = State::Wants(Want::Or);
        assert(open_views(open@) =~= Seq::empty());
        loop
            invariant
                self.tokens == old(self).tokens,
                ts == old(self)@,
                start == old(self).pos,
                start <= self.pos,
                state is Has ==> start < self.pos <= ts.len(),
                forall|i: int| 0 <= i < open@.len() ==> (#[trigger] open@[i]).place() <= self.pos,
                forall|i: int|
                    0 <= i < open@.len() && state is Has ==> (#[trigger] open@[i]).place()
                        < self.pos,
                want == closed_over(ts, open_views(open@), state.gives(ts, self.pos as int)),
                want == or_at(ts, start as int),
            decreases
                    if self.pos <= ts.len() {
                        ts.len() - self.pos
                    } else {
                        0
                    },
                    state.rank(open@.len()),
        {
            let ghost before = open_views(open@);
            let ghost at = self.pos as int;
            match state {
                State::Wants(Want::Or) => {
                    open.push(Open::OrFirst { at: self.pos });
                    assert(open_views(open@) =~= before.push(Opened::OrFirst { at }));
                    assert(open_views(open@).drop_last() =~= before);
                    state = State::Wants(Want::And);
                },
                State::Wants(Want::And) => {
                    open.push(Open::AndFirst { at: self.pos });
                    assert(open_views(open@) =~= before.push(Opened::AndFirst { at }));
                    assert(open_views(open@).drop_last() =~= before);
                    state = State::Wants(Want::Not);
                },
                State::Wants(Want::Not) => match self.peek() {
                    Tok::Kw(Kw::Not) => {
                        let _ = self.advance();
                        open.push(Open::Not);
                        assert(open_views(open@) =~= before.push(Opened::Not));
                        assert(open_views(open@).drop_last() =~= before);
                        state = State::Wants(Want::Not);
                    },
                    Tok::LParen => {
                        let _ = self.advance();
                        open.push(Open::Paren);
                        assert(open_views(open@) =~= before.push(Opened::Paren));
                        assert(open_views(open@).drop_last() =~= before);
                        state = State::Wants(Want::Or);
                    },
                    _ => match self.parse_atom() {
                        Ok(e) => {
                            state = State::Has(e);
                        },
                        Err(e) => {
                            proof {
                                lemma_fault_ends_all(ts, before, e@);
                            }
                            return Err(e);
                        },
                    },
                },
                State::Has(e) => {
                    let top = match open.pop() {
                        Some(top) => top,
                        None => {
                            return Ok(e);
                        },
                    };
                    let ghost rest = open_views(open@);
                    assert(rest =~= before.drop_last());
                    assert(before.last() == top@);
                    match top {
                        Open::Not => {
                            state = State::Has(Expr::Not(Box::new(e)));
                        },
                        Open::Paren => {
                            if !matches!(self.advance(), Tok::RParen) {
                                proof {
                                    lemma_fault_ends_all(ts, rest, Fault::ExpectedClosingParen);
                                }
                                return Err(ConditionError::ExpectedClosingParen);
                            }
                            state = State::Has(e);
                        },
                        Open::AndFirst { .. } | Open::AndNext { .. } => {
                            let left = match top {
                                Open::AndNext { left, .. } => Expr::And(
                                    Box::new(left),
                                    Box::new(e),
                                ),
                                _ => e,
                            };
                            if matches!(self.peek(), Tok::Kw(Kw::And)) {
                                let ghost form = left@;
                                open.push(Open::AndNext { left, at: self.pos });
                                let _ = self.advance();
                                assert(open_views(open@) =~= rest.push(
                                    Opened::AndNext { left: form, at },
                                ));
                                assert(open_views(open@).drop_last() =~= rest);
                                state = State::Wants(Want::Not);
                            } else {
                                state = State::Has(left);
                            }
                        },
                        Open::OrFirst { .. } | Open::OrNext { .. } => {
                            let left = match top {
                                Open::OrNext { left, .. } => Expr::Or(Box::new(left), Box::new(e)),
                                _ => e,
                            };
                            if matches!(self.peek(), Tok::Kw(Kw::Or)) {
                                let ghost form = left@;
                                open.push(Open::OrNext { left, at: self.pos });
                                let _ = self.advance();
                                assert(open_views(open@) =~= rest.push(
                                    Opened::OrNext { left: form, at },
                                ));
                                assert(open_views(open@).drop_last() =~= rest);
                                state = State::Wants(Want::And);
                            } else {
                                state = State::Has(left);
                            }
                        },
                    }
                },
            }
        }
    }

    fn parse_atom(&mut self) -> (expr: Result<Expr, ConditionError>)
        ensures
            agrees(*old(self), *final(self), expr, atom_at(old(self)@, old(self).pos as int)),
    {
        match self.advance() {
            Tok::Kw(Kw::Arguments) => {
                match self.advance() {
                    Tok::Dot => {
                        let field = match self.advance() {
                            Tok::Ident(s) => s,
                            got => {
                                return Err(ConditionError::ExpectedFieldName { got });
                            },
                        };
                        if !matches!(self.advance(), Tok::Kw(Kw::Matches)) {
                            return Err(ConditionError::ExpectedMatches);
                        }
                        let pattern = match self.advance() {
                            Tok::Str(s) => s,
                            got => {
                                return Err(ConditionError::ExpectedPatternAfterMatches { got });
                            },
                        };
                        match compile(pattern.as_str()) {
                            Ok(re) => Ok(Expr::ArgumentFieldMatches { field, re }),
                            Err(reason) => Err(ConditionError::InvalidRegex { pattern, reason }),
                        }
                    },
                    Tok::Kw(Kw::ContainsPattern) => {
                        let pattern = match self.advance() {
                            Tok::Str(s) => s,
                            got => {
                                return Err(ConditionError::ExpectedPatternAfterContains { got });
                            },
                        };
                        match compile(pattern.as_str()) {
                            Ok(re) => Ok(Expr::ArgumentsContainPattern { re }),
                            Err(reason) => Err(ConditionError::InvalidRegex { pattern, reason }),
                        }
                    },
                    got => Err(ConditionError::ExpectedDotOrContains { got }),
                }
            },
            Tok::Kw(Kw::Time) => {
                if !matches!(self.advance(), Tok::Dot) {
                    return Err(ConditionError::ExpectedDotAfterTime);
                }
                if !matches!(self.advance(), Tok::Kw(Kw::Hour)) {
                    return Err(ConditionError::ExpectedHour);
                }
                let op = match self.advance() {
                    Tok::Cmp(op) => op,
                    got => {
                        return Err(ConditionError::ExpectedOperator { got });
                    },
                };
                let value: u32 = match self.advance() {
                    Tok::Num(n) => n,
                    got => {
                        return Err(ConditionError::ExpectedInteger { got });
                    },
                };
                Ok(Expr::TimeHour { op, value })
            },
            got => Err(ConditionError::UnexpectedToken { got }),
        }
    }
}

/// What a condition is judged on.
pub struct EvalCtx<'a> {
    /// The arguments of the call.
    pub arguments: Option<&'a Json>,
    /// The hour of the day, in UTC.
    pub hour: u32,
}

/// The comparison holds between an hour and a number.
pub open spec fn compares(op: CmpOp, hour: u32, value: u32) -> bool {
    match op {
        CmpOp::Lt => hour < value,
        CmpOp::Gt => hour > value,
        CmpOp::Le => hour <= value,
        CmpOp::Ge => hour >= value,
        CmpOp::Eq => hour == value,
    }
}

/// The text of an argument field; the empty text where there is no such text.
pub open spec fn field_text(arguments: Option<Doc>, field: Seq<char>) -> Seq<char> {
    match arguments {
        Some(d) => match d.member(field) {
            Some(v) => match v.text() {
                Some(s) => s,
                None => Seq::empty(),
            },
            None => Seq::empty(),
        },
        None => Seq::empty(),
    }
}

/// The arguments as JSON text; the empty text where there are none.
pub open spec fn arguments_text(arguments: Option<Doc>) -> Seq<char> {
    match arguments {
        Some(d) => json_text(d),
        None => Seq::empty(),
    }
}

/// The condition holds for these arguments at this hour.
pub open spec fn holds(form: Form, arguments: Option<Doc>, hour: u32) -> bool
    decreases form,
{
    match form {
        Form::FieldMatches { field, re } => regex_matches(re, field_text(arguments, field)),
        Form::ArgumentsMatch { re } => regex_matches(re, arguments_text(arguments)),
        Form::Hour { op, value } => compares(op, hour, value),
        Form::And(a, b) => holds(*a, arguments, hour) && holds(*b, arguments, hour),
        Form::Or(a, b) => holds(*a, arguments, hour) || holds(*b, arguments, hour),
        Form::Not(e) => !holds(*e, arguments, hour),
    }
}

/// What optional arguments say.
pub open spec fn doc_of(arguments: Option<&Json>) -> Option<Doc> {
    match arguments {
        Some(j) => Some(j@),
        None => None,
    }
}

impl Expr {
    /// Reads a condition.
    pub fn parse(input: &str) -> (expr: Result<Expr, ConditionError>)
        ensures
            match expr {
                Ok(e) => meaning(input@) == Ok::<Form, Fault>(e@),
                Err(e) => meaning(input@) == Err::<Form, Fault>(e@),
            },
    {
        let tokens = match tokenize(input) {
            Ok(tokens) => tokens,
            Err(e) => {
                return Err(e);
            },
        };
        let mut parser = Parser { tokens, pos: 0 };
        let expr = match parser.parse_or() {
            Ok(e) => e,
            Err(e) => {
                return Err(e);
            },
        };
        if !matches!(parser.peek(), Tok::Eof) {
            return Err(ConditionError::TrailingTokens);
        }
        Ok(expr)
    }

    /// Whether the condition holds. What waits for the answer of a part is kept in a
    /// list, so that a condition may nest as deep as memory allows.
    pub fn evaluate(&self, ctx: &EvalCtx) -> (r: bool)
        ensures
            r == holds(self@, doc_of(ctx.arguments), ctx.hour),
            match self {
                Expr::TimeHour { op: CmpOp::Lt, value } => r <==> ctx.hour < *value,
                Expr::TimeHour { op: CmpOp::Gt, value } => r <==> ctx.hour > *value,
                Expr::TimeHour { op: CmpOp::Le, value } => r <==> ctx.hour <= *value,
                Expr::TimeHour { op: CmpOp::Ge, value } => r <==> ctx.hour >= *value,
                Expr::TimeHour { op: CmpOp::Eq, value } => r <==> ctx.hour == *value,
                _ => true,
            },
    {
        let ghost arguments = doc_of(ctx.arguments);
        let ghost hour = ctx.hour;
        let mut waiting: Vec<Waiting> = Vec::new();
        let mut asked: Option<&Expr> = Some(self);
        let mut answer = false;
        loop
            invariant
                arguments == doc_of(ctx.arguments),
                hour == ctx.hour,
                holds(self@, arguments, hour) == answered_by(
                    waiting@,
                    match asked {
                        Some(e) => holds(e@, arguments, hour),
                        None => answer,
                    },
                    arguments,
                    hour,
                ),
            decreases
                    waiting_weight(waiting@) + match asked {
                        Some(e) => weight(e@),
                        None => 0,
                    },
        {
            let ghost before = waiting@;
            match asked {
                Some(Expr::And(a, b)) => {
                    waiting.push(Waiting::And(&**b));
                    assert(waiting@.drop_last() =~= before);
                    asked = Some(&**a);
                },
                Some(Expr::Or(a, b)) => {
                    waiting.push(Waiting::Or(&**b));
                    assert(waiting@.drop_last() =~= before);
                    asked = Some(&**a);
                },
                Some(Expr::Not(e)) => {
                    waiting.push(Waiting::Not);
                    assert(waiting@.drop_last() =~= before);
                    asked = Some(&**e);
                },
                Some(atom) => {
                    answer = atom.evaluate_atom(ctx);
                    asked = None;
                },
                None => {
                    let top = match waiting.pop() {
                        Some(top) => top,
                        None => {
                            return answer;
                        },
                    };
                    assert(waiting@ =~= before.drop_last());
                    match top {
                        Waiting::And(b) => {
                            if answer {
                                asked = Some(b);
                            }
                        },
                        Waiting::Or(b) => {
                            if !answer {
                                asked = Some(b);
                            }
                        },
                        Waiting::Not => {
                            answer = !answer;
                        },
                    }
                },
            }
        }
    }

    /// Whether a comparison holds.
    fn evaluate_atom(&self, ctx: &EvalCtx) -> (r: bool)
        requires
            !(self is And) && !(self is Or) && !(self is Not),
        ensures
            r == holds(self@, doc_of(ctx.arguments), ctx.hour),
    {
        match self {
            Expr::ArgumentFieldMatches { field, re } => {
                let text = match ctx.arguments {
                    Some(arguments) => match arguments.get(field.as_str()) {
                        Some(v) => match v.as_str() {
                            Some(s) => s.to_owned(),
                            None => String::new(),
                        },
                        None => String::new(),
                    },
                    None => String::new(),
                };
                re.is_match(text.as_str())
            },
            Expr::ArgumentsContainPattern { re } => {
                let text = match ctx.arguments {
                    Some(arguments) => arguments.to_text(),
                    None => String::new(),
                };
                re.is_match(text.as_str())
            },
            Expr::TimeHour { op, value } => match op {
                CmpOp::Lt => ctx.hour < *value,
                CmpOp::Gt => ctx.hour > *value,
                CmpOp::Le => ctx.hour <= *value,
                CmpOp::Ge => ctx.hour >= *value,
                CmpOp::Eq => ctx.hour == *value,
            },
            _ => false,
        }
    }
}

/// How much of a condition there is to go through.
spec fn weight(form: Form) -> nat
    decreases form,
{
    match form {
        Form::And(a, b) => weight(*a) + weight(*b) + 3,
        Form::Or(a, b) => weight(*a) + weight(*b) + 3,
        Form::Not(e) => weight(*e) + 2,
        _ => 1,
    }
}

/// What waits for the answer of a part: another part to join with it, or a `not`.
enum Waiting<'a> {
    And(&'a Expr),
    Or(&'a Expr),
    Not,
}

/// How much there is to go through of what waits.
spec fn waiting_weight(waiting: Seq<Waiting>) -> nat
    decreases waiting.len(),
{
    if waiting.len() == 0 {
        0
    } else {
        waiting_weight(waiting.drop_last()) + match waiting.last() {
            Waiting::And(e) => weight(e@) + 1,
            Waiting::Or(e) => weight(e@) + 1,
            Waiting::Not => 1,
        }
    }
}

/// The answer of what waits, the last first, when that of the part is this.
spec fn answered_by(
    waiting: Seq<Waiting>,
    answer: bool,
    arguments: Option<Doc>,
    hour: u32,
) -> bool
    decreases waiting.len(),
{
    if waiting.len() == 0 {
        answer
    } else {
        answered_by(
            waiting.drop_last(),
            match waiting.last() {
                Waiting::And(e) => answer && holds(e@, arguments, hour),
                Waiting::Or(e) => answer || holds(e@, arguments, hour),
                Waiting::Not => !answer,
            },
            arguments,
            hour,
        )
    }
}

/// What is left to copy around a part: the part after it, or the copy of the one
/// before it.
enum Copying<'a> {
    AndFirst(&'a Expr),
    AndNext(Expr),
    OrFirst(&'a Expr),
    OrNext(Expr),
    Not,
}

/// How much there is left to copy.
spec fn copying_weight(copying: Seq<Copying>) -> nat
    decreases copying.len(),
{
    if copying.len() == 0 {
        0
    } else {
        copying_weight(copying.drop_last()) + match copying.last() {
            Copying::AndFirst(e) => weight(e@) + 2,
            Copying::OrFirst(e) => weight(e@) + 2,
            _ => 1,
        }
    }
}

/// The condition that is copied, where this is the part.
spec fn whole(copying: Seq<Copying>, part: Form) -> Form
    decreases copying.len(),
{
    if copying.len() == 0 {
        part
    } else {
        whole(
            copying.drop_last(),
            match copying.last() {
                Copying::AndFirst(b) => Form::And(Box::new(part), Box::new(b@)),
                Copying::AndNext(a) => Form::And(Box::new(a@), Box::new(part)),
                Copying::OrFirst(b) => Form::Or(Box::new(part), Box::new(b@)),
                Copying::OrNext(a) => Form::Or(Box::new(a@), Box::new(part)),
                Copying::Not => Form::Not(Box::new(part)),
            },
        )
    }
}

/// What is copied next, or the copy of the part that came last.
enum Part<'a> {
    Whole(&'a Expr),
    Copied(Expr),
}

impl Clone for Expr {
    fn clone(&self) -> (e: Expr)
        ensures
            e@ == self@,
    {
        let mut copying: Vec<Copying> = Vec::new();
        let mut copy = Part::Whole(self);
        loop
            invariant
                self@ == whole(
                    copying@,
                    match copy {
                        Part::Whole(e) => e@,
                        Part::Copied(e) => e@,
                    },
                ),
            decreases
                    copying_weight(copying@) + match copy {
                        Part::Whole(e) => weight(e@),
                        Part::Copied(_) => 0,
                    },
        {
            let ghost before = copying@;
            copy = match copy {
                Part::Whole(Expr::And(a, b)) => {
                    copying.push(Copying::AndFirst(&**b));
                    assert(copying@.drop_last() =~= before);
                    Part::Whole(&**a)
                },
                Part::Whole(Expr::Or(a, b)) => {
                    copying.push(Copying::OrFirst(&**b));
                    assert(copying@.drop_last() =~= before);
                    Part::Whole(&**a)
                },
                Part::Whole(Expr::Not(e)) => {
                    copying.push(Copying::Not);
                    assert(copying@.drop_last() =~= before);
                    Part::Whole(&**e)
                },
                Part::Whole(Expr::ArgumentFieldMatches { field, re }) => Part::Copied(
                    Expr::ArgumentFieldMatches { field: field.clone(), re: re.clone() },
                ),
                Part::Whole(Expr::ArgumentsContainPattern { re }) => Part::Copied(
                    Expr::ArgumentsContainPattern { re: re.clone() },
                ),
                Part::Whole(Expr::TimeHour { op, value }) => Part::Copied(
                    Expr::TimeHour { op: *op, value: *value },
                ),
                Part::Copied(e) => {
                    let top = match copying.pop() {
                        Some(top) => top,
                        None => {
                            return e;
                        },
                    };
                    let ghost rest = copying@;
                    assert(rest =~= before.drop_last());
                    match top {
                        Copying::AndFirst(b) => {
                            copying.push(Copying::AndNext(e));
                            assert(copying@.drop_last() =~= rest);
                            Part::Whole(b)
                        },
                        Copying::OrFirst(b) => {
                            copying.push(Copying::OrNext(e));
                            assert(copying@.drop_last() =~= rest);
                            Part::Whole(b)
                        },
                        Copying::AndNext(a) => Part::Copied(Expr::And(Box::new(a), Box::new(e))),
                        Copying::OrNext(a) => Part::Copied(Expr::Or(Box::new(a), Box::new(e))),
                        Copying::Not => Part::Copied(Expr::Not(Box::new(e))),
                    }
                },
            };
        }
    }
}

} // verus!
