//! What the author of a condition is told of what is wrong with it.
use vstd::prelude::*;

use super::condition::{CmpOp, ConditionError, Fault, Kw, Tok, Token};
use crate::text::{decimal, decimal_text, quoted, quoted_text};

verus! {

/// What a keyword is called.
pub open spec fn keyword_name(k: Kw) -> Seq<char> {
    match k {
        Kw::Arguments => "Arguments"@,
        Kw::Time => "Time"@,
        Kw::Hour => "Hour"@,
        Kw::Matches => "Matches"@,
        Kw::ContainsPattern => "ContainsPattern"@,
        Kw::Or => "Or"@,
        Kw::And => "And"@,
        Kw::Not => "Not"@,
    }
}

/// What a comparison is called.
pub open spec fn operator_name(op: CmpOp) -> Seq<char> {
    match op {
        CmpOp::Lt => "Lt"@,
        CmpOp::Gt => "Gt"@,
        CmpOp::Le => "Le"@,
        CmpOp::Ge => "Ge"@,
        CmpOp::Eq => "Eq"@,
    }
}

/// A token as it is shown.
pub open spec fn shown(t: Token) -> Seq<char> {
    match t {
        Token::Kw(k) => "Kw("@ + keyword_name(k) + ")"@,
        Token::Ident(s) => "Ident("@ + quoted_text(s) + ")"@,
        Token::Str(s) => "Str("@ + quoted_text(s) + ")"@,
        Token::Num(n) => "Num("@ + decimal(n as nat) + ")"@,
        Token::Dot => "Dot"@,
        Token::Cmp(op) => "Cmp("@ + operator_name(op) + ")"@,
        Token::LParen => "LParen"@,
        Token::RParen => "RParen"@,
        Token::Eof => "Eof"@,
    }
}

/// What is told of a fault.
pub open spec fn fault_text(fault: Fault) -> Seq<char> {
    match fault {
        Fault::ExpectedDoubleEquals { position } => "Expected '==' at position "@
            + decimal(position as nat),
        Fault::UnterminatedString => "Unterminated string literal in condition"@,
        Fault::NumberTooLarge => "number too large to fit in target type"@,
        Fault::UnexpectedCharacter { character, position } => "Unexpected character '"@
            + seq![character] + "' at position "@ + decimal(position as nat),
        Fault::TrailingTokens => "Unexpected trailing tokens in condition"@,
        Fault::ExpectedClosingParen => "Expected closing ')'"@,
        Fault::ExpectedFieldName { got } => "Expected field name after 'arguments.', got "@
            + shown(got),
        Fault::ExpectedMatches => "Expected 'matches' after field path"@,
        Fault::ExpectedPatternAfterMatches { got } => "Expected quoted pattern after 'matches', got "@
            + shown(got),
        Fault::ExpectedPatternAfterContains { got } => "Expected quoted pattern after 'contains_pattern', got "@
            + shown(got),
        Fault::InvalidRegex { pattern, reason } => "Invalid regex '"@ + pattern + "': "@ + reason,
        Fault::ExpectedDotOrContains { got } => "Expected '.' or 'contains_pattern' after 'arguments', got "@
            + shown(got),
        Fault::ExpectedDotAfterTime => "Expected '.' after 'time'"@,
        Fault::ExpectedHour => "Expected 'hour' after 'time.'"@,
        Fault::ExpectedOperator { got } => "Expected comparison operator after 'time.hour', got "@
            + shown(got),
        Fault::ExpectedInteger { got } => "Expected integer after operator, got "@ + shown(got),
        Fault::UnexpectedToken { got } => "Unexpected token in condition expression: "@
            + shown(got),
    }
}

/// What a keyword is called.
fn name_of_keyword(k: Kw) -> (s: &'static str)
    ensures
        s@ == keyword_name(k),
{
    match k {
        Kw::Arguments => "Arguments",
        Kw::Time => "Time",
        Kw::Hour => "Hour",
        Kw::Matches => "Matches",
        Kw::ContainsPattern => "ContainsPattern",
        Kw::Or => "Or",
        Kw::And => "And",
        Kw::Not => "Not",
    }
}

/// What a comparison is called.
fn name_of_operator(op: CmpOp) -> (s: &'static str)
    ensures
        s@ == operator_name(op),
{
    match op {
        CmpOp::Lt => "Lt",
        CmpOp::Gt => "Gt",
        CmpOp::Le => "Le",
        CmpOp::Ge => "Ge",
        CmpOp::Eq => "Eq",
    }
}

/// A text in parentheses behind a name that ends in the first of them.
fn wrapped(front: &str, inner: &str) -> (text: String)
    ensures
        text@ == front@ + inner@ + ")"@,
{
    let mut text = front.to_owned();
    text.append(inner);
    text.append(")");
    text
}

impl Tok {
    /// The token as it is shown.
    pub fn shown(&self) -> (text: String)
        ensures
            text@ == shown(self@),
    {
        match self {
            Tok::Kw(k) => wrapped("Kw(", name_of_keyword(*k)),
            Tok::Ident(s) => wrapped("Ident(", quoted(s.as_str()).as_str()),
            Tok::Str(s) => wrapped("Str(", quoted(s.as_str()).as_str()),
            Tok::Num(n) => wrapped("Num(", decimal_text(*n as u64).as_str()),
            Tok::Dot => "Dot".to_owned(),
            Tok::Cmp(op) => wrapped("Cmp(", name_of_operator(*op)),
            Tok::LParen => "LParen".to_owned(),
            Tok::RParen => "RParen".to_owned(),
            Tok::Eof => "Eof".to_owned(),
        }
    }
}

impl ConditionError {
    /// What the author of the condition is told.
    pub fn message(&self) -> (text: String)
        ensures
            text@ == fault_text(self@),
    {
        let text = match self {
            ConditionError::ExpectedDoubleEquals { position } => {
                let mut text = "Expected '==' at position ".to_owned();
                text.append(decimal_text(*position as u64).as_str());
                text
            },
            ConditionError::UnterminatedString => "Unterminated string literal in condition".to_owned(),
            ConditionError::NumberTooLarge => "number too large to fit in target type".to_owned(),
            ConditionError::UnexpectedCharacter { character, position } => {
                let mut text = "Unexpected character '".to_owned();
                text.push(*character);
                text.append("' at position ");
                text.append(decimal_text(*position as u64).as_str());
                text
            },
            ConditionError::TrailingTokens => "Unexpected trailing tokens in condition".to_owned(),
            ConditionError::ExpectedClosingParen => "Expected closing ')'".to_owned(),
            ConditionError::ExpectedFieldName { got } => {
                let mut text = "Expected field name after 'arguments.', got ".to_owned();
                text.append(got.shown().as_str());
                text
            },
            ConditionError::ExpectedMatches => "Expected 'matches' after field path".to_owned(),
            ConditionError::ExpectedPatternAfterMatches { got } => {
                let mut text = "Expected quoted pattern after 'matches', got ".to_owned();
                text.append(got.shown().as_str());
                text
            },
            ConditionError::ExpectedPatternAfterContains { got } => {
                let mut text = "Expected quoted pattern after 'contains_pattern', got ".to_owned();
                text.append(got.shown().as_str());
                text
            },
            ConditionError::InvalidRegex { pattern, reason } => {
                let mut text = "Invalid regex '".to_owned();
                text.append(pattern.as_str());
                text.append("': ");
                text.append(reason.as_str());
                text
            },
            ConditionError::ExpectedDotOrContains { got } => {
                let mut text = "Expected '.' or 'contains_pattern' after 'arguments', got ".to_owned();
                text.append(got.shown().as_str());
                text
            },
            ConditionError::ExpectedDotAfterTime => "Expected '.' after 'time'".to_owned(),
            ConditionError::ExpectedHour => "Expected 'hour' after 'time.'".to_owned(),
            ConditionError::ExpectedOperator { got } => {
                let mut text = "Expected comparison operator after 'time.hour', got ".to_owned();
                text.append(got.shown().as_str());
                text
            },
            ConditionError::ExpectedInteger { got } => {
                let mut text = "Expected integer after operator, got ".to_owned();
                text.append(got.shown().as_str());
                text
            },
            ConditionError::UnexpectedToken { got } => {
                let mut text = "Unexpected token in condition expression: ".to_owned();
                text.append(got.shown().as_str());
                text
            },
        };
        assert(text@ =~= fault_text(self@));
        text
    }
}

/// The author of a condition is told what is wrong with it and, where something else
/// stands in its place, what that is.
pub proof fn law_faults_say_what_is_wrong(
    character: char,
    position: nat,
    got: Token,
    pattern: Seq<char>,
    reason: Seq<char>,
)
    ensures
        fault_text(Fault::ExpectedDoubleEquals { position: position as int })
            == "Expected '==' at position "@ + decimal(position),
        fault_text(Fault::UnexpectedCharacter { character, position: position as int })
            == "Unexpected character '"@ + seq![character] + "' at position "@ + decimal(position),
        fault_text(Fault::UnterminatedString) == "Unterminated string literal in condition"@,
        fault_text(Fault::NumberTooLarge) == "number too large to fit in target type"@,
        fault_text(Fault::TrailingTokens) == "Unexpected trailing tokens in condition"@,
        fault_text(Fault::ExpectedClosingParen) == "Expected closing ')'"@,
        fault_text(Fault::ExpectedMatches) == "Expected 'matches' after field path"@,
        fault_text(Fault::ExpectedDotAfterTime) == "Expected '.' after 'time'"@,
        fault_text(Fault::ExpectedHour) == "Expected 'hour' after 'time.'"@,
        fault_text(Fault::InvalidRegex { pattern, reason }) == "Invalid regex '"@ + pattern + "': "@
            + reason,
        fault_text(Fault::UnexpectedToken { got }) == "Unexpected token in condition expression: "@
            + shown(got),
        fault_text(Fault::ExpectedFieldName { got })
            == "Expected field name after 'arguments.', got "@ + shown(got),
        fault_text(Fault::ExpectedPatternAfterMatches { got })
            == "Expected quoted pattern after 'matches', got "@ + shown(got),
        fault_text(Fault::ExpectedPatternAfterContains { got })
            == "Expected quoted pattern after 'contains_pattern', got "@ + shown(got),
        fault_text(Fault::ExpectedDotOrContains { got })
            == "Expected '.' or 'contains_pattern' after 'arguments', got "@ + shown(got),
        fault_text(Fault::ExpectedOperator { got })
            == "Expected comparison operator after 'time.hour', got "@ + shown(got),
        fault_text(Fault::ExpectedInteger { got }) == "Expected integer after operator, got "@
            + shown(got),
{
}

} // verus!
