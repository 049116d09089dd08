use vstd::prelude::*;

verus! {

/// What the parser expected where it stopped.
#[derive(PartialEq, Eq, Structural, Clone, Copy, Debug)]
pub enum Rule {
    EOI,
    File,
    Fn,
    Ident,
    OpenParen,
    CloseParen,
    OpenBrace,
    CloseBrace,
    CloseAngle,
    Type,
    PrimaryExpression,
    Token,
}

/// A top-level construct that is recognised but not lowered yet.
#[derive(PartialEq, Eq, Structural, Clone, Copy, Debug)]
pub enum Construct {
    Struct,
    Enum,
    Import,
    Impl,
    Trait,
}

/// Why a parse failed. Positions are character offsets into the source.
#[derive(PartialEq, Eq, Structural, Clone, Copy, Debug)]
pub enum ParseError {
    /// The input does not follow the grammar at `position`.
    Syntax { position: usize, expected: Rule },
    /// An integer literal does not fit in 64 signed bits.
    IntegerOverflow { position: usize },
    /// A function parameter has no type annotation.
    MissingParameterType { position: usize },
    /// A construct that is valid syntax but is not lowered yet.
    Unsupported { construct: Construct, position: usize },
}

/// The label shown for an expected rule in a diagnostic.
pub open spec fn rule_label(rule: Rule) -> Seq<char> {
    match rule {
        Rule::EOI => "EOF"@,
        Rule::File => "import, struct, enum, fn, or EOF"@,
        Rule::Fn => "fn"@,
        Rule::Ident => "ident"@,
        Rule::OpenParen => "("@,
        Rule::CloseParen => ")"@,
        Rule::OpenBrace => "{"@,
        Rule::CloseBrace => "}"@,
        Rule::CloseAngle => ">"@,
        Rule::Type => "type"@,
        Rule::PrimaryExpression => "primary expression"@,
        Rule::Token => "token"@,
    }
}

/// The human-readable label of what a syntax error expected; `None` for other errors.
pub fn format_parse_error(err: &ParseError) -> (r: Option<String>)
    ensures
        r is Some <==> err is Syntax,
        err is Syntax ==> r->0@ == rule_label(err->expected),
{
    match err {
        ParseError::Syntax { expected, .. } => {
            let label = match expected {
                Rule::EOI => "EOF".to_owned(),
                Rule::File => "import, struct, enum, fn, or EOF".to_owned(),
                Rule::Fn => "fn".to_owned(),
                Rule::Ident => "ident".to_owned(),
                Rule::OpenParen => "(".to_owned(),
                Rule::CloseParen => ")".to_owned(),
                Rule::OpenBrace => "{".to_owned(),
                Rule::CloseBrace => "}".to_owned(),
                Rule::CloseAngle => ">".to_owned(),
                Rule::Type => "type".to_owned(),
                Rule::PrimaryExpression => "primary expression".to_owned(),
                Rule::Token => "token".to_owned(),
            };
            Some(label)
        },
        _ => None,
    }
}

/// A description of an error that is not a syntax error; `None` for syntax errors.
pub fn describe_error(err: &ParseError) -> (r: Option<String>)
    ensures
        r is Some <==> !(err is Syntax),
        err is IntegerOverflow ==> r->0@ == "integer literal does not fit in 64 bits"@,
        err is MissingParameterType ==> r->0@ == "Expected a type for function parameter."@,
        err is Unsupported ==> r->0@ == "construct is not supported yet"@,
{
    match err {
        ParseError::Syntax { .. } => None,
        ParseError::IntegerOverflow { .. } => Some(
            "integer literal does not fit in 64 bits".to_owned(),
        ),
        ParseError::MissingParameterType { .. } => Some(
            "Expected a type for function parameter.".to_owned(),
        ),
        ParseError::Unsupported { .. } => Some("construct is not supported yet".to_owned()),
    }
}

} // verus!
