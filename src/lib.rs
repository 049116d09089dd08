//! Front end of a small statically typed language: lexing, lowering of function
//! definitions into a typed syntax tree, and precedence climbing for expressions.
use vstd::prelude::*;

pub mod ast;
pub mod error;
pub mod expr;
pub mod lower;
pub mod token;

pub use ast::{
    AssignmentStmt, BinaryExpr, BlockExpr, Command, DeclarationStmt, Exclusivity, Expression,
    FunctionDefinition, FunctionParameter, Locality, Mutability, Op, Program, ReturnStmt,
    Statement, TopLevelInstruction, Type, UserDefinedType, Visibility,
};
pub use error::{describe_error, format_parse_error, Construct, ParseError, Rule};
pub use expr::{binding_power, parse_expr, parse_expression_tokens};
pub use lower::{parse_function_definition, parse_program, parse_top_level_instruction, parse_type};
pub use token::{tokenize, Keyword, Lexeme, Symbol, Token};

use ast::{ExprModel, InstructionModel};
use expr::expression_of;
use lower::program_at;
use lower::{keyword_at, top_level_at};
use token::{
    covered, faithful, is_digit, is_ident_char, is_ident_start, keyword_of, lexical_error, symbol_text,
    tokens_of, word_at,
};

verus! {

/// Parses a whole source file. All or nothing: the first lexical or lowering
/// error ends the parse.
pub fn parse(input: &str) -> (r: Result<Program, ParseError>)
    ensures
        match r {
            Ok(prog) => exists|t: Seq<Lexeme>|
                tokens_of(input@, t) && #[trigger] program_at(t, 0) == Ok::<_, ParseError>(prog@),
            Err(e) => lexical_error(input@, e) || exists|t: Seq<Lexeme>|
                tokens_of(input@, t) && #[trigger] program_at(t, 0) == Err::<Seq<InstructionModel>, _>(e),
        },
{
    let tokens = match tokenize(input) {
        Ok(t) => t,
        Err(e) => return Err(e),
    };
    let r = parse_program(&tokens);
    assert(tokens_of(input@, tokens@));
    r
}

/// Parses source text that holds one expression and nothing else.
pub fn parse_expression(input: &str) -> (r: Result<Expression, ParseError>)
    ensures
        match r {
            Ok(e) => exists|t: Seq<Lexeme>|
                tokens_of(input@, t) && #[trigger] expression_of(t) == Ok::<_, ParseError>(e@),
            Err(e) => lexical_error(input@, e) || exists|t: Seq<Lexeme>|
                tokens_of(input@, t) && #[trigger] expression_of(t) == Err::<ExprModel, _>(e),
        },
{
    let tokens = match tokenize(input) {
        Ok(t) => t,
        Err(e) => return Err(e),
    };
    let r = parse_expression_tokens(&tokens);
    assert(tokens_of(input@, tokens@));
    r
}

/// The construct that a keyword opens, where it is one that is not lowered yet.
pub open spec fn unsupported_construct(k: Keyword) -> Option<Construct> {
    match k {
        Keyword::Struct => Some(Construct::Struct),
        Keyword::Enum => Some(Construct::Enum),
        Keyword::Import => Some(Construct::Import),
        Keyword::Impl => Some(Construct::Impl),
        Keyword::Trait => Some(Construct::Trait),
        _ => None,
    }
}

/// Source text that opens with `struct`, `enum`, `import`, `impl` or `trait` is, once
/// lexed, reported as that unsupported construct at offset 0, never as a syntax
/// error; `parse` then returns that error unless the lexer fails first.
pub proof fn lemma_parse_unsupported(src: Seq<char>, e: int, k: Keyword, t: Seq<Lexeme>)
    requires
        0 < e <= src.len(),
        keyword_of(src.subrange(0, e)) == Some(k),
        unsupported_construct(k) is Some,
        word_at(src, 0, e),
        tokens_of(src, t),
    ensures
        program_at(t, 0) == Err::<Seq<InstructionModel>, _>(
            ParseError::Unsupported { construct: unsupported_construct(k)->0, position: 0 },
        ),
{
    let body = t.drop_last();
    assert(is_ident_start(src[0]));
    assert(covered(body, 0));
    let idx = choose|i: int| 0 <= i < body.len() && #[trigger] body[i].position <= 0 < body[i].end;
    if idx > 0 {
        assert(body[0].end <= body[idx].position);
        assert(faithful(src, body[0]));
    }
    let first = body[0];
    assert(first == t[0]);
    assert(faithful(src, first));
    assert(first.position == 0);
    match first.token {
        Token::Integer(_) => {
            assert(is_digit(src[0]));
        },
        Token::Float(_) => {
            assert(is_digit(src[0]));
        },
        Token::Symbol(sym) => {
            assert(src.subrange(0, first.end as int)[0] == symbol_text(sym)[0]);
        },
        _ => {},
    }
    assert(word_at(src, 0, first.end as int));
    if first.end < e {
        assert(is_ident_char(src[first.end as int]));
    }
    if first.end > e {
        assert(is_ident_char(src[e]));
    }
    assert(first.end == e);
    assert(first.token is Keyword && first.token->Keyword_0 == k);
    assert(keyword_at(t, 0, k));
    assert(top_level_at(t, 0) == Err::<(InstructionModel, int), _>(
        ParseError::Unsupported { construct: unsupported_construct(k)->0, position: 0 },
    ));
}

} // verus!
