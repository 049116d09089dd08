use vstd::prelude::*;

use crate::ast::{
    BlockExpr, Exclusivity, FunctionModel, InstructionModel, ParamModel, Program, TopLevelInstruction, params_view, FunctionDefinition, FunctionParameter, Locality, Mutability,
    Type, TypeModel, UserDefinedType, Visibility, names_view, generics_view,
};
use crate::error::{Construct, ParseError, Rule};
use crate::token::{Keyword, Lexeme, Symbol, Token, well_formed};

verus! {

pub open spec fn keyword_at(t: Seq<Lexeme>, p: int, k: Keyword) -> bool {
    0 <= p < t.len() && t[p].token is Keyword && t[p].token->Keyword_0 == k
}

pub open spec fn symbol_at(t: Seq<Lexeme>, p: int, s: Symbol) -> bool {
    0 <= p < t.len() && t[p].token is Symbol && t[p].token->Symbol_0 == s
}

pub open spec fn ident_at(t: Seq<Lexeme>, p: int) -> bool {
    0 <= p < t.len() && t[p].token is Ident
}

pub open spec fn ident_text(t: Seq<Lexeme>, p: int) -> Seq<char> {
    t[p].token->Ident_0@
}

/// A syntax error at the lexeme `t[p]`.
pub open spec fn syntax_error(t: Seq<Lexeme>, p: int, expected: Rule) -> ParseError {
    ParseError::Syntax { position: t[p].position, expected }
}

/// Visibility prefix: `pub` or nothing.
pub open spec fn visibility_at(t: Seq<Lexeme>, p: int) -> (Visibility, int) {
    if keyword_at(t, p, Keyword::Pub) {
        (Visibility::Public, p + 1)
    } else {
        (Visibility::Private, p)
    }
}

/// Locality prefix: `local`, `global` or nothing.
pub open spec fn locality_at(t: Seq<Lexeme>, p: int) -> (Locality, int) {
    if keyword_at(t, p, Keyword::Local) {
        (Locality::Local, p + 1)
    } else if keyword_at(t, p, Keyword::Global) {
        (Locality::Global, p + 1)
    } else {
        (Locality::Global, p)
    }
}

/// Exclusivity prefix: `shared`, `exclusive`, `unique` or nothing.
pub open spec fn exclusivity_at(t: Seq<Lexeme>, p: int) -> (Exclusivity, int) {
    if keyword_at(t, p, Keyword::Shared) {
        (Exclusivity::Shared, p + 1)
    } else if keyword_at(t, p, Keyword::Exclusive) {
        (Exclusivity::Exclusive, p + 1)
    } else if keyword_at(t, p, Keyword::Unique) {
        (Exclusivity::Unique, p + 1)
    } else {
        (Exclusivity::Shared, p)
    }
}

/// Mutability prefix: `mut` or nothing.
pub open spec fn mutability_at(t: Seq<Lexeme>, p: int) -> (Mutability, int) {
    if keyword_at(t, p, Keyword::Mut) {
        (Mutability::Mutable, p + 1)
    } else {
        (Mutability::Immutable, p)
    }
}

/// Whether `t[p]` is the keyword `k`.
fn peek_keyword(t: &Vec<Lexeme>, p: usize, k: Keyword) -> (r: bool)
    requires
        p < t@.len(),
    ensures
        r == keyword_at(t@, p as int, k),
{
    match &t[p].token {
        Token::Keyword(found) => *found == k,
        _ => false,
    }
}

/// Whether `t[p]` is the symbol `s`.
fn peek_symbol(t: &Vec<Lexeme>, p: usize, s: Symbol) -> (r: bool)
    requires
        p < t@.len(),
    ensures
        r == symbol_at(t@, p as int, s),
{
    match &t[p].token {
        Token::Symbol(found) => *found == s,
        _ => false,
    }
}

/// A lexeme other than the end-of-input marker is not the last one.
pub proof fn lemma_not_last(t: Seq<Lexeme>, p: int)
    requires
        well_formed(t),
        0 <= p < t.len(),
        !(t[p].token is Eoi),
    ensures
        p + 1 < t.len(),
{
}

/// The value of the first keyword of `table[i..]` that stands at `t[p]`, with the
/// position after it; `default` and `p` where none does.
pub open spec fn modifier_at<V>(t: Seq<Lexeme>, p: int, table: Seq<(Keyword, V)>, i: int, default: V) -> (V, int)
    decreases table.len() - i,
{
    if i < 0 || i >= table.len() {
        (default, p)
    } else if keyword_at(t, p, table[i].0) {
        (table[i].1, p + 1)
    } else {
        modifier_at(t, p, table, i + 1, default)
    }
}

/// Peeks at `t[p]` for one of the keywords of `table` and takes it if it is there.
fn decode_modifier<V: Copy>(t: &Vec<Lexeme>, p: usize, table: &Vec<(Keyword, V)>, default: V) -> (r: (V, usize))
    requires
        well_formed(t@),
        p < t@.len(),
    ensures
        (r.0, r.1 as int) == modifier_at(t@, p as int, table@, 0, default),
        r.1 < t@.len(),
{
    let n = t.len();
    let mut i: usize = 0;
    while i < table.len()
        invariant
            n == t@.len(),
            well_formed(t@),
            p < t@.len(),
            i <= table@.len(),
            modifier_at(t@, p as int, table@, 0, default) == modifier_at(t@, p as int, table@, i as int, default),
        decreases table@.len() - i,
    {
        let (k, v) = table[i];
        if peek_keyword(t, p, k) {
            proof {
                lemma_not_last(t@, p as int);
            }
            return (v, p + 1);
        }
        i = i + 1;
    }
    (default, p)
}

pub fn decode_visibility(t: &Vec<Lexeme>, p: usize) -> (r: (Visibility, usize))
    requires
        well_formed(t@),
        p < t@.len(),
    ensures
        (r.0, r.1 as int) == visibility_at(t@, p as int),
        r.1 < t@.len(),
{
    let table = vec![(Keyword::Pub, Visibility::Public)];
    proof {
        reveal_with_fuel(modifier_at, 4);
    }
    decode_modifier(t, p, &table, Visibility::Private)
}

pub fn decode_locality(t: &Vec<Lexeme>, p: usize) -> (r: (Locality, usize))
    requires
        well_formed(t@),
        p < t@.len(),
    ensures
        (r.0, r.1 as int) == locality_at(t@, p as int),
        r.1 < t@.len(),
{
    let table = vec![(Keyword::Local, Locality::Local), (Keyword::Global, Locality::Global)];
    proof {
        reveal_with_fuel(modifier_at, 4);
    }
    decode_modifier(t, p, &table, Locality::Global)
}

pub fn decode_exclusivity(t: &Vec<Lexeme>, p: usize) -> (r: (Exclusivity, usize))
    requires
        well_formed(t@),
        p < t@.len(),
    ensures
        (r.0, r.1 as int) == exclusivity_at(t@, p as int),
        r.1 < t@.len(),
{
    let table = vec![
        (Keyword::Shared, Exclusivity::Shared),
        (Keyword::Exclusive, Exclusivity::Exclusive),
        (Keyword::Unique, Exclusivity::Unique),
    ];
    proof {
        reveal_with_fuel(modifier_at, 4);
    }
    decode_modifier(t, p, &table, Exclusivity::Shared)
}

pub fn decode_mutability(t: &Vec<Lexeme>, p: usize) -> (r: (Mutability, usize))
    requires
        well_formed(t@),
        p < t@.len(),
    ensures
        (r.0, r.1 as int) == mutability_at(t@, p as int),
        r.1 < t@.len(),
{
    let table = vec![(Keyword::Mut, Mutability::Mutable)];
    proof {
        reveal_with_fuel(modifier_at, 4);
    }
    decode_modifier(t, p, &table, Mutability::Immutable)
}

/// The text of the identifier at `t[p]`, if one stands there.
fn take_ident(t: &Vec<Lexeme>, p: usize) -> (r: Option<String>)
    requires
        p < t@.len(),
    ensures
        r is Some <==> ident_at(t@, p as int),
        r matches Some(w) ==> w@ == ident_text(t@, p as int),
{
    match &t[p].token {
        Token::Ident(w) => Some(w.clone()),
        _ => None,
    }
}

/// `ident ("," ident)* ">"`, from `t[p]`.
pub open spec fn ident_list_at(t: Seq<Lexeme>, p: int) -> Result<(Seq<Seq<char>>, int), ParseError>
    decreases t.len() - p,
{
    if !ident_at(t, p) {
        Err(syntax_error(t, p, Rule::Ident))
    } else if symbol_at(t, p + 1, Symbol::Comma) {
        match ident_list_at(t, p + 2) {
            Ok((rest, q)) => Ok((seq![ident_text(t, p)] + rest, q)),
            Err(e) => Err(e),
        }
    } else if symbol_at(t, p + 1, Symbol::Gt) {
        Ok((seq![ident_text(t, p)], p + 2))
    } else {
        Err(syntax_error(t, p + 1, Rule::CloseAngle))
    }
}

/// An optional generic parameter list `"<" ident ("," ident)* ">"`, from `t[p]`.
pub open spec fn generics_at(t: Seq<Lexeme>, p: int) -> Result<(Option<Seq<Seq<char>>>, int), ParseError> {
    if symbol_at(t, p, Symbol::Lt) {
        match ident_list_at(t, p + 1) {
            Ok((names, q)) => Ok((Some(names), q)),
            Err(e) => Err(e),
        }
    } else {
        Ok((None, p))
    }
}

/// A type annotation, from `t[p]`: one of the built-in names `int`, `float` and
/// `bool`, or any other name with optional generic parameters. Where no name stands
/// the type is `Inferred` and nothing is taken; callers decide whether that will do.
pub open spec fn type_at(t: Seq<Lexeme>, p: int) -> Result<(TypeModel, int), ParseError> {
    if !ident_at(t, p) {
        Ok((TypeModel::Inferred, p))
    } else if ident_text(t, p) == "int"@ {
        Ok((TypeModel::Integer { signed: true, size: 64 }, p + 1))
    } else if ident_text(t, p) == "float"@ {
        Ok((TypeModel::Float { size: 64 }, p + 1))
    } else if ident_text(t, p) == "bool"@ {
        Ok((TypeModel::Boolean, p + 1))
    } else {
        match generics_at(t, p + 1) {
            Ok((g, q)) => Ok((TypeModel::UserDefined { name: ident_text(t, p), generic_parameters: g }, q)),
            Err(e) => Err(e),
        }
    }
}

pub fn parse_ident_list(t: &Vec<Lexeme>, p: usize) -> (r: Result<(Vec<String>, usize), ParseError>)
    requires
        well_formed(t@),
        p < t@.len(),
    ensures
        match r {
            Ok((v, q)) => ident_list_at(t@, p as int) == Ok::<_, ParseError>((names_view(v), q as int)) && p < q < t@.len(),
            Err(e) => ident_list_at(t@, p as int) == Err::<(Seq<Seq<char>>, int), _>(e),
        },
    decreases t@.len() - p,
{
    let n = t.len();
    let w = match take_ident(t, p) {
        Some(w) => w,
        None => return Err(ParseError::Syntax { position: t[p].position, expected: Rule::Ident }),
    };
    proof {
        lemma_not_last(t@, p as int);
    }
    if peek_symbol(t, p + 1, Symbol::Comma) {
        proof {
            lemma_not_last(t@, p + 1);
        }
        match parse_ident_list(t, p + 2) {
            Ok((rest, q)) => {
                let ghost tail = rest@;
                let mut v: Vec<String> = Vec::new();
                v.push(w);
                let mut rest = rest;
                v.append(&mut rest);
                assert(v@ =~= seq![w] + tail);
                assert(names_view(v) =~= seq![ident_text(t@, p as int)] + tail.map_values(
                    |s: String| s@,
                ));
                Ok((v, q))
            },
            Err(e) => Err(e),
        }
    } else if peek_symbol(t, p + 1, Symbol::Gt) {
        proof {
            lemma_not_last(t@, p + 1);
        }
        let v = vec![w];
        assert(names_view(v) =~= seq![ident_text(t@, p as int)]);
        Ok((v, p + 2))
    } else {
        Err(ParseError::Syntax { position: t[p + 1].position, expected: Rule::CloseAngle })
    }
}

pub fn parse_generic_parameters(t: &Vec<Lexeme>, p: usize) -> (r: Result<(Option<Vec<String>>, usize), ParseError>)
    requires
        well_formed(t@),
        p < t@.len(),
    ensures
        match r {
            Ok((g, q)) => generics_at(t@, p as int) == Ok::<_, ParseError>((generics_view(g), q as int)) && p <= q < t@.len(),
            Err(e) => generics_at(t@, p as int) == Err::<(Option<Seq<Seq<char>>>, int), _>(e),
        },
{
    let n = t.len();
    if peek_symbol(t, p, Symbol::Lt) {
        proof {
            lemma_not_last(t@, p as int);
        }
        match parse_ident_list(t, p + 1) {
            Ok((names, q)) => Ok((Some(names), q)),
            Err(e) => Err(e),
        }
    } else {
        Ok((None, p))
    }
}

pub fn parse_type(t: &Vec<Lexeme>, p: usize) -> (r: Result<(Type, usize), ParseError>)
    requires
        well_formed(t@),
        p < t@.len(),
    ensures
        match r {
            Ok((ty, q)) => type_at(t@, p as int) == Ok::<_, ParseError>((ty@, q as int)) && p <= q < t@.len(),
            Err(e) => type_at(t@, p as int) == Err::<(TypeModel, int), _>(e),
        },
{
    let n = t.len();
    let name = match take_ident(t, p) {
        Some(w) => w,
        None => return Ok((Type::Inferred, p)),
    };
    proof {
        lemma_not_last(t@, p as int);
    }
    if name == "int".to_owned() {
        Ok((Type::Integer { signed: true, size: 64 }, p + 1))
    } else if name == "float".to_owned() {
        Ok((Type::Float { size: 64 }, p + 1))
    } else if name == "bool".to_owned() {
        Ok((Type::Boolean, p + 1))
    } else {
        match parse_generic_parameters(t, p + 1) {
            Ok((generic_parameters, q)) => Ok((Type::UserDefined(UserDefinedType { name, generic_parameters }), q)),
            Err(e) => Err(e),
        }
    }
}

/// A function parameter, from `t[p]`: optional locality, exclusivity and
/// mutability, a name, and a type annotation, which is required.
pub open spec fn param_at(t: Seq<Lexeme>, p: int) -> Result<(ParamModel, int), ParseError> {
    let (locality, p1) = locality_at(t, p);
    let (exclusivity, p2) = exclusivity_at(t, p1);
    let (mutability, p3) = mutability_at(t, p2);
    if !ident_at(t, p3) {
        Err(syntax_error(t, p3, Rule::Ident))
    } else {
        let annotation = if symbol_at(t, p3 + 1, Symbol::Colon) {
            type_at(t, p3 + 2)
        } else {
            Ok((TypeModel::Inferred, p3 + 1))
        };
        match annotation {
            Err(e) => Err(e),
            Ok((ty, q)) => if ty is Inferred {
                Err(ParseError::MissingParameterType { position: t[p3].position })
            } else {
                Ok(
                    (
                        ParamModel { locality, exclusivity, mutability, name: ident_text(t, p3), type_: ty },
                        q,
                    ),
                )
            },
        }
    }
}

/// The rest of a parameter list after its `(`: parameters separated by commas,
/// an optional trailing comma, and `)`.
pub open spec fn params_at(t: Seq<Lexeme>, p: int) -> Result<(Seq<ParamModel>, int), ParseError>
    decreases t.len() - p,
{
    if symbol_at(t, p, Symbol::RParen) {
        Ok((seq![], p + 1))
    } else {
        match param_at(t, p) {
            Err(e) => Err(e),
            Ok((pm, q)) => if q <= p || q >= t.len() {
                Err(syntax_error(t, p, Rule::Ident))
            } else if symbol_at(t, q, Symbol::Comma) {
                match params_at(t, q + 1) {
                    Ok((rest, e)) => Ok((seq![pm] + rest, e)),
                    Err(e) => Err(e),
                }
            } else if symbol_at(t, q, Symbol::RParen) {
                Ok((seq![pm], q + 1))
            } else {
                Err(syntax_error(t, q, Rule::CloseParen))
            },
        }
    }
}

/// The position after the `}` that closes a block, `depth` levels deep at `t[p]`.
pub open spec fn block_end_at(t: Seq<Lexeme>, p: int, depth: nat) -> Result<int, ParseError>
    decreases t.len() - p,
{
    if p < 0 || p >= t.len() - 1 {
        Err(syntax_error(t, t.len() - 1, Rule::CloseBrace))
    } else if symbol_at(t, p, Symbol::LBrace) {
        block_end_at(t, p + 1, depth + 1)
    } else if symbol_at(t, p, Symbol::RBrace) {
        if depth <= 1 {
            Ok(p + 1)
        } else {
            block_end_at(t, p + 1, (depth - 1) as nat)
        }
    } else {
        block_end_at(t, p + 1, depth)
    }
}

/// A function body: a block with balanced braces, from `t[p]`.
pub open spec fn body_at(t: Seq<Lexeme>, p: int) -> Result<int, ParseError> {
    if !symbol_at(t, p, Symbol::LBrace) {
        Err(syntax_error(t, p, Rule::OpenBrace))
    } else {
        block_end_at(t, p + 1, 1)
    }
}

/// The return type of a function, from `t[p]`: `-> type`, or nothing, which
/// leaves the type to be inferred. After `->` a type is required.
pub open spec fn return_type_at(t: Seq<Lexeme>, p: int) -> Result<(TypeModel, int), ParseError> {
    if symbol_at(t, p, Symbol::Arrow) {
        match type_at(t, p + 1) {
            Ok((ty, q)) => if ty is Inferred {
                Err(syntax_error(t, p + 1, Rule::Type))
            } else {
                Ok((ty, q))
            },
            Err(e) => Err(e),
        }
    } else {
        Ok((TypeModel::Inferred, p))
    }
}

/// A function definition, from `t[p]`: optional visibility and locality, `fn`, a
/// name, optional generic parameters, parameters, an optional return type, and a
/// body, whose content is not lowered.
pub open spec fn function_at(t: Seq<Lexeme>, p: int) -> Result<(FunctionModel, int), ParseError> {
    let (visibility, p1) = visibility_at(t, p);
    let (locality, p2) = locality_at(t, p1);
    if !keyword_at(t, p2, Keyword::Fn) {
        Err(syntax_error(t, p2, Rule::Fn))
    } else if !ident_at(t, p2 + 1) {
        Err(syntax_error(t, p2 + 1, Rule::Ident))
    } else {
        match generics_at(t, p2 + 2) {
            Err(e) => Err(e),
            Ok((generic_parameters, p3)) => if !symbol_at(t, p3, Symbol::LParen) {
                Err(syntax_error(t, p3, Rule::OpenParen))
            } else {
                match params_at(t, p3 + 1) {
                    Err(e) => Err(e),
                    Ok((parameters, p4)) => match return_type_at(t, p4) {
                        Err(e) => Err(e),
                        Ok((return_type, p5)) => match body_at(t, p5) {
                            Err(e) => Err(e),
                            Ok(p6) => Ok(
                                (
                                    FunctionModel {
                                        visibility,
                                        locality,
                                        name: ident_text(t, p2 + 1),
                                        parameters,
                                        generic_parameters,
                                        return_type,
                                        body_len: 0,
                                    },
                                    p6,
                                ),
                            ),
                        },
                    },
                }
            },
        }
    }
}

/// A top-level instruction, from `t[p]`. Structs, enums, imports, impls and traits
/// are recognised by their keyword and reported as not supported yet.
pub open spec fn top_level_at(t: Seq<Lexeme>, p: int) -> Result<(InstructionModel, int), ParseError> {
    if keyword_at(t, p, Keyword::Struct) {
        Err(ParseError::Unsupported { construct: Construct::Struct, position: t[p].position })
    } else if keyword_at(t, p, Keyword::Enum) {
        Err(ParseError::Unsupported { construct: Construct::Enum, position: t[p].position })
    } else if keyword_at(t, p, Keyword::Import) {
        Err(ParseError::Unsupported { construct: Construct::Import, position: t[p].position })
    } else if keyword_at(t, p, Keyword::Impl) {
        Err(ParseError::Unsupported { construct: Construct::Impl, position: t[p].position })
    } else if keyword_at(t, p, Keyword::Trait) {
        Err(ParseError::Unsupported { construct: Construct::Trait, position: t[p].position })
    } else if 0 <= p < t.len() && t[p].token is Eoi {
        Ok((InstructionModel::EOI, p + 1))
    } else if keyword_at(t, p, Keyword::Pub) || keyword_at(t, p, Keyword::Local) || keyword_at(
        t,
        p,
        Keyword::Global,
    ) || keyword_at(t, p, Keyword::Fn) {
        match function_at(t, p) {
            Ok((f, q)) => Ok((InstructionModel::Function(f), q)),
            Err(e) => Err(e),
        }
    } else {
        Err(syntax_error(t, p, Rule::File))
    }
}

/// The instructions of a file from `t[p]` to its end, the end-of-input marker
/// included; the first error where there is one.
pub open spec fn program_at(t: Seq<Lexeme>, p: int) -> Result<Seq<InstructionModel>, ParseError>
    decreases t.len() - p,
{
    match top_level_at(t, p) {
        Err(e) => Err(e),
        Ok((i, q)) => if i is EOI {
            Ok(seq![i])
        } else if q <= p || q >= t.len() {
            Err(syntax_error(t, p, Rule::File))
        } else {
            match program_at(t, q) {
                Ok(rest) => Ok(seq![i] + rest),
                Err(e) => Err(e),
            }
        },
    }
}

pub fn parse_function_parameter(t: &Vec<Lexeme>, p: usize) -> (r: Result<(FunctionParameter, usize), ParseError>)
    requires
        well_formed(t@),
        p < t@.len(),
    ensures
        match r {
            Ok((pm, q)) => param_at(t@, p as int) == Ok::<_, ParseError>((pm@, q as int)) && p < q < t@.len(),
            Err(e) => param_at(t@, p as int) == Err::<(ParamModel, int), _>(e),
        },
{
    let n = t.len();
    let (locality, p1) = decode_locality(t, p);
    let (exclusivity, p2) = decode_exclusivity(t, p1);
    let (mutability, p3) = decode_mutability(t, p2);
    let name = match take_ident(t, p3) {
        Some(w) => w,
        None => return Err(ParseError::Syntax { position: t[p3].position, expected: Rule::Ident }),
    };
    proof {
        lemma_not_last(t@, p3 as int);
    }
    let (type_, q) = if peek_symbol(t, p3 + 1, Symbol::Colon) {
        proof {
            lemma_not_last(t@, p3 + 1);
        }
        match parse_type(t, p3 + 2) {
            Ok(x) => x,
            Err(e) => return Err(e),
        }
    } else {
        (Type::Inferred, p3 + 1)
    };
    if matches!(type_, Type::Inferred) {
        return Err(ParseError::MissingParameterType { position: t[p3].position });
    }
    Ok((FunctionParameter { locality, exclusivity, mutability, name, type_ }, q))
}

/// The parameters of a function, from just after its `(` to just after its `)`.
pub fn parse_function_parameters(t: &Vec<Lexeme>, p: usize) -> (r: Result<(Vec<FunctionParameter>, usize), ParseError>)
    requires
        well_formed(t@),
        p < t@.len(),
    ensures
        match r {
            Ok((ps, q)) => params_at(t@, p as int) == Ok::<_, ParseError>((params_view(ps), q as int)) && p < q < t@.len(),
            Err(e) => params_at(t@, p as int) == Err::<(Seq<ParamModel>, int), _>(e),
        },
    decreases t@.len() - p,
{
    let n = t.len();
    if peek_symbol(t, p, Symbol::RParen) {
        proof {
            lemma_not_last(t@, p as int);
        }
        let v: Vec<FunctionParameter> = Vec::new();
        assert(params_view(v) =~= seq![]);
        return Ok((v, p + 1));
    }
    let (pm, q) = match parse_function_parameter(t, p) {
        Ok(x) => x,
        Err(e) => return Err(e),
    };
    if peek_symbol(t, q, Symbol::Comma) {
        proof {
            lemma_not_last(t@, q as int);
        }
        match parse_function_parameters(t, q + 1) {
            Ok((rest, e)) => {
                let ghost tail = rest@;
                let mut v: Vec<FunctionParameter> = Vec::new();
                v.push(pm);
                let mut rest = rest;
                v.append(&mut rest);
                assert(v@ =~= seq![pm] + tail);
                assert(params_view(v) =~= seq![pm@] + tail.map_values(|x: FunctionParameter| x@));
                Ok((v, e))
            },
            Err(e) => Err(e),
        }
    } else if peek_symbol(t, q, Symbol::RParen) {
        proof {
            lemma_not_last(t@, q as int);
        }
        let v = vec![pm];
        assert(params_view(v) =~= seq![pm@]);
        Ok((v, q + 1))
    } else {
        Err(ParseError::Syntax { position: t[q].position, expected: Rule::CloseParen })
    }
}

/// Skips a function body from its `{` to just after the matching `}`.
pub fn skip_body(t: &Vec<Lexeme>, p: usize) -> (r: Result<usize, ParseError>)
    requires
        well_formed(t@),
        p < t@.len(),
    ensures
        match r {
            Ok(q) => body_at(t@, p as int) == Ok::<int, ParseError>(q as int) && p < q < t@.len(),
            Err(e) => body_at(t@, p as int) == Err::<int, _>(e),
        },
{
    let n = t.len();
    if !peek_symbol(t, p, Symbol::LBrace) {
        return Err(ParseError::Syntax { position: t[p].position, expected: Rule::OpenBrace });
    }
    proof {
        lemma_not_last(t@, p as int);
    }
    let mut i: usize = p + 1;
    let mut depth: usize = 1;
    while i < n - 1
        invariant
            n == t@.len(),
            well_formed(t@),
            p < i < n,
            symbol_at(t@, p as int, Symbol::LBrace),
            1 <= depth <= i - p,
            block_end_at(t@, p + 1, 1) == block_end_at(t@, i as int, depth as nat),
        decreases n - i,
    {
        if peek_symbol(t, i, Symbol::LBrace) {
            depth = depth + 1;
        } else if peek_symbol(t, i, Symbol::RBrace) {
            if depth <= 1 {
                return Ok(i + 1);
            }
            depth = depth - 1;
        }
        i = i + 1;
    }
    Err(ParseError::Syntax { position: t[n - 1].position, expected: Rule::CloseBrace })
}

pub fn parse_function_definition(t: &Vec<Lexeme>, p: usize) -> (r: Result<(FunctionDefinition, usize), ParseError>)
    requires
        well_formed(t@),
        p < t@.len(),
    ensures
        match r {
            Ok((f, q)) => function_at(t@, p as int) == Ok::<_, ParseError>((f@, q as int)) && p < q < t@.len(),
            Err(e) => function_at(t@, p as int) == Err::<(FunctionModel, int), _>(e),
        },
{
    let n = t.len();
    let (visibility, p1) = decode_visibility(t, p);
    let (locality, p2) = decode_locality(t, p1);
    if !peek_keyword(t, p2, Keyword::Fn) {
        return Err(ParseError::Syntax { position: t[p2].position, expected: Rule::Fn });
    }
    proof {
        lemma_not_last(t@, p2 as int);
    }
    let name = match take_ident(t, p2 + 1) {
        Some(w) => w,
        None => return Err(ParseError::Syntax { position: t[p2 + 1].position, expected: Rule::Ident }),
    };
    proof {
        lemma_not_last(t@, p2 + 1);
    }
    let (generic_parameters, p3) = match parse_generic_parameters(t, p2 + 2) {
        Ok(x) => x,
        Err(e) => return Err(e),
    };
    if !peek_symbol(t, p3, Symbol::LParen) {
        return Err(ParseError::Syntax { position: t[p3].position, expected: Rule::OpenParen });
    }
    proof {
        lemma_not_last(t@, p3 as int);
    }
    let (parameters, p4) = match parse_function_parameters(t, p3 + 1) {
        Ok(x) => x,
        Err(e) => return Err(e),
    };
    let (return_type, p5) = if peek_symbol(t, p4, Symbol::Arrow) {
        proof {
            lemma_not_last(t@, p4 as int);
        }
        match parse_type(t, p4 + 1) {
            Ok((ty, q)) => {
                if matches!(ty, Type::Inferred) {
                    return Err(ParseError::Syntax { position: t[p4 + 1].position, expected: Rule::Type });
                }
                (ty, q)
            },
            Err(e) => return Err(e),
        }
    } else {
        (Type::Inferred, p4)
    };
    let p6 = match skip_body(t, p5) {
        Ok(q) => q,
        Err(e) => return Err(e),
    };
    let body = BlockExpr { commands: Vec::new() };
    Ok((FunctionDefinition { visibility, locality, name, parameters, generic_parameters, return_type, body }, p6))
}

/// Lowers the top-level instruction that starts at `t[p]`.
pub fn parse_top_level_instruction(t: &Vec<Lexeme>, p: usize) -> (r: Result<(TopLevelInstruction, usize), ParseError>)
    requires
        well_formed(t@),
        p < t@.len(),
    ensures
        match r {
            Ok((i, q)) => top_level_at(t@, p as int) == Ok::<_, ParseError>((i@, q as int)) && p < q <= t@.len()
                && (!(i@ is EOI) ==> q < t@.len()),
            Err(e) => top_level_at(t@, p as int) == Err::<(InstructionModel, int), _>(e),
        },
{
    let n = t.len();
    let position = t[p].position;
    if peek_keyword(t, p, Keyword::Struct) {
        Err(ParseError::Unsupported { construct: Construct::Struct, position })
    } else if peek_keyword(t, p, Keyword::Enum) {
        Err(ParseError::Unsupported { construct: Construct::Enum, position })
    } else if peek_keyword(t, p, Keyword::Import) {
        Err(ParseError::Unsupported { construct: Construct::Import, position })
    } else if peek_keyword(t, p, Keyword::Impl) {
        Err(ParseError::Unsupported { construct: Construct::Impl, position })
    } else if peek_keyword(t, p, Keyword::Trait) {
        Err(ParseError::Unsupported { construct: Construct::Trait, position })
    } else if matches!(t[p].token, Token::Eoi) {
        Ok((TopLevelInstruction::EOI, p + 1))
    } else if peek_keyword(t, p, Keyword::Pub) || peek_keyword(t, p, Keyword::Local) || peek_keyword(
        t,
        p,
        Keyword::Global,
    ) || peek_keyword(t, p, Keyword::Fn) {
        match parse_function_definition(t, p) {
            Ok((f, q)) => Ok((TopLevelInstruction::FunctionDefinition(f), q)),
            Err(e) => Err(e),
        }
    } else {
        Err(ParseError::Syntax { position, expected: Rule::File })
    }
}

/// Lowers a whole token sequence into a program: every instruction up to and
/// including the end-of-input marker, or the first error.
pub fn parse_program(t: &Vec<Lexeme>) -> (r: Result<Program, ParseError>)
    requires
        well_formed(t@),
    ensures
        match r {
            Ok(prog) => program_at(t@, 0) == Ok::<_, ParseError>(prog@),
            Err(e) => program_at(t@, 0) == Err::<Seq<InstructionModel>, _>(e),
        },
{
    let n = t.len();
    let mut instructions: Vec<TopLevelInstruction> = Vec::new();
    let mut p: usize = 0;
    loop
        invariant
            n == t@.len(),
            well_formed(t@),
            p < n,
            program_at(t@, 0) == match program_at(t@, p as int) {
                Ok(rest) => Ok(instructions@.map_values(|i: TopLevelInstruction| i@) + rest),
                Err(e) => Err::<Seq<InstructionModel>, ParseError>(e),
            },
        decreases n - p,
    {
        let ghost done = instructions@;
        match parse_top_level_instruction(t, p) {
            Err(e) => return Err(e),
            Ok((i, q)) => {
                let is_end = matches!(i, TopLevelInstruction::EOI);
                let ghost iv = i@;
                instructions.push(i);
                assert(instructions@.map_values(|i: TopLevelInstruction| i@) =~= done.map_values(
                    |i: TopLevelInstruction| i@,
                ) + seq![i@]);
                if is_end {
                    assert(program_at(t@, p as int) == Ok::<_, ParseError>(seq![i@]));
                    let prog = Program { instructions };
                    assert(prog@ =~= done.map_values(|i: TopLevelInstruction| i@) + seq![i@]);
                    return Ok(prog);
                }
                proof {
                    let prefix = done.map_values(|i: TopLevelInstruction| i@);
                    let now = instructions@.map_values(|i: TopLevelInstruction| i@);
                    assert(program_at(t@, p as int) == match program_at(t@, q as int) {
                        Ok(rest) => Ok(seq![iv] + rest),
                        Err(e) => Err::<Seq<InstructionModel>, ParseError>(e),
                    });
                    match program_at(t@, q as int) {
                        Ok(rest) => {
                            assert(prefix + (seq![iv] + rest) =~= now + rest);
                        },
                        Err(_) => {},
                    }
                }
                p = q;
            },
        }
    }
}

/// A function definition's modifiers are the ones written before `fn`, each taken
/// only where its keyword stands; an omitted visibility is `Private` and an omitted
/// locality is `Global`.
pub proof fn lemma_function_modifiers(t: Seq<Lexeme>, p: int)
    requires
        function_at(t, p) is Ok,
    ensures
        ({
            let f = function_at(t, p)->Ok_0.0;
            let p1 = if keyword_at(t, p, Keyword::Pub) { p + 1 } else { p };
            &&& f.visibility == (if keyword_at(t, p, Keyword::Pub) {
                Visibility::Public
            } else {
                Visibility::Private
            })
            &&& f.locality == (if keyword_at(t, p1, Keyword::Local) {
                Locality::Local
            } else {
                Locality::Global
            })
            &&& keyword_at(t, if keyword_at(t, p1, Keyword::Local) || keyword_at(t, p1, Keyword::Global) {
                p1 + 1
            } else {
                p1
            }, Keyword::Fn)
        }),
{
}

/// A parameter's modifiers are the ones written before its name, in the order
/// locality, exclusivity, mutability; each omitted one takes its default: `Global`,
/// `Shared`, `Immutable`.
pub proof fn lemma_parameter_modifiers(t: Seq<Lexeme>, p: int)
    requires
        param_at(t, p) is Ok,
    ensures
        ({
            let m = param_at(t, p)->Ok_0.0;
            let has_locality = keyword_at(t, p, Keyword::Local) || keyword_at(t, p, Keyword::Global);
            let p1 = if has_locality { p + 1 } else { p };
            let has_exclusivity = keyword_at(t, p1, Keyword::Shared) || keyword_at(t, p1, Keyword::Exclusive)
                || keyword_at(t, p1, Keyword::Unique);
            let p2 = if has_exclusivity { p1 + 1 } else { p1 };
            let p3 = if keyword_at(t, p2, Keyword::Mut) { p2 + 1 } else { p2 };
            &&& m.locality == (if keyword_at(t, p, Keyword::Local) {
                Locality::Local
            } else {
                Locality::Global
            })
            &&& m.exclusivity == (if keyword_at(t, p1, Keyword::Exclusive) {
                Exclusivity::Exclusive
            } else if keyword_at(t, p1, Keyword::Unique) {
                Exclusivity::Unique
            } else {
                Exclusivity::Shared
            })
            &&& m.mutability == (if keyword_at(t, p2, Keyword::Mut) {
                Mutability::Mutable
            } else {
                Mutability::Immutable
            })
            &&& ident_at(t, p3) && m.name == ident_text(t, p3)
            &&& m.type_ != TypeModel::Inferred
        }),
{
}

/// A parameter whose name is not followed by `:` and a type is rejected as missing
/// its type; it never takes an inferred type.
pub proof fn lemma_parameter_type_required(t: Seq<Lexeme>, p: int)
    requires
        ({
            let p3 = mutability_at(t, exclusivity_at(t, locality_at(t, p).1).1).1;
            ident_at(t, p3) && !symbol_at(t, p3 + 1, Symbol::Colon)
        }),
    ensures
        param_at(t, p) is Err && param_at(t, p)->Err_0 is MissingParameterType,
{
}

/// Without `->` a function's return type is left to inference.
pub proof fn lemma_return_type_inferred(t: Seq<Lexeme>, p: int)
    requires
        !symbol_at(t, p, Symbol::Arrow),
    ensures
        return_type_at(t, p) == Ok::<_, ParseError>((TypeModel::Inferred, p)),
{
}

/// A struct, enum, import, impl or trait at the top level is reported as a
/// construct that is not supported yet, never as a syntax error.
pub proof fn lemma_unsupported_constructs(t: Seq<Lexeme>, p: int)
    requires
        keyword_at(t, p, Keyword::Struct) || keyword_at(t, p, Keyword::Enum) || keyword_at(
            t,
            p,
            Keyword::Import,
        ) || keyword_at(t, p, Keyword::Impl) || keyword_at(t, p, Keyword::Trait),
    ensures
        top_level_at(t, p) is Err && top_level_at(t, p)->Err_0 is Unsupported,
{
}

} // verus!
