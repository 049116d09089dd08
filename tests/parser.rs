use hinoki_parser::{
    binding_power, describe_error, format_parse_error, parse, parse_expression, parse_type, tokenize,
    Construct, Exclusivity, Expression, Keyword, Locality, Mutability, Op, ParseError, Rule,
    Symbol, Token, TopLevelInstruction, Type, Visibility,
};

fn show(e: &Expression) -> String {
    match e {
        Expression::Integer(v) => format!("{}", v),
        Expression::Float(s) => s.clone(),
        Expression::Binary(b) => format!("{:?}({}, {})", b.op, show(&b.lhs), show(&b.rhs)),
        Expression::Block(b) => format!("Block[{}]", b.commands.len()),
    }
}

fn expr(s: &str) -> String {
    show(&parse_expression(s).expect("expression parses"))
}

fn single_function(src: &str) -> hinoki_parser::FunctionDefinition {
    let prog = parse(src).expect("program parses");
    assert_eq!(prog.instructions.len(), 2);
    assert!(matches!(prog.instructions[1], TopLevelInstruction::EOI));
    let mut it = prog.instructions.into_iter();
    match it.next().unwrap() {
        TopLevelInstruction::FunctionDefinition(f) => f,
        _ => panic!("expected a function definition"),
    }
}

#[test]
fn precedence_multiplication_binds_tighter() {
    assert_eq!(expr("1 + 2 * 3"), "Add(1, Multiply(2, 3))");
    assert_eq!(expr("1 * 2 + 3"), "Add(Multiply(1, 2), 3)");
}

#[test]
fn power_is_right_associative() {
    assert_eq!(expr("2 ^ 3 ^ 2"), "Power(2, Power(3, 2))");
}

#[test]
fn comparisons_are_left_associative() {
    assert_eq!(expr("1 < 2 < 3"), "LessThan(LessThan(1, 2), 3)");
    assert_eq!(expr("1 == 2 != 3"), "NotEqual(Equal(1, 2), 3)");
}

#[test]
fn subtraction_is_left_associative() {
    assert_eq!(expr("10 - 4 - 3"), "Subtract(Subtract(10, 4), 3)");
}

#[test]
fn full_precedence_ladder() {
    assert_eq!(
        expr("1 xor 2 | 3 & 4 ! 5 < 6 << 7 + 8 % 9 * 10 ^ 11"),
        "Xor(1, BitwiseOr(2, BitwiseAnd(3, Not(4, LessThan(5, ShiftLeft(6, Add(7, Mod(8, Multiply(9, Power(10, 11))))))))))"
    );
}

#[test]
fn parentheses_override_precedence() {
    assert_eq!(expr("(1 + 2) * 3"), "Multiply(Add(1, 2), 3)");
}

#[test]
fn literals_and_blocks_are_primaries() {
    assert_eq!(expr("1.5 + { }"), "Add(1.5, Block[0])");
    assert_eq!(expr("42"), "42");
}

#[test]
fn rendering_reparses_to_the_same_tree() {
    let first = expr("1 + 2 * 3 - 4 ^ 2 ^ 3");
    assert_eq!(first, "Subtract(Add(1, Multiply(2, 3)), Power(4, Power(2, 3)))");
    let again = expr("(1 + (2 * 3)) - (4 ^ (2 ^ 3))");
    assert_eq!(first, again);
}

#[test]
fn missing_right_operand_expects_primary() {
    let err = parse_expression("1 +").unwrap_err();
    match err {
        ParseError::Syntax { position, expected } => {
            assert_eq!(expected, Rule::PrimaryExpression);
            assert!(position >= 2);
        }
        other => panic!("unexpected error {:?}", other),
    }
    assert_eq!(format_parse_error(&err).unwrap(), "primary expression");
}

#[test]
fn trailing_tokens_after_expression_expect_end() {
    let err = parse_expression("1 2").unwrap_err();
    assert_eq!(err, ParseError::Syntax { position: 2, expected: Rule::EOI });
    assert_eq!(format_parse_error(&err).unwrap(), "EOF");
}

#[test]
fn explicit_modifiers_are_decoded() {
    let f = single_function(
        "pub local fn f(local exclusive mut a: int, global unique b: bool, shared c: float) -> int { }",
    );
    assert_eq!(f.visibility, Visibility::Public);
    assert_eq!(f.locality, Locality::Local);
    assert_eq!(f.name, "f");
    assert_eq!(f.parameters.len(), 3);
    let a = &f.parameters[0];
    assert_eq!((a.locality, a.exclusivity, a.mutability), (Locality::Local, Exclusivity::Exclusive, Mutability::Mutable));
    assert!(matches!(a.type_, Type::Integer { signed: true, size: 64 }));
    let b = &f.parameters[1];
    assert_eq!((b.locality, b.exclusivity, b.mutability), (Locality::Global, Exclusivity::Unique, Mutability::Immutable));
    assert!(matches!(b.type_, Type::Boolean));
    let c = &f.parameters[2];
    assert_eq!(c.exclusivity, Exclusivity::Shared);
    assert!(matches!(c.type_, Type::Float { size: 64 }));
    assert!(matches!(f.return_type, Type::Integer { signed: true, size: 64 }));
    assert!(f.body.commands.is_empty());
}

#[test]
fn omitted_modifiers_take_defaults() {
    let f = single_function("fn g(x: int) { }");
    assert_eq!(f.visibility, Visibility::Private);
    assert_eq!(f.locality, Locality::Global);
    let x = &f.parameters[0];
    assert_eq!(x.name, "x");
    assert_eq!((x.locality, x.exclusivity, x.mutability), (Locality::Global, Exclusivity::Shared, Mutability::Immutable));
}

#[test]
fn parameter_without_type_is_rejected() {
    let err = parse("fn f(x) -> int { }").unwrap_err();
    assert_eq!(err, ParseError::MissingParameterType { position: 5 });
    assert!(describe_error(&err).unwrap().contains("type for function parameter"));
    assert!(format_parse_error(&err).is_none());
}

#[test]
fn missing_return_type_is_inferred() {
    let f = single_function("fn f() { }");
    assert!(matches!(f.return_type, Type::Inferred));
    assert!(f.parameters.is_empty());
    assert!(f.generic_parameters.is_none());
}

#[test]
fn user_defined_types_and_generics() {
    let f = single_function("fn map<T, U>(xs: List<T>, f: Fn,) -> List<U> { { } }");
    assert_eq!(f.generic_parameters, Some(vec!["T".to_string(), "U".to_string()]));
    match &f.parameters[0].type_ {
        Type::UserDefined(u) => {
            assert_eq!(u.name, "List");
            assert_eq!(u.generic_parameters, Some(vec!["T".to_string()]));
        }
        _ => panic!("expected a user-defined type"),
    }
    match &f.parameters[1].type_ {
        Type::UserDefined(u) => {
            assert_eq!(u.name, "Fn");
            assert!(u.generic_parameters.is_none());
        }
        _ => panic!("expected a user-defined type"),
    }
}

#[test]
fn unsupported_constructs_are_distinct() {
    let cases = [
        ("struct S { }", Construct::Struct),
        ("enum E { }", Construct::Enum),
        ("import a", Construct::Import),
        ("impl S { }", Construct::Impl),
        ("trait T { }", Construct::Trait),
    ];
    for (src, construct) in cases {
        assert_eq!(parse(src).unwrap_err(), ParseError::Unsupported { construct, position: 0 });
    }
    let err = parse("fn f() { } struct S { }").unwrap_err();
    assert_eq!(err, ParseError::Unsupported { construct: Construct::Struct, position: 11 });
    assert!(describe_error(&err).unwrap().contains("not supported"));
}

#[test]
fn malformed_top_level_is_a_syntax_error() {
    let err = parse("42").unwrap_err();
    assert_eq!(err, ParseError::Syntax { position: 0, expected: Rule::File });
    assert_eq!(format_parse_error(&err).unwrap(), "import, struct, enum, fn, or EOF");
}

#[test]
fn empty_source_is_just_end_of_input() {
    let prog = parse("").unwrap();
    assert_eq!(prog.instructions.len(), 1);
    assert!(matches!(prog.instructions[0], TopLevelInstruction::EOI));
}

#[test]
fn several_functions_keep_source_order() {
    let prog = parse("fn a() { } pub fn b() { }").unwrap();
    let names: Vec<String> = prog
        .instructions
        .iter()
        .filter_map(|i| match i {
            TopLevelInstruction::FunctionDefinition(f) => Some(f.name.clone()),
            _ => None,
        })
        .collect();
    assert_eq!(names, vec!["a".to_string(), "b".to_string()]);
}

#[test]
fn unclosed_body_expects_closing_brace() {
    let err = parse("fn f() { { }").unwrap_err();
    assert_eq!(err, ParseError::Syntax { position: 12, expected: Rule::CloseBrace });
}

#[test]
fn lexer_reads_tokens_with_positions() {
    let t = tokenize("pub fn x1 -> 12 <= 3.25").unwrap();
    assert_eq!(t.len(), 8);
    assert!(matches!(t[0].token, Token::Keyword(Keyword::Pub)));
    assert!(matches!(t[1].token, Token::Keyword(Keyword::Fn)));
    match &t[2].token {
        Token::Ident(s) => assert_eq!(s, "x1"),
        _ => panic!("expected an identifier"),
    }
    assert_eq!(t[2].position, 7);
    assert!(matches!(t[3].token, Token::Symbol(Symbol::Arrow)));
    assert!(matches!(t[4].token, Token::Integer(12)));
    assert!(matches!(t[5].token, Token::Symbol(Symbol::Le)));
    match &t[6].token {
        Token::Float(s) => assert_eq!(s, "3.25"),
        _ => panic!("expected a float"),
    }
    assert!(matches!(t[7].token, Token::Eoi));
    assert_eq!(t[7].position, 23);
}

#[test]
fn lexer_rejects_unknown_characters() {
    assert_eq!(tokenize("a $").unwrap_err(), ParseError::Syntax { position: 2, expected: Rule::Token });
}

#[test]
fn integer_literal_limits() {
    assert!(matches!(parse_expression("9223372036854775807"), Ok(Expression::Integer(i64::MAX))));
    assert_eq!(
        parse_expression("9223372036854775808").unwrap_err(),
        ParseError::IntegerOverflow { position: 0 }
    );
}

#[test]
fn operator_table() {
    assert_eq!(binding_power(Op::Xor), (1, false));
    assert_eq!(binding_power(Op::Not), (4, false));
    assert_eq!(binding_power(Op::Power), (10, true));
    assert_eq!(binding_power(Op::Multiply), (9, false));
}

#[test]
fn absent_type_is_inferred() {
    let t = tokenize(") int").unwrap();
    let (ty, next) = parse_type(&t, 0).unwrap();
    assert!(matches!(ty, Type::Inferred));
    assert_eq!(next, 0);
    let (ty, next) = parse_type(&t, 1).unwrap();
    assert!(matches!(ty, Type::Integer { signed: true, size: 64 }));
    assert_eq!(next, 2);
}

#[test]
fn colon_without_type_is_a_missing_parameter_type() {
    assert_eq!(parse("fn f(x:) { }").unwrap_err(), ParseError::MissingParameterType { position: 5 });
}

#[test]
fn arrow_without_type_is_a_syntax_error() {
    assert_eq!(
        parse("fn f() -> { }").unwrap_err(),
        ParseError::Syntax { position: 10, expected: Rule::Type }
    );
}

#[test]
fn float_with_long_integer_part_is_accepted() {
    assert_eq!(expr("99999999999999999999.5"), "99999999999999999999.5");
}

#[test]
fn lexer_reports_first_bad_character() {
    assert_eq!(tokenize("1.5 $ #").unwrap_err(), ParseError::Syntax { position: 4, expected: Rule::Token });
    assert_eq!(
        tokenize("7 + 12345678901234567890").unwrap_err(),
        ParseError::IntegerOverflow { position: 4 }
    );
}
