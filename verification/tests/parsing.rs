use ackulator::expression::{BinaryOp, Expression, NumberLiteral};
use ackulator::grammar::parse_expression;
use ackulator::statement::{parse_statement, parse_statements, Statement};

fn parsed(input: &str) -> (String, Expression) {
    parse_expression(input).expect("the input starts with an expression")
}

fn number(e: &Expression) -> &NumberLiteral {
    match e {
        Expression::NumericLiteral(literal) => literal,
        other => panic!("no number: {:?}", other),
    }
}

fn name(e: &Expression) -> &str {
    match e {
        Expression::LookupName(name) => name,
        other => panic!("no name: {:?}", other),
    }
}

fn binary(e: &Expression) -> (&Expression, BinaryOp, &Expression) {
    match e {
        Expression::BinaryExpr(lhs, op, rhs) => (lhs, *op, rhs),
        other => panic!("no binary expression: {:?}", other),
    }
}

#[test]
fn numbers_keep_their_parts() {
    let (rest, e) = parsed("-12.50e-3 rest");
    assert_eq!(rest, "rest");
    let literal = number(&e);
    assert!(literal.negative);
    assert_eq!(literal.integer_part.as_deref(), Some("12"));
    assert_eq!(literal.fractional_part.as_deref(), Some("50"));
    assert_eq!(literal.exponent, Some(-3));
    assert!(!literal.malformed);

    let (rest, e) = parsed(".5");
    assert_eq!(rest, "");
    let literal = number(&e);
    assert!(!literal.negative);
    assert_eq!(literal.integer_part, None);
    assert_eq!(literal.fractional_part.as_deref(), Some("5"));
    assert_eq!(literal.exponent, None);

    let (rest, e) = parsed("+7e+2");
    assert_eq!(rest, "");
    let literal = number(&e);
    assert!(!literal.negative);
    assert_eq!(literal.integer_part.as_deref(), Some("7"));
    assert_eq!(literal.exponent, Some(2));
}

#[test]
fn a_point_or_an_e_without_digits_is_left_unread() {
    let (rest, e) = parsed("3.x");
    assert_eq!(rest, ".x");
    assert_eq!(number(&e).integer_part.as_deref(), Some("3"));
    assert_eq!(number(&e).fractional_part, None);
    let (rest, e) = parsed("3e+");
    assert_eq!(rest, "e+");
    assert_eq!(number(&e).exponent, None);
}

#[test]
fn an_exponent_too_large_marks_the_number_and_does_not_stop_the_parse() {
    let (rest, e) = parsed("1e2147483647");
    assert_eq!(rest, "");
    assert_eq!(number(&e).exponent, Some(2147483647));
    assert!(!number(&e).malformed);
    let (rest, e) = parsed("1e-2147483647");
    assert_eq!(rest, "");
    assert_eq!(number(&e).exponent, Some(-2147483647));
    let (rest, e) = parsed("1e2147483648 + 2");
    assert_eq!(rest, "");
    let (lhs, op, rhs) = binary(&e);
    assert_eq!(op, BinaryOp::Add);
    assert!(number(lhs).malformed);
    assert_eq!(number(lhs).exponent, Some(0));
    assert_eq!(number(rhs).integer_part.as_deref(), Some("2"));
    let (_, e) = parsed("1e99999999999999999999999");
    assert!(number(&e).malformed);
}

#[test]
fn identifiers_take_letters_digits_and_underscores() {
    let (rest, e) = parsed("speed_of_light2 + 1");
    assert_eq!(rest, "");
    assert_eq!(name(binary(&e).0), "speed_of_light2");
    let (rest, e) = parsed("_x-y");
    assert_eq!(rest, "");
    assert_eq!(name(binary(&e).0), "_x");
    assert_eq!(binary(&e).1, BinaryOp::Sub);
    // letters of any script
    let (rest, e) = parsed("\u{e5}ngstr\u{f6}m\u{3a9}");
    assert_eq!(rest, "");
    assert_eq!(name(&e), "\u{e5}ngstr\u{f6}m\u{3a9}");
    // a digit does not start a name
    let (rest, e) = parsed("2x");
    assert_eq!(rest, "x");
    assert_eq!(number(&e).integer_part.as_deref(), Some("2"));
}

#[test]
fn strings_run_to_the_next_quote_without_escapes() {
    let (rest, e) = parsed("\"a \\ b\" tail");
    assert_eq!(rest, "tail");
    match e {
        Expression::StringLiteral(text) => assert_eq!(text, "a \\ b"),
        other => panic!("no string: {:?}", other),
    }
    let (_, e) = parsed("\"\"");
    assert!(matches!(e, Expression::StringLiteral(ref text) if text.is_empty()));
    assert!(parse_expression("\"open").is_err());
    assert!(parse_expression("\"line\nbreak\"").is_err());
}

#[test]
fn products_bind_tighter_than_sums_and_group_from_the_left() {
    let (rest, e) = parsed("a - b * c / d + e");
    assert_eq!(rest, "");
    // ((a - ((b * c) / d)) + e)
    let (sum_lhs, op, sum_rhs) = binary(&e);
    assert_eq!(op, BinaryOp::Add);
    assert_eq!(name(sum_rhs), "e");
    let (a, op, quotient) = binary(sum_lhs);
    assert_eq!(op, BinaryOp::Sub);
    assert_eq!(name(a), "a");
    let (product, op, d) = binary(quotient);
    assert_eq!(op, BinaryOp::Div);
    assert_eq!(name(d), "d");
    let (b, op, c) = binary(product);
    assert_eq!(op, BinaryOp::Mul);
    assert_eq!(name(b), "b");
    assert_eq!(name(c), "c");
}

#[test]
fn powers_group_from_the_right() {
    let (rest, e) = parsed("a ^ b ^ c * d");
    assert_eq!(rest, "");
    let (power, op, d) = binary(&e);
    assert_eq!(op, BinaryOp::Mul);
    assert_eq!(name(d), "d");
    let (a, op, inner) = binary(power);
    assert_eq!(op, BinaryOp::Pow);
    assert_eq!(name(a), "a");
    let (b, op, c) = binary(inner);
    assert_eq!(op, BinaryOp::Pow);
    assert_eq!(name(b), "b");
    assert_eq!(name(c), "c");
}

#[test]
fn parentheses_group() {
    let (rest, e) = parsed("(a + b) * c");
    assert_eq!(rest, "");
    let (sum, op, c) = binary(&e);
    assert_eq!(op, BinaryOp::Mul);
    assert_eq!(name(c), "c");
    assert_eq!(binary(sum).1, BinaryOp::Add);
    assert!(parse_expression("(a + b").is_err());
    assert!(parse_expression(")").is_err());
    assert!(parse_expression("").is_err());
}

#[test]
fn a_dangling_operator_is_left_unread() {
    let (rest, e) = parsed("a + ");
    assert_eq!(rest, "+ ");
    assert_eq!(name(&e), "a");
    let (rest, _) = parsed("a * * b");
    assert_eq!(rest, "* * b");
}

#[test]
fn functions_are_applied_to_lists_of_arguments() {
    let (rest, e) = parsed("f(a, 1 + 2,)");
    assert_eq!(rest, "");
    match &e {
        Expression::ApplyFunction { function, arguments } => {
            assert_eq!(name(function), "f");
            assert_eq!(arguments.len(), 2);
            assert_eq!(name(&arguments[0]), "a");
            assert_eq!(binary(&arguments[1]).1, BinaryOp::Add);
        }
        other => panic!("no application: {:?}", other),
    }
    let (rest, e) = parsed("g( )");
    assert_eq!(rest, "");
    assert!(matches!(e, Expression::ApplyFunction { ref arguments, .. } if arguments.is_empty()));
    // without the closing parenthesis the name stands alone
    let (rest, e) = parsed("f(a");
    assert_eq!(rest, "(a");
    assert_eq!(name(&e), "f");
}

#[test]
fn entities_have_properties_and_classes_in_any_order() {
    let (rest, e) = parsed("{ metric, class: Length, symbol: \"m\", big , }");
    assert_eq!(rest, "");
    match &e {
        Expression::BuildEntity { properties, class_names } => {
            assert_eq!(class_names, &vec!["metric".to_string(), "big".to_string()]);
            assert_eq!(properties.len(), 2);
            assert_eq!(properties[0].0, "class");
            assert_eq!(name(&properties[0].1), "Length");
            assert_eq!(properties[1].0, "symbol");
            assert!(matches!(properties[1].1, Expression::StringLiteral(ref s) if s == "m"));
        }
        other => panic!("no entity: {:?}", other),
    }
    for empty in ["{}", "{ }", "{\n}"] {
        let (rest, e) = parsed(empty);
        assert_eq!(rest, "");
        assert!(matches!(
            e,
            Expression::BuildEntity { ref properties, ref class_names }
                if properties.is_empty() && class_names.is_empty()
        ));
    }
    assert!(parse_expression("{ a: }").is_err());
    assert!(parse_expression("{ a b }").is_err());
    assert!(parse_expression("{ a").is_err());
}

#[test]
fn space_and_comments_are_skipped_around_atoms() {
    let (rest, e) = parsed(" \t a // the first\n\t+\u{a0}b // the second");
    assert_eq!(rest, "");
    let (a, op, b) = binary(&e);
    assert_eq!(op, BinaryOp::Add);
    assert_eq!(name(a), "a");
    assert_eq!(name(b), "b");
}

#[test]
fn failure_reports_the_whole_input() {
    let error = parse_expression("* 2").unwrap_err();
    assert_eq!(error.remaining, "* 2");
    let error = parse_statement("  make nothing").unwrap_err();
    assert_eq!(error.remaining, "  make nothing");
}

#[test]
fn a_unit_class_has_names_and_no_value() {
    let (rest, s) = parse_statement(" make unit_class called Length, Distance \n next").unwrap();
    assert_eq!(rest, "next");
    match s {
        Statement::MakeUnitClass(names) => {
            assert_eq!(names, vec!["Length".to_string(), "Distance".to_string()])
        }
        other => panic!("{:?}", other),
    }
}

#[test]
fn units_and_values_need_an_expression() {
    let (rest, s) = parse_statement("make base_unit called Meter, Meters { class: Length }").unwrap();
    assert_eq!(rest, "");
    assert!(matches!(s, Statement::MakeBaseUnit(ref names, Expression::BuildEntity { .. }) if names.len() == 2));
    let (_, s) = parse_statement("make derived_unit called Foot { value: 0.3048 * Meters }").unwrap();
    assert!(matches!(s, Statement::MakeDerivedUnit(..)));
    let (_, s) = parse_statement("make value called Ball { radius: r }").unwrap();
    assert!(matches!(s, Statement::MakeValue(..)));
    assert!(parse_statement("make base_unit called Meter").is_err());
    assert!(parse_statement("make derived_unit called Foot").is_err());
    assert!(parse_statement("make value called Ball").is_err());
    assert!(parse_statement("make base_unit Meter").is_err());
    assert!(parse_statement("make base_unit called 2").is_err());
    assert!(parse_statement("make speed called x").is_err());
    assert!(parse_statement("made unit_class called x").is_err());
}

#[test]
fn a_label_has_the_word_for_before_its_expression() {
    let (rest, s) = parse_statement("make label called Velocity for Length / Time\nshow x").unwrap();
    assert_eq!(rest, "show x");
    match s {
        Statement::MakeLabel(names, e) => {
            assert_eq!(names, vec!["Velocity".to_string()]);
            let (lhs, op, rhs) = binary(&e);
            assert_eq!(op, BinaryOp::Div);
            assert_eq!(name(lhs), "Length");
            assert_eq!(name(rhs), "Time");
        }
        other => panic!("{:?}", other),
    }
    assert!(parse_statement("make label called Velocity Length / Time").is_err());
    assert!(parse_statement("make label called Velocity for").is_err());
}

#[test]
fn an_entity_class_takes_a_value_only_behind_a_brace() {
    let (rest, s) = parse_statement("make entity_class called metric\nmake entity_class called x").unwrap();
    assert_eq!(rest, "make entity_class called x");
    assert!(matches!(
        s,
        Statement::MakeEntityClass(ref names, Expression::BuildEntity { ref properties, ref class_names })
            if names.len() == 1 && properties.is_empty() && class_names.is_empty()
    ));
    let (rest, s) = parse_statement("make entity_class called Ball { round }").unwrap();
    assert_eq!(rest, "");
    assert!(matches!(
        s,
        Statement::MakeEntityClass(_, Expression::BuildEntity { ref class_names, .. })
            if class_names.len() == 1
    ));
}

#[test]
fn show_has_an_expression() {
    let (rest, s) = parse_statement("show 1 + 2 // sum\n").unwrap();
    assert_eq!(rest, "");
    assert!(matches!(s, Statement::Show(Expression::BinaryExpr(..))));
    assert!(parse_statement("show").is_err());
}

#[test]
fn a_program_is_statements_and_nothing_else() {
    let list = parse_statements("// units\nmake unit_class called Length\nshow Length\n").unwrap();
    assert_eq!(list.len(), 2);
    let error = parse_statements("show a\nshow b ) c").unwrap_err();
    assert_eq!(error.remaining, ") c");
    let error = parse_statements("").unwrap_err();
    assert_eq!(error.remaining, "");
    let error = parse_statements("   nothing here").unwrap_err();
    assert_eq!(error.remaining, "   nothing here");
}

#[test]
fn the_white_space_characters_are_skipped_and_no_others() {
    let spaces = [
        0x09u32, 0x0a, 0x0b, 0x0c, 0x0d, 0x20, 0x85, 0xa0, 0x1680, 0x2000, 0x2001, 0x2002, 0x2003,
        0x2004, 0x2005, 0x2006, 0x2007, 0x2008, 0x2009, 0x200a, 0x2028, 0x2029, 0x202f, 0x205f,
        0x3000,
    ];
    assert_eq!(spaces.len(), 25);
    for code in 0..=0x10ffffu32 {
        if let Some(c) = char::from_u32(code) {
            assert_eq!(c.is_whitespace(), spaces.contains(&code), "U+{:04X}", code);
        }
    }
    for code in spaces {
        let c = char::from_u32(code).unwrap();
        let (rest, e) = parsed(&format!("{}a{}+{}b{}", c, c, c, c));
        assert_eq!(rest, "", "U+{:04X}", code);
        assert_eq!(binary(&e).1, BinaryOp::Add);
    }
    for code in [0x08u32, 0x0e, 0x1f, 0x180e, 0x200b, 0x2060, 0xfeff] {
        let c = char::from_u32(code).unwrap();
        let (rest, e) = parsed(&format!("a{}+b", c));
        assert_eq!(rest, format!("{}+b", c), "U+{:04X}", code);
        assert_eq!(name(&e), "a");
    }
}

#[test]
fn ascii_letters_and_digits_continue_a_name_and_nothing_else_in_ascii() {
    for code in 0..128u32 {
        let c = char::from_u32(code).unwrap();
        let in_name = c.is_ascii_digit() || c.is_ascii_uppercase() || c.is_ascii_lowercase();
        assert_eq!(c.is_alphanumeric(), in_name, "U+{:04X}", code);
        let input = format!("x{}", c);
        let (rest, e) = parsed(&input);
        if in_name || c == '_' {
            assert_eq!(name(&e), input);
            assert_eq!(rest, "");
        } else {
            assert_eq!(name(&e), "x", "U+{:04X}", code);
            let space = [0x09u32, 0x0a, 0x0b, 0x0c, 0x0d, 0x20].contains(&code);
            assert_eq!(rest, if space { String::new() } else { c.to_string() }, "U+{:04X}", code);
        }
    }
}
