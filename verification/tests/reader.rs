use rsp::ast::Expr;
use rsp::parser::parse_expr;

fn num_p(x: f64) -> Expr {
    Expr::Number(x.to_bits())
}

#[test]
fn parser_test_parse_simple_number() {
    let result = parse_expr("123");
    assert_eq!(result, Ok(("", Some(num_p(123.0)))));
}

#[test]
fn parser_test_parse_number_with_leading_whitespace() {
    let result = parse_expr("  456");
    assert_eq!(result, Ok(("", Some(num_p(456.0)))));
}

#[test]
fn parser_test_parse_number_with_trailing_whitespace() {
    let result = parse_expr("789  ");
    assert_eq!(result, Ok(("", Some(num_p(789.0)))));
}

#[test]
fn parser_test_parse_number_with_both_whitespace() {
    let result = parse_expr("  123.45  ");
    assert_eq!(result, Ok(("", Some(num_p(123.45)))));
}

#[test]
fn parser_test_parse_negative_number() {
    let result = parse_expr("-10.5");
    assert_eq!(result, Ok(("", Some(num_p(-10.5)))));
}

#[test]
fn parser_test_parse_number_with_plus_sign() {
    // nom's `double` parser handles optional leading `+` or `-`.
    let result = parse_expr("+77");
    assert_eq!(result, Ok(("", Some(num_p(77.0)))));
}

#[test]
fn parser_test_parse_number_scientific_notation() {
    let result = parse_expr("1.23e-4");
    assert_eq!(result, Ok(("", Some(num_p(0.000123)))));
    let result_caps = parse_expr("  3.14E5  ");
    assert_eq!(result_caps, Ok(("", Some(num_p(314000.0)))));
}

#[test]
fn parser_test_parse_number_leaves_remaining_input() {
    let result = parse_expr("123 abc");
    assert_eq!(result, Ok(("abc", Some(num_p(123.0)))));
}

#[test]
fn parser_test_parse_number_leaves_remaining_input_no_trailing_ws_for_number() {
    let result = parse_expr("123abc"); // No space after number
    assert_eq!(result, Ok(("abc", Some(num_p(123.0)))));
}

#[test]
fn parser_test_parse_not_a_number() {
    let result = parse_expr("abc");
    // "abc" is not a number, bool, or nil, so it should be parsed as a symbol.
    assert_eq!(
        result,
        Ok(("", Some(Expr::Symbol("abc".to_string())))),
        "Should parse 'abc' as a symbol. Got: {:?}",
        result
    );
}

#[test]
fn parser_test_parse_empty_input() {
    let result = parse_expr("");
    assert_eq!(
        result,
        Ok(("", None)),
        "Empty string should parse as None. Got: {:?}",
        result
    );
}

#[test]
fn parser_test_parse_only_whitespace() {
    let result = parse_expr("   ");
    assert_eq!(
        result,
        Ok(("", None)),
        "Whitespace-only string should parse as None. Got: {:?}",
        result
    );
}

#[test]
fn parser_test_parse_true_literal() {
    assert_eq!(parse_expr("true"), Ok(("", Some(Expr::Bool(true)))));
    assert_eq!(parse_expr("  true  "), Ok(("", Some(Expr::Bool(true)))));
}

#[test]
fn parser_test_parse_false_literal() {
    assert_eq!(parse_expr("false"), Ok(("", Some(Expr::Bool(false)))));
    assert_eq!(parse_expr("  false  "), Ok(("", Some(Expr::Bool(false)))));
}

#[test]
fn parser_test_parse_nil_literal() {
    assert_eq!(parse_expr("nil"), Ok(("", Some(Expr::Nil))));
    assert_eq!(parse_expr("  nil  "), Ok(("", Some(Expr::Nil))));
}

#[test]
fn parser_test_parse_simple_symbol() {
    assert_eq!(
        parse_expr("foo"),
        Ok(("", Some(Expr::Symbol("foo".to_string()))))
    );
    assert_eq!(
        parse_expr("  bar  "),
        Ok(("", Some(Expr::Symbol("bar".to_string()))))
    );
}

#[test]
fn parser_test_parse_symbol_with_hyphen() {
    assert_eq!(
        parse_expr("my-variable"),
        Ok(("", Some(Expr::Symbol("my-variable".to_string()))))
    );
}

#[test]
fn parser_test_parse_symbol_with_numbers() {
    assert_eq!(
        parse_expr("var123"),
        Ok(("", Some(Expr::Symbol("var123".to_string()))))
    );
}

#[test]
fn parser_test_parse_symbol_with_question_mark() {
    assert_eq!(
        parse_expr("list?"),
        Ok(("", Some(Expr::Symbol("list?".to_string()))))
    );
}

#[test]
fn parser_test_parse_symbol_with_special_chars() {
    assert_eq!(
        parse_expr("+"),
        Ok(("", Some(Expr::Symbol("+".to_string()))))
    );
    assert_eq!(
        parse_expr("-"),
        Ok(("", Some(Expr::Symbol("-".to_string()))))
    );
    assert_eq!(
        parse_expr("*"),
        Ok(("", Some(Expr::Symbol("*".to_string()))))
    );
    assert_eq!(
        parse_expr("/"),
        Ok(("", Some(Expr::Symbol("/".to_string()))))
    );
    assert_eq!(
        parse_expr("="),
        Ok(("", Some(Expr::Symbol("=".to_string()))))
    );
    assert_eq!(
        parse_expr("<="),
        Ok(("", Some(Expr::Symbol("<=".to_string()))))
    );
}

#[test]
fn parser_test_parse_symbol_is_not_number() {
    let result = parse_expr("123");
    assert_eq!(result, Ok(("", Some(num_p(123.0)))));
}

#[test]
fn parser_test_parse_symbol_keywords_as_symbols() {
    assert_eq!(
        parse_expr("let"),
        Ok(("", Some(Expr::Symbol("let".to_string()))))
    );
    assert_eq!(
        parse_expr("if"),
        Ok(("", Some(Expr::Symbol("if".to_string()))))
    );
    assert_eq!(
        parse_expr("quote"),
        Ok(("", Some(Expr::Symbol("quote".to_string()))))
    );
    assert_eq!(
        parse_expr("fn"),
        Ok(("", Some(Expr::Symbol("fn".to_string()))))
    );
}

#[test]
fn parser_test_parse_symbol_leaves_remaining_input() {
    assert_eq!(
        parse_expr("symbol-name rest"),
        Ok(("rest", Some(Expr::Symbol("symbol-name".to_string()))))
    );
    assert_eq!(
        parse_expr("  symbol-name   rest"),
        Ok(("rest", Some(Expr::Symbol("symbol-name".to_string()))))
    );
}

#[test]
fn parser_test_parse_true_leaves_remaining_input() {
    assert_eq!(
        parse_expr("true rest"),
        Ok(("rest", Some(Expr::Bool(true))))
    );
}

#[test]
fn parser_test_parse_symbol_starting_with_dot_if_allowed() {
    let result = parse_expr(".foo");
    assert_eq!(
        result,
        Ok((".foo", None)),
        "Symbol starting with '.' should not parse as a valid expression: {:?}",
        result
    );
}

#[test]
fn parser_test_parse_symbol_with_dot_allowed_internally() {
    assert_eq!(
        parse_expr("foo.bar"),
        Ok(("", Some(Expr::Symbol("foo.bar".to_string()))))
    );
}

#[test]
fn parser_test_parse_symbol_cannot_be_just_dots_if_not_special() {
    assert_eq!(
        parse_expr("."),
        Ok((".", None)),
        "Single dot should not parse as valid expr. Got: {:?}",
        parse_expr(".")
    );
    assert_eq!(
        parse_expr(".."),
        Ok(("..", None)),
        "Double dot should not parse as valid expr. Got: {:?}",
        parse_expr("..")
    );
    assert_eq!(
        parse_expr("..."),
        Ok(("...", None)),
        "Triple dot should not parse as valid expr. Got: {:?}",
        parse_expr("...")
    );
}

#[test]
fn parser_test_parse_empty_list() {
    assert_eq!(parse_expr("()"), Ok(("", Some(Expr::List(vec![])))));
    assert_eq!(parse_expr(" ( ) "), Ok(("", Some(Expr::List(vec![])))));
}

#[test]
fn parser_test_parse_list_with_one_number() {
    assert_eq!(
        parse_expr("(1)"),
        Ok(("", Some(Expr::List(vec![num_p(1.0)]))))
    );
    assert_eq!(
        parse_expr(" ( 1 ) "),
        Ok(("", Some(Expr::List(vec![num_p(1.0)]))))
    );
}

#[test]
fn parser_test_parse_list_with_multiple_numbers() {
    assert_eq!(
        parse_expr("(1 2 3)"),
        Ok((
            "",
            Some(Expr::List(vec![
                num_p(1.0),
                num_p(2.0),
                num_p(3.0)
            ]))
        ))
    );
    assert_eq!(
        parse_expr(" (  1   2   3  ) "),
        Ok((
            "",
            Some(Expr::List(vec![
                num_p(1.0),
                num_p(2.0),
                num_p(3.0)
            ]))
        ))
    );
}

#[test]
fn parser_test_parse_list_with_symbols() {
    assert_eq!(
        parse_expr("(a b c)"),
        Ok((
            "",
            Some(Expr::List(vec![
                Expr::Symbol("a".to_string()),
                Expr::Symbol("b".to_string()),
                Expr::Symbol("c".to_string())
            ]))
        ))
    );
}

#[test]
fn parser_test_parse_list_with_mixed_types() {
    assert_eq!(
        parse_expr("(+ 1 foo)"),
        Ok((
            "",
            Some(Expr::List(vec![
                Expr::Symbol("+".to_string()),
                num_p(1.0),
                Expr::Symbol("foo".to_string())
            ]))
        ))
    );
}

#[test]
fn parser_test_parse_nested_empty_list() {
    assert_eq!(
        parse_expr("(())"),
        Ok(("", Some(Expr::List(vec![Expr::List(vec![])]))))
    );
    assert_eq!(
        parse_expr("( ( ) )"), // With spaces
        Ok(("", Some(Expr::List(vec![Expr::List(vec![])]))))
    );
}

#[test]
fn parser_test_parse_nested_list() {
    assert_eq!(
        parse_expr("(a (b) c)"),
        Ok((
            "",
            Some(Expr::List(vec![
                Expr::Symbol("a".to_string()),
                Expr::List(vec![Expr::Symbol("b".to_string())]),
                Expr::Symbol("c".to_string())
            ]))
        ))
    );
}

#[test]
fn parser_test_parse_deeply_nested_list() {
    let input = "(a (b (c (d) e) f) g)";
    let expected = Some(Expr::List(vec![
        Expr::Symbol("a".to_string()),
        Expr::List(vec![
            Expr::Symbol("b".to_string()),
            Expr::List(vec![
                Expr::Symbol("c".to_string()),
                Expr::List(vec![Expr::Symbol("d".to_string())]),
                Expr::Symbol("e".to_string()),
            ]),
            Expr::Symbol("f".to_string()),
        ]),
        Expr::Symbol("g".to_string()),
    ]));
    assert_eq!(parse_expr(input), Ok(("", expected)));
}

#[test]
fn parser_test_parse_list_leaves_remaining_input() {
    assert_eq!(
        parse_expr("(a b) c"),
        Ok((
            "c",
            Some(Expr::List(vec![
                Expr::Symbol("a".to_string()),
                Expr::Symbol("b".to_string())
            ]))
        ))
    );
}

#[test]
fn parser_test_parse_list_unmatched_opening_paren() {
    let result = parse_expr("(a b");
    assert_eq!(
        result,
        Ok(("(a b", None)),
        "Unmatched opening paren should result in no expr parsed. Got: {:?}",
        result
    );
}

#[test]
fn parser_test_parse_list_unmatched_closing_paren() {
    let result = parse_expr("(a b))");
    assert_eq!(
        result,
        Ok((
            ")",
            Some(Expr::List(vec![
                Expr::Symbol("a".to_string()),
                Expr::Symbol("b".to_string())
            ]))
        ))
    );

    let result_just_paren = parse_expr(")");
    assert_eq!(
        result_just_paren,
        Ok((")", None)),
        "Stray closing paren should result in no expr parsed. Got: {:?}",
        result_just_paren
    );
}

#[test]
fn parser_test_parse_list_no_space_between_elements() {
    assert_eq!(
        parse_expr("(ab)"),
        Ok(("", Some(Expr::List(vec![Expr::Symbol("ab".to_string())]))))
    );
    assert_eq!(
        parse_expr("(a b)"),
        Ok((
            "",
            Some(Expr::List(vec![
                Expr::Symbol("a".to_string()),
                Expr::Symbol("b".to_string())
            ]))
        ))
    );
    let result = parse_expr("(1-2)");
    assert_eq!(
        result,
        Ok(("(1-2)", None)),
        "Parsing (1-2) should result in no expr. Got: {:?}",
        result
    );

    assert_eq!(
        parse_expr("(+1)"),
        Ok(("", Some(Expr::List(vec![num_p(1.0)]))))
    );
}

#[test]
fn test_parse_quoted_symbol() {
    assert_eq!(
        parse_expr("'foo"),
        Ok((
            "",
            Some(Expr::List(vec![
                Expr::Symbol("quote".to_string()),
                Expr::Symbol("foo".to_string())
            ]))
        ))
    );
    assert_eq!(
        parse_expr("  'bar  "), // With surrounding whitespace
        Ok((
            "",
            Some(Expr::List(vec![
                Expr::Symbol("quote".to_string()),
                Expr::Symbol("bar".to_string())
            ]))
        ))
    );
}

#[test]
fn test_parse_quoted_number() {
    assert_eq!(
        parse_expr("'123"),
        Ok((
            "",
            Some(Expr::List(vec![
                Expr::Symbol("quote".to_string()),
                num_p(123.0)
            ]))
        ))
    );
}

#[test]
fn test_parse_quoted_string() {
    assert_eq!(
        parse_expr("'\"hello world\""),
        Ok((
            "",
            Some(Expr::List(vec![
                Expr::Symbol("quote".to_string()),
                Expr::String("hello world".to_string())
            ]))
        ))
    );
}

#[test]
fn test_parse_quoted_list() {
    assert_eq!(
        parse_expr("'(a b c)"),
        Ok((
            "",
            Some(Expr::List(vec![
                Expr::Symbol("quote".to_string()),
                Expr::List(vec![
                    Expr::Symbol("a".to_string()),
                    Expr::Symbol("b".to_string()),
                    Expr::Symbol("c".to_string())
                ])
            ]))
        ))
    );
}

#[test]
fn test_parse_quoted_empty_list() {
    assert_eq!(
        parse_expr("'()"),
        Ok((
            "",
            Some(Expr::List(vec![
                Expr::Symbol("quote".to_string()),
                Expr::List(vec![])
            ]))
        ))
    );
}

#[test]
fn test_parse_double_quote() {
    // ''foo  is (quote (quote foo))
    assert_eq!(
        parse_expr("''foo"),
        Ok((
            "",
            Some(Expr::List(vec![
                Expr::Symbol("quote".to_string()),
                Expr::List(vec![
                    Expr::Symbol("quote".to_string()),
                    Expr::Symbol("foo".to_string())
                ])
            ]))
        ))
    );
}

#[test]
fn test_parse_quote_with_internal_whitespace() {
    // '  foo should parse as (quote foo)
    assert_eq!(
        parse_expr("'  foo"),
        Ok((
            "",
            Some(Expr::List(vec![
                Expr::Symbol("quote".to_string()),
                Expr::Symbol("foo".to_string())
            ]))
        ))
    );
    // '  (a b) should parse as (quote (a b))
    assert_eq!(
        parse_expr("'  (a b)"),
        Ok((
            "",
            Some(Expr::List(vec![
                Expr::Symbol("quote".to_string()),
                Expr::List(vec![
                    Expr::Symbol("a".to_string()),
                    Expr::Symbol("b".to_string())
                ])
            ]))
        ))
    );
}

#[test]
fn test_parse_quoted_list_with_quoted_element() {
    // '(a 'b c) should parse as (quote (a (quote b) c))
    let expected = Some(Expr::List(vec![
        Expr::Symbol("quote".to_string()),
        Expr::List(vec![
            Expr::Symbol("a".to_string()),
            Expr::List(vec![
                Expr::Symbol("quote".to_string()),
                Expr::Symbol("b".to_string()),
            ]),
            Expr::Symbol("c".to_string()),
        ]),
    ]));
    assert_eq!(parse_expr("'(a 'b c)"), Ok(("", expected)));
}

#[test]
fn test_parse_quote_leaves_remaining_input() {
    assert_eq!(
        parse_expr("'foo bar"),
        Ok((
            "bar",
            Some(Expr::List(vec![
                Expr::Symbol("quote".to_string()),
                Expr::Symbol("foo".to_string())
            ]))
        ))
    );
}

