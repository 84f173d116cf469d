use finch::error::FinchError;
use finch::parser::{BinaryOps, ExpressionKind, Parser, Span, TemplateKind, UnaryOps};

#[test]
fn empty_source_is_an_error() {
    assert!(matches!(Parser::parse(""), Err(FinchError::EndOfText)));
}

#[test]
fn plain_text_parses_to_no_tags() {
    let st = Parser::parse("hello world").unwrap();
    assert_eq!(st.pos, Span { start: 0, end: 11 });
    assert_eq!(st.templates.len(), 0);
}

#[test]
fn expression_tag_spans_are_exact() {
    let st = Parser::parse("a{{x}}b").unwrap();
    assert_eq!(st.pos, Span { start: 0, end: 7 });
    assert_eq!(st.templates.len(), 1);
    assert_eq!(st.templates[0].pos, Span { start: 1, end: 6 });
    match &st.templates[0].kind {
        TemplateKind::Expression(ExpressionKind::Var(n)) => assert_eq!(n, "x"),
        _ => panic!("expected a variable expression"),
    }
}

#[test]
fn unterminated_string_reports_expected_quote() {
    // the closing quote never comes: the scan runs to the end of the input
    let r = Parser::parse("{{ \"unterminated }}");
    assert!(matches!(r, Err(FinchError::Expected('"'))));
}

#[test]
fn string_escapes_copy_the_next_character() {
    let st = Parser::parse(r#"{{"a\"b"}}"#).unwrap();
    match &st.templates[0].kind {
        TemplateKind::Expression(ExpressionKind::Str(s)) => assert_eq!(s, "a\"b"),
        _ => panic!("expected a string literal"),
    }
}

#[test]
fn numbers_parse_to_canonical_text() {
    for (tpl, want) in [
        ("{{1_000.50}}", "1000.5"),
        ("{{007}}", "7"),
        ("{{0.000}}", "0"),
        ("{{5.}}", "5"),
        ("{{0.25}}", "0.25"),
    ] {
        let st = Parser::parse(tpl).unwrap();
        match &st.templates[0].kind {
            TemplateKind::Expression(ExpressionKind::Number(n)) => assert_eq!(n, want),
            _ => panic!("expected a numeric literal in {tpl}"),
        }
    }
}

#[test]
fn minus_alone_is_an_invalid_number() {
    assert!(matches!(Parser::parse("{{-}}"), Err(FinchError::InvalidNumber)));
}

#[test]
fn named_literals_take_priority_over_variables() {
    for (tpl, check) in [
        ("{{true}}", ExpressionKind::Bool(true)),
        ("{{false}}", ExpressionKind::Bool(false)),
        ("{{null}}", ExpressionKind::Null),
        ("{{undefined}}", ExpressionKind::Undefined),
    ] {
        let st = Parser::parse(tpl).unwrap();
        match (&st.templates[0].kind, &check) {
            (TemplateKind::Expression(ExpressionKind::Bool(a)), ExpressionKind::Bool(b)) => {
                assert_eq!(a, b)
            }
            (TemplateKind::Expression(ExpressionKind::Null), ExpressionKind::Null) => {}
            (TemplateKind::Expression(ExpressionKind::Undefined), ExpressionKind::Undefined) => {}
            _ => panic!("wrong literal for {tpl}"),
        }
    }
}

#[test]
fn dotted_paths_collect_segments() {
    let st = Parser::parse("{{a.b.c}}").unwrap();
    match &st.templates[0].kind {
        TemplateKind::Expression(ExpressionKind::VarDot(path)) => {
            assert_eq!(path.len(), 3);
            assert_eq!(path[0], "a");
            assert_eq!(path[1], "b");
            assert_eq!(path[2], "c");
        }
        _ => panic!("expected a dotted path"),
    }
}

#[test]
fn trailing_dot_is_missing_prop_name() {
    assert!(matches!(Parser::parse("{{a.}}"), Err(FinchError::MissingPropName)));
}

#[test]
fn unexpected_character_is_reported() {
    assert!(matches!(Parser::parse("{{%}}"), Err(FinchError::Unexpected('%'))));
}

#[test]
fn expected_found_on_stray_tag_close() {
    assert!(matches!(Parser::parse("{{x}y"), Err(FinchError::ExpectedFound('}', 'y'))));
}

#[test]
fn comparison_chain_groups_left_to_right() {
    let st = Parser::parse("{{a == b && c}}").unwrap();
    match &st.templates[0].kind {
        TemplateKind::Expression(ExpressionKind::Binary(b)) => match &**b {
            BinaryOps::And(l, _) => {
                assert!(matches!(l, ExpressionKind::Binary(_)));
            }
            _ => panic!("expected the and at the top"),
        },
        _ => panic!("expected a binary expression"),
    }
}

#[test]
fn short_circuit_marker_wraps_the_expression() {
    let st = Parser::parse("{{x?}}").unwrap();
    match &st.templates[0].kind {
        TemplateKind::Expression(ExpressionKind::Unary(u)) => {
            assert!(matches!(&**u, UnaryOps::ShortCircuit(ExpressionKind::Var(_))))
        }
        _ => panic!("expected the marker"),
    }
}

#[test]
fn call_arguments_parse_in_order() {
    let st = Parser::parse("{{f(1, \"a\")}}").unwrap();
    match &st.templates[0].kind {
        TemplateKind::Expression(ExpressionKind::Call { var, params }) => {
            assert!(matches!(&**var, ExpressionKind::Var(n) if n == "f"));
            assert_eq!(params.len(), 2);
            assert!(matches!(&params[0], ExpressionKind::Number(n) if n == "1"));
            assert!(matches!(&params[1], ExpressionKind::Str(s) if s == "a"));
        }
        _ => panic!("expected a call"),
    }
}

#[test]
fn self_closing_block_has_no_body() {
    let st = Parser::parse("{{#template \"t\" d/}}").unwrap();
    match &st.templates[0].kind {
        TemplateKind::Block(b) => {
            assert_eq!(b.name, "template");
            assert_eq!(b.params.len(), 2);
            assert!(b.block.is_none());
            assert!(b.chain.is_none());
        }
        _ => panic!("expected a block"),
    }
}

#[test]
fn block_with_body_records_the_body_span() {
    let st = Parser::parse("{{#if true}}ABC{{/if}}").unwrap();
    match &st.templates[0].kind {
        TemplateKind::Block(b) => {
            assert_eq!(b.name, "if");
            let body = b.block.as_ref().unwrap();
            assert_eq!(body.pos, Span { start: 12, end: 15 });
            assert!(b.chain.is_none());
        }
        _ => panic!("expected a block"),
    }
}

#[test]
fn else_chains_to_the_enclosing_if() {
    let st = Parser::parse("{{#if false}}A{{#else}}B{{/if}}").unwrap();
    match &st.templates[0].kind {
        TemplateKind::Block(b) => {
            assert_eq!(b.name, "if");
            let chain = b.chain.as_ref().unwrap();
            assert_eq!(chain.name, "else");
            assert!(chain.block.is_some());
        }
        _ => panic!("expected a block"),
    }
}

#[test]
fn chained_if_keeps_its_own_else() {
    let st = Parser::parse("{{#if false}}A{{#if true}}B{{#else}}C{{/if}}{{/if}}").unwrap();
    match &st.templates[0].kind {
        TemplateKind::Block(b) => {
            let c1 = b.chain.as_ref().unwrap();
            assert_eq!(c1.name, "if");
            let c2 = c1.chain.as_ref().unwrap();
            assert_eq!(c2.name, "else");
        }
        _ => panic!("expected a block"),
    }
}

#[test]
fn block_nested_in_each_stays_in_the_body() {
    let st = Parser::parse("{{#each l \"x\"}}{{#if c}}T{{/if}}{{/each}}").unwrap();
    match &st.templates[0].kind {
        TemplateKind::Block(b) => {
            assert_eq!(b.name, "each");
            assert!(b.chain.is_none());
            let body = b.block.as_ref().unwrap();
            assert_eq!(body.templates.len(), 1);
            assert!(matches!(&body.templates[0].kind, TemplateKind::Block(i) if i.name == "if"));
        }
        _ => panic!("expected a block"),
    }
}

#[test]
fn mismatched_close_name_is_rejected() {
    let r = Parser::parse("{{#each l \"x\"}}B{{/if}}");
    assert!(matches!(r, Err(FinchError::UnexpectedClose(n)) if n == "if"));
}

#[test]
fn unterminated_block_is_an_error() {
    assert!(matches!(Parser::parse("{{#if true}}A"), Err(FinchError::EndOfText)));
}

#[test]
fn anonymous_close_matches_any_block() {
    let st = Parser::parse("{{#if true}}A{{/}}").unwrap();
    assert!(matches!(&st.templates[0].kind, TemplateKind::Block(b) if b.name == "if"));
}

#[test]
fn leaf_scanners_work_standalone() {
    let mut p = Parser::new("abc}");
    assert!(p.is_next('a'));
    let v = p.parse_var().unwrap();
    assert_eq!(v, "abc");
    assert!(p.is_next('}'));
    assert!(p.skip_token('}').is_ok());

    let mut q = Parser::new("   x");
    q.skip_while(' ');
    assert!(q.is_next('x'));

    let mut s = Parser::new("\"hi\"!");
    assert_eq!(s.parse_string().unwrap(), "hi");
    assert!(s.is_next('!'));

    let mut n = Parser::new("01_2.30)");
    assert_eq!(n.parse_number().unwrap(), "12.3");
    assert!(n.is_next(')'));
}
