use surc::parser::{parse_inline_brace_set, parse_pipeline_chain};

#[test]
fn parses_inline_brace_set() {
    let cases = vec![
        (r#"{ "a", "b", "c" }"#, vec!["a".to_string(), "b".to_string(), "c".to_string()]),
        (r#"{ a, b }"#, vec!["a".to_string(), "b".to_string()]),
        (r#"{ }"#, Vec::<String>::new()),
        (r#"{ "schema.user" }"#, vec!["schema.user".to_string()]),
    ];
    for (input, expected) in cases {
        assert_eq!(parse_inline_brace_set(input), expected);
    }
}

#[test]
fn parses_pipeline_chain() {
    let cases = vec![
        ("func.a -> func.b", vec!["func.a".to_string(), "func.b".to_string()]),
        (
            "func.a -> func.b -> func.c",
            vec!["func.a".to_string(), "func.b".to_string(), "func.c".to_string()],
        ),
        ("func.single", vec!["func.single".to_string()]),
        ("{ func.a -> func.b }", vec!["func.a".to_string(), "func.b".to_string()]),
    ];
    for (input, expected) in cases {
        assert_eq!(parse_pipeline_chain(input), expected);
    }
}

#[test]
fn brace_set_drops_empty_entries_and_quotes() {
    assert_eq!(parse_inline_brace_set(r#"{ "x",, ""y"" , }"#), vec!["x".to_string(), "y".to_string()]);
    assert_eq!(parse_pipeline_chain("a ->  -> b->"), vec!["a".to_string(), "b".to_string()]);
    assert!(parse_pipeline_chain("   ").is_empty());
}
