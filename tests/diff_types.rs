use surc::ast::SurvFile;
use surc::checker::check_surv_ast;
use surc::diff_impl::types::{DiffResult, ExpectedSymbol, FoundSymbol, SymbolKind, SymbolRange};

fn expected(bind: Option<&str>, lang: Option<&str>) -> ExpectedSymbol {
    ExpectedSymbol {
        surv_name: "createUser".to_string(),
        impl_bind: bind.map(|s| s.to_string()),
        impl_lang: lang.map(|s| s.to_string()),
        impl_path: None,
        kind: SymbolKind::Func,
    }
}

fn found(name: &str) -> FoundSymbol {
    FoundSymbol {
        name: name.to_string(),
        kind: "Function".to_string(),
        uri: "file:///x.rs".to_string(),
        range: SymbolRange { start_line: 1, start_char: 0, end_line: 2, end_char: 1 },
        container_name: None,
        detail: None,
    }
}

#[test]
fn search_name_prefers_binding() {
    assert_eq!(expected(None, None).search_name(), "createUser");
    assert_eq!(expected(Some("create_user"), None).search_name(), "create_user");
}

#[test]
fn language_constraint() {
    assert!(expected(None, None).matches_language("ts"));
    assert!(expected(None, Some("rust")).matches_language("rust"));
    assert!(!expected(None, Some("rust")).matches_language("ts"));
    assert!(expected(None, Some("either")).matches_language("ts"));
}

#[test]
fn diff_result_counts() {
    let mut r = DiffResult::default();
    assert!(!r.has_issues());
    assert_eq!(r.total_expected(), 0);
    r.matched = 3;
    r.missing.push(expected(None, None));
    r.extra.push(found("helper"));
    r.extra.push(found("other"));
    assert!(r.has_issues());
    assert_eq!(r.total_expected(), 4);
    assert_eq!(r.total_found(), 5);
}

#[test]
fn check_surv_ast_on_empty_unit() {
    let unit = SurvFile { package: None, namespace: None, imports: Vec::new(), requires: Vec::new(), sections: Vec::new() };
    assert!(check_surv_ast(&unit).is_empty());
}
