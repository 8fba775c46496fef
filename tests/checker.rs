use surc::ast::{FuncSection, MetaSection, ModSection, SchemaSection, Section, SurvFile};
use surc::checker::check_surv_file;
use surc::diagnostic::Diagnostic;

fn s(v: &str) -> String {
    v.to_string()
}

fn list(v: &[&str]) -> Vec<String> {
    v.iter().map(|x| x.to_string()).collect()
}

fn meta() -> Section {
    Section::Meta(MetaSection { name: s("test"), version: String::new(), description: String::new() })
}

fn schema_full(name: &str, kind: &str, from: &str, to: &str, over: &[&str]) -> Section {
    Section::Schema(SchemaSection {
        name: s(name),
        kind: s(kind),
        role: String::new(),
        data_type: String::new(),
        from: s(from),
        to: s(to),
        base: String::new(),
        label: String::new(),
        fields: Vec::new(),
        over: list(over),
        impl_bind: None,
        impl_lang: None,
        impl_path: None,
    })
}

fn node(name: &str) -> Section {
    schema_full(name, "node", "", "", &[])
}

fn func(name: &str, input: &[&str], output: &[&str]) -> Section {
    Section::Func(FuncSection {
        name: s(name),
        intent: s("test"),
        input: list(input),
        output: list(output),
        design_notes: String::new(),
        impl_bind: None,
        impl_lang: None,
        impl_path: None,
    })
}

fn module(name: &str, schemas: &[&str], funcs: &[&str], pipeline: &[&str]) -> Section {
    Section::Mod(ModSection {
        name: s(name),
        purpose: s("test"),
        schemas: list(schemas),
        funcs: list(funcs),
        pipeline: list(pipeline),
    })
}

fn unit(sections: Vec<Section>) -> SurvFile {
    SurvFile { package: None, namespace: None, imports: Vec::new(), requires: Vec::new(), sections }
}

fn count(diags: &[Diagnostic], kind: &str) -> usize {
    diags.iter().filter(|d| d.kind == kind).count()
}

#[test]
fn detects_undefined_schema_in_func() {
    let file = unit(vec![
        meta(),
        node("user"),
        func("create_user", &["schema.undefined_input"], &["schema.user"]),
        func("get_user", &["schema.user"], &["schema.undefined_output"]),
    ]);
    let diags = check_surv_file(&file);
    let n = diags.iter().filter(|d| d.kind == "UndefinedSchema" && d.severity == "error").count();
    assert_eq!(n, 2);
}

#[test]
fn detects_undefined_func_in_pipeline() {
    let file = unit(vec![
        meta(),
        node("user"),
        func("create_user", &["schema.user"], &["schema.user"]),
        module("api", &["schema.user"], &["func.create_user"], &["func.create_user", "func.nonexistent"]),
    ]);
    let diags = check_surv_file(&file);
    assert!(diags
        .iter()
        .any(|d| d.kind == "UndefinedFuncInPipeline" && d.message.contains("func.nonexistent")));
}

#[test]
fn detects_undefined_schema_in_boundary() {
    let file = unit(vec![
        meta(),
        node("user"),
        schema_full("snapshot", "boundary", "", "", &["schema.user", "schema.nonexistent"]),
    ]);
    let diags = check_surv_file(&file);
    assert!(diags
        .iter()
        .any(|d| d.kind == "UndefinedSchemaInBoundary" && d.message.contains("schema.nonexistent")));
}

#[test]
fn detects_undefined_schema_in_edge() {
    let file = unit(vec![
        meta(),
        node("user"),
        schema_full("follows", "edge", "schema.user", "schema.nonexistent", &[]),
    ]);
    let diags = check_surv_file(&file);
    assert!(diags.iter().any(|d| d.kind == "UndefinedSchemaInEdgeTo"));
}

#[test]
fn detects_undefined_schema_in_mod() {
    let file = unit(vec![
        meta(),
        node("user"),
        func("create_user", &["schema.user"], &["schema.user"]),
        module("api", &["schema.user", "schema.nonexistent"], &["func.create_user"], &[]),
    ]);
    let diags = check_surv_file(&file);
    assert!(diags.iter().any(|d| d.kind == "UndefinedSchemaInMod"));
}

#[test]
fn detects_undefined_func_in_mod() {
    let file = unit(vec![
        meta(),
        node("user"),
        func("create_user", &["schema.user"], &["schema.user"]),
        module("api", &["schema.user"], &["func.create_user", "func.nonexistent"], &[]),
    ]);
    let diags = check_surv_file(&file);
    assert!(diags.iter().any(|d| d.kind == "UndefinedFuncInMod"));
}

#[test]
fn detects_unused_schema() {
    let file = unit(vec![
        meta(),
        node("user"),
        node("unused"),
        func("create_user", &["schema.user"], &["schema.user"]),
        module("api", &["schema.user"], &["func.create_user"], &[]),
    ]);
    let diags = check_surv_file(&file);
    assert!(diags.iter().any(|d| d.kind == "UnusedSchema" && d.message.contains("schema.unused")));
}

#[test]
fn detects_unused_func() {
    let file = unit(vec![
        meta(),
        node("user"),
        func("create_user", &["schema.user"], &["schema.user"]),
        func("unused_func", &["schema.user"], &["schema.user"]),
        module("api", &["schema.user"], &["func.create_user"], &[]),
    ]);
    let diags = check_surv_file(&file);
    assert!(diags.iter().any(|d| d.kind == "UnusedFunc" && d.message.contains("func.unused_func")));
}

#[test]
fn valid_file_has_no_errors() {
    let file = unit(vec![
        meta(),
        node("user"),
        func("create_user", &["schema.user"], &["schema.user"]),
        module("api", &["schema.user"], &["func.create_user"], &["func.create_user"]),
    ]);
    let diags = check_surv_file(&file);
    assert!(diags.iter().all(|d| d.severity != "error"));
}

#[test]
fn detects_pipeline_cycle() {
    let file = unit(vec![
        meta(),
        node("user"),
        func("step_a", &["schema.user"], &["schema.user"]),
        func("step_b", &["schema.user"], &["schema.user"]),
        module(
            "api",
            &["schema.user"],
            &["func.step_a", "func.step_b"],
            &["func.step_a", "func.step_b", "func.step_a"],
        ),
    ]);
    let diags = check_surv_file(&file);
    assert!(diags.iter().any(|d| d.kind == "PipelineCycle" && d.message.contains("func.step_a")));
}

#[test]
fn detects_pipeline_type_mismatch() {
    let file = unit(vec![
        meta(),
        node("user"),
        node("product"),
        func("create_user", &["schema.user"], &["schema.user"]),
        func("create_product", &["schema.product"], &["schema.product"]),
        module(
            "api",
            &["schema.user", "schema.product"],
            &["func.create_user", "func.create_product"],
            &["func.create_user", "func.create_product"],
        ),
    ]);
    let diags = check_surv_file(&file);
    assert!(diags.iter().any(|d| d.kind == "PipelineTypeMismatch"));
}

#[test]
fn valid_pipeline_composition() {
    let file = unit(vec![
        meta(),
        node("request"),
        node("user"),
        node("response"),
        func("parse_request", &["schema.request"], &["schema.user"]),
        func("process_user", &["schema.user"], &["schema.user", "schema.response"]),
        func("send_response", &["schema.response"], &["schema.response"]),
        module(
            "api",
            &["schema.request", "schema.user", "schema.response"],
            &["func.parse_request", "func.process_user", "func.send_response"],
            &["func.parse_request", "func.process_user", "func.send_response"],
        ),
    ]);
    let diags = check_surv_file(&file);
    assert!(!diags.iter().any(|d| d.kind == "PipelineTypeMismatch" || d.severity == "error"));
}

#[test]
fn repeated_step_is_reported_once_per_repeat() {
    let file = unit(vec![
        node("user"),
        func("a", &["schema.user"], &["schema.user"]),
        func("b", &["schema.user"], &["schema.user"]),
        module("m", &["schema.user"], &[], &["func.a", "func.b", "func.a"]),
    ]);
    let diags = check_surv_file(&file);
    let cycles: Vec<&Diagnostic> = diags.iter().filter(|d| d.kind == "PipelineCycle").collect();
    assert_eq!(cycles.len(), 1);
    assert_eq!(
        cycles[0].message,
        "mod mod.m: pipeline has a cycle involving func.a (appears multiple times)"
    );
    assert_eq!(cycles[0].location, "mod.m.pipeline");
}

#[test]
fn disjoint_pair_gives_one_mismatch_and_no_error() {
    let file = unit(vec![
        node("x"),
        node("y"),
        func("a", &["schema.x"], &["schema.x"]),
        func("b", &["schema.y"], &["schema.y"]),
        module("m", &["schema.x", "schema.y"], &[], &["func.a", "func.b"]),
    ]);
    let diags = check_surv_file(&file);
    assert_eq!(count(&diags, "PipelineTypeMismatch"), 1);
    assert!(diags.iter().all(|d| d.severity != "error"));
    let d = diags.iter().find(|d| d.kind == "PipelineTypeMismatch").unwrap();
    assert_eq!(d.severity, "warning");
    assert_eq!(d.location, "mod.m.pipeline(func.a->func.b)");
}

#[test]
fn edge_from_counts_as_use() {
    let file = unit(vec![
        node("user"),
        node("other"),
        schema_full("follows", "edge", "schema.user", "schema.other", &[]),
    ]);
    let diags = check_surv_file(&file);
    assert!(!diags.iter().any(|d| d.kind == "UnusedSchema" && d.location == "schema.user"));
    assert!(diags.iter().any(|d| d.kind == "UnusedSchema" && d.location == "schema.follows"));
}

#[test]
fn minimal_api_unit_is_clean() {
    let file = unit(vec![
        node("user"),
        func("create_user", &[], &["schema.user"]),
        module("api", &["schema.user"], &["func.create_user"], &[]),
    ]);
    let diags = check_surv_file(&file);
    assert!(diags.is_empty(), "{:?}", diags);
}

#[test]
fn undefined_schema_message_and_location() {
    let file = unit(vec![func("f", &["schema.nope"], &[]), module("m", &[], &["func.f"], &[])]);
    let diags = check_surv_file(&file);
    assert_eq!(diags.len(), 1);
    assert_eq!(diags[0].kind, "UndefinedSchema");
    assert_eq!(diags[0].message, "func func.f: input schema schema.nope is not defined");
    assert_eq!(diags[0].location, "func.f.input(schema.nope)");
}

#[test]
fn findings_follow_id_order_one_per_id() {
    let file = unit(vec![
        schema_full("zeta", "edge", "schema.nope1", "", &[]),
        schema_full("alpha", "edge", "schema.nope2", "", &[]),
        func("f", &["schema.gone"], &[]),
        func("f", &[], &[]),
    ]);
    let diags = check_surv_file(&file);
    let links: Vec<&str> = diags
        .iter()
        .filter(|d| d.kind == "UndefinedSchemaInEdgeFrom")
        .map(|d| d.location.as_str())
        .collect();
    assert_eq!(links, vec!["schema.alpha.from(schema.nope2)", "schema.zeta.from(schema.nope1)"]);
    assert_eq!(count(&diags, "UndefinedSchema"), 0);
    assert_eq!(count(&diags, "UnusedFunc"), 1);
}
