use surc::ast::{ImportDecl, ModSection, RequireDecl, SchemaSection, Section, SurvFile, FuncSection};
use surc::imports::parse_imports_with_alias;
use surc::manifest::{Manifest, PackageSection, PathsSection, ProjectSection};
use surc::package::{assign_packages_to_files, PackageAssignment};
use surc::project::ProjectAST;
use surc::project_checker::check_project;
use surc::resolve::{resolve_names_with_packages, resolve_schema_and_func_references};
use surc::imports::{FileImportContext, ImportEntry};
use surc::symbol::{build_symbol_table, build_symbol_table_with_packages, SymbolTable};

fn s(v: &str) -> String {
    v.to_string()
}

fn node(name: &str) -> Section {
    Section::Schema(SchemaSection {
        name: s(name),
        kind: s("node"),
        role: String::new(),
        data_type: s("T"),
        from: String::new(),
        to: String::new(),
        base: String::new(),
        label: String::new(),
        fields: Vec::new(),
        over: Vec::new(),
        impl_bind: None,
        impl_lang: None,
        impl_path: None,
    })
}

fn func(name: &str, input: &[&str], output: &[&str]) -> Section {
    Section::Func(FuncSection {
        name: s(name),
        intent: s("test"),
        input: input.iter().map(|x| s(x)).collect(),
        output: output.iter().map(|x| s(x)).collect(),
        design_notes: String::new(),
        impl_bind: None,
        impl_lang: None,
        impl_path: None,
    })
}

fn module(name: &str) -> Section {
    Section::Mod(ModSection {
        name: s(name),
        purpose: s("test"),
        schemas: Vec::new(),
        funcs: Vec::new(),
        pipeline: Vec::new(),
    })
}

fn unit(package: Option<&str>, imports: &[&str], requires: &[&str], sections: Vec<Section>) -> SurvFile {
    SurvFile {
        package: package.map(s),
        namespace: None,
        imports: imports.iter().map(|t| ImportDecl { target: s(t), alias: None }).collect(),
        requires: requires.iter().map(|t| RequireDecl { target: s(t) }).collect(),
        sections,
    }
}

fn manifest(packages: &[(&str, &str)]) -> Manifest {
    Manifest {
        project: ProjectSection { name: s("test") },
        paths: PathsSection { ir_root: s("ir") },
        packages: packages
            .iter()
            .map(|(n, r)| (s(n), PackageSection { root: s(r), namespace: None, depends: Vec::new() }))
            .collect(),
    }
}

#[test]
fn parses_simple_import() {
    let m = manifest(&[("auth", "dummy")]);
    let files = vec![(s("a.toml"), unit(None, &["auth"], &[], vec![node("user")]))];
    let assignments = vec![PackageAssignment { file_path: s("a.toml"), package: s("users") }];
    let (contexts, diags) = parse_imports_with_alias(&m, &assignments, &files);
    assert!(diags.is_empty());
    assert_eq!(contexts.len(), 1);
    assert_eq!(contexts[0].imports.len(), 1);
    assert_eq!(contexts[0].imports[0].package, "auth");
    assert_eq!(contexts[0].self_package, "users");
}

#[test]
fn rejects_unknown_package() {
    let m = manifest(&[("users", "dummy")]);
    let files = vec![(s("a.toml"), unit(None, &["auth"], &[], vec![node("user")]))];
    let assignments = vec![PackageAssignment { file_path: s("a.toml"), package: s("users") }];
    let (contexts, diags) = parse_imports_with_alias(&m, &assignments, &files);
    assert!(diags.iter().any(|d| d.kind == "E_IMPORT_UNKNOWN_PACKAGE"));
    assert!(contexts[0].imports.is_empty());
}

#[test]
fn parses_alias_import() {
    let m = manifest(&[("users", "dummy")]);
    let files = vec![(s("a.toml"), unit(None, &["users as u"], &[], vec![node("user")]))];
    let assignments = vec![PackageAssignment { file_path: s("a.toml"), package: s("core") }];
    let (contexts, diags) = parse_imports_with_alias(&m, &assignments, &files);
    assert!(diags.is_empty());
    assert_eq!(contexts[0].imports[0].alias.as_deref(), Some("u"));
}

#[test]
fn malformed_import_is_a_syntax_error() {
    let m = manifest(&[]);
    let files = vec![(s("a.toml"), unit(None, &["users like u", "core AS c"], &[], vec![]))];
    let (contexts, diags) = parse_imports_with_alias(&m, &Vec::new(), &files);
    assert_eq!(diags.len(), 1);
    assert_eq!(diags[0].kind, "E_IMPORT_SYNTAX");
    assert_eq!(diags[0].message, "Invalid import syntax 'users like u'");
    assert_eq!(contexts[0].self_package, "default");
    assert_eq!(contexts[0].imports[0].package, "core");
    assert_eq!(contexts[0].imports[0].alias.as_deref(), Some("c"));
}

#[test]
fn assigns_declared_package() {
    let m = manifest(&[("users", "src/users")]);
    let files = vec![(s("project/src/users/a.toml"), unit(Some("users"), &[], &[], vec![node("a")]))];
    let (assignments, diags) = assign_packages_to_files(&m, "project", &files);
    assert!(diags.is_empty());
    assert_eq!(assignments.len(), 1);
    assert_eq!(assignments[0].package, "users");
}

#[test]
fn reports_unknown_package() {
    let m = manifest(&[("users", "src/users")]);
    let files = vec![(s("project/src/users/a.toml"), unit(Some("auth"), &[], &[], vec![node("a")]))];
    let (_assignments, diags) = assign_packages_to_files(&m, "project", &files);
    assert!(diags.iter().any(|d| d.kind == "E_PACKAGE_UNKNOWN"));
}

#[test]
fn assigns_by_root() {
    let m = manifest(&[("users", "src/users"), ("auth", "src/auth")]);
    let files = vec![
        (s("project/src/users/a.toml"), unit(None, &[], &[], vec![node("a")])),
        (s("project/src/auth/b.toml"), unit(None, &[], &[], vec![node("b")])),
    ];
    let (assignments, diags) = assign_packages_to_files(&m, "project", &files);
    assert!(diags.is_empty());
    assert_eq!(assignments.len(), 2);
    assert_eq!(assignments[1].package, "auth");
}

#[test]
fn package_errors_for_mismatch_unassigned_and_ambiguous() {
    let m = manifest(&[("users", "src/users"), ("all", "src")]);
    let files = vec![
        (s("project/src/other/a.toml"), unit(Some("users"), &[], &[], vec![])),
        (s("elsewhere/b.toml"), unit(None, &[], &[], vec![])),
        (s("project/src/users/c.toml"), unit(None, &[], &[], vec![])),
    ];
    let (assignments, diags) = assign_packages_to_files(&m, "project", &files);
    assert!(assignments.is_empty());
    let kinds: Vec<&str> = diags.iter().map(|d| d.kind.as_str()).collect();
    assert_eq!(kinds, vec!["E_PACKAGE_ROOT_MISMATCH", "E_PACKAGE_UNASSIGNED", "E_PACKAGE_AMBIGUOUS"]);
    assert_eq!(diags[2].message, "file project/src/users/c.toml matches multiple package roots: users, all");
}

#[test]
fn no_packages_means_default() {
    let m = manifest(&[]);
    let files = vec![(s("x.toml"), unit(None, &[], &[], vec![]))];
    let (assignments, diags) = assign_packages_to_files(&m, "project", &files);
    assert!(diags.is_empty());
    assert_eq!(assignments[0].package, "default");
}

#[test]
fn normalized_requires_per_mod() {
    let files = vec![(s("a.toml"), unit(None, &[], &["mod.shared"], vec![module("alpha"), module("beta")]))];
    let project = ProjectAST::from_files(files);
    let deps = project.collect_normalized_requires();
    assert_eq!(deps.len(), 2);
    let from: Vec<String> = deps.into_iter().map(|d| d.from_mod).collect();
    assert!(from.contains(&s("mod.alpha")));
    assert!(from.contains(&s("mod.beta")));
}

#[test]
fn normalized_requires_dedup() {
    let files = vec![(s("a.toml"), unit(None, &[], &["mod.shared", "mod.shared"], vec![module("alpha")]))];
    let project = ProjectAST::from_files(files);
    let deps = project.collect_normalized_requires();
    assert_eq!(deps.len(), 1);
    let dep = &deps[0];
    assert_eq!(dep.from_mod, "mod.alpha");
    assert_eq!(dep.to_mod, "mod.shared");
}

#[test]
fn reports_unresolved_require() {
    let files = vec![(s("a.toml"), unit(None, &[], &["mod.missing"], vec![module("alpha")]))];
    let project = ProjectAST::from_files(files);
    let diags = check_project(&project);
    assert!(diags.iter().any(|d| d.kind == "UnresolvedRequire"));
}

#[test]
fn detects_require_cycles() {
    let files = vec![
        (s("a.toml"), unit(None, &[], &["mod.beta"], vec![module("alpha")])),
        (s("b.toml"), unit(None, &[], &["mod.alpha"], vec![module("beta")])),
    ];
    let project = ProjectAST::from_files(files);
    let diags = check_project(&project);
    assert!(diags.iter().any(|d| d.kind == "RequireCycle"));
}

#[test]
fn three_module_ring_is_one_cycle() {
    let files = vec![
        (s("a.toml"), unit(None, &[], &["mod.b"], vec![module("a")])),
        (s("b.toml"), unit(None, &[], &["mod.c"], vec![module("b")])),
        (s("c.toml"), unit(None, &[], &["mod.a"], vec![module("c")])),
    ];
    let project = ProjectAST::from_files(files);
    let diags = check_project(&project);
    let cycles: Vec<_> = diags.iter().filter(|d| d.kind == "RequireCycle").collect();
    assert_eq!(cycles.len(), 1);
    assert_eq!(diags.len(), 1);
    let path = cycles[0].message.trim_start_matches("Require cycle detected: ");
    let parts: Vec<&str> = path.split(" -> ").collect();
    assert_eq!(parts.len(), 4);
    assert_eq!(parts[0], parts[3]);
    assert!(["mod.a", "mod.b", "mod.c"].contains(&parts[0]));
}

#[test]
fn symbol_build_symbol_table_reports_duplicates() {
    let files = vec![
        (s("a.toml"), unit(None, &[], &[], vec![node("user")])),
        (s("b.toml"), unit(None, &[], &[], vec![node("user")])),
    ];
    let project = ProjectAST::from_files(files);
    let (table, diags) = build_symbol_table(&project);
    assert!(diags.iter().any(|d| d.kind == "W_AMBIGUOUS_NAME"));
    assert_eq!(diags.len(), 1);
    assert_eq!(table.entries.len(), 2);
    assert_eq!(table.entries[0].fq_name, "pkg.default.schema.global.user");
}

#[test]
fn symbol_resolve_schema_reference_success() {
    let files = vec![(
        s("a.toml"),
        unit(None, &[], &[], vec![node("user"), func("create", &["schema.user"], &["schema.user"])]),
    )];
    let project = ProjectAST::from_files(files);
    let (symbols, _) = build_symbol_table(&project);
    let diags = resolve_schema_and_func_references(&project, &symbols);
    assert!(diags.is_empty());
}

#[test]
fn symbol_resolve_schema_reference_missing() {
    let files = vec![(s("a.toml"), unit(None, &[], &[], vec![func("create", &["schema.unknown"], &[])]))];
    let project = ProjectAST::from_files(files);
    let (symbols, _) = build_symbol_table(&project);
    let diags = resolve_schema_and_func_references(&project, &symbols);
    assert!(diags.iter().any(|d| d.kind == "E_UNDEFINED_SCHEMA" && d.location.contains("schema.unknown")));
}

#[test]
fn symbol_package_specific_symbol_table() {
    let files = vec![
        (s("pkg/users/a.toml"), unit(None, &[], &[], vec![node("user")])),
        (s("pkg/auth/a.toml"), unit(None, &[], &[], vec![node("user")])),
    ];
    let assignments = vec![
        PackageAssignment { file_path: s("pkg/users/a.toml"), package: s("users") },
        PackageAssignment { file_path: s("pkg/auth/a.toml"), package: s("auth") },
    ];
    let (symbols, diags) = build_symbol_table_with_packages(&files, &assignments);
    assert!(diags.is_empty());
    assert_eq!(symbols.entries.len(), 2);
    let packages: Vec<_> = symbols.entries.iter().map(|e| e.package.clone()).collect();
    assert!(packages.contains(&s("users")));
    assert!(packages.contains(&s("auth")));
}

fn ctx(path: &str, package: &str, imports: &[(&str, Option<&str>)]) -> FileImportContext {
    FileImportContext {
        file_path: s(path),
        self_package: s(package),
        namespace: None,
        imports: imports.iter().map(|(p, a)| ImportEntry { package: s(p), alias: a.map(s) }).collect(),
    }
}

fn two_packages() -> (Vec<(String, SurvFile)>, SymbolTable) {
    let files = vec![
        (s("own.toml"), unit(None, &[], &[], vec![node("user"), func("f", &["schema.user"], &[])])),
        (s("lib.toml"), unit(None, &[], &[], vec![node("user")])),
    ];
    let assignments = vec![
        PackageAssignment { file_path: s("own.toml"), package: s("app") },
        PackageAssignment { file_path: s("lib.toml"), package: s("lib") },
    ];
    let (table, diags) = build_symbol_table_with_packages(&files, &assignments);
    assert!(diags.is_empty());
    (files, table)
}

#[test]
fn own_package_wins_over_import() {
    let (files, table) = two_packages();
    let ctxs = vec![ctx("own.toml", "app", &[("lib", None)]), ctx("lib.toml", "lib", &[])];
    let diags = resolve_names_with_packages(&files, &table, &ctxs);
    assert!(diags.is_empty(), "{:?}", diags);
}

#[test]
fn global_fallback_reports_ambiguity() {
    let (files, table) = two_packages();
    let ctxs = vec![ctx("own.toml", "other", &[]), ctx("lib.toml", "lib", &[])];
    let diags = resolve_names_with_packages(&files, &table, &ctxs);
    assert_eq!(diags.len(), 1);
    assert_eq!(diags[0].kind, "W_AMBIGUOUS_NAME");
    assert_eq!(
        diags[0].message,
        "Ambiguous schema reference 'schema.user'; candidates: pkg.app.schema.global.user, pkg.lib.schema.global.user"
    );
    assert_eq!(diags[0].location, "own.toml: func.f.input(schema.user)");
}

#[test]
fn unknown_prefix_and_alias_prefix() {
    let files = vec![
        (
            s("own.toml"),
            unit(None, &[], &[], vec![func("f", &["nope.schema.user", "l.schema.user", "l.schema.ghost"], &[])]),
        ),
        (s("lib.toml"), unit(None, &[], &[], vec![node("user")])),
    ];
    let assignments = vec![
        PackageAssignment { file_path: s("own.toml"), package: s("app") },
        PackageAssignment { file_path: s("lib.toml"), package: s("lib") },
    ];
    let (table, _) = build_symbol_table_with_packages(&files, &assignments);
    let ctxs = vec![ctx("own.toml", "app", &[("lib", Some("l"))])];
    let diags = resolve_names_with_packages(&files, &table, &ctxs);
    let kinds: Vec<&str> = diags.iter().map(|d| d.kind.as_str()).collect();
    assert_eq!(kinds, vec!["E_UNDEFINED_PREFIX", "E_UNDEFINED_SCHEMA"]);
    assert_eq!(diags[0].message, "Unknown reference prefix 'nope'");
    assert_eq!(diags[1].message, "Reference 'l.schema.ghost' is undefined");
}

#[test]
fn self_require_is_a_cycle() {
    let files = vec![(s("a.toml"), unit(None, &[], &["mod.a"], vec![module("a")]))];
    let project = ProjectAST::from_files(files);
    let diags = check_project(&project);
    assert_eq!(diags.len(), 1);
    assert_eq!(diags[0].kind, "RequireCycle");
    assert_eq!(diags[0].message, "Require cycle detected: mod.a -> mod.a");
    assert_eq!(diags[0].location, "a.toml");
}
