use surc::deploy::ast::{DeployFile, Gate, Job, Pipeline, Release, Rollback, Secret, Target};
use surc::deploy::checker::check_deploy_file;
use surc::diagnostic::{has_errors, Diagnostic};

fn list(v: &[&str]) -> Vec<String> {
    v.iter().map(|x| x.to_string()).collect()
}

fn job(name: &str, requires: &[&str], runs: &[&str], target: &str, secrets: &[&str], effects: &[&str]) -> Job {
    Job {
        name: name.to_string(),
        requires: list(requires),
        runs: list(runs),
        uses_target: target.to_string(),
        needs_secrets: list(secrets),
        uses_perm: String::new(),
        produces: Vec::new(),
        side_effects: list(effects),
    }
}

fn target(name: &str, kind: &str, domain: &str) -> Target {
    Target { name: name.to_string(), kind: kind.to_string(), domain: domain.to_string() }
}

fn kinds(diags: &[Diagnostic]) -> Vec<&str> {
    diags.iter().map(|d| d.kind.as_str()).collect()
}

#[test]
fn detects_undefined_job_reference() {
    let mut deploy = DeployFile::default();
    deploy.jobs = vec![
        job("build", &[], &["npm build"], "", &[], &[]),
        job("deploy", &["job.nonexistent"], &["kubectl apply"], "", &[], &[]),
    ];
    let diags = check_deploy_file(&deploy);
    assert!(diags.iter().any(|d| d.kind == "UndefinedJobReference"));
}

#[test]
fn detects_cycle() {
    let mut deploy = DeployFile::default();
    deploy.jobs = vec![
        job("a", &["job.b"], &["step a"], "", &[], &[]),
        job("b", &["job.c"], &["step b"], "", &[], &[]),
        job("c", &["job.a"], &["step c"], "", &[], &[]),
    ];
    let diags = check_deploy_file(&deploy);
    assert!(diags.iter().any(|d| d.kind == "DeployCycle"));
}

#[test]
fn detects_unreachable_job() {
    let mut deploy = DeployFile::default();
    deploy.jobs = vec![
        job("build", &[], &["npm build"], "", &[], &[]),
        job("orphan", &["job.nonexistent"], &["orphaned"], "", &[], &[]),
    ];
    let diags = check_deploy_file(&deploy);
    assert!(diags.iter().any(|d| d.kind == "UnreachableJob" || d.kind == "UndefinedJobReference"));
}

#[test]
fn detects_secret_scope_violation() {
    let mut deploy = DeployFile::default();
    deploy.targets = vec![target("prod", "production", ""), target("staging", "staging", "")];
    deploy.secrets = vec![Secret { name: "DB_URL".to_string(), scope: list(&["target.prod"]) }];
    deploy.jobs = vec![job("deploy_staging", &[], &["deploy"], "target.staging", &["secret.DB_URL"], &[])];
    let diags = check_deploy_file(&deploy);
    assert!(diags.iter().any(|d| d.kind == "SecretScopeViolation"));
}

#[test]
fn detects_missing_prod_gate() {
    let mut deploy = DeployFile::default();
    deploy.targets = vec![target("prod", "production", "")];
    deploy.jobs = vec![job("deploy_prod", &[], &["deploy"], "target.prod", &[], &[])];
    let diags = check_deploy_file(&deploy);
    assert!(diags.iter().any(|d| d.kind == "MissingProdGate"));
    assert!(diags.iter().any(|d| d.kind == "MissingProdRollback"));
}

#[test]
fn detects_db_migration_without_approval() {
    let mut deploy = DeployFile::default();
    deploy.targets = vec![target("prod", "production", "")];
    deploy.gate = Some(Gate { require_manual_approval_for: Vec::new() });
    deploy.rollback = Some(Rollback { on: list(&["deploy_fail"]), strategy: "revert".to_string() });
    deploy.jobs = vec![job("migrate", &[], &["migrate"], "target.prod", &[], &["db_migration"])];
    let diags = check_deploy_file(&deploy);
    assert!(diags.iter().any(|d| d.kind == "DbMigrationWithoutApproval"));
}

#[test]
fn valid_deploy_passes() {
    let mut deploy = DeployFile::default();
    deploy.pipeline = Some(Pipeline { name: "webapp".to_string(), description: String::new() });
    deploy.targets = vec![target("prod", "production", "example.com")];
    deploy.secrets = vec![Secret { name: "DB_URL".to_string(), scope: list(&["target.prod"]) }];
    deploy.jobs = vec![
        job("build", &[], &["npm build"], "", &[], &[]),
        job("deploy", &["job.build"], &["kubectl apply"], "target.prod", &["secret.DB_URL"], &[]),
    ];
    deploy.gate = Some(Gate { require_manual_approval_for: list(&["target.prod"]) });
    deploy.release = Some(Release {
        strategy: "canary".to_string(),
        health_check: "https://example.com/health".to_string(),
    });
    deploy.rollback = Some(Rollback { on: list(&["deploy_fail"]), strategy: "revert".to_string() });
    let diags = check_deploy_file(&deploy);
    let errors: Vec<_> = diags.iter().filter(|d| d.severity == "error").collect();
    assert!(errors.is_empty(), "Expected no errors, got: {:?}", errors);
    assert!(!has_errors(&diags));
}

#[test]
fn gate_listing_target_leaves_only_missing_rollback() {
    let mut deploy = DeployFile::default();
    deploy.targets = vec![target("prod", "production", "")];
    deploy.jobs = vec![job("deploy_prod", &[], &["deploy"], "target.prod", &[], &[])];
    deploy.gate = Some(Gate { require_manual_approval_for: list(&["target.prod"]) });
    let diags = check_deploy_file(&deploy);
    assert!(diags.iter().any(|d| d.kind == "MissingProdRollback"));
    assert!(!diags.iter().any(|d| d.kind == "ProdJobWithoutApproval"));
    assert!(!diags.iter().any(|d| d.kind == "MissingProdGate"));
}

#[test]
fn prod_migration_without_gate_reports_only_missing_sections() {
    let mut deploy = DeployFile::default();
    deploy.targets = vec![target("prod", "production", "")];
    deploy.jobs = vec![
        job("build", &[], &["make"], "", &[], &[]),
        job("deploy", &["job.build"], &["ship"], "target.prod", &[], &["db_migration"]),
    ];
    let diags = check_deploy_file(&deploy);
    let errors: Vec<&str> = diags.iter().filter(|d| d.severity == "error").map(|d| d.kind.as_str()).collect();
    assert_eq!(errors, vec!["MissingProdGate", "MissingProdRollback"]);
}

#[test]
fn cycle_message_names_the_path() {
    let mut deploy = DeployFile::default();
    deploy.jobs = vec![job("a", &["job.b"], &[], "", &[], &[]), job("b", &["job.a"], &[], "", &[], &[])];
    let diags = check_deploy_file(&deploy);
    let cycles: Vec<&Diagnostic> = diags.iter().filter(|d| d.kind == "DeployCycle").collect();
    assert_eq!(cycles.len(), 1);
    let m = &cycles[0].message;
    assert!(
        m == "Deploy DAG contains a cycle: a -> b -> a" || m == "Deploy DAG contains a cycle: b -> a -> b",
        "{}",
        m
    );
    assert!(kinds(&diags).contains(&"NoEntryPoint"));
}

#[test]
fn acyclic_jobs_report_no_cycle() {
    let mut deploy = DeployFile::default();
    deploy.jobs = vec![
        job("a", &[], &[], "", &[], &[]),
        job("b", &["job.a"], &[], "", &[], &[]),
        job("c", &["job.a", "job.b"], &[], "", &[], &[]),
    ];
    let diags = check_deploy_file(&deploy);
    assert!(diags.is_empty(), "{:?}", diags);
}

#[test]
fn unreachable_job_behind_missing_dependency() {
    let mut deploy = DeployFile::default();
    deploy.jobs = vec![
        job("build", &[], &[], "", &[], &[]),
        job("orphan", &["job.nonexistent"], &[], "", &[], &[]),
    ];
    let diags = check_deploy_file(&deploy);
    let unreachable: Vec<&Diagnostic> = diags.iter().filter(|d| d.kind == "UnreachableJob").collect();
    assert_eq!(unreachable.len(), 1);
    assert_eq!(unreachable[0].location, "deploy.job.orphan");
    assert_eq!(unreachable[0].severity, "warning");
}

#[test]
fn health_check_required_for_canary() {
    let mut deploy = DeployFile::default();
    deploy.targets = vec![target("prod", "prod", "")];
    deploy.jobs = vec![job("ship", &[], &[], "target.prod", &[], &[])];
    deploy.gate = Some(Gate { require_manual_approval_for: list(&["target.prod"]) });
    deploy.rollback = Some(Rollback { on: Vec::new(), strategy: "revert".to_string() });
    deploy.release = Some(Release { strategy: "blue_green".to_string(), health_check: String::new() });
    let diags = check_deploy_file(&deploy);
    assert_eq!(kinds(&diags), vec!["MissingHealthCheck"]);
    assert_eq!(diags[0].message, "Release strategy 'blue_green' requires health_check");
}

#[test]
fn side_effect_policy_under_gate() {
    let mut deploy = DeployFile::default();
    deploy.gate = Some(Gate { require_manual_approval_for: Vec::new() });
    deploy.jobs = vec![
        job("migrate", &[], &[], "", &[], &["db_migration", "release"]),
        job("publish", &[], &[], "", &[], &["release"]),
    ];
    let diags = check_deploy_file(&deploy);
    assert_eq!(
        kinds(&diags),
        vec!["DbMigrationWithoutTarget", "ReleaseWithoutStrategy", "ReleaseWithoutStrategy"]
    );
    assert_eq!(diags[0].location, "deploy.job.migrate");
    assert_eq!(diags[1].location, "deploy.job.migrate.side_effects");
    assert_eq!(diags[2].location, "deploy.job.publish.side_effects");
}

#[test]
fn well_formedness_needs_sorted_distinct_names() {
    let mut deploy = DeployFile::default();
    assert!(deploy.is_well_formed());
    deploy.jobs = vec![job("b", &[], &[], "", &[], &[]), job("a", &[], &[], "", &[], &[])];
    assert!(!deploy.is_well_formed());
    deploy.jobs = vec![job("a", &[], &[], "", &[], &[]), job("a", &[], &[], "", &[], &[])];
    assert!(!deploy.is_well_formed());
    deploy.jobs = vec![job("a", &[], &[], "", &[], &[]), job("ab", &[], &[], "", &[], &[])];
    assert!(deploy.is_well_formed());
}

#[test]
fn undefined_references_of_every_kind() {
    let mut deploy = DeployFile::default();
    let mut j = job("j", &[], &[], "target.none", &["secret.none"], &[]);
    j.uses_perm = "perm.none".to_string();
    j.produces = list(&["artifact.none"]);
    deploy.jobs = vec![j];
    let diags = check_deploy_file(&deploy);
    assert_eq!(
        kinds(&diags),
        vec![
            "UndefinedTargetReference",
            "UndefinedSecretReference",
            "UndefinedPermReference",
            "UndefinedArtifactReference",
        ]
    );
    assert_eq!(diags[3].severity, "warning");
    assert_eq!(diags[0].message, "Job 'j' references undefined target 'target.none'");
}
