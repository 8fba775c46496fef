use surc::codegen::github_actions::GitHubActionsGenerator;
use surc::codegen::gitlab_ci::GitLabCIGenerator;
use surc::deploy::ast::{DeployFile, Gate, Job, Pipeline, Target};

fn job(name: &str, requires: &[&str], runs: &[&str]) -> Job {
    Job {
        name: name.to_string(),
        requires: requires.iter().map(|s| s.to_string()).collect(),
        runs: runs.iter().map(|s| s.to_string()).collect(),
        uses_target: String::new(),
        needs_secrets: Vec::new(),
        uses_perm: String::new(),
        produces: Vec::new(),
        side_effects: Vec::new(),
    }
}

fn basic() -> DeployFile {
    let mut deploy = DeployFile::default();
    deploy.pipeline = Some(Pipeline {
        name: "test-pipeline".to_string(),
        description: "Test deployment".to_string(),
    });
    deploy.jobs = vec![job("build", &[], &["npm ci", "npm run build"])];
    deploy
}

fn two_jobs() -> DeployFile {
    let mut deploy = DeployFile::default();
    deploy.jobs = vec![
        job("build", &[], &["npm run build"]),
        job("deploy", &["job.build"], &["kubectl apply -f deploy.yaml"]),
    ];
    deploy
}

#[test]
fn generates_basic_workflow() {
    let generator = GitHubActionsGenerator::new();
    let yaml = generator.generate(&basic());
    assert!(yaml.contains("name: Deploy Pipeline"));
    assert!(yaml.contains("build:"));
    assert!(yaml.contains("npm ci"));
    assert!(yaml.contains("npm run build"));
}

#[test]
fn github_actions_generates_job_dependencies() {
    let generator = GitHubActionsGenerator::new();
    let yaml = generator.generate(&two_jobs());
    assert!(yaml.contains("needs: build"));
}

#[test]
fn generates_basic_pipeline() {
    let generator = GitLabCIGenerator::new();
    let yaml = generator.generate(&basic());
    assert!(yaml.contains("stages:"));
    assert!(yaml.contains("build:"));
    assert!(yaml.contains("npm ci"));
    assert!(yaml.contains("npm run build"));
}

#[test]
fn gitlab_ci_generates_job_dependencies() {
    let generator = GitLabCIGenerator::new();
    let yaml = generator.generate(&two_jobs());
    assert!(yaml.contains("needs:"));
    assert!(yaml.contains("- build"));
}

#[test]
fn adds_manual_approval_for_production() {
    let mut deploy = DeployFile::default();
    deploy.gate = Some(Gate { require_manual_approval_for: vec!["target.prod".to_string()] });
    deploy.targets = vec![Target {
        name: "prod".to_string(),
        kind: "production".to_string(),
        domain: "example.com".to_string(),
    }];
    let mut j = job("deploy_prod", &[], &["kubectl apply"]);
    j.uses_target = "target.prod".to_string();
    deploy.jobs = vec![j];
    let generator = GitLabCIGenerator::new();
    let yaml = generator.generate(&deploy);
    assert!(yaml.contains("when: manual"));
    assert!(yaml.contains("only:"));
    assert!(yaml.contains("- main"));
}

#[test]
fn github_workflow_exact_text() {
    let yaml = GitHubActionsGenerator::new().generate(&basic());
    let expected = [
        "# Generated from Deploy IR by surc\n# Pipeline: test-pipeline\n# Test deployment\n\n",
        "name: Deploy Pipeline\n\non:\n  push:\n    branches: [main]\n  workflow_dispatch:\n\njobs:\n",
        "  build:\n    runs-on: ubuntu-latest\n    steps:\n",
        "      - name: Checkout code\n        uses: actions/checkout@v4\n\n",
        "      - name: Run npm ci\n        run: |\n          npm ci\n\n",
        "      - name: Run npm run\n        run: |\n          npm run build\n\n\n",
    ]
    .concat();
    assert_eq!(yaml, expected);
}

#[test]
fn secrets_become_upper_case_variables() {
    let mut deploy = DeployFile::default();
    let mut j = job("ship-it.now", &[], &["./deploy.sh"]);
    j.needs_secrets = vec!["secret.db_url".to_string()];
    deploy.jobs = vec![j];
    let gh = GitHubActionsGenerator::new().generate(&deploy);
    assert!(gh.contains("  ship_it_now:\n"));
    assert!(gh.contains("          DB_URL: ${{ secrets.DB_URL }}\n"));
    assert!(gh.contains("      - name: Run ./deploy.sh\n"));
    let gl = GitLabCIGenerator::new().generate(&deploy);
    assert!(gl.contains("    DB_URL: $DB_URL\n"));
    assert!(gl.contains("ship_it_now:\n  stage: build\n"));
}

#[test]
fn empty_command_gets_numbered_step() {
    let mut deploy = DeployFile::default();
    deploy.jobs = vec![job("x", &[], &["a", "   "])];
    let gh = GitHubActionsGenerator::new().generate(&deploy);
    assert!(gh.contains("      - name: Step 2\n"));
}

#[test]
fn gitlab_stages_follow_job_names() {
    let mut deploy = DeployFile::default();
    deploy.jobs = vec![job("unit-test", &[], &["cargo test"]), job("lint", &["job.unit-test"], &[])];
    let gl = GitLabCIGenerator::new().generate(&deploy);
    assert!(gl.contains("stages:\n  - test\n\n"));
    assert!(gl.contains("lint:\n  stage: deploy\n"));
}
