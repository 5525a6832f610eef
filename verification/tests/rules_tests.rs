use smart_tree::create_default_registry;
use smart_tree::rules::glob_match;
use smart_tree::BuildOutputRule;
use smart_tree::DependencyRule;
use smart_tree::DevEnvironmentRule;
use smart_tree::FilterContext;
use smart_tree::FilterRegistry;
use smart_tree::GitIgnoreContext;
use smart_tree::ProjectType;
use smart_tree::Rule;
use smart_tree::VCSRule;

#[test]
fn test_build_output_rule() {
    let rule = BuildOutputRule;
    let mut context = FilterContext::new("/project/target", "/project", "/project", 1);
    context.project_types.push(ProjectType::Rust);

    assert!(rule.applies_to(&context));
    assert!(rule.evaluate(&context) > 50);
}

#[test]
fn test_dependency_rule() {
    let rule = DependencyRule;
    let mut context = FilterContext::new("/project/node_modules", "/project", "/project", 1);
    context.project_types.push(ProjectType::NodeJs);

    assert!(rule.applies_to(&context));
    assert!(rule.evaluate(&context) > 50);
}

#[test]
fn test_registry_evaluation() {
    let gitignore_ctx = GitIgnoreContext::new("/project", None);
    let registry = create_default_registry(gitignore_ctx);
    let mut context = FilterContext::new("/project/target", "/project", "/project", 1);
    context.project_types.push(ProjectType::Rust);

    let result = registry.should_hide(&context);
    assert!(result.is_some());
    let (should_hide, _) = result.unwrap();
    assert!(should_hide);
}

#[test]
fn vcs_and_dev_environment_rules() {
    let vcs = VCSRule;
    let context = FilterContext::new("/project/.git", "/project", "/project", 1);
    assert!(vcs.applies_to(&context));
    assert_eq!(vcs.evaluate(&context), 85);
    assert_eq!(vcs.annotation(), "[vcs]");

    let dev = DevEnvironmentRule;
    let context2 = FilterContext::new("/project/.vscode", "/project", "/project", 1);
    assert!(dev.applies_to(&context2));
    assert_eq!(dev.evaluate(&context2), 80);
    assert_eq!(dev.annotation(), "[dev config]");
}

#[test]
fn registry_threshold_blocks_low_scores() {
    let mut registry = FilterRegistry::new();
    registry.add_rule(Rule::DevEnvironment(DevEnvironmentRule));
    registry.set_threshold(90);

    let context = FilterContext::new("/project/.vscode", "/project", "/project", 1);
    assert!(registry.should_hide(&context).is_none());

    registry.set_threshold(50);
    assert!(registry.should_hide(&context).is_some());
}

#[test]
fn detect_project_types_from_markers() {
    let mut context = FilterContext::new("/project", "/", "/project", 0);
    context.root_files.push("Cargo.toml".to_string());
    context.root_files.push("go.mod".to_string());
    context.detect_project_types();
    assert_eq!(
        context.project_types,
        vec![ProjectType::Rust, ProjectType::Go]
    );

    let mut empty = FilterContext::new("/project", "/", "/project", 0);
    empty.detect_project_types();
    assert_eq!(empty.project_types, vec![ProjectType::Generic]);
}

#[test]
fn has_file_in_dir_caches_answers() {
    let mut context = FilterContext::new("/project/src", "/project", "/project", 1);
    context.dir_files.push("main.rs".to_string());

    assert!(context.has_file_in_dir("main.rs"));
    assert!(!context.has_file_in_dir("lib.rs"));
    // cached answers are reused
    assert!(context.has_file_in_dir("main.rs"));
    assert!(!context.has_file_in_dir("lib.rs"));
    assert_eq!(context.has_file.len(), 2);
}

#[test]
fn is_project_artifact_depends_on_types() {
    let mut context = FilterContext::new("/project", "/", "/project", 0);
    context.project_types.push(ProjectType::Rust);
    assert!(context.is_project_artifact("target"));
    assert!(!context.is_project_artifact("node_modules"));
    assert!(!context.is_project_artifact("src"));

    context.project_types.push(ProjectType::NodeJs);
    assert!(context.is_project_artifact("node_modules"));
    assert!(context.is_project_artifact("build"));
    assert!(context.is_project_artifact("dist"));
}

#[test]
fn simple_glob_matching() {
    assert!(glob_match("*", "anything"));
    assert!(glob_match("*.log", "server.log"));
    assert!(!glob_match("*.log", "server.txt"));
    assert!(glob_match("test*", "test_utils.rs"));
    assert!(!glob_match("test*", "main.rs"));
    assert!(glob_match("*odu*", "node_modules"));
    assert!(!glob_match("*xyz*", "node_modules"));
    assert!(glob_match("exact", "exact"));
    assert!(!glob_match("exact", "exactly"));
}
