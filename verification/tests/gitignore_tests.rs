use smart_tree::gitignore::convert_to_glob_pattern;
use smart_tree::GitIgnore;
use smart_tree::GitIgnoreContext;

#[test]
fn test_system_patterns() {
    let gitignore = GitIgnore::load_content(None);

    assert!(gitignore.is_ignored("root/.git"));
    assert!(gitignore.is_ignored("root/some/path/to/.git"));
    assert!(gitignore.is_ignored("root/node_modules"));
    assert!(gitignore.is_ignored("root/src/node_modules"));
    assert!(gitignore.is_ignored("root/target"));

    assert!(!gitignore.is_ignored("root/src"));
    assert!(!gitignore.is_ignored("root/README.md"));
}

#[test]
fn gitignore_test_gitignore_patterns() {
    let gitignore_content = "# Comment line
*.log
/build/
/dist/
!important.log
temp/
";

    let gitignore = GitIgnore::load_content(Some(gitignore_content));

    assert!(gitignore.is_ignored("root/app.log"));
    assert!(gitignore.is_ignored("root/logs/server.log"));
    assert!(gitignore.is_ignored("root/build"));
    assert!(gitignore.is_ignored("root/temp"));
    assert!(gitignore.is_ignored("root/src/temp"));

    assert!(!gitignore.is_ignored("root/important.log"));

    assert!(!gitignore.is_ignored("root/src"));
    assert!(!gitignore.is_ignored("root/README.md"));
}

#[test]
fn test_convert_to_glob_pattern() {
    assert_eq!(convert_to_glob_pattern("logs/"), "**/logs");

    assert_eq!(convert_to_glob_pattern("*.log"), "**/*.log");
    assert_eq!(convert_to_glob_pattern("src/*.js"), "**/src/*.js");

    assert_eq!(convert_to_glob_pattern("/dist"), "dist");
    assert_eq!(convert_to_glob_pattern("build/temp"), "**/build/temp");

    assert_eq!(convert_to_glob_pattern("node_modules"), "**/node_modules");
}

#[test]
fn context_consults_nested_gitignores() {
    // A deeper gitignore's patterns extend the root's, and its negations
    // clear a verdict from above.
    let mut ctx = GitIgnoreContext::new("root", Some("*.log\n"));
    ctx.process_directory("root/sub", Some("*.tmp\n!keep.log\n"));

    assert!(ctx.is_ignored("root/app.log", false));
    assert!(ctx.is_ignored("root/sub/scratch.tmp", false));
    assert!(ctx.is_ignored("root/sub/app.log", false));
    assert!(!ctx.is_ignored("root/sub/keep.log", false));
    assert!(!ctx.is_ignored("root/sub/notes.txt", false));
}

#[test]
fn context_without_root_gitignore_uses_system_defaults() {
    let ctx = GitIgnoreContext::new("root", None);
    assert!(ctx.is_ignored("root/target", true));
    assert!(ctx.is_ignored("root/a/node_modules", true));
    assert!(!ctx.is_ignored("root/src", true));
}

#[test]
fn invalid_patterns_are_dropped() {
    // a pattern whose glob form does not compile is left out; the rest
    // still apply
    let gitignore = GitIgnore::load_content(Some("a***b\n*.log\n"));
    assert_eq!(gitignore.patterns.len(), 1);
    assert!(gitignore.is_ignored("root/app.log"));
    assert!(!gitignore.is_ignored("root/axb"));
}
