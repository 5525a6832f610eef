use smart_tree::format_tree;
use smart_tree::format_tree_at;
use smart_tree::ColorTheme;
use smart_tree::DirectoryEntry;
use smart_tree::DisplayConfig;
use smart_tree::EntryMetadata;
use smart_tree::SortBy;

const NOW: u64 = 1_700_000_000;

fn entry(name: &str, is_dir: bool, size: u64, children: Vec<DirectoryEntry>) -> DirectoryEntry {
    DirectoryEntry {
        name: name.to_string(),
        is_dir,
        metadata: EntryMetadata {
            size,
            created: NOW,
            modified: NOW,
            files_count: if is_dir { children.len() } else { 0 },
        },
        children,
        is_gitignored: false,
        filtered_by: None,
        filter_annotation: None,
    }
}

fn config(max_lines: usize, dir_limit: usize) -> DisplayConfig {
    DisplayConfig {
        max_lines,
        dir_limit,
        sort_by: SortBy::Name,
        dirs_first: false,
        use_colors: false,
        color_theme: ColorTheme::Disabled,
        use_emoji: false,
        show_system_dirs: false,
        show_filtered: false,
    }
}

#[test]
fn mod_test_no_collapse_single_item() {
    let files = vec![
        entry("file1.txt", false, 6, vec![]),
        entry("file2.txt", false, 6, vec![]),
        entry("file3.txt", false, 6, vec![]),
    ];
    let root = entry("test_dir", true, 18, files);

    let cfg = config(5, 2);
    let output = format_tree(&root, &cfg);

    assert!(
        !output.contains("1 item hidden"),
        "Should not show '1 item hidden' message since it doesn't save space"
    );

    let files2 = vec![
        entry("file1.txt", false, 6, vec![]),
        entry("file2.txt", false, 6, vec![]),
        entry("file3.txt", false, 6, vec![]),
        entry("file4.txt", false, 6, vec![]),
    ];
    let root2 = entry("test_dir2", true, 24, files2);

    let output2 = format_tree(&root2, &cfg);

    assert!(
        output2.contains("items hidden"),
        "Should show 'items hidden' message when multiple items are hidden"
    );
}

#[test]
fn test_tree_connectors() {
    let files = vec![
        entry("file1.txt", false, 6, vec![]),
        entry("file2.txt", false, 6, vec![]),
        entry("file3.txt", false, 6, vec![]),
    ];
    let root = entry("test_dir", true, 18, files);

    let cfg = config(10, 10);
    let output = format_tree(&root, &cfg);

    let lines: Vec<_> = output.lines().collect();

    let last_file_line = lines
        .iter()
        .find(|l| l.contains("file3.txt"))
        .expect("Should find file3.txt in output");
    assert!(
        last_file_line.contains("└──"),
        "Last item should use L-shape connector: {}",
        last_file_line
    );

    let middle_file_line = lines
        .iter()
        .find(|l| l.contains("file2.txt"))
        .expect("Should find file2.txt in output");
    assert!(
        middle_file_line.contains("├──"),
        "Middle item should use T-shape connector: {}",
        middle_file_line
    );
}

#[test]
fn scenario_sibling_files_show_both_ends() {
    // 19 sibling files under one directory, a line budget of ten: the
    // alphabetically first and last files frame one hidden-items line.
    let files = (1..20)
        .map(|i| entry(&format!("file{}.rs", i), false, 100, vec![]))
        .collect::<Vec<_>>();
    let root = entry("dir", true, 1900, files);

    let cfg = config(10, 20);
    let output = format_tree_at(&root, &cfg, NOW);
    println!("{}", output);

    assert!(output.contains("file1.rs"), "first name-sorted file shown");
    assert!(output.contains("items hidden"), "hidden summary shown");
    assert!(
        output.contains("file9.rs"),
        "last name-sorted file shown (file9.rs sorts last lexicographically)"
    );
    assert!(output.lines().count() <= 10);
}

#[test]
fn scenario_three_files_fit_in_budget() {
    // A src directory of exactly three files with an ample budget: all
    // three shown, the last with the corner connector, the one before it
    // with the branch connector.
    let files = vec![
        entry("file1.rs", false, 100, vec![]),
        entry("file2.rs", false, 100, vec![]),
        entry("file3.rs", false, 100, vec![]),
    ];
    let root = entry("src", true, 300, files);

    let cfg = config(20, 20);
    let output = format_tree_at(&root, &cfg, NOW);

    assert!(output.contains("file1.rs"));
    assert!(output.contains("file2.rs"));
    assert!(output.contains("file3.rs"));
    let lines: Vec<_> = output.lines().collect();
    let file3_line = lines.iter().find(|l| l.contains("file3.rs")).unwrap();
    assert!(file3_line.contains("└──"));
    let file2_line = lines.iter().find(|l| l.contains("file2.rs")).unwrap();
    assert!(file2_line.contains("├──"));
}

#[test]
fn scenario_never_one_item_hidden() {
    // A directory limit that would naively hide one of three files: the
    // summary for a single hidden item never appears.
    let files = vec![
        entry("a.txt", false, 10, vec![]),
        entry("b.txt", false, 10, vec![]),
        entry("c.txt", false, 10, vec![]),
    ];
    let root = entry("dir", true, 30, files);

    let cfg = config(20, 2);
    let output = format_tree_at(&root, &cfg, NOW);

    assert!(!output.contains("1 item hidden"));
    assert!(!output.contains("... 1 items hidden ..."));
}

#[test]
fn scenario_two_items_hidden() {
    // A directory limit of two on four files: the first file is shown and
    // the middle collapses into one summary line.
    let files = vec![
        entry("file1.txt", false, 10, vec![]),
        entry("file2.txt", false, 10, vec![]),
        entry("file3.txt", false, 10, vec![]),
        entry("file4.txt", false, 10, vec![]),
    ];
    let root = entry("dir", true, 40, files);

    let cfg = config(20, 2);
    let output = format_tree_at(&root, &cfg, NOW);
    println!("{}", output);

    assert!(output.contains("file1.txt"), "first file shown");
    assert!(output.contains("items hidden"), "hidden summary shown");
    assert!(output.lines().count() <= 20);
}

#[test]
fn scenario_zero_line_budget() {
    // A zero line budget renders nothing at all, and never panics.
    let files = vec![entry("a.txt", false, 10, vec![])];
    let root = entry("dir", true, 10, files);

    let cfg = config(0, 20);
    let output = format_tree_at(&root, &cfg, NOW);
    assert_eq!(output, "");

    let output2 = format_tree(&root, &cfg);
    assert_eq!(output2, "");
}

#[test]
fn rendering_is_deterministic() {
    // The same tree, configuration and reference time render to
    // byte-identical output.
    let files = (1..8)
        .map(|i| entry(&format!("f{}.rs", i), false, 10 * i, vec![]))
        .collect::<Vec<_>>();
    let root = entry("dir", true, 280, files);

    let cfg = config(6, 3);
    let first = format_tree_at(&root, &cfg, NOW);
    let second = format_tree_at(&root, &cfg, NOW);
    assert_eq!(first, second);
}

#[test]
fn larger_budget_never_shows_fewer_entries() {
    // Raising max_lines while holding everything else fixed never shrinks
    // the set of distinct entries shown.
    let inner = (1..6)
        .map(|i| entry(&format!("inner{}.rs", i), false, 10, vec![]))
        .collect::<Vec<_>>();
    let files = vec![
        entry("alpha", true, 50, inner),
        entry("beta.txt", false, 20, vec![]),
        entry("gamma.txt", false, 30, vec![]),
        entry("delta.txt", false, 40, vec![]),
        entry("epsilon.txt", false, 50, vec![]),
    ];
    let root = entry("dir", true, 190, files);

    let names = [
        "alpha",
        "beta.txt",
        "gamma.txt",
        "delta.txt",
        "epsilon.txt",
        "inner1.rs",
        "inner2.rs",
        "inner3.rs",
        "inner4.rs",
        "inner5.rs",
    ];
    let mut prev_shown = 0;
    for max_lines in 0..25 {
        let cfg = config(max_lines, 20);
        let output = format_tree_at(&root, &cfg, NOW);
        let shown = names.iter().filter(|n| output.contains(**n)).count();
        assert!(
            shown >= prev_shown,
            "shown entries dropped from {} to {} at max_lines {}",
            prev_shown,
            shown,
            max_lines
        );
        prev_shown = shown;
    }
}

#[test]
fn exact_output_flat_directory() {
    // The full rendered text of a small flat tree, byte for byte.
    let files = vec![
        entry("a.txt", false, 100, vec![]),
        entry("b.txt", false, 100, vec![]),
        entry("c.txt", false, 100, vec![]),
    ];
    let root = entry("dir", true, 300, files);

    let cfg = config(20, 20);
    let output = format_tree_at(&root, &cfg, NOW);
    let expected = ".\n├── a.txt (100B, modified just now)\n├── b.txt (100B, modified just now)\n└── c.txt (100B, modified just now)\n";
    assert_eq!(output, expected);
}

#[test]
fn exact_output_nested_directory() {
    // A shown directory uses the corner connector and indents its child
    // with blank continuation, byte for byte.
    let inner = vec![entry("main.rs", false, 50, vec![])];
    let src = entry("src", true, 50, inner);
    let root = entry("dir", true, 50, vec![src]);

    let cfg = config(20, 20);
    let output = format_tree_at(&root, &cfg, NOW);
    let expected = ".\n└── src (1 files, 50B, modified just now)\n    └── main.rs (50B, modified just now)\n";
    assert_eq!(output, expected);
}

#[test]
fn order_context_when_items_hidden() {
    // With a name-sorted directory and a hidden middle, the shown head
    // items precede every hidden name and the shown tail items follow.
    let files = (1..10)
        .map(|i| entry(&format!("f{}.rs", i), false, 100, vec![]))
        .collect::<Vec<_>>();
    let root = entry("dir", true, 900, files);

    let cfg = config(8, 20);
    let output = format_tree_at(&root, &cfg, NOW);
    println!("{}", output);

    // head: f1, f2; hidden: f3..f7; tail: f8, f9
    assert!(output.contains("f1.rs"));
    assert!(output.contains("f2.rs"));
    assert!(output.contains("... 5 items hidden ..."));
    assert!(output.contains("f8.rs"));
    assert!(output.contains("f9.rs"));
    assert!(!output.contains("f5.rs"));
    let hidden_pos = output.find("items hidden").unwrap();
    assert!(output.find("f2.rs").unwrap() < hidden_pos);
    assert!(output.find("f8.rs").unwrap() > hidden_pos);
}

#[test]
fn folded_directory_markers() {
    // A gitignored directory is folded with its marker and not entered;
    // with system directories shown it is annotated and entered.
    let inner = vec![entry("secret.txt", false, 10, vec![])];
    let mut ignored_dir = entry("node_modules", true, 10, inner);
    ignored_dir.is_gitignored = true;
    let root = entry("dir", true, 10, vec![ignored_dir]);

    let cfg = config(20, 20);
    let output = format_tree_at(&root, &cfg, NOW);
    assert!(output.contains("[folded: system]"));
    assert!(!output.contains("secret.txt"));

    let mut cfg_show = config(20, 20);
    cfg_show.show_system_dirs = true;
    let output2 = format_tree_at(&root, &cfg_show, NOW);
    assert!(output2.contains("[system]"));
    assert!(output2.contains("secret.txt"));
}

#[test]
fn filter_annotations_shown_when_enabled() {
    // A filtered entry carries its annotation only when filtered-items
    // display is enabled, and its children are skipped otherwise.
    let inner = vec![entry("lib.js", false, 10, vec![])];
    let mut filtered = entry("deps", true, 10, inner);
    filtered.filtered_by = Some("rule".to_string());
    filtered.filter_annotation = Some("dependencies".to_string());
    let root = entry("dir", true, 10, vec![filtered]);

    let cfg = config(20, 20);
    let output = format_tree_at(&root, &cfg, NOW);
    assert!(!output.contains("[dependencies]"));
    assert!(!output.contains("lib.js"));

    let mut cfg_show = config(20, 20);
    cfg_show.show_filtered = true;
    let output2 = format_tree_at(&root, &cfg_show, NOW);
    assert!(output2.contains("[dependencies]"));
    assert!(output2.contains("lib.js"));
}
