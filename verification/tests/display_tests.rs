use smart_tree::ColorTheme;
use smart_tree::DirectoryEntry;
use smart_tree::DisplayConfig;
use smart_tree::DisplayState;
use smart_tree::EntryMetadata;
use smart_tree::SortBy;

const NOW: u64 = 1_700_000_000;

fn create_test_entry(name: &str, is_dir: bool, children: Vec<DirectoryEntry>) -> DirectoryEntry {
    DirectoryEntry {
        name: name.to_string(),
        is_dir,
        metadata: EntryMetadata {
            size: 100,
            created: NOW,
            modified: NOW,
            files_count: if is_dir { children.len() } else { 0 },
        },
        children,
        is_gitignored: false,
        filtered_by: None,
        filter_annotation: None,
    }
}

fn test_config(max_lines: usize, dir_limit: usize, sort_by: SortBy) -> DisplayConfig {
    DisplayConfig {
        max_lines,
        dir_limit,
        sort_by,
        dirs_first: false,
        use_colors: false,
        color_theme: ColorTheme::Disabled,
        use_emoji: false,
        show_system_dirs: false,
        show_filtered: false,
    }
}

fn extract_directory_content(output: &str, dir_name: &str) -> String {
    output
        .lines()
        .skip_while(|l| !l.contains(dir_name))
        .take_while(|l| l.starts_with("│   ") || l.starts_with("├──") || l.starts_with("└──"))
        .collect::<Vec<_>>()
        .join("\n")
}

#[test]
fn test_basic_line_limit() {
    let files = (1..20)
        .map(|i| create_test_entry(&format!("file{}.rs", i), false, vec![]))
        .collect::<Vec<_>>();

    for max_lines in [3, 5, 7, 10] {
        let config = test_config(max_lines, 20, SortBy::Name);
        let mut state = DisplayState::new(max_lines, &config, NOW);
        state.show_items(&files, "");

        let line_count = state.output.lines().count();
        assert!(
            line_count <= max_lines,
            "Output exceeded max_lines ({}) with {} lines:\n{}",
            max_lines,
            line_count,
            state.output
        );
    }
}

#[test]
fn test_head_tail_pattern() {
    let files = (1..10)
        .map(|i| create_test_entry(&format!("file{}.rs", i), false, vec![]))
        .collect::<Vec<_>>();

    let config = test_config(7, 20, SortBy::Name);
    let mut state = DisplayState::new(config.max_lines, &config, NOW);
    state.show_items(&files, "");

    println!("Output:\n{}", state.output);

    let visible_lines: Vec<_> = state
        .output
        .lines()
        .filter(|l| !l.contains("items hidden"))
        .collect();

    assert!(
        visible_lines.iter().any(|l| l.contains("file1.rs")),
        "Should show first file"
    );
    assert!(
        visible_lines.iter().any(|l| l.contains("file9.rs")),
        "Should show last file"
    );
    assert!(
        state.output.contains("items hidden"),
        "Should indicate hidden items"
    );
}

#[test]
fn test_nested_directory_budget() {
    let nested_files = (1..5)
        .map(|i| create_test_entry(&format!("nested{}.rs", i), false, vec![]))
        .collect::<Vec<_>>();

    let dirs = vec![
        create_test_entry("src", true, nested_files.clone()),
        create_test_entry("test", true, nested_files),
    ];

    let config = test_config(10, 20, SortBy::Name);
    let mut state = DisplayState::new(config.max_lines, &config, NOW);
    state.show_items(&dirs, "");

    println!("Output:\n{}", state.output);

    assert!(
        state.output.lines().count() <= config.max_lines,
        "Should respect max_lines limit"
    );

    for dir in ["src", "test"] {
        if state.output.contains(dir) {
            let dir_content = extract_directory_content(&state.output, dir);
            assert!(
                !dir_content.is_empty(),
                "Directory {} should show some content",
                dir
            );
        }
    }
}

#[test]
fn test_real_project_structure() {
    let display_dir_contents = vec![
        create_test_entry("mod.rs", false, vec![]),
        create_test_entry("format.rs", false, vec![]),
        create_test_entry("state.rs", false, vec![]),
        create_test_entry("tests.rs", false, vec![]),
        create_test_entry("utils.rs", false, vec![]),
    ];

    let src_contents = vec![
        create_test_entry("display", true, display_dir_contents),
        create_test_entry("gitignore.rs", false, vec![]),
        create_test_entry("lib.rs", false, vec![]),
        create_test_entry("main.rs", false, vec![]),
        create_test_entry("scanner.rs", false, vec![]),
        create_test_entry("types.rs", false, vec![]),
    ];

    for max_lines in [10, 15, 20] {
        let config = test_config(max_lines, 20, SortBy::Modified);
        let mut state = DisplayState::new(config.max_lines, &config, NOW);
        state.show_items(&src_contents, "");

        println!("\nTesting with max_lines = {}:\n{}", max_lines, state.output);

        let line_count = state.output.lines().count();
        assert!(
            line_count <= max_lines,
            "Output exceeded {} lines (got {})",
            max_lines,
            line_count
        );

        if max_lines >= 10 {
            assert!(
                state.output.contains("display") || state.output.contains("main.rs"),
                "Should show some top-level content"
            );

            let display_content = extract_directory_content(&state.output, "display");
            if !display_content.is_empty() {
                assert!(
                    display_content.contains("mod.rs") || display_content.contains("utils.rs"),
                    "Should show some display directory content"
                );
            }
        }
    }
}

#[derive(Debug)]
struct ExpectedContent {
    should_show_src: bool,
    should_show_src_contents: bool,
    min_visible_items: usize,
    should_show_head_tail: bool,
}

#[test]
fn test_expanded_project_structure() {
    let display_dir_contents = vec![
        create_test_entry("mod.rs", false, vec![]),
        create_test_entry("format.rs", false, vec![]),
        create_test_entry("state.rs", false, vec![]),
        create_test_entry("tests.rs", false, vec![]),
        create_test_entry("utils.rs", false, vec![]),
    ];

    let src_contents = vec![
        create_test_entry("display", true, display_dir_contents),
        create_test_entry("gitignore.rs", false, vec![]),
        create_test_entry("lib.rs", false, vec![]),
        create_test_entry("main.rs", false, vec![]),
        create_test_entry("scanner.rs", false, vec![]),
        create_test_entry("types.rs", false, vec![]),
    ];

    let debug_contents = vec![
        create_test_entry("deps", true, vec![]),
        create_test_entry("examples", true, vec![]),
        create_test_entry("incremental", true, vec![]),
        create_test_entry("smart-tree", false, vec![]),
        create_test_entry("smart-tree.d", false, vec![]),
    ];

    let target_contents = vec![
        create_test_entry("debug", true, debug_contents),
        create_test_entry("rust-analyzer", true, vec![]),
    ];

    let root_contents = vec![
        create_test_entry("Cargo.lock", false, vec![]),
        create_test_entry("Cargo.toml", false, vec![]),
        create_test_entry("README.MD", false, vec![]),
        create_test_entry("src", true, src_contents),
        create_test_entry("target", true, target_contents),
    ];

    let test_cases = vec![
        (
            5,
            ExpectedContent {
                should_show_src: false,
                should_show_src_contents: false,
                min_visible_items: 2,
                should_show_head_tail: false,
            },
        ),
        (
            10,
            ExpectedContent {
                should_show_src: true,
                should_show_src_contents: true,
                min_visible_items: 4,
                should_show_head_tail: true,
            },
        ),
        (
            15,
            ExpectedContent {
                should_show_src: true,
                should_show_src_contents: true,
                min_visible_items: 6,
                should_show_head_tail: true,
            },
        ),
        (
            20,
            ExpectedContent {
                should_show_src: true,
                should_show_src_contents: true,
                min_visible_items: 8,
                should_show_head_tail: true,
            },
        ),
    ];

    for (max_lines, expected) in test_cases {
        println!("\nTesting with max_lines = {}", max_lines);
        println!("Expected: {:?}", expected);

        let config = test_config(max_lines, 20, SortBy::Modified);
        let mut state = DisplayState::new(config.max_lines, &config, NOW);
        state.show_items(&root_contents, "");

        let output = state.output.clone();
        println!("Output:\n{}", output);

        println!("\nAnalyzing output structure:");
        let lines: Vec<_> = output.lines().collect();
        for (i, line) in lines.iter().enumerate() {
            println!("Line {}: {}", i, line);
            if line.contains("src") {
                println!("Found src at line {}", i);
                for j in 1..3 {
                    if i + j < lines.len() {
                        println!("  Next {}: {}", j, lines[i + j]);
                    }
                }
            }
        }

        let visible_items = output
            .lines()
            .filter(|l| !l.contains("items hidden"))
            .count();

        println!("Visible items: {}", visible_items);

        if expected.should_show_src {
            assert!(
                output.contains("src"),
                "Should show src directory with {} lines",
                max_lines
            );
        }

        if expected.should_show_src_contents {
            assert!(
                output.contains("display") || output.contains("main.rs"),
                "Should show some src directory contents with {} lines",
                max_lines
            );

            if expected.should_show_head_tail {
                let src_section = output
                    .lines()
                    .skip_while(|l| !l.contains("src"))
                    .take_while(|l| {
                        l.starts_with("│   ") || l.starts_with("├──") || l.starts_with("└──")
                    })
                    .collect::<Vec<_>>()
                    .join("\n");

                if src_section.contains("items hidden") {
                    assert!(
                        src_section.matches("│   ├──").count() >= 1
                            || src_section.matches("│   └──").count() >= 1,
                        "Should show at least one visible item in directory when items are hidden with {} lines",
                        max_lines
                    );
                }
            }
        }

        assert!(
            visible_items >= expected.min_visible_items,
            "Should show at least {} items with {} lines limit, got {}",
            expected.min_visible_items,
            max_lines,
            visible_items
        );

        let line_count = output.lines().count();
        assert!(
            line_count <= max_lines,
            "Output should not exceed max_lines. Got {} lines, expected <= {}",
            line_count,
            max_lines
        );
    }
}

#[test]
fn test_extended_head_tail_pattern() {
    let many_files: Vec<_> = (1..20)
        .map(|i| create_test_entry(&format!("file{}.rs", i), false, vec![]))
        .collect();

    let root_contents = vec![create_test_entry("src", true, many_files)];

    let config = test_config(10, 20, SortBy::Name);
    let mut state = DisplayState::new(config.max_lines, &config, NOW);
    state.show_items(&root_contents, "");

    println!("Output:\n{}", state.output);

    let output = state.output;

    println!("\nContent analysis:");
    for line in output.lines() {
        println!("{}", line);
    }

    assert!(output.contains("src"), "Should show src directory");
    assert!(output.contains("file1.rs"), "Should show first file");
    assert!(output.contains("items hidden"), "Should show hidden items");
    assert!(
        output.lines().count() <= config.max_lines,
        "Should not exceed line limit"
    );
}

#[test]
fn test_last_item_connector() {
    let files = vec![
        create_test_entry("file1.rs", false, vec![]),
        create_test_entry("file2.rs", false, vec![]),
        create_test_entry("file3.rs", false, vec![]),
    ];

    let root_contents = vec![create_test_entry("src", true, files)];

    let config = test_config(20, 20, SortBy::Name);
    let mut state = DisplayState::new(config.max_lines, &config, NOW);
    state.show_items(&root_contents, "");

    let output = state.output;
    println!("Output:\n{}", output);

    let lines: Vec<_> = output.lines().collect();

    let file3_line = lines
        .iter()
        .find(|l| l.contains("file3.rs"))
        .expect("file3.rs should be in output");

    assert!(
        file3_line.contains("└──"),
        "Last item in directory should use L-shape connector: {}",
        file3_line
    );
}

#[test]
fn test_no_collapse_single_item() {
    let files = vec![
        create_test_entry("file1.rs", false, vec![]),
        create_test_entry("file2.rs", false, vec![]),
        create_test_entry("file3.rs", false, vec![]),
    ];

    let root_contents = vec![create_test_entry("src", true, files)];

    let config = test_config(5, 2, SortBy::Name);
    let mut state = DisplayState::new(config.max_lines, &config, NOW);
    state.show_items(&root_contents, "");

    let output = state.output;
    println!("Output with 1 item hidden:\n{}", output);

    assert!(
        !output.contains("1 item hidden"),
        "Should not collapse when only 1 item would be hidden"
    );

    let more_files = vec![
        create_test_entry("file1.rs", false, vec![]),
        create_test_entry("file2.rs", false, vec![]),
        create_test_entry("file3.rs", false, vec![]),
        create_test_entry("file4.rs", false, vec![]),
    ];

    let more_root_contents = vec![create_test_entry("src", true, more_files)];

    let more_config = test_config(5, 2, SortBy::Name);
    let mut more_state = DisplayState::new(more_config.max_lines, &more_config, NOW);
    more_state.show_items(&more_root_contents, "");

    let more_output = more_state.output;
    println!("Output with 2 items hidden:\n{}", more_output);

    assert!(
        more_output.contains("items hidden"),
        "Should collapse when 2 or more items would be hidden"
    );
}
