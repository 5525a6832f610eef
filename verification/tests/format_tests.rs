use smart_tree::format::format_metadata;
use smart_tree::should_use_colors;
use smart_tree::should_use_emoji;
use smart_tree::style::determine_file_type;
use smart_tree::style::format_name_with_emoji;
use smart_tree::style::get_file_emoji;
use smart_tree::format::format_size;
use smart_tree::format::format_time;
use smart_tree::sort_entries;
use smart_tree::ColorTheme;
use smart_tree::DirectoryEntry;
use smart_tree::DisplayConfig;
use smart_tree::EntryMetadata;
use smart_tree::FileType;
use smart_tree::SortBy;

const NOW: u64 = 1_700_000_000;

fn entry(name: &str, is_dir: bool, size: u64, modified: u64, created: u64) -> DirectoryEntry {
    DirectoryEntry {
        name: name.to_string(),
        is_dir,
        metadata: EntryMetadata {
            size,
            created,
            modified,
            files_count: if is_dir { 3 } else { 0 },
        },
        children: vec![],
        is_gitignored: false,
        filtered_by: None,
        filter_annotation: None,
    }
}

fn config(sort_by: SortBy, dirs_first: bool) -> DisplayConfig {
    DisplayConfig {
        max_lines: 100,
        dir_limit: 20,
        sort_by,
        dirs_first,
        use_colors: false,
        color_theme: ColorTheme::Disabled,
        use_emoji: false,
        show_system_dirs: false,
        show_filtered: false,
    }
}

#[test]
fn size_units_and_decimals() {
    assert_eq!(format_size(0), "0B");
    assert_eq!(format_size(100), "100B");
    assert_eq!(format_size(1023), "1023B");
    assert_eq!(format_size(1024), "1.0KB");
    assert_eq!(format_size(1536), "1.5KB");
    assert_eq!(format_size(10 * 1024 + 512), "10.5KB");
    assert_eq!(format_size(1024 * 1024), "1.0MB");
    assert_eq!(format_size(3 * 1024 * 1024 / 2), "1.5MB");
    assert_eq!(format_size(1024 * 1024 * 1024), "1.0GB");
    assert_eq!(format_size(1024u64 * 1024 * 1024 * 1024), "1.00TB");
    assert_eq!(format_size(3 * 1024u64 * 1024 * 1024 * 1024 / 2), "1.50TB");
}

#[test]
fn time_buckets_are_truncated() {
    assert_eq!(format_time(NOW, NOW), "just now");
    assert_eq!(format_time(NOW, NOW - 59), "just now");
    assert_eq!(format_time(NOW, NOW - 60), "1m ago");
    assert_eq!(format_time(NOW, NOW - 119), "1m ago");
    assert_eq!(format_time(NOW, NOW - 3600), "1h ago");
    assert_eq!(format_time(NOW, NOW - 2 * 3600), "2h ago");
    assert_eq!(format_time(NOW, NOW - 86400), "1d ago");
    assert_eq!(format_time(NOW, NOW - 7 * 86400), "1w ago");
    assert_eq!(format_time(NOW, NOW - 30 * 86400), "1mo ago");
    assert_eq!(format_time(NOW, NOW - 60 * 86400), "2mo ago");
    assert_eq!(format_time(NOW, NOW - 365 * 86400), "1y ago");
    assert_eq!(format_time(NOW, NOW - 2 * 365 * 86400), "2y ago");
    // a timestamp after the reference clamps to "just now"
    assert_eq!(format_time(NOW, NOW + 100), "just now");
}

#[test]
fn metadata_text_for_files_and_directories() {
    let f = entry("a.rs", false, 1536, NOW - 60, NOW - 60);
    assert_eq!(format_metadata(&f, NOW), "(1.5KB, modified 1m ago)");

    let d = entry("src", true, 4096, NOW, NOW);
    assert_eq!(format_metadata(&d, NOW), "(3 files, 4.0KB, modified just now)");
}

#[test]
fn sorting_by_each_key() {
    let mut by_name = vec![
        entry("b", false, 1, 1, 1),
        entry("a", false, 2, 2, 2),
        entry("c", false, 3, 3, 3),
    ];
    sort_entries(&mut by_name, &config(SortBy::Name, false));
    let names: Vec<_> = by_name.iter().map(|e| e.name.as_str()).collect();
    assert_eq!(names, ["a", "b", "c"]);

    let mut by_size = vec![
        entry("small", false, 1, 0, 0),
        entry("large", false, 100, 0, 0),
        entry("mid", false, 50, 0, 0),
    ];
    sort_entries(&mut by_size, &config(SortBy::Size, false));
    let names: Vec<_> = by_size.iter().map(|e| e.name.as_str()).collect();
    assert_eq!(names, ["large", "mid", "small"]);

    let mut by_modified = vec![
        entry("old", false, 0, 10, 0),
        entry("new", false, 0, 30, 0),
        entry("mid", false, 0, 20, 0),
    ];
    sort_entries(&mut by_modified, &config(SortBy::Modified, false));
    let names: Vec<_> = by_modified.iter().map(|e| e.name.as_str()).collect();
    assert_eq!(names, ["new", "mid", "old"]);

    let mut by_created = vec![
        entry("old", false, 0, 0, 10),
        entry("new", false, 0, 0, 30),
    ];
    sort_entries(&mut by_created, &config(SortBy::Created, false));
    let names: Vec<_> = by_created.iter().map(|e| e.name.as_str()).collect();
    assert_eq!(names, ["new", "old"]);
}

#[test]
fn directories_first_and_stability() {
    let mut entries = vec![
        entry("zeta.txt", false, 1, 1, 1),
        entry("beta", true, 1, 1, 1),
        entry("alpha.txt", false, 1, 1, 1),
        entry("delta", true, 1, 1, 1),
    ];
    sort_entries(&mut entries, &config(SortBy::Name, true));
    let names: Vec<_> = entries.iter().map(|e| e.name.as_str()).collect();
    assert_eq!(names, ["beta", "delta", "alpha.txt", "zeta.txt"]);

    // equal keys keep arrival order
    let mut equal = vec![
        entry("first", false, 7, 5, 5),
        entry("second", false, 7, 5, 5),
        entry("third", false, 7, 5, 5),
    ];
    sort_entries(&mut equal, &config(SortBy::Size, false));
    let names: Vec<_> = equal.iter().map(|e| e.name.as_str()).collect();
    assert_eq!(names, ["first", "second", "third"]);
}

#[test]
fn style_gating_and_emoji() {
    let cfg = config(SortBy::Name, false);
    assert!(!should_use_colors(&cfg));
    assert!(!should_use_emoji(&cfg));

    assert_eq!(get_file_emoji(FileType::Directory), "📁 ");
    assert_eq!(get_file_emoji(FileType::Code), "📝 ");

    assert_eq!(determine_file_type("main.rs", false), FileType::Code);
    assert_eq!(determine_file_type("IMG.JPG", false), FileType::Image);
    assert_eq!(determine_file_type("movie.mkv", false), FileType::Video);
    assert_eq!(determine_file_type("song.mp3", false), FileType::Audio);
    assert_eq!(determine_file_type("x.zip", false), FileType::Archive);
    assert_eq!(determine_file_type("notes.md", false), FileType::Document);
    assert_eq!(determine_file_type("tool.exe", false), FileType::Executable);
    assert_eq!(determine_file_type(".bashrc", false), FileType::Hidden);
    assert_eq!(determine_file_type("plain", false), FileType::Regular);
    assert_eq!(determine_file_type("src", true), FileType::Directory);

    // with emoji off the display name is the bare name
    let e = entry("main.rs", false, 1, 1, 1);
    assert_eq!(format_name_with_emoji(&e, &cfg), "main.rs");
}
