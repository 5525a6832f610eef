//! Budget-constrained rendering of in-memory directory trees.
//!
//! Given a tree of entries and a display configuration, the renderer
//! produces a text listing whose total line count never exceeds the
//! configured `max_lines`, showing items from both ends of each sorted
//! sibling group and collapsing the middle into a summary line.

pub mod budget;
pub mod format;
pub mod gitignore;
pub mod render;
pub mod rules;
pub mod sorting;
pub mod style;
pub mod text;
pub mod types;

pub use budget::DisplaySection;
pub use gitignore::GitIgnore;
pub use gitignore::GitIgnoreContext;
pub use render::DisplayState;
pub use render::format_tree;
pub use render::format_tree_at;
pub use rules::BuildOutputRule;
pub use rules::DependencyRule;
pub use rules::DevEnvironmentRule;
pub use rules::FilterContext;
pub use rules::FilterRegistry;
pub use rules::GitIgnoreRule;
pub use rules::ProjectType;
pub use rules::Rule;
pub use rules::VCSRule;
pub use rules::create_default_registry;
pub use sorting::sort_entries;
pub use style::should_use_colors;
pub use style::should_use_emoji;
pub use types::ColorTheme;
pub use types::DirectoryEntry;
pub use types::DisplayConfig;
pub use types::EntryMetadata;
pub use types::FileType;
pub use types::SortBy;
