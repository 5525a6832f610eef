//! The data model: directory entries, their metadata, and the display
//! configuration that governs one render.

use vstd::prelude::*;

verus! {

/// One node of the in-memory tree handed to the renderer: a file or a
/// directory together with the metadata shown beside its name.
///
/// Timestamps are seconds since the Unix epoch. `files_count` counts all
/// descendant files of a directory (zero for files).
pub struct DirectoryEntry {
    pub name: String,
    pub is_dir: bool,
    pub metadata: EntryMetadata,
    pub children: Vec<DirectoryEntry>,
    pub is_gitignored: bool,
    /// Identifier of the filter rule that matched this entry, if any.
    pub filtered_by: Option<String>,
    /// Display annotation attached by the matching filter rule, if any.
    pub filter_annotation: Option<String>,
}

/// The text of an optional owned string.
pub open spec fn opt_text(o: Option<String>) -> Option<Seq<char>> {
    match o {
        Option::Some(s) => Option::Some(s@),
        Option::None => Option::None,
    }
}

/// Deep equivalence of two entries: every observable field and every
/// descendant agrees.
pub open spec fn entry_equiv(a: DirectoryEntry, b: DirectoryEntry) -> bool
    decreases a,
{
    &&& a.name@ == b.name@
    &&& a.is_dir == b.is_dir
    &&& a.metadata == b.metadata
    &&& a.is_gitignored == b.is_gitignored
    &&& opt_text(a.filtered_by) == opt_text(b.filtered_by)
    &&& opt_text(a.filter_annotation) == opt_text(b.filter_annotation)
    &&& a.children@.len() == b.children@.len()
    &&& forall|i: int|
        0 <= i < a.children@.len() ==> entry_equiv(
            #[trigger] a.children@[i],
            b.children@[i],
        )
}

impl Clone for DirectoryEntry {
    /// A deep copy of the entry and its whole subtree.
    fn clone(&self) -> (r: Self)
        ensures
            entry_equiv(r, *self),
        decreases *self,
    {
        let mut children: Vec<DirectoryEntry> = Vec::new();
        let mut i: usize = 0;
        while i < self.children.len()
            invariant
                i <= self.children@.len(),
                children@.len() == i,
                forall|q: int|
                    0 <= q < i ==> entry_equiv(#[trigger] children@[q], self.children@[q]),
            decreases self.children@.len() - i,
        {
            let child = self.children[i].clone();
            children.push(child);
            i = i + 1;
        }
        DirectoryEntry {
            name: self.name.clone(),
            is_dir: self.is_dir,
            metadata: self.metadata,
            children,
            is_gitignored: self.is_gitignored,
            filtered_by: match &self.filtered_by {
                Option::Some(v) => Option::Some(v.clone()),
                Option::None => Option::None,
            },
            filter_annotation: match &self.filter_annotation {
                Option::Some(v) => Option::Some(v.clone()),
                Option::None => Option::None,
            },
        }
    }
}

/// Size, timestamps and descendant file count of one entry.
#[derive(Clone, Copy)]
pub struct EntryMetadata {
    pub size: u64,
    /// Creation time, in seconds since the Unix epoch.
    pub created: u64,
    /// Modification time, in seconds since the Unix epoch.
    pub modified: u64,
    /// Total number of descendant files (directories only; zero for files).
    pub files_count: usize,
}

/// Immutable configuration for one render call.
#[derive(Clone, Copy)]
pub struct DisplayConfig {
    /// Hard upper bound on the number of output lines.
    pub max_lines: usize,
    /// Per-directory display cap applied before the head/tail split.
    pub dir_limit: usize,
    pub sort_by: SortBy,
    /// Whether directories sort before files regardless of the sort key.
    pub dirs_first: bool,
    pub use_colors: bool,
    pub color_theme: ColorTheme,
    pub use_emoji: bool,
    /// Whether gitignored directories are expanded rather than folded.
    pub show_system_dirs: bool,
    /// Whether entries matched by a filter rule are still traversed and
    /// their annotations shown.
    pub show_filtered: bool,
}

#[derive(Clone, Copy, PartialEq, Eq, Structural, Debug)]
pub enum ColorTheme {
    Auto,
    Light,
    Dark,
    Disabled,
}

/// The sibling sort key. Names sort ascending; sizes and timestamps sort
/// descending (largest or most recent first).
#[derive(Clone, Copy, PartialEq, Eq, Structural, Debug)]
pub enum SortBy {
    Name,
    Size,
    Modified,
    Created,
}

/// Coarse classification of an entry, used to pick an emoji icon.
#[derive(Clone, Copy, PartialEq, Eq, Structural, Debug)]
pub enum FileType {
    Directory,
    Symlink,
    Regular,
    Image,
    Video,
    Audio,
    Archive,
    Code,
    Document,
    Executable,
    Hidden,
}

} // verus!
