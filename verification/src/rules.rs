//! The filtering rules: project-type detection, the built-in rules with
//! their integer confidence scores, and the registry that folds them into
//! one hide-or-show verdict per path.
//!
//! Scores are whole percentages from 0 to 100, compared against the
//! registry's threshold; a rule fires when it applies and its score
//! reaches the threshold.

use vstd::prelude::*;
use crate::gitignore::GitIgnoreContext;
use crate::gitignore::context_ignored;
use crate::text::str_eq;

verus! {

/// Supported project types for specialized filtering.
#[derive(Clone, Copy, PartialEq, Eq, Structural, Debug, Hash)]
pub enum ProjectType {
    Rust,
    NodeJs,
    Python,
    Java,
    Go,
    Ruby,
    Generic,
}

/// Whether a name list holds the given name.
pub open spec fn has_name(files: Seq<String>, name: Seq<char>) -> bool {
    exists|i: int| 0 <= i < files.len() && files[i]@ == name
}

/// Whether `files` holds a file named `name`.
pub fn has_name_exec(files: &Vec<String>, name: &str) -> (r: bool)
    ensures
        r == has_name(files@, name@),
{
    let mut i: usize = 0;
    while i < files.len()
        invariant
            i <= files@.len(),
            forall|q: int| 0 <= q < i ==> #[trigger] files@[q]@ != name@,
        decreases files@.len() - i,
    {
        if str_eq(files[i].as_str(), name) {
            return true;
        }
        i = i + 1;
    }
    false
}

/// The index just past the last slash of a path, or zero when it has none.
pub open spec fn after_last_slash(s: Seq<char>) -> nat
    decreases s.len(),
{
    if s.len() == 0 {
        0
    } else if s.last() == '/' {
        s.len() as nat
    } else {
        after_last_slash(s.drop_last())
    }
}

/// The file name of a path: what follows its last slash.
pub open spec fn file_name_of(s: Seq<char>) -> Seq<char> {
    s.skip(after_last_slash(s) as int)
}

pub proof fn lemma_after_last_slash_le(s: Seq<char>)
    ensures
        after_last_slash(s) <= s.len(),
    decreases s.len(),
{
    if s.len() > 0 && s.last() != '/' {
        lemma_after_last_slash_le(s.drop_last());
    }
}

/// The file name of `path`: the text after its last slash.
pub fn path_file_name(path: &str) -> (r: &str)
    ensures
        r@ == file_name_of(path@),
{
    let len = path.unicode_len();
    let mut i: usize = len;
    proof {
        lemma_after_last_slash_le(path@);
        assert(path@.take(len as int) =~= path@);
    }
    loop
        invariant
            i <= len,
            len == path@.len(),
            after_last_slash(path@) == after_last_slash(path@.take(i as int)),
        ensures
            i <= len,
            after_last_slash(path@) == i,
        decreases i,
    {
        if i == 0 {
            proof {
                assert(path@.take(0) =~= Seq::<char>::empty());
            }
            break;
        }
        let c = path.get_char(i - 1);
        proof {
            assert(path@.take(i as int).last() == path@[i - 1]);
            assert(path@.take(i as int).drop_last() =~= path@.take(i - 1));
        }
        if c == '/' {
            break;
        }
        i = i - 1;
    }
    path.substring_char(i, len)
}

/// Context provided to filter rules during evaluation, all plain values:
/// the scanner supplies the directory listings the original read from
/// disk.
pub struct FilterContext {
    /// Detected project types for the root directory.
    pub project_types: Vec<ProjectType>,
    /// The path being evaluated.
    pub path: String,
    /// The parent directory's path.
    pub parent_path: String,
    /// Whether the evaluated path names a directory.
    pub is_dir: bool,
    /// Directory tree depth from the root.
    pub depth: usize,
    /// Cache of file-presence answers, by file name.
    pub has_file: Vec<(String, bool)>,
    /// The file names present in the evaluated directory.
    pub dir_files: Vec<String>,
    /// The file names present in the root directory.
    pub root_files: Vec<String>,
    /// Statistics on file extensions.
    pub extension_counts: Vec<(String, usize)>,
    /// The root directory of the project.
    pub root_path: String,
}

/// The project types detected from the root directory's marker files, in
/// detection order.
pub open spec fn detect_seq(files: Seq<String>) -> Seq<ProjectType> {
    (if has_name(files, "Cargo.toml"@) {
        seq![ProjectType::Rust]
    } else {
        Seq::<ProjectType>::empty()
    }) + (if has_name(files, "package.json"@) {
        seq![ProjectType::NodeJs]
    } else {
        Seq::<ProjectType>::empty()
    }) + (if has_name(files, "setup.py"@) || has_name(files, "pyproject.toml"@) {
        seq![ProjectType::Python]
    } else {
        Seq::<ProjectType>::empty()
    }) + (if has_name(files, "pom.xml"@) || has_name(files, "build.gradle"@) {
        seq![ProjectType::Java]
    } else {
        Seq::<ProjectType>::empty()
    }) + (if has_name(files, "go.mod"@) {
        seq![ProjectType::Go]
    } else {
        Seq::<ProjectType>::empty()
    }) + (if has_name(files, "Gemfile"@) {
        seq![ProjectType::Ruby]
    } else {
        Seq::<ProjectType>::empty()
    })
}

/// The first cached answer for a file name, if any.
pub open spec fn lookup_flag(cache: Seq<(String, bool)>, name: Seq<char>) -> Option<bool>
    decreases cache.len(),
{
    if cache.len() == 0 {
        Option::None
    } else if cache[0].0@ == name {
        Option::Some(cache[0].1)
    } else {
        lookup_flag(cache.skip(1), name)
    }
}

impl FilterContext {
    /// A fresh context for one path.
    pub fn new(path: &str, parent_path: &str, root_path: &str, depth: usize) -> (ctx: FilterContext)
        ensures
            ctx.project_types@.len() == 0,
            ctx.path@ == path@,
            ctx.parent_path@ == parent_path@,
            ctx.root_path@ == root_path@,
            ctx.depth == depth,
            !ctx.is_dir,
            ctx.has_file@.len() == 0,
            ctx.dir_files@.len() == 0,
            ctx.root_files@.len() == 0,
            ctx.extension_counts@.len() == 0,
    {
        FilterContext {
            project_types: Vec::new(),
            path: String::from_str(path),
            parent_path: String::from_str(parent_path),
            is_dir: false,
            depth,
            has_file: Vec::new(),
            dir_files: Vec::new(),
            root_files: Vec::new(),
            extension_counts: Vec::new(),
            root_path: String::from_str(root_path),
        }
    }

    /// Detects project types from the root directory's marker files, and
    /// falls back to `Generic` when none are found.
    #[verifier::rlimit(50)]
    pub fn detect_project_types(&mut self)
        ensures
            ({
                let full = old(self).project_types@ + detect_seq(old(self).root_files@);
                final (self).project_types@ == if full.len() == 0 {
                    seq![ProjectType::Generic]
                } else {
                    full
                }
            }),
            final (self).path@ == old(self).path@,
            final (self).root_files@ == old(self).root_files@,
            final (self).dir_files@ == old(self).dir_files@,
            final (self).has_file@ == old(self).has_file@,
            final (self).is_dir == old(self).is_dir,
            final (self).root_path@ == old(self).root_path@,
    {
        let ghost pre = old(self).project_types@;
        let ghost files = self.root_files@;
        if has_name_exec(&self.root_files, "Cargo.toml") {
            self.project_types.push(ProjectType::Rust);
        }
        if has_name_exec(&self.root_files, "package.json") {
            self.project_types.push(ProjectType::NodeJs);
        }
        if has_name_exec(&self.root_files, "setup.py") || has_name_exec(
            &self.root_files,
            "pyproject.toml",
        ) {
            self.project_types.push(ProjectType::Python);
        }
        if has_name_exec(&self.root_files, "pom.xml") || has_name_exec(
            &self.root_files,
            "build.gradle",
        ) {
            self.project_types.push(ProjectType::Java);
        }
        if has_name_exec(&self.root_files, "go.mod") {
            self.project_types.push(ProjectType::Go);
        }
        if has_name_exec(&self.root_files, "Gemfile") {
            self.project_types.push(ProjectType::Ruby);
        }
        proof {
            assert(self.project_types@ =~= pre + detect_seq(files));
        }
        if self.project_types.len() == 0 {
            self.project_types.push(ProjectType::Generic);
        }
    }

    /// Whether the evaluated directory holds the file, answered from the
    /// cache when possible and cached afterwards.
    pub fn has_file_in_dir(&mut self, filename: &str) -> (r: bool)
        ensures
            lookup_flag(old(self).has_file@, filename@) is Some ==> (r == lookup_flag(
                old(self).has_file@,
                filename@,
            )->0 && final (self).has_file@ == old(self).has_file@),
            lookup_flag(old(self).has_file@, filename@) is None ==> (r == has_name(
                old(self).dir_files@,
                filename@,
            ) && final (self).has_file@.len() == old(self).has_file@.len() + 1 && final (self).has_file@.drop_last() == old(self).has_file@ && final (self).has_file@.last().0@ == filename@ && final (self).has_file@.last().1 == r),
            final (self).project_types@ == old(self).project_types@,
            final (self).path@ == old(self).path@,
            final (self).dir_files@ == old(self).dir_files@,
            final (self).root_files@ == old(self).root_files@,
            final (self).is_dir == old(self).is_dir,
    {
        let mut i: usize = 0;
        proof {
            assert(self.has_file@.skip(0) =~= self.has_file@);
        }
        while i < self.has_file.len()
            invariant
                i <= self.has_file@.len(),
                lookup_flag(self.has_file@, filename@) == lookup_flag(
                    self.has_file@.skip(i as int),
                    filename@,
                ),
            decreases self.has_file@.len() - i,
        {
            proof {
                assert(self.has_file@.skip(i as int)[0] == self.has_file@[i as int]);
                assert(self.has_file@.skip(i as int).skip(1) =~= self.has_file@.skip(i + 1));
            }
            if str_eq(self.has_file[i].0.as_str(), filename) {
                return self.has_file[i].1;
            }
            i = i + 1;
        }
        let exists_now = has_name_exec(&self.dir_files, filename);
        self.has_file.push((String::from_str(filename), exists_now));
        exists_now
    }

    /// Whether the evaluated directory holds a file matching the pattern.
    pub fn has_file_matching(&self, pattern: &str) -> (r: bool)
        ensures
            r == exists|i: int|
                0 <= i < self.dir_files@.len() && simple_glob_match(
                    pattern@,
                    #[trigger] self.dir_files@[i]@,
                ),
    {
        let mut i: usize = 0;
        while i < self.dir_files.len()
            invariant
                i <= self.dir_files@.len(),
                forall|q: int|
                    0 <= q < i ==> !simple_glob_match(pattern@, #[trigger] self.dir_files@[q]@),
            decreases self.dir_files@.len() - i,
        {
            if glob_match(pattern, self.dir_files[i].as_str()) {
                return true;
            }
            i = i + 1;
        }
        false
    }

    /// Whether `name` is a build or dependency artifact of one of the
    /// detected project types.
    pub fn is_project_artifact(&self, name: &str) -> (r: bool)
        ensures
            r == artifact_of(self.project_types@, name@),
    {
        if str_eq(name, "target") {
            contains_type(&self.project_types, ProjectType::Rust)
        } else if str_eq(name, "node_modules") {
            contains_type(&self.project_types, ProjectType::NodeJs)
        } else if str_eq(name, "__pycache__") {
            contains_type(&self.project_types, ProjectType::Python)
        } else if str_eq(name, "build") || str_eq(name, "dist") {
            contains_type(&self.project_types, ProjectType::NodeJs) || contains_type(
                &self.project_types,
                ProjectType::Java,
            )
        } else if str_eq(name, "venv") || str_eq(name, ".venv") {
            contains_type(&self.project_types, ProjectType::Python)
        } else {
            false
        }
    }
}

/// Whether `name` names an artifact of one of the detected project types.
pub open spec fn artifact_of(types: Seq<ProjectType>, name: Seq<char>) -> bool {
    if name == "target"@ {
        types.contains(ProjectType::Rust)
    } else if name == "node_modules"@ {
        types.contains(ProjectType::NodeJs)
    } else if name == "__pycache__"@ {
        types.contains(ProjectType::Python)
    } else if name == "build"@ || name == "dist"@ {
        types.contains(ProjectType::NodeJs) || types.contains(ProjectType::Java)
    } else if name == "venv"@ || name == ".venv"@ {
        types.contains(ProjectType::Python)
    } else {
        false
    }
}

/// Whether `types` holds the given type.
pub fn contains_type(types: &Vec<ProjectType>, t: ProjectType) -> (r: bool)
    ensures
        r == types@.contains(t),
{
    let mut i: usize = 0;
    while i < types.len()
        invariant
            i <= types@.len(),
            forall|q: int| 0 <= q < i ==> #[trigger] types@[q] != t,
        decreases types@.len() - i,
    {
        if types[i] == t {
            proof {
                assert(types@[i as int] == t);
            }
            return true;
        }
        i = i + 1;
    }
    proof {
        if types@.contains(t) {
            let q = choose|q: int| 0 <= q < types@.len() && types@[q] == t;
            assert(types@[q] != t);
        }
    }
    false
}

/// Whether `needle` occurs inside `hay` as a contiguous run.
pub open spec fn contains_seq(hay: Seq<char>, needle: Seq<char>) -> bool {
    exists|i: int|
        0 <= i <= hay.len() - needle.len() && #[trigger] hay.subrange(i, i + needle.len())
            == needle
}

/// Whether `suffix` ends `s`.
pub open spec fn is_suffix(suffix: Seq<char>, s: Seq<char>) -> bool {
    suffix.len() <= s.len() && s.skip((s.len() - suffix.len()) as int) == suffix
}

/// Very simple glob matching for file-presence patterns: a lone star
/// matches everything, leading and trailing stars match a contained run, a
/// leading star a suffix, a trailing star a prefix; anything else matches
/// only itself.
pub open spec fn simple_glob_match(pattern: Seq<char>, name: Seq<char>) -> bool {
    if pattern == "*"@ {
        true
    } else if pattern.len() >= 2 && pattern[0] == '*' && pattern.last() == '*' {
        contains_seq(name, pattern.subrange(1, (pattern.len() - 1) as int))
    } else if pattern.len() >= 1 && pattern[0] == '*' {
        is_suffix(pattern.skip(1), name)
    } else if pattern.len() >= 1 && pattern.last() == '*' {
        is_prefix_of(pattern.drop_last(), name)
    } else {
        pattern == name
    }
}

/// Whether `p` starts `s`.
pub open spec fn is_prefix_of(p: Seq<char>, s: Seq<char>) -> bool {
    p.len() <= s.len() && s.take(p.len() as int) == p
}

/// Whether `hay` holds `needle` as a contiguous run.
fn str_contains_sub(hay: &str, needle: &str) -> (r: bool)
    ensures
        r == contains_seq(hay@, needle@),
{
    let hl = hay.unicode_len();
    let nl = needle.unicode_len();
    if nl > hl {
        return false;
    }
    let mut i: usize = 0;
    while i <= hl - nl
        invariant
            nl <= hl,
            hl == hay@.len(),
            nl == needle@.len(),
            i <= hl - nl + 1,
            forall|q: int|
                0 <= q < i ==> #[trigger] hay@.subrange(q, q + needle@.len()) != needle@,
        decreases hl - nl + 1 - i,
    {
        let mut j: usize = 0;
        let mut matches_here = true;
        while j < nl
            invariant
                j <= nl,
                i + nl <= hl,
                hl == hay@.len(),
                nl == needle@.len(),
                matches_here == (forall|q: int|
                    0 <= q < j ==> hay@[i + q] == #[trigger] needle@[q]),
            decreases nl - j,
        {
            if hay.get_char(i + j) != needle.get_char(j) {
                matches_here = false;
                proof {
                    assert(hay@[i + j as int] != needle@[j as int]);
                }
                j = nl;
            } else {
                proof {
                    assert(hay@[i + j as int] == needle@[j as int]);
                }
                j = j + 1;
            }
        }
        if matches_here {
            proof {
                assert(hay@.subrange(i as int, i + needle@.len()) =~= needle@);
            }
            return true;
        }
        proof {
            if hay@.subrange(i as int, i + needle@.len()) == needle@ {
                assert(forall|q: int|
                    0 <= q < nl ==> hay@[i + q] == #[trigger] needle@[q]) by {
                    assert(forall|q: int|
                        0 <= q < nl ==> #[trigger] needle@[q] == hay@.subrange(
                            i as int,
                            i + needle@.len(),
                        )[q]);
                }
            }
        }
        i = i + 1;
    }
    proof {
        if contains_seq(hay@, needle@) {
            let q = choose|q: int|
                0 <= q <= hay@.len() - needle@.len() && #[trigger] hay@.subrange(
                    q,
                    q + needle@.len(),
                ) == needle@;
            assert(hay@.subrange(q, q + needle@.len()) != needle@);
        }
    }
    false
}

/// Whether `suffix` ends `s`.
fn str_ends_with(s: &str, suffix: &str) -> (r: bool)
    ensures
        r == is_suffix(suffix@, s@),
{
    let sl = s.unicode_len();
    let fl = suffix.unicode_len();
    if fl > sl {
        return false;
    }
    let start = sl - fl;
    let mut j: usize = 0;
    while j < fl
        invariant
            j <= fl,
            fl <= sl,
            sl == s@.len(),
            fl == suffix@.len(),
            start == sl - fl,
            forall|q: int| 0 <= q < j ==> s@[start + q] == #[trigger] suffix@[q],
        decreases fl - j,
    {
        if s.get_char(start + j) != suffix.get_char(j) {
            proof {
                assert(s@.skip(start as int)[j as int] != suffix@[j as int]);
            }
            return false;
        }
        j = j + 1;
    }
    proof {
        assert(s@.skip(start as int) =~= suffix@);
    }
    true
}

/// Very simple glob matching (for basic cases only).
pub fn glob_match(pattern: &str, name: &str) -> (r: bool)
    ensures
        r == simple_glob_match(pattern@, name@),
{
    if str_eq(pattern, "*") {
        proof {
            reveal_strlit("*");
        }
        return true;
    }
    let pl = pattern.unicode_len();
    if pl >= 2 && pattern.get_char(0) == '*' && pattern.get_char(pl - 1) == '*' {
        let inner = pattern.substring_char(1, pl - 1);
        proof {
            assert(inner@ =~= pattern@.subrange(1, (pattern@.len() - 1) as int));
        }
        return str_contains_sub(name, inner);
    }
    if pl >= 1 && pattern.get_char(0) == '*' {
        let suffix = pattern.substring_char(1, pl);
        proof {
            assert(suffix@ =~= pattern@.skip(1));
        }
        return str_ends_with(name, suffix);
    }
    if pl >= 1 && pattern.get_char(pl - 1) == '*' {
        let prefix = pattern.substring_char(0, pl - 1);
        proof {
            assert(prefix@ =~= pattern@.drop_last());
        }
        return crate::text::str_starts_with(name, prefix);
    }
    str_eq(pattern, name)
}

/// Built-in rule: build output directories of the detected project types.
pub struct BuildOutputRule;

/// Whether the build-output rule applies to a context.
pub open spec fn build_output_applies(ctx: FilterContext) -> bool {
    let name = file_name_of(ctx.path@);
    if name == "target"@ {
        ctx.project_types@.contains(ProjectType::Rust)
    } else if name == "build"@ || name == "dist"@ {
        ctx.project_types@.contains(ProjectType::NodeJs) || ctx.project_types@.contains(
            ProjectType::Java,
        )
    } else if name == "__pycache__"@ {
        ctx.project_types@.contains(ProjectType::Python)
    } else {
        false
    }
}

impl BuildOutputRule {
    pub fn id(&self) -> (r: &'static str)
        ensures
            r@ == "build_output"@,
    {
        "build_output"
    }

    pub fn priority(&self) -> (r: i32)
        ensures
            r == 100,
    {
        100
    }

    pub fn applies_to(&self, context: &FilterContext) -> (r: bool)
        ensures
            r == build_output_applies(*context),
    {
        let name = path_file_name(context.path.as_str());
        if str_eq(name, "target") {
            contains_type(&context.project_types, ProjectType::Rust)
        } else if str_eq(name, "build") || str_eq(name, "dist") {
            contains_type(&context.project_types, ProjectType::NodeJs) || contains_type(
                &context.project_types,
                ProjectType::Java,
            )
        } else if str_eq(name, "__pycache__") {
            contains_type(&context.project_types, ProjectType::Python)
        } else {
            false
        }
    }

    /// High confidence for build directories.
    pub fn evaluate(&self, _context: &FilterContext) -> (r: u32)
        ensures
            r == 90,
    {
        90
    }

    pub fn annotation(&self) -> (r: &'static str)
        ensures
            r@ == "[build output]"@,
    {
        "[build output]"
    }
}

/// Built-in rule: dependency directories of the detected project types.
pub struct DependencyRule;

/// Whether the dependency rule applies to a context.
pub open spec fn dependency_applies(ctx: FilterContext) -> bool {
    let name = file_name_of(ctx.path@);
    if name == "node_modules"@ {
        ctx.project_types@.contains(ProjectType::NodeJs)
    } else if name == "venv"@ || name == ".venv"@ {
        ctx.project_types@.contains(ProjectType::Python)
    } else {
        false
    }
}

impl DependencyRule {
    pub fn id(&self) -> (r: &'static str)
        ensures
            r@ == "dependencies"@,
    {
        "dependencies"
    }

    pub fn priority(&self) -> (r: i32)
        ensures
            r == 90,
    {
        90
    }

    pub fn applies_to(&self, context: &FilterContext) -> (r: bool)
        ensures
            r == dependency_applies(*context),
    {
        let name = path_file_name(context.path.as_str());
        if str_eq(name, "node_modules") {
            contains_type(&context.project_types, ProjectType::NodeJs)
        } else if str_eq(name, "venv") || str_eq(name, ".venv") {
            contains_type(&context.project_types, ProjectType::Python)
        } else {
            false
        }
    }

    /// High confidence for dependency directories.
    pub fn evaluate(&self, _context: &FilterContext) -> (r: u32)
        ensures
            r == 95,
    {
        95
    }

    pub fn annotation(&self) -> (r: &'static str)
        ensures
            r@ == "[dependencies]"@,
    {
        "[dependencies]"
    }
}

/// Built-in rule: version control system directories.
pub struct VCSRule;

/// Whether the VCS rule applies to a context.
pub open spec fn vcs_applies(ctx: FilterContext) -> bool {
    let name = file_name_of(ctx.path@);
    name == ".git"@ || name == ".svn"@ || name == ".hg"@ || name == ".jj"@
}

impl VCSRule {
    pub fn id(&self) -> (r: &'static str)
        ensures
            r@ == "vcs"@,
    {
        "vcs"
    }

    pub fn priority(&self) -> (r: i32)
        ensures
            r == 80,
    {
        80
    }

    pub fn applies_to(&self, context: &FilterContext) -> (r: bool)
        ensures
            r == vcs_applies(*context),
    {
        let name = path_file_name(context.path.as_str());
        str_eq(name, ".git") || str_eq(name, ".svn") || str_eq(name, ".hg") || str_eq(name, ".jj")
    }

    pub fn evaluate(&self, _context: &FilterContext) -> (r: u32)
        ensures
            r == 85,
    {
        85
    }

    pub fn annotation(&self) -> (r: &'static str)
        ensures
            r@ == "[vcs]"@,
    {
        "[vcs]"
    }
}

/// Built-in rule: IDE and editor configuration directories.
pub struct DevEnvironmentRule;

/// Whether the development-environment rule applies to a context.
pub open spec fn dev_environment_applies(ctx: FilterContext) -> bool {
    let name = file_name_of(ctx.path@);
    name == ".vscode"@ || name == ".idea"@ || name == ".eclipse"@ || name == ".zed"@
}

impl DevEnvironmentRule {
    pub fn id(&self) -> (r: &'static str)
        ensures
            r@ == "dev_environment"@,
    {
        "dev_environment"
    }

    pub fn priority(&self) -> (r: i32)
        ensures
            r == 70,
    {
        70
    }

    pub fn applies_to(&self, context: &FilterContext) -> (r: bool)
        ensures
            r == dev_environment_applies(*context),
    {
        let name = path_file_name(context.path.as_str());
        str_eq(name, ".vscode") || str_eq(name, ".idea") || str_eq(name, ".eclipse") || str_eq(
            name,
            ".zed",
        )
    }

    pub fn evaluate(&self, _context: &FilterContext) -> (r: u32)
        ensures
            r == 80,
    {
        80
    }

    pub fn annotation(&self) -> (r: &'static str)
        ensures
            r@ == "[dev config]"@,
    {
        "[dev config]"
    }
}

/// Rule applying gitignore patterns through a gitignore context.
pub struct GitIgnoreRule {
    /// The gitignore state of the walk's root.
    pub context: GitIgnoreContext,
}

impl GitIgnoreRule {
    /// A gitignore rule over an already-built context; reading gitignore
    /// files from disk stays with the caller.
    pub fn new(context: GitIgnoreContext) -> (r: GitIgnoreRule)
        ensures
            r.context == context,
    {
        GitIgnoreRule { context }
    }

    /// The context this rule consults.
    pub fn get_context_for_path(&self, _path: &str) -> (r: &GitIgnoreContext)
        ensures
            *r == self.context,
    {
        &self.context
    }

    pub fn id(&self) -> (r: &'static str)
        ensures
            r@ == "gitignore"@,
    {
        "gitignore"
    }

    pub fn priority(&self) -> (r: i32)
        ensures
            r == 100,
    {
        100
    }

    /// Gitignore rules are always consulted.
    pub fn applies_to(&self, _context: &FilterContext) -> (r: bool)
        ensures
            r,
    {
        true
    }

    /// High confidence when the path is gitignored, none otherwise.
    pub fn evaluate(&self, context: &FilterContext) -> (r: u32)
        ensures
            r == (if context_ignored(self.context, context.path@, context.is_dir) {
                95int
            } else {
                0int
            }),
    {
        if self.context.is_ignored(context.path.as_str(), context.is_dir) {
            95
        } else {
            0
        }
    }

    pub fn annotation(&self) -> (r: &'static str)
        ensures
            r@ == "[gitignored]"@,
    {
        "[gitignored]"
    }
}

/// One registered rule.
pub enum Rule {
    BuildOutput(BuildOutputRule),
    Dependency(DependencyRule),
    Vcs(VCSRule),
    DevEnvironment(DevEnvironmentRule),
    Ignore(GitIgnoreRule),
}

/// A rule's priority.
pub open spec fn rule_priority(r: Rule) -> int {
    match r {
        Rule::BuildOutput(_) => 100,
        Rule::Dependency(_) => 90,
        Rule::Vcs(_) => 80,
        Rule::DevEnvironment(_) => 70,
        Rule::Ignore(_) => 100,
    }
}

/// Whether a rule applies to a context.
pub open spec fn rule_applies(r: Rule, ctx: FilterContext) -> bool {
    match r {
        Rule::BuildOutput(_) => build_output_applies(ctx),
        Rule::Dependency(_) => dependency_applies(ctx),
        Rule::Vcs(_) => vcs_applies(ctx),
        Rule::DevEnvironment(_) => dev_environment_applies(ctx),
        Rule::Ignore(_) => true,
    }
}

/// A rule's score for a context.
pub open spec fn rule_score(r: Rule, ctx: FilterContext) -> int {
    match r {
        Rule::BuildOutput(_) => 90,
        Rule::Dependency(_) => 95,
        Rule::Vcs(_) => 85,
        Rule::DevEnvironment(_) => 80,
        Rule::Ignore(g) => if context_ignored(g.context, ctx.path@, ctx.is_dir) {
            95int
        } else {
            0int
        },
    }
}

/// A rule's display annotation.
pub open spec fn rule_annotation(r: Rule) -> Seq<char> {
    match r {
        Rule::BuildOutput(_) => "[build output]"@,
        Rule::Dependency(_) => "[dependencies]"@,
        Rule::Vcs(_) => "[vcs]"@,
        Rule::DevEnvironment(_) => "[dev config]"@,
        Rule::Ignore(_) => "[gitignored]"@,
    }
}

impl Rule {
    pub fn priority(&self) -> (r: i32)
        ensures
            r as int == rule_priority(*self),
    {
        match self {
            Rule::BuildOutput(rule) => rule.priority(),
            Rule::Dependency(rule) => rule.priority(),
            Rule::Vcs(rule) => rule.priority(),
            Rule::DevEnvironment(rule) => rule.priority(),
            Rule::Ignore(rule) => rule.priority(),
        }
    }

    pub fn applies_to(&self, context: &FilterContext) -> (r: bool)
        ensures
            r == rule_applies(*self, *context),
    {
        match self {
            Rule::BuildOutput(rule) => rule.applies_to(context),
            Rule::Dependency(rule) => rule.applies_to(context),
            Rule::Vcs(rule) => rule.applies_to(context),
            Rule::DevEnvironment(rule) => rule.applies_to(context),
            Rule::Ignore(rule) => rule.applies_to(context),
        }
    }

    pub fn evaluate(&self, context: &FilterContext) -> (r: u32)
        ensures
            r as int == rule_score(*self, *context),
    {
        match self {
            Rule::BuildOutput(rule) => rule.evaluate(context),
            Rule::Dependency(rule) => rule.evaluate(context),
            Rule::Vcs(rule) => rule.evaluate(context),
            Rule::DevEnvironment(rule) => rule.evaluate(context),
            Rule::Ignore(rule) => rule.evaluate(context),
        }
    }

    pub fn annotation(&self) -> (r: &'static str)
        ensures
            r@ == rule_annotation(*self),
    {
        match self {
            Rule::BuildOutput(rule) => rule.annotation(),
            Rule::Dependency(rule) => rule.annotation(),
            Rule::Vcs(rule) => rule.annotation(),
            Rule::DevEnvironment(rule) => rule.annotation(),
            Rule::Ignore(rule) => rule.annotation(),
        }
    }
}

/// Where a newly added rule lands: after every rule of no lower priority,
/// so priorities order the list and equal priorities keep arrival order.
pub open spec fn rule_insert_pos(rules: Seq<Rule>, x: Rule) -> nat
    decreases rules.len(),
{
    if rules.len() == 0 {
        0
    } else if rule_priority(rules[0]) >= rule_priority(x) {
        1 + rule_insert_pos(rules.skip(1), x)
    } else {
        0
    }
}

pub proof fn lemma_rule_insert_pos_le(rules: Seq<Rule>, x: Rule)
    ensures
        rule_insert_pos(rules, x) <= rules.len(),
    decreases rules.len(),
{
    if rules.len() > 0 && rule_priority(rules[0]) >= rule_priority(x) {
        lemma_rule_insert_pos_le(rules.skip(1), x);
    }
}

/// Collection of filter rules, highest priority first, with the score
/// threshold a rule must reach to hide a path.
pub struct FilterRegistry {
    pub rules: Vec<Rule>,
    /// Score threshold in whole percent, from 0 to 100.
    pub threshold: u32,
}

/// The winning score and annotation over a rule list: the highest score of
/// an applicable rule, the earliest such rule naming the annotation, and
/// the default annotation at score zero.
pub open spec fn best_verdict(rules: Seq<Rule>, ctx: FilterContext) -> (int, Seq<char>)
    decreases rules.len(),
{
    if rules.len() == 0 {
        (0int, "[filtered]"@)
    } else {
        let prev = best_verdict(rules.drop_last(), ctx);
        let r = rules.last();
        if rule_applies(r, ctx) && rule_score(r, ctx) > prev.0 {
            (rule_score(r, ctx), rule_annotation(r))
        } else {
            prev
        }
    }
}

impl Default for FilterRegistry {
    /// An empty registry with the default threshold of one half.
    fn default() -> (r: Self)
        ensures
            r.rules@.len() == 0,
            r.threshold == 50,
    {
        FilterRegistry { rules: Vec::new(), threshold: 50 }
    }
}

impl FilterRegistry {
    /// An empty registry with the default threshold.
    pub fn new() -> (r: FilterRegistry)
        ensures
            r.rules@.len() == 0,
            r.threshold == 50,
    {
        FilterRegistry::default()
    }

    /// Adds a rule, keeping the list ordered by priority, highest first,
    /// with equal priorities in arrival order.
    pub fn add_rule(&mut self, rule: Rule)
        ensures
            final (self).rules@ == old(self).rules@.insert(
                rule_insert_pos(old(self).rules@, rule) as int,
                rule,
            ),
            final (self).threshold == old(self).threshold,
    {
        proof {
            lemma_rule_insert_pos_le(self.rules@, rule);
        }
        let ghost orig = self.rules@;
        let mut j: usize = 0;
        loop
            invariant
                j <= self.rules@.len(),
                self.rules@ == orig,
                forall|q: int| 0 <= q < j ==> rule_priority(#[trigger] orig[q]) >= rule_priority(
                    rule,
                ),
            ensures
                j <= orig.len(),
                self.rules@ == orig,
                forall|q: int| 0 <= q < j ==> rule_priority(#[trigger] orig[q]) >= rule_priority(
                    rule,
                ),
                j < orig.len() ==> rule_priority(orig[j as int]) < rule_priority(rule),
            decreases self.rules@.len() - j,
        {
            if j >= self.rules.len() {
                break;
            }
            if self.rules[j].priority() < rule.priority() {
                break;
            }
            j = j + 1;
        }
        proof {
            lemma_rule_insert_pos_char(orig, rule, j as nat);
        }
        self.rules.insert(j, rule);
    }

    /// Clamps and sets the hiding threshold, in whole percent.
    pub fn set_threshold(&mut self, threshold: u32)
        ensures
            final (self).threshold == (if threshold > 100 {
                100u32
            } else {
                threshold
            }),
            final (self).rules@ == old(self).rules@,
    {
        self.threshold = if threshold > 100 {
            100
        } else {
            threshold
        };
    }

    /// Evaluates all applicable rules and decides whether the path is
    /// hidden: the highest score wins, and it hides the path exactly when
    /// it reaches the threshold, with the winning rule's annotation.
    pub fn should_hide(&self, context: &FilterContext) -> (r: Option<(bool, &'static str)>)
        ensures
            ({
                let best = best_verdict(self.rules@, *context);
                match r {
                    Option::Some(v) => best.0 >= self.threshold && v.0 && v.1@ == best.1,
                    Option::None => best.0 < self.threshold,
                }
            }),
    {
        let mut max_score: u32 = 0;
        let mut annotation: &'static str = "[filtered]";
        let mut i: usize = 0;
        proof {
            assert(self.rules@.take(0) =~= Seq::<Rule>::empty());
        }
        while i < self.rules.len()
            invariant
                i <= self.rules@.len(),
                max_score as int == best_verdict(self.rules@.take(i as int), *context).0,
                annotation@ == best_verdict(self.rules@.take(i as int), *context).1,
            decreases self.rules@.len() - i,
        {
            proof {
                assert(self.rules@.take(i + 1).drop_last() =~= self.rules@.take(i as int));
                assert(self.rules@.take(i + 1).last() == self.rules@[i as int]);
            }
            let rule = &self.rules[i];
            if rule.applies_to(context) {
                let score = rule.evaluate(context);
                if score > max_score {
                    max_score = score;
                    annotation = rule.annotation();
                }
            }
            i = i + 1;
        }
        proof {
            assert(self.rules@.take(self.rules@.len() as int) =~= self.rules@);
        }
        if max_score >= self.threshold {
            Option::Some((true, annotation))
        } else {
            Option::None
        }
    }
}

/// The insertion position is characterised by what stands on each side.
proof fn lemma_rule_insert_pos_char(rules: Seq<Rule>, x: Rule, j: nat)
    requires
        j <= rules.len(),
        forall|q: int| 0 <= q < j ==> rule_priority(#[trigger] rules[q]) >= rule_priority(x),
        j < rules.len() ==> rule_priority(rules[j as int]) < rule_priority(x),
    ensures
        rule_insert_pos(rules, x) == j,
    decreases rules.len(),
{
    if rules.len() > 0 && j > 0 {
        assert(forall|q: int| 0 <= q < j - 1 ==> rules.skip(1)[q] == rules[q + 1]);
        if j < rules.len() {
            assert(rules.skip(1)[j - 1] == rules[j as int]);
        }
        lemma_rule_insert_pos_char(rules.skip(1), x, (j - 1) as nat);
    }
}

/// The registry with all default rules: the gitignore rule over the given
/// context, and the four built-in rules, ordered by priority.
pub fn create_default_registry(context: GitIgnoreContext) -> (r: FilterRegistry)
    ensures
        r.threshold == 50,
        r.rules@.len() == 5,
        r.rules@[0] == Rule::Ignore(GitIgnoreRule { context }),
        r.rules@[1] == Rule::BuildOutput(BuildOutputRule),
        r.rules@[2] == Rule::Dependency(DependencyRule),
        r.rules@[3] == Rule::Vcs(VCSRule),
        r.rules@[4] == Rule::DevEnvironment(DevEnvironmentRule),
{
    let mut registry = FilterRegistry::new();
    registry.add_rule(Rule::Ignore(GitIgnoreRule::new(context)));
    registry.add_rule(Rule::BuildOutput(BuildOutputRule));
    registry.add_rule(Rule::Dependency(DependencyRule));
    registry.add_rule(Rule::Vcs(VCSRule));
    registry.add_rule(Rule::DevEnvironment(DevEnvironmentRule));
    proof {
        reveal_with_fuel(rule_insert_pos, 6);
    }
    registry
}

} // verus!
