//! Gitignore-style matching: per-directory pattern sets with system
//! defaults and negation, and a context that folds the sets of a whole
//! directory chain into one verdict.

use vstd::prelude::*;
use crate::text::is_prefix;
use crate::text::str_eq;
use crate::text::str_starts_with;

verus! {

/// What glob matching returns for a pattern text and a path text: the
/// result of compiling the pattern and matching the path, a function of
/// the two strings alone. A pattern that does not compile matches nothing.
pub uninterp spec fn glob_matches(pattern: Seq<char>, path: Seq<char>) -> bool;

/// Whether a pattern text compiles as a glob pattern, a function of the
/// text alone.
pub uninterp spec fn pattern_valid(pattern: Seq<char>) -> bool;

/// Relies on glob::Pattern::new and glob::Pattern::matches: both are pure
/// functions of the pattern and path texts. A pattern that does not
/// compile matches nothing.
#[verifier::external_body]
fn glob_match_str(pattern: &str, path: &str) -> (r: bool)
    ensures
        r == glob_matches(pattern@, path@),
{
    match glob::Pattern::new(pattern) {
        Ok(compiled) => compiled.matches(path),
        Err(_) => false,
    }
}

/// Relies on glob::Pattern::new: whether a pattern compiles is a function
/// of its text alone.
#[verifier::external_body]
fn pattern_compiles(pattern: &str) -> (r: bool)
    ensures
        r == pattern_valid(pattern@),
{
    glob::Pattern::new(pattern).is_ok()
}

/// A gitignore pattern converted to glob form: a trailing slash dropped, a
/// leading slash anchoring to the root, anything else matched anywhere in
/// the subtree.
pub open spec fn convert_pattern(p: Seq<char>) -> Seq<char> {
    let q = if p.len() > 0 && p.last() == '/' {
        p.drop_last()
    } else {
        p
    };
    if q.len() > 0 && q[0] == '/' {
        q.skip(1)
    } else {
        "**/"@ + q
    }
}

/// Converts one gitignore pattern to the glob form used for matching.
pub fn convert_to_glob_pattern(pattern: &str) -> (r: String)
    ensures
        r@ == convert_pattern(pattern@),
{
    let len = pattern.unicode_len();
    let stripped: &str = if len > 0 && pattern.get_char(len - 1) == '/' {
        pattern.substring_char(0, len - 1)
    } else {
        pattern
    };
    proof {
        if len > 0 && pattern@[len - 1] == '/' {
            assert(stripped@ =~= pattern@.drop_last());
        }
    }
    let slen = stripped.unicode_len();
    if slen > 0 && stripped.get_char(0) == '/' {
        let r = String::from_str(stripped.substring_char(1, slen));
        proof {
            assert(r@ =~= convert_pattern(pattern@));
        }
        r
    } else {
        let mut s = String::new();
        s.append("**/");
        s.append(stripped);
        proof {
            assert(s@ =~= convert_pattern(pattern@));
        }
        s
    }
}

/// The index of the first newline of `s`, or its length when it has none.
pub open spec fn first_nl(s: Seq<char>) -> nat
    decreases s.len(),
{
    if s.len() == 0 {
        0
    } else if s[0] == '\n' {
        0
    } else {
        1 + first_nl(s.skip(1))
    }
}

/// The first newline stands where the scan says: no newline before it, and
/// one at it when it is inside the text.
pub proof fn lemma_first_nl_char(s: Seq<char>, k: nat)
    requires
        k <= s.len(),
        forall|i: int| 0 <= i < k ==> s[i] != '\n',
        k < s.len() ==> s[k as int] == '\n',
    ensures
        first_nl(s) == k,
    decreases s.len(),
{
    if s.len() > 0 && k > 0 {
        assert(forall|i: int| 0 <= i < k - 1 ==> s.skip(1)[i] == s[i + 1]);
        if k < s.len() {
            assert(s.skip(1)[k - 1] == s[k as int]);
        }
        lemma_first_nl_char(s.skip(1), (k - 1) as nat);
    }
}

/// A line with its terminator's carriage return dropped.
pub open spec fn strip_cr(s: Seq<char>) -> Seq<char> {
    if s.len() > 0 && s.last() == '\r' {
        s.drop_last()
    } else {
        s
    }
}

/// The lines of a text, split at newlines, with a carriage return before
/// each newline dropped, and no empty final line after a trailing newline.
pub open spec fn lines_of(s: Seq<char>) -> Seq<Seq<char>>
    decreases s.len(),
{
    if s.len() == 0 {
        Seq::<Seq<char>>::empty()
    } else {
        let i = first_nl(s);
        if i >= s.len() {
            seq![s]
        } else {
            seq![strip_cr(s.take(i as int))] + lines_of(s.skip((i + 1) as int))
        }
    }
}

/// The views of a list of owned lines.
pub open spec fn texts_of(v: Seq<String>) -> Seq<Seq<char>> {
    v.map_values(|l: String| l@)
}

/// Splits a text into its lines.
pub fn split_lines(content: &str) -> (r: Vec<String>)
    ensures
        texts_of(r@) == lines_of(content@),
{
    let len = content.unicode_len();
    let mut res: Vec<String> = Vec::new();
    let mut p: usize = 0;
    proof {
        assert(content@.skip(0) =~= content@);
        assert(texts_of(res@) =~= Seq::<Seq<char>>::empty());
    }
    while p < len
        invariant
            p <= len,
            len == content@.len(),
            lines_of(content@) == texts_of(res@) + lines_of(content@.skip(p as int)),
        decreases len - p,
    {
        let ghost rest = content@.skip(p as int);
        let mut q = p;
        while q < len && content.get_char(q) != '\n'
            invariant
                p <= q <= len,
                len == content@.len(),
                forall|r: int| p <= r < q ==> content@[r] != '\n',
            decreases len - q,
        {
            q = q + 1;
        }
        proof {
            assert(forall|i: int| 0 <= i < q - p ==> #[trigger] rest[i] == content@[p + i]);
            if q < len {
                assert(rest[q - p] == content@[q as int]);
            }
            lemma_first_nl_char(rest, (q - p) as nat);
        }
        let has_nl = q < len;
        let text_end: usize = if has_nl && q > p && content.get_char(q - 1) == '\r' {
            q - 1
        } else {
            q
        };
        let line = String::from_str(content.substring_char(p, text_end));
        proof {
            if has_nl {
                assert(line@ =~= strip_cr(rest.take((q - p) as int))) by {
                    assert(forall|i: int|
                        0 <= i < q - p ==> #[trigger] rest.take((q - p) as int)[i] == content@[p
                            + i]);
                    if q > p && content@[q - 1] == '\r' {
                        assert(rest.take((q - p) as int).last() == content@[q - 1]);
                        assert(line@ =~= rest.take((q - p) as int).drop_last());
                    } else {
                        if q > p {
                            assert(rest.take((q - p) as int).last() == content@[q - 1]);
                        }
                    }
                }
            } else {
                assert(line@ =~= rest);
            }
        }
        res.push(line);
        let p_new = if has_nl {
            q + 1
        } else {
            q
        };
        proof {
            if has_nl {
                assert(content@.skip(p_new as int) =~= rest.skip((q - p) + 1));
                assert(lines_of(rest) == seq![line@] + lines_of(content@.skip(p_new as int)));
            } else {
                assert(lines_of(rest) == seq![line@]);
                assert(content@.skip(p_new as int) =~= Seq::<char>::empty());
            }
            assert(texts_of(res@) =~= texts_of(res@.drop_last()) + seq![line@]);
            assert(texts_of(res@) + lines_of(content@.skip(p_new as int)) =~= (texts_of(
                res@.drop_last(),
            ) + seq![line@]) + lines_of(content@.skip(p_new as int)));
            assert(lines_of(content@) =~= texts_of(res@) + lines_of(content@.skip(p_new as int)));
        }
        p = p_new;
    }
    proof {
        assert(content@.skip(p as int) =~= Seq::<char>::empty());
        assert(texts_of(res@) + lines_of(content@.skip(p as int)) =~= texts_of(res@));
    }
    res
}

/// Whether a character is ASCII whitespace, as trimmed from pattern lines.
pub open spec fn is_space(c: char) -> bool {
    c == ' ' || c == '\t' || c == '\n' || c == '\r' || c == '\u{b}' || c == '\u{c}'
}

pub open spec fn trim_start_count(s: Seq<char>) -> nat
    decreases s.len(),
{
    if s.len() == 0 {
        0
    } else if is_space(s[0]) {
        1 + trim_start_count(s.skip(1))
    } else {
        0
    }
}

pub open spec fn trim_end_count(s: Seq<char>) -> nat
    decreases s.len(),
{
    if s.len() == 0 {
        0
    } else if is_space(s.last()) {
        1 + trim_end_count(s.drop_last())
    } else {
        0
    }
}

/// The text with leading and trailing whitespace dropped.
pub open spec fn trim_of(s: Seq<char>) -> Seq<char> {
    let rest = s.skip(trim_start_count(s) as int);
    rest.take((rest.len() - trim_end_count(rest)) as int)
}

pub proof fn lemma_trim_start_char(s: Seq<char>, k: nat)
    requires
        k <= s.len(),
        forall|i: int| 0 <= i < k ==> is_space(#[trigger] s[i]),
        k < s.len() ==> !is_space(s[k as int]),
    ensures
        trim_start_count(s) == k,
    decreases s.len(),
{
    if s.len() > 0 && k > 0 {
        assert(forall|i: int| 0 <= i < k - 1 ==> s.skip(1)[i] == s[i + 1]);
        if k < s.len() {
            assert(s.skip(1)[k - 1] == s[k as int]);
        }
        lemma_trim_start_char(s.skip(1), (k - 1) as nat);
    }
}

pub proof fn lemma_trim_end_char(s: Seq<char>, k: nat)
    requires
        k <= s.len(),
        forall|i: int| s.len() - k <= i < s.len() ==> is_space(#[trigger] s[i]),
        k < s.len() ==> !is_space(s[s.len() - k - 1]),
    ensures
        trim_end_count(s) == k,
    decreases s.len(),
{
    if s.len() > 0 && k > 0 {
        assert(is_space(s.last()));
        assert(forall|i: int|
            s.drop_last().len() - (k - 1) <= i < s.drop_last().len() ==> is_space(
                #[trigger] s.drop_last()[i],
            ));
        lemma_trim_end_char(s.drop_last(), (k - 1) as nat);
    }
}

/// Whether `c` is ASCII whitespace.
fn is_space_char(c: char) -> (r: bool)
    ensures
        r == is_space(c),
{
    c == ' ' || c == '\t' || c == '\n' || c == '\r' || c == '\u{b}' || c == '\u{c}'
}

/// Trims ASCII whitespace from both ends.
pub fn trim_str(s: &str) -> (r: &str)
    ensures
        r@ == trim_of(s@),
{
    let len = s.unicode_len();
    let mut a: usize = 0;
    while a < len && is_space_char(s.get_char(a))
        invariant
            a <= len,
            len == s@.len(),
            forall|i: int| 0 <= i < a ==> is_space(#[trigger] s@[i]),
        decreases len - a,
    {
        a = a + 1;
    }
    proof {
        lemma_trim_start_char(s@, a as nat);
    }
    let ghost rest = s@.skip(a as int);
    let mut b: usize = len;
    while b > a && is_space_char(s.get_char(b - 1))
        invariant
            a <= b <= len,
            len == s@.len(),
            forall|i: int| 0 <= i < a ==> is_space(#[trigger] s@[i]),
            forall|i: int| b <= i < len ==> is_space(#[trigger] s@[i]),
        decreases b,
    {
        b = b - 1;
    }
    proof {
        assert(forall|i: int| 0 <= i < rest.len() ==> rest[i] == s@[a + i]);
        assert(forall|i: int|
            rest.len() - (len - b) <= i < rest.len() ==> is_space(#[trigger] rest[i]));
        if b > a {
            assert(rest[rest.len() - (len - b) - 1] == s@[b - 1]);
            assert(!is_space(rest[rest.len() - (len - b) - 1]));
        }
        lemma_trim_end_char(rest, (len - b) as nat);
    }
    let r = s.substring_char(a, b);
    proof {
        assert(r@ =~= trim_of(s@));
    }
    r
}

/// The pattern list parsed from gitignore lines: trimmed, comments and
/// blanks skipped, negation split off, converted to glob form, and kept
/// only when the glob compiles.
pub open spec fn parse_lines(ls: Seq<Seq<char>>) -> Seq<(Seq<char>, bool)>
    decreases ls.len(),
{
    if ls.len() == 0 {
        Seq::<(Seq<char>, bool)>::empty()
    } else {
        let rest = parse_lines(ls.drop_last());
        let line = trim_of(ls.last());
        if line.len() == 0 || line[0] == '#' {
            rest
        } else {
            let neg = line[0] == '!';
            let pat = if neg {
                line.skip(1)
            } else {
                line
            };
            let g = convert_pattern(pat);
            if pattern_valid(g) {
                rest.push((g, neg))
            } else {
                rest
            }
        }
    }
}

/// The views of an owned pattern list.
pub open spec fn patterns_view(v: Seq<(String, bool)>) -> Seq<(Seq<char>, bool)> {
    v.map_values(|p: (String, bool)| (p.0@, p.1))
}

/// Parses gitignore content into glob patterns with negation flags.
pub fn parse_content(content: &str) -> (r: Vec<(String, bool)>)
    ensures
        patterns_view(r@) == parse_lines(lines_of(content@)),
{
    let lines = split_lines(content);
    let ghost all = lines_of(content@);
    let mut patterns: Vec<(String, bool)> = Vec::new();
    let mut i: usize = 0;
    proof {
        assert(all.take(0) =~= Seq::<Seq<char>>::empty());
        assert(patterns_view(patterns@) =~= parse_lines(all.take(0)));
    }
    while i < lines.len()
        invariant
            i <= lines@.len(),
            texts_of(lines@) == all,
            all.len() == lines@.len(),
            patterns_view(patterns@) == parse_lines(all.take(i as int)),
        decreases lines@.len() - i,
    {
        proof {
            assert(all.take(i + 1).drop_last() =~= all.take(i as int));
            assert(all.take(i + 1).last() == all[i as int]);
            assert(all[i as int] == lines@[i as int]@);
        }
        let line = trim_str(lines[i].as_str());
        let llen = line.unicode_len();
        if llen == 0 || line.get_char(0) == '#' {
        } else {
            let is_negated = line.get_char(0) == '!';
            let pat: &str = if is_negated {
                line.substring_char(1, llen)
            } else {
                line
            };
            proof {
                if is_negated {
                    assert(pat@ =~= trim_of(lines@[i as int]@).skip(1));
                }
            }
            let glob_pattern = convert_to_glob_pattern(pat);
            if pattern_compiles(glob_pattern.as_str()) {
                patterns.push((glob_pattern, is_negated));
                proof {
                    assert(patterns_view(patterns@) =~= patterns_view(
                        patterns@.drop_last(),
                    ).push((patterns@.last().0@, patterns@.last().1)));
                }
            }
        }
        proof {
            assert(patterns_view(patterns@) =~= parse_lines(all.take(i + 1)));
        }
        i = i + 1;
    }
    proof {
        assert(all.take(all.len() as int) =~= all);
    }
    patterns
}

/// Gitignore rules for one directory: always-ignored system patterns,
/// ordinary patterns with negation flags, and whether this is the root
/// set.
pub struct GitIgnore {
    /// Glob patterns that always ignore, installed for root sets.
    pub system_patterns: Vec<String>,
    /// Glob patterns from the gitignore text, with their negation flags.
    pub patterns: Vec<(String, bool)>,
    /// Whether this set stands at the root of the walk.
    pub is_root: bool,
}

/// The views of an owned pattern list.
pub open spec fn texts_of_patterns(v: Seq<String>) -> Seq<Seq<char>> {
    v.map_values(|l: String| l@)
}

/// Whether any pattern of the list matches the path.
pub open spec fn any_match(ps: Seq<String>, path: Seq<char>) -> bool {
    exists|i: int| 0 <= i < ps.len() && glob_matches(ps[i]@, path)
}

/// The verdict of an ordered pattern list on a path: the last matching
/// pattern decides, ignoring when it is plain and un-ignoring when it is
/// negated; no match means not ignored.
pub open spec fn patterns_verdict(ps: Seq<(String, bool)>, path: Seq<char>) -> bool
    decreases ps.len(),
{
    if ps.len() == 0 {
        false
    } else if glob_matches(ps.last().0@, path) {
        !ps.last().1
    } else {
        patterns_verdict(ps.drop_last(), path)
    }
}

/// Whether some negated pattern of the list matches the path.
pub open spec fn has_negated_match(ps: Seq<(String, bool)>, path: Seq<char>) -> bool {
    exists|i: int| 0 <= i < ps.len() && ps[i].1 && glob_matches(ps[i].0@, path)
}

/// What `is_ignored` decides: a system pattern always ignores, else the
/// ordinary patterns' verdict stands.
pub open spec fn ignored_by(g: GitIgnore, path: Seq<char>) -> bool {
    any_match(g.system_patterns@, path) || patterns_verdict(g.patterns@, path)
}

/// What `is_path_ignored` decides: system patterns apply only to the root
/// set, else the ordinary patterns' verdict stands.
pub open spec fn path_ignored_by(g: GitIgnore, path: Seq<char>) -> bool {
    (g.is_root && any_match(g.system_patterns@, path)) || patterns_verdict(g.patterns@, path)
}

/// The system defaults installed by `load_content`.
pub open spec fn load_system_patterns() -> Seq<Seq<char>> {
    seq![
        "**/.git"@,
        "**/.DS_Store"@,
        "**/.svn"@,
        "**/.hg"@,
        "**/.idea"@,
        "**/.vscode"@,
        "**/__pycache__"@,
        "**/node_modules"@,
        "**/target"@,
        "**/build"@,
        "**/dist"@,
    ]
}

/// The system defaults installed by `from_file_content` for a root set.
pub open spec fn file_system_patterns() -> Seq<Seq<char>> {
    seq![
        "**/.git"@,
        "**/.svn"@,
        "**/.hg"@,
        "**/.jj"@,
        "**/.DS_Store"@,
        "**/Thumbs.db"@,
        "**/.idea"@,
        "**/.vscode"@,
        "**/.zed"@,
        "**/__pycache__"@,
        "**/venv"@,
        "**/.venv"@,
        "**/node_modules"@,
        "**/target"@,
        "**/build"@,
        "**/dist"@,
        "**/out"@,
        "**/bin"@,
        "**/.gradle"@,
        "**/.next"@,
        "**/.nuxt"@,
    ]
}

/// The system defaults a context installs when the root has no gitignore.
pub open spec fn context_system_patterns() -> Seq<Seq<char>> {
    seq![
        "**/.git"@,
        "**/.DS_Store"@,
        "**/.svn"@,
        "**/.hg"@,
        "**/.idea"@,
        "**/.vscode"@,
        "**/.zed"@,
        "**/__pycache__"@,
        "**/node_modules"@,
        "**/target"@,
        "**/build"@,
        "**/dist"@,
    ]
}

fn push_str_lit(v: &mut Vec<String>, s: &str)
    ensures
        final(v)@.len() == old(v)@.len() + 1,
        texts_of_patterns(final(v)@) == texts_of_patterns(old(v)@).push(s@),
{
    v.push(String::from_str(s));
    proof {
        assert(texts_of_patterns(v@) =~= texts_of_patterns(v@.drop_last()).push(s@));
    }
}

impl GitIgnore {
    /// An empty rule set.
    pub fn empty(is_root: bool) -> (g: GitIgnore)
        ensures
            g.system_patterns@.len() == 0,
            g.patterns@.len() == 0,
            g.is_root == is_root,
    {
        GitIgnore { system_patterns: Vec::new(), patterns: Vec::new(), is_root }
    }

    /// The root rule set: the usual system defaults plus the patterns of
    /// the root gitignore text, when there is one.
    pub fn load_content(content: Option<&str>) -> (g: GitIgnore)
        ensures
            g.is_root,
            texts_of_patterns(g.system_patterns@) == load_system_patterns(),
            content is Some ==> patterns_view(g.patterns@) == parse_lines(
                lines_of(content->0@),
            ),
            content is None ==> g.patterns@.len() == 0,
    {
        let mut sys: Vec<String> = Vec::new();
        proof {
            assert(texts_of_patterns(sys@) =~= Seq::<Seq<char>>::empty());
        }
        push_str_lit(&mut sys, "**/.git");
        push_str_lit(&mut sys, "**/.DS_Store");
        push_str_lit(&mut sys, "**/.svn");
        push_str_lit(&mut sys, "**/.hg");
        push_str_lit(&mut sys, "**/.idea");
        push_str_lit(&mut sys, "**/.vscode");
        push_str_lit(&mut sys, "**/__pycache__");
        push_str_lit(&mut sys, "**/node_modules");
        push_str_lit(&mut sys, "**/target");
        push_str_lit(&mut sys, "**/build");
        push_str_lit(&mut sys, "**/dist");
        proof {
            assert(texts_of_patterns(sys@) =~= load_system_patterns());
        }
        let patterns: Vec<(String, bool)> = match content {
            Option::Some(text) => parse_content(text),
            Option::None => Vec::new(),
        };
        proof {
            if content is None {
                assert(patterns@.len() == 0);
            }
        }
        GitIgnore { system_patterns: sys, patterns, is_root: true }
    }

    /// A rule set parsed from one gitignore file's text; root sets also
    /// carry the system defaults.
    pub fn from_file_content(content: &str, is_root: bool) -> (g: GitIgnore)
        ensures
            g.is_root == is_root,
            patterns_view(g.patterns@) == parse_lines(lines_of(content@)),
            is_root ==> texts_of_patterns(g.system_patterns@) == file_system_patterns(),
            !is_root ==> g.system_patterns@.len() == 0,
    {
        let mut sys: Vec<String> = Vec::new();
        proof {
            assert(texts_of_patterns(sys@) =~= Seq::<Seq<char>>::empty());
        }
        if is_root {
            push_str_lit(&mut sys, "**/.git");
            push_str_lit(&mut sys, "**/.svn");
            push_str_lit(&mut sys, "**/.hg");
            push_str_lit(&mut sys, "**/.jj");
            push_str_lit(&mut sys, "**/.DS_Store");
            push_str_lit(&mut sys, "**/Thumbs.db");
            push_str_lit(&mut sys, "**/.idea");
            push_str_lit(&mut sys, "**/.vscode");
            push_str_lit(&mut sys, "**/.zed");
            push_str_lit(&mut sys, "**/__pycache__");
            push_str_lit(&mut sys, "**/venv");
            push_str_lit(&mut sys, "**/.venv");
            push_str_lit(&mut sys, "**/node_modules");
            push_str_lit(&mut sys, "**/target");
            push_str_lit(&mut sys, "**/build");
            push_str_lit(&mut sys, "**/dist");
            push_str_lit(&mut sys, "**/out");
            push_str_lit(&mut sys, "**/bin");
            push_str_lit(&mut sys, "**/.gradle");
            push_str_lit(&mut sys, "**/.next");
            push_str_lit(&mut sys, "**/.nuxt");
            proof {
                assert(texts_of_patterns(sys@) =~= file_system_patterns());
            }
        }
        let patterns = parse_content(content);
        GitIgnore { system_patterns: sys, patterns, is_root }
    }

    /// Whether the path is ignored: a system pattern always ignores, and
    /// otherwise the last matching ordinary pattern decides.
    pub fn is_ignored(&self, path: &str) -> (r: bool)
        ensures
            r == ignored_by(*self, path@),
    {
        let mut i: usize = 0;
        while i < self.system_patterns.len()
            invariant
                i <= self.system_patterns@.len(),
                forall|q: int|
                    0 <= q < i ==> !glob_matches(
                        #[trigger] self.system_patterns@[q]@,
                        path@,
                    ),
            decreases self.system_patterns@.len() - i,
        {
            if glob_match_str(self.system_patterns[i].as_str(), path) {
                proof {
                    assert(glob_matches(self.system_patterns@[i as int]@, path@));
                    assert(any_match(self.system_patterns@, path@));
                }
                return true;
            }
            i = i + 1;
        }
        self.patterns_decide(path)
    }

    /// Whether the path is ignored by this specific set: system patterns
    /// apply only to root sets.
    pub fn is_path_ignored(&self, path: &str) -> (r: bool)
        ensures
            r == path_ignored_by(*self, path@),
    {
        if self.is_root {
            let mut i: usize = 0;
            while i < self.system_patterns.len()
                invariant
                    self.is_root,
                    i <= self.system_patterns@.len(),
                    forall|q: int|
                        0 <= q < i ==> !glob_matches(
                            #[trigger] self.system_patterns@[q]@,
                            path@,
                        ),
                decreases self.system_patterns@.len() - i,
            {
                if glob_match_str(self.system_patterns[i].as_str(), path) {
                    proof {
                        assert(glob_matches(self.system_patterns@[i as int]@, path@));
                        assert(any_match(self.system_patterns@, path@));
                    }
                    return true;
                }
                i = i + 1;
            }
            proof {
                if any_match(self.system_patterns@, path@) {
                    let q = choose|q: int|
                        0 <= q < self.system_patterns@.len() && glob_matches(
                            self.system_patterns@[q]@,
                            path@,
                        );
                    assert(!glob_matches(self.system_patterns@[q]@, path@));
                }
            }
        }
        self.patterns_decide(path)
    }

    /// The ordinary patterns' verdict, the last match deciding.
    fn patterns_decide(&self, path: &str) -> (r: bool)
        ensures
            r == patterns_verdict(self.patterns@, path@),
    {
        let mut ignored = false;
        let mut i: usize = 0;
        proof {
            assert(self.patterns@.take(0) =~= Seq::<(String, bool)>::empty());
        }
        while i < self.patterns.len()
            invariant
                i <= self.patterns@.len(),
                ignored == patterns_verdict(self.patterns@.take(i as int), path@),
            decreases self.patterns@.len() - i,
        {
            proof {
                assert(self.patterns@.take(i + 1).drop_last() =~= self.patterns@.take(i as int));
                assert(self.patterns@.take(i + 1).last() == self.patterns@[i as int]);
            }
            let matched = glob_match_str(self.patterns[i].0.as_str(), path);
            if matched {
                ignored = !self.patterns[i].1;
            }
            i = i + 1;
        }
        proof {
            assert(self.patterns@.take(self.patterns@.len() as int) =~= self.patterns@);
        }
        ignored
    }

    /// Whether some negated pattern of this set matches the path.
    fn has_negated(&self, path: &str) -> (r: bool)
        ensures
            r == has_negated_match(self.patterns@, path@),
    {
        let mut i: usize = 0;
        while i < self.patterns.len()
            invariant
                i <= self.patterns@.len(),
                forall|q: int|
                    0 <= q < i ==> !(#[trigger] self.patterns@[q].1 && glob_matches(
                        self.patterns@[q].0@,
                        path@,
                    )),
            decreases self.patterns@.len() - i,
        {
            if self.patterns[i].1 {
                if glob_match_str(self.patterns[i].0.as_str(), path) {
                    return true;
                }
            }
            i = i + 1;
        }
        false
    }
}

/// The cut before the file name: the index just past the last slash, or
/// zero when the path has no slash.
pub open spec fn last_slash_cut(s: Seq<char>) -> nat
    decreases s.len(),
{
    if s.len() == 0 {
        0
    } else if s.last() == '/' {
        (s.len() - 1) as nat
    } else {
        last_slash_cut(s.drop_last())
    }
}

pub proof fn lemma_last_slash_cut_lt(s: Seq<char>)
    requires
        s.len() > 0,
    ensures
        last_slash_cut(s) < s.len(),
    decreases s.len(),
{
    reveal_with_fuel(last_slash_cut, 2);
    if s.last() != '/' && s.len() > 1 {
        lemma_last_slash_cut_lt(s.drop_last());
    }
}

/// The parent of a path text: everything before its last slash, or the
/// empty text when it has none.
pub open spec fn parent_str(s: Seq<char>) -> Seq<char> {
    s.take(last_slash_cut(s) as int)
}

pub proof fn lemma_last_slash_char(s: Seq<char>, k: nat)
    requires
        k <= s.len(),
        k > 0 ==> k - 1 < s.len() && s[k - 1] == '/',
        forall|i: int| k <= i < s.len() ==> s[i] != '/',
        k == 0 ==> forall|i: int| 0 <= i < s.len() ==> s[i] != '/',
    ensures
        k > 0 ==> last_slash_cut(s) == k - 1,
        k == 0 ==> last_slash_cut(s) == 0,
    decreases s.len(),
{
    if s.len() > 0 {
        if s.last() == '/' {
        } else {
            lemma_last_slash_char(s.drop_last(), k);
        }
    }
}

/// The parent of `path`: the text before its last slash, empty when it has
/// none.
pub fn parent_path(path: &str) -> (r: &str)
    ensures
        r@ == parent_str(path@),
{
    let len = path.unicode_len();
    let mut k: usize = len;
    loop
        invariant
            k <= len,
            len == path@.len(),
            forall|i: int| k <= i < len ==> path@[i] != '/',
        ensures
            k <= len,
            forall|i: int| k <= i < len ==> path@[i] != '/',
            k > 0 ==> path@[k - 1] == '/',
        decreases k,
    {
        if k == 0 {
            break;
        }
        if path.get_char(k - 1) == '/' {
            break;
        }
        k = k - 1;
    }
    proof {
        lemma_last_slash_char(path@, k as nat);
        if len > 0 {
            lemma_last_slash_cut_lt(path@);
        }
    }
    if k == 0 {
        let r = path.substring_char(0, 0);
        proof {
            assert(r@ =~= parent_str(path@));
        }
        r
    } else {
        let r = path.substring_char(0, k - 1);
        proof {
            assert(r@ =~= parent_str(path@));
        }
        r
    }
}

/// The chain of directories consulted for a path's verdict, from the
/// starting directory up to the walk's root (or to the first directory
/// outside it).
pub open spec fn dir_chain(root: Seq<char>, current: Seq<char>) -> Seq<Seq<char>>
    decreases current.len(),
    via dir_chain_dec
{
    seq![current] + (if current == root || !is_prefix(root, current) || current.len() == 0 {
        Seq::<Seq<char>>::empty()
    } else {
        dir_chain(root, parent_str(current))
    })
}

#[via_fn]
proof fn dir_chain_dec(root: Seq<char>, current: Seq<char>) {
    if !(current == root || !is_prefix(root, current) || current.len() == 0) {
        lemma_last_slash_cut_lt(current);
    }
}

/// Gitignore state across a directory walk: the root directory and the
/// rule sets of the directories seen so far.
pub struct GitIgnoreContext {
    /// The root of the walk, as a path text.
    pub root_dir: String,
    /// The rule sets loaded so far, keyed by directory path.
    pub gitignores: Vec<(String, GitIgnore)>,
}

/// The first rule set recorded for a directory, if any.
pub open spec fn lookup_dir(gs: Seq<(String, GitIgnore)>, key: Seq<char>) -> Option<GitIgnore>
    decreases gs.len(),
{
    if gs.len() == 0 {
        Option::None
    } else if gs[0].0@ == key {
        Option::Some(gs[0].1)
    } else {
        lookup_dir(gs.skip(1), key)
    }
}

/// What one directory adds to the decision: its rule set can ignore the
/// path, and its negated matches can clear a decision from above.
pub open spec fn dir_step(gs: Seq<(String, GitIgnore)>, dir: Seq<char>, path: Seq<char>, prev: bool) -> bool {
    match lookup_dir(gs, dir) {
        Option::Some(g) => {
            let v = if path_ignored_by(g, path) {
                true
            } else {
                prev
            };
            if has_negated_match(g.patterns@, path) {
                false
            } else {
                v
            }
        },
        Option::None => prev,
    }
}

/// The verdict of a chain of directories, consulted root first.
pub open spec fn chain_verdict(
    gs: Seq<(String, GitIgnore)>,
    dirs: Seq<Seq<char>>,
    path: Seq<char>,
) -> bool
    decreases dirs.len(),
{
    if dirs.len() == 0 {
        false
    } else {
        dir_step(gs, dirs.last(), path, chain_verdict(gs, dirs.drop_last(), path))
    }
}

/// What the context decides for a path: the gitignores of its directory
/// chain consulted from the root down, deeper sets overriding, negated
/// matches clearing.
pub open spec fn context_ignored(ctx: GitIgnoreContext, path: Seq<char>, path_is_dir: bool) -> bool {
    let start = if path_is_dir {
        path
    } else {
        parent_str(path)
    };
    chain_verdict(ctx.gitignores@, dir_chain(ctx.root_dir@, start).reverse(), path)
}

impl GitIgnoreContext {
    /// A fresh context for a walk rooted at `root`, from the root
    /// gitignore's text when the root has one, else from the system
    /// defaults alone.
    pub fn new(root: &str, root_gitignore: Option<&str>) -> (ctx: GitIgnoreContext)
        ensures
            ctx.root_dir@ == root@,
            ctx.gitignores@.len() == 1,
            ctx.gitignores@[0].0@ == root@,
            ({
                let g = ctx.gitignores@[0].1;
                match root_gitignore {
                    Option::Some(content) => g.is_root && patterns_view(g.patterns@)
                        == parse_lines(lines_of(content@)) && texts_of_patterns(
                        g.system_patterns@,
                    ) == file_system_patterns(),
                    Option::None => g.is_root && g.patterns@.len() == 0 && texts_of_patterns(
                        g.system_patterns@,
                    ) == context_system_patterns(),
                }
            }),
    {
        let g = match root_gitignore {
            Option::Some(content) => GitIgnore::from_file_content(content, true),
            Option::None => {
                let mut sys: Vec<String> = Vec::new();
                proof {
                    assert(texts_of_patterns(sys@) =~= Seq::<Seq<char>>::empty());
                }
                push_str_lit(&mut sys, "**/.git");
                push_str_lit(&mut sys, "**/.DS_Store");
                push_str_lit(&mut sys, "**/.svn");
                push_str_lit(&mut sys, "**/.hg");
                push_str_lit(&mut sys, "**/.idea");
                push_str_lit(&mut sys, "**/.vscode");
                push_str_lit(&mut sys, "**/.zed");
                push_str_lit(&mut sys, "**/__pycache__");
                push_str_lit(&mut sys, "**/node_modules");
                push_str_lit(&mut sys, "**/target");
                push_str_lit(&mut sys, "**/build");
                push_str_lit(&mut sys, "**/dist");
                proof {
                    assert(texts_of_patterns(sys@) =~= context_system_patterns());
                }
                GitIgnore { system_patterns: sys, patterns: Vec::new(), is_root: true }
            },
        };
        let mut gitignores: Vec<(String, GitIgnore)> = Vec::new();
        gitignores.push((String::from_str(root), g));
        GitIgnoreContext { root_dir: String::from_str(root), gitignores }
    }

    /// A fresh context for a walk rooted at `root`; the older name of
    /// `new`, kept for callers of the earlier interface.
    pub fn load(root: &str, root_gitignore: Option<&str>) -> (ctx: GitIgnoreContext)
        ensures
            ctx.root_dir@ == root@,
            ctx.gitignores@.len() == 1,
            ctx.gitignores@[0].0@ == root@,
    {
        GitIgnoreContext::new(root, root_gitignore)
    }

    /// Whether a rule set is already recorded for `dir`.
    pub fn has_directory(&self, dir: &str) -> (r: bool)
        ensures
            r == (lookup_dir(self.gitignores@, dir@) is Some),
    {
        let mut i: usize = 0;
        proof {
            assert(self.gitignores@.skip(0) =~= self.gitignores@);
        }
        while i < self.gitignores.len()
            invariant
                i <= self.gitignores@.len(),
                lookup_dir(self.gitignores@, dir@) == lookup_dir(
                    self.gitignores@.skip(i as int),
                    dir@,
                ),
            decreases self.gitignores@.len() - i,
        {
            if str_eq(self.gitignores[i].0.as_str(), dir) {
                proof {
                    assert(self.gitignores@.skip(i as int)[0] == self.gitignores@[i as int]);
                }
                return true;
            }
            proof {
                assert(self.gitignores@.skip(i as int)[0] == self.gitignores@[i as int]);
                assert(self.gitignores@.skip(i as int).skip(1) =~= self.gitignores@.skip(i + 1));
            }
            i = i + 1;
        }
        false
    }

    /// Records the rule set of one directory, parsed from its gitignore's
    /// text, when the directory is new and has a gitignore. Handing the
    /// text in keeps the reading of files with the caller.
    pub fn process_directory(&mut self, dir: &str, gitignore_content: Option<&str>)
        ensures
            lookup_dir(old(self).gitignores@, dir@) is Some ==> *final(self) == *old(self),
            final(self).root_dir@ == old(self).root_dir@,
            (lookup_dir(old(self).gitignores@, dir@) is None && gitignore_content is None)
                ==> *final(self) == *old(self),
            (lookup_dir(old(self).gitignores@, dir@) is None && gitignore_content is Some) ==> ({
                let g = final(self).gitignores@.last().1;
                &&& final(self).gitignores@.len() == old(self).gitignores@.len() + 1
                &&& final(self).gitignores@.drop_last() == old(self).gitignores@
                &&& final(self).gitignores@.last().0@ == dir@
                &&& g.is_root == (dir@ == old(self).root_dir@)
                &&& patterns_view(g.patterns@) == parse_lines(
                    lines_of(gitignore_content->0@),
                )
            }),
    {
        if self.has_directory(dir) {
            return ;
        }
        match gitignore_content {
            Option::Some(content) => {
                let is_root = str_eq(dir, self.root_dir.as_str());
                let g = GitIgnore::from_file_content(content, is_root);
                self.gitignores.push((String::from_str(dir), g));
            },
            Option::None => {},
        }
    }

    /// Whether the path is ignored by the gitignores recorded along its
    /// directory chain, the root's set consulted first and deeper sets
    /// overriding; `path_is_dir` says whether the path itself names a
    /// directory, whose own gitignore then takes part.
    pub fn is_ignored(&self, path: &str, path_is_dir: bool) -> (r: bool)
        ensures
            r == context_ignored(*self, path@, path_is_dir),
    {
        let start: &str = if path_is_dir {
            path
        } else {
            parent_path(path)
        };
        // climb from the starting directory to the root, collecting the chain
        let mut chain: Vec<String> = Vec::new();
        let mut current = String::from_str(start);
        proof {
            assert(texts_of_patterns(chain@) =~= Seq::<Seq<char>>::empty());
            assert(dir_chain(self.root_dir@, start@) =~= texts_of_patterns(chain@) + dir_chain(
                self.root_dir@,
                current@,
            ));
        }
        loop
            invariant_except_break
                dir_chain(self.root_dir@, start@) == texts_of_patterns(chain@) + dir_chain(
                    self.root_dir@,
                    current@,
                ),
            ensures
                texts_of_patterns(chain@) == dir_chain(self.root_dir@, start@),
            decreases current@.len(),
        {
            let stop = str_eq(current.as_str(), self.root_dir.as_str()) || !str_starts_with(
                current.as_str(),
                self.root_dir.as_str(),
            ) || current.unicode_len() == 0;
            let parent = String::from_str(parent_path(current.as_str()));
            proof {
                if !stop {
                    lemma_last_slash_cut_lt(current@);
                }
                assert(dir_chain(self.root_dir@, current@) == seq![current@] + (if stop {
                    Seq::<Seq<char>>::empty()
                } else {
                    dir_chain(self.root_dir@, parent@)
                }));
            }
            let ghost pre_chain = chain@;
            chain.push(current);
            proof {
                assert(texts_of_patterns(chain@) =~= texts_of_patterns(pre_chain).push(
                    chain@.last()@,
                ));
                assert(texts_of_patterns(chain@) + dir_chain(self.root_dir@, parent@)
                    =~= texts_of_patterns(pre_chain) + (seq![chain@.last()@] + dir_chain(
                    self.root_dir@,
                    parent@,
                )));
            }
            if stop {
                proof {
                    assert(texts_of_patterns(chain@) =~= texts_of_patterns(pre_chain) + seq![
                        chain@.last()@,
                    ]);
                }
                break;
            }
            current = parent;
        }
        // fold the verdict from the root end of the chain down
        let ghost dirs = dir_chain(self.root_dir@, start@).reverse();
        let mut ignored = false;
        let mut i: usize = chain.len();
        proof {
            assert(dirs.take(0) =~= Seq::<Seq<char>>::empty());
        }
        while i > 0
            invariant
                i <= chain@.len(),
                texts_of_patterns(chain@) == dir_chain(self.root_dir@, start@),
                dirs == dir_chain(self.root_dir@, start@).reverse(),
                ignored == chain_verdict(self.gitignores@, dirs.take(chain@.len() - i), path@),
            decreases i,
        {
            let dir = &chain[i - 1];
            let ghost k = chain@.len() - i;
            proof {
                assert(dirs.take(k + 1).drop_last() =~= dirs.take(k));
                assert(dirs.take(k + 1).last() == dirs[k]);
                assert(dirs[k] == texts_of_patterns(chain@)[chain@.len() - 1 - k]);
                assert(texts_of_patterns(chain@)[i - 1] == chain@[i - 1]@);
            }
            match self.find_gitignore(dir.as_str()) {
                Option::Some(idx) => {
                    let g = &self.gitignores[idx].1;
                    if g.is_path_ignored(path) {
                        ignored = true;
                    }
                    if g.has_negated(path) {
                        ignored = false;
                    }
                },
                Option::None => {},
            }
            proof {
                assert(ignored == chain_verdict(self.gitignores@, dirs.take(k + 1), path@));
            }
            i = i - 1;
        }
        proof {
            assert(dirs.take(chain@.len() as int) =~= dirs);
        }
        ignored
    }

    /// The position of the rule set recorded for `dir`, if any.
    fn find_gitignore(&self, dir: &str) -> (r: Option<usize>)
        ensures
            match r {
                Option::Some(idx) => idx < self.gitignores@.len() && lookup_dir(
                    self.gitignores@,
                    dir@,
                ) == Option::Some(self.gitignores@[idx as int].1),
                Option::None => lookup_dir(self.gitignores@, dir@) is None,
            },
    {
        let mut i: usize = 0;
        proof {
            assert(self.gitignores@.skip(0) =~= self.gitignores@);
        }
        while i < self.gitignores.len()
            invariant
                i <= self.gitignores@.len(),
                lookup_dir(self.gitignores@, dir@) == lookup_dir(
                    self.gitignores@.skip(i as int),
                    dir@,
                ),
            decreases self.gitignores@.len() - i,
        {
            proof {
                assert(self.gitignores@.skip(i as int)[0] == self.gitignores@[i as int]);
                assert(self.gitignores@.skip(i as int).skip(1) =~= self.gitignores@.skip(i + 1));
            }
            if str_eq(self.gitignores[i].0.as_str(), dir) {
                return Option::Some(i);
            }
            i = i + 1;
        }
        Option::None
    }
}

} // verus!
