//! Display style gating and file-type classification: whether colors and
//! emoji are in play, and which icon an entry would carry.

use vstd::prelude::*;
use crate::types::ColorTheme;
use crate::types::DisplayConfig;
use crate::types::FileType;

verus! {

/// Relies on colored's `control::SHOULD_COLORIZE.should_colorize`: whether
/// the process environment (TTY, NO_COLOR, overrides) allows colored
/// output. Nothing is assumed of its value.
#[verifier::external_body]
fn terminal_colors_enabled() -> bool {
    colored::control::SHOULD_COLORIZE.should_colorize()
}

/// Whether colored output is in effect: it must be enabled by the
/// configuration, and the environment must allow it.
pub fn should_use_colors(config: &DisplayConfig) -> (r: bool)
    ensures
        r ==> config.use_colors && config.color_theme != ColorTheme::Disabled,
{
    if !config.use_colors {
        return false;
    }
    if config.color_theme == ColorTheme::Disabled {
        return false;
    }
    terminal_colors_enabled()
}

/// Whether emoji icons are in effect: configured, and colors in effect.
pub fn should_use_emoji(config: &DisplayConfig) -> (r: bool)
    ensures
        r ==> config.use_emoji && config.use_colors && config.color_theme
            != ColorTheme::Disabled,
{
    config.use_emoji && should_use_colors(config)
}

/// ASCII-case-folded code point: uppercase ASCII letters map to their
/// lowercase forms, everything else stays.
pub open spec fn lower_code(c: char) -> int {
    if 'A' <= c && c <= 'Z' {
        (c as u32) + 32
    } else {
        (c as u32) as int
    }
}

/// Equality of two strings up to ASCII case.
pub open spec fn ci_eq(a: Seq<char>, b: Seq<char>) -> bool {
    a.len() == b.len() && forall|i: int| 0 <= i < a.len() ==> lower_code(a[i]) == lower_code(b[i])
}

/// Whether `a` equals `b` up to ASCII case.
pub fn eq_ignore_ascii_case(a: &str, b: &str) -> (r: bool)
    ensures
        r == ci_eq(a@, b@),
{
    let la = a.unicode_len();
    let lb = b.unicode_len();
    if la != lb {
        return false;
    }
    let mut i: usize = 0;
    while i < la
        invariant
            i <= la,
            la == a@.len(),
            la == b@.len(),
            forall|q: int| 0 <= q < i ==> lower_code(a@[q]) == lower_code(b@[q]),
        decreases la - i,
    {
        let ca = a.get_char(i);
        let cb = b.get_char(i);
        let code_a: u32 = if 'A' <= ca && ca <= 'Z' {
            ca as u32 + 32
        } else {
            ca as u32
        };
        let code_b: u32 = if 'A' <= cb && cb <= 'Z' {
            cb as u32 + 32
        } else {
            cb as u32
        };
        if code_a != code_b {
            return false;
        }
        i = i + 1;
    }
    true
}

/// The index just past the last dot of `s`, or zero when `s` has no dot.
pub open spec fn after_last_dot(s: Seq<char>) -> nat
    decreases s.len(),
{
    if s.len() == 0 {
        0
    } else if s.last() == '.' {
        s.len() as nat
    } else {
        after_last_dot(s.drop_last())
    }
}

/// The extension of a name: what follows its last dot, empty when it has
/// none.
pub open spec fn extension_of(s: Seq<char>) -> Seq<char> {
    s.skip(after_last_dot(s) as int)
}

pub proof fn lemma_after_last_dot_le(s: Seq<char>)
    ensures
        after_last_dot(s) <= s.len(),
    decreases s.len(),
{
    if s.len() > 0 && s.last() != '.' {
        lemma_after_last_dot_le(s.drop_last());
    }
}

/// The extension of `name`: the text after its last dot, or the empty
/// string when it has no dot.
pub fn name_extension(name: &str) -> (r: &str)
    ensures
        r@ == extension_of(name@),
{
    let len = name.unicode_len();
    let mut i: usize = len;
    proof {
        lemma_after_last_dot_le(name@);
        assert(name@.take(len as int) =~= name@);
    }
    loop
        invariant
            i <= len,
            len == name@.len(),
            after_last_dot(name@) == after_last_dot(name@.take(i as int)),
        ensures
            i <= len,
            after_last_dot(name@) == i,
        decreases i,
    {
        if i == 0 {
            proof {
                assert(name@.take(0) =~= Seq::<char>::empty());
            }
            break;
        }
        let c = name.get_char(i - 1);
        proof {
            assert(name@.take(i as int).last() == name@[i - 1]);
            assert(name@.take(i as int).drop_last() =~= name@.take(i - 1));
        }
        if c == '.' {
            break;
        }
        i = i - 1;
    }
    proof {
        lemma_after_last_dot_le(name@);
    }
    name.substring_char(i, len)
}

/// The coarse type of an entry, from its kind and name alone: directories,
/// dot-files, and known extensions compared up to ASCII case. Symlink and
/// executable-bit detection need the filesystem and stay with the scanner.
pub open spec fn file_type_of(name: Seq<char>, is_dir: bool) -> FileType {
    if is_dir {
        FileType::Directory
    } else if name.len() > 0 && name[0] == '.' {
        FileType::Hidden
    } else {
        let ext = extension_of(name);
        if ci_eq(ext, "jpg"@) || ci_eq(ext, "jpeg"@) || ci_eq(ext, "png"@) || ci_eq(ext, "gif"@)
            || ci_eq(ext, "bmp"@) || ci_eq(ext, "tiff"@) || ci_eq(ext, "webp"@) || ci_eq(
            ext,
            "svg"@,
        ) {
            FileType::Image
        } else if ci_eq(ext, "mp4"@) || ci_eq(ext, "mov"@) || ci_eq(ext, "avi"@) || ci_eq(
            ext,
            "mkv"@,
        ) || ci_eq(ext, "webm"@) || ci_eq(ext, "flv"@) || ci_eq(ext, "wmv"@) {
            FileType::Video
        } else if ci_eq(ext, "mp3"@) || ci_eq(ext, "wav"@) || ci_eq(ext, "ogg"@) || ci_eq(
            ext,
            "flac"@,
        ) || ci_eq(ext, "aac"@) || ci_eq(ext, "m4a"@) {
            FileType::Audio
        } else if ci_eq(ext, "zip"@) || ci_eq(ext, "rar"@) || ci_eq(ext, "tar"@) || ci_eq(
            ext,
            "gz"@,
        ) || ci_eq(ext, "7z"@) || ci_eq(ext, "bz2"@) || ci_eq(ext, "xz"@) {
            FileType::Archive
        } else if ci_eq(ext, "rs"@) || ci_eq(ext, "py"@) || ci_eq(ext, "js"@) || ci_eq(ext, "ts"@)
            || ci_eq(ext, "c"@) || ci_eq(ext, "cpp"@) || ci_eq(ext, "h"@) || ci_eq(ext, "hpp"@)
            || ci_eq(ext, "java"@) || ci_eq(ext, "go"@) || ci_eq(ext, "rb"@) || ci_eq(ext, "php"@)
            || ci_eq(ext, "html"@) || ci_eq(ext, "css"@) || ci_eq(ext, "scss"@) || ci_eq(
            ext,
            "jsx"@,
        ) || ci_eq(ext, "tsx"@) || ci_eq(ext, "swift"@) || ci_eq(ext, "kt"@) || ci_eq(
            ext,
            "scala"@,
        ) || ci_eq(ext, "sh"@) || ci_eq(ext, "bash"@) || ci_eq(ext, "pl"@) || ci_eq(ext, "exs"@)
            || ci_eq(ext, "clj"@) {
            FileType::Code
        } else if ci_eq(ext, "pdf"@) || ci_eq(ext, "doc"@) || ci_eq(ext, "docx"@) || ci_eq(
            ext,
            "xls"@,
        ) || ci_eq(ext, "xlsx"@) || ci_eq(ext, "ppt"@) || ci_eq(ext, "pptx"@) || ci_eq(
            ext,
            "txt"@,
        ) || ci_eq(ext, "md"@) || ci_eq(ext, "rst"@) {
            FileType::Document
        } else if ci_eq(ext, "exe"@) || ci_eq(ext, "dll"@) || ci_eq(ext, "so"@) || ci_eq(
            ext,
            "dylib"@,
        ) || ci_eq(ext, "bin"@) {
            FileType::Executable
        } else {
            FileType::Regular
        }
    }
}

/// Classifies an entry by its kind and name.
pub fn determine_file_type(name: &str, is_dir: bool) -> (t: FileType)
    ensures
        t == file_type_of(name@, is_dir),
{
    if is_dir {
        return FileType::Directory;
    }
    if name.unicode_len() > 0 && name.get_char(0) == '.' {
        return FileType::Hidden;
    }
    let ext = name_extension(name);
    if eq_ignore_ascii_case(ext, "jpg") || eq_ignore_ascii_case(ext, "jpeg")
        || eq_ignore_ascii_case(ext, "png") || eq_ignore_ascii_case(ext, "gif")
        || eq_ignore_ascii_case(ext, "bmp") || eq_ignore_ascii_case(ext, "tiff")
        || eq_ignore_ascii_case(ext, "webp") || eq_ignore_ascii_case(ext, "svg") {
        FileType::Image
    } else if eq_ignore_ascii_case(ext, "mp4") || eq_ignore_ascii_case(ext, "mov")
        || eq_ignore_ascii_case(ext, "avi") || eq_ignore_ascii_case(ext, "mkv")
        || eq_ignore_ascii_case(ext, "webm") || eq_ignore_ascii_case(ext, "flv")
        || eq_ignore_ascii_case(ext, "wmv") {
        FileType::Video
    } else if eq_ignore_ascii_case(ext, "mp3") || eq_ignore_ascii_case(ext, "wav")
        || eq_ignore_ascii_case(ext, "ogg") || eq_ignore_ascii_case(ext, "flac")
        || eq_ignore_ascii_case(ext, "aac") || eq_ignore_ascii_case(ext, "m4a") {
        FileType::Audio
    } else if eq_ignore_ascii_case(ext, "zip") || eq_ignore_ascii_case(ext, "rar")
        || eq_ignore_ascii_case(ext, "tar") || eq_ignore_ascii_case(ext, "gz")
        || eq_ignore_ascii_case(ext, "7z") || eq_ignore_ascii_case(ext, "bz2")
        || eq_ignore_ascii_case(ext, "xz") {
        FileType::Archive
    } else if eq_ignore_ascii_case(ext, "rs") || eq_ignore_ascii_case(ext, "py")
        || eq_ignore_ascii_case(ext, "js") || eq_ignore_ascii_case(ext, "ts")
        || eq_ignore_ascii_case(ext, "c") || eq_ignore_ascii_case(ext, "cpp")
        || eq_ignore_ascii_case(ext, "h") || eq_ignore_ascii_case(ext, "hpp")
        || eq_ignore_ascii_case(ext, "java") || eq_ignore_ascii_case(ext, "go")
        || eq_ignore_ascii_case(ext, "rb") || eq_ignore_ascii_case(ext, "php")
        || eq_ignore_ascii_case(ext, "html") || eq_ignore_ascii_case(ext, "css")
        || eq_ignore_ascii_case(ext, "scss") || eq_ignore_ascii_case(ext, "jsx")
        || eq_ignore_ascii_case(ext, "tsx") || eq_ignore_ascii_case(ext, "swift")
        || eq_ignore_ascii_case(ext, "kt") || eq_ignore_ascii_case(ext, "scala")
        || eq_ignore_ascii_case(ext, "sh") || eq_ignore_ascii_case(ext, "bash")
        || eq_ignore_ascii_case(ext, "pl") || eq_ignore_ascii_case(ext, "exs")
        || eq_ignore_ascii_case(ext, "clj") {
        FileType::Code
    } else if eq_ignore_ascii_case(ext, "pdf") || eq_ignore_ascii_case(ext, "doc")
        || eq_ignore_ascii_case(ext, "docx") || eq_ignore_ascii_case(ext, "xls")
        || eq_ignore_ascii_case(ext, "xlsx") || eq_ignore_ascii_case(ext, "ppt")
        || eq_ignore_ascii_case(ext, "pptx") || eq_ignore_ascii_case(ext, "txt")
        || eq_ignore_ascii_case(ext, "md") || eq_ignore_ascii_case(ext, "rst") {
        FileType::Document
    } else if eq_ignore_ascii_case(ext, "exe") || eq_ignore_ascii_case(ext, "dll")
        || eq_ignore_ascii_case(ext, "so") || eq_ignore_ascii_case(ext, "dylib")
        || eq_ignore_ascii_case(ext, "bin") {
        FileType::Executable
    } else {
        FileType::Regular
    }
}

/// The emoji icon for a file type.
pub open spec fn emoji_of(t: FileType) -> Seq<char> {
    match t {
        FileType::Directory => "📁 "@,
        FileType::Symlink => "🔗 "@,
        FileType::Image => "🖼️ "@,
        FileType::Video => "🎬 "@,
        FileType::Audio => "🎵 "@,
        FileType::Archive => "📦 "@,
        FileType::Code => "📝 "@,
        FileType::Document => "📄 "@,
        FileType::Executable => "🔒 "@,
        FileType::Hidden => "👁️ "@,
        FileType::Regular => "📄 "@,
    }
}

/// The emoji icon for a file type.
pub fn get_file_emoji(file_type: FileType) -> (r: &'static str)
    ensures
        r@ == emoji_of(file_type),
{
    match file_type {
        FileType::Directory => "📁 ",
        FileType::Symlink => "🔗 ",
        FileType::Image => "🖼️ ",
        FileType::Video => "🎬 ",
        FileType::Audio => "🎵 ",
        FileType::Archive => "📦 ",
        FileType::Code => "📝 ",
        FileType::Document => "📄 ",
        FileType::Executable => "🔒 ",
        FileType::Hidden => "👁️ ",
        FileType::Regular => "📄 ",
    }
}

/// The display name of an entry with its emoji icon in front, when emoji
/// are in effect; the bare name otherwise.
pub fn format_name_with_emoji(entry: &crate::types::DirectoryEntry, config: &DisplayConfig) -> (r:
    String)
    ensures
        r@ == entry.name@ || r@ == emoji_of(file_type_of(entry.name@, entry.is_dir))
            + entry.name@,
        !(config.use_emoji && config.use_colors) ==> r@ == entry.name@,
{
    if !should_use_emoji(config) {
        let mut s = String::new();
        s.append(entry.name.as_str());
        proof {
            assert(s@ =~= entry.name@);
        }
        return s;
    }
    let t = determine_file_type(entry.name.as_str(), entry.is_dir);
    let emoji = get_file_emoji(t);
    let mut s = String::new();
    s.append(emoji);
    s.append(entry.name.as_str());
    proof {
        assert(s@ =~= emoji_of(file_type_of(entry.name@, entry.is_dir)) + entry.name@);
    }
    s
}

} // verus!
