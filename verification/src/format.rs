//! The entry formatter: one entry, its positional context and its metadata
//! rendered into exactly one output line.

use vstd::prelude::*;
use crate::text::dec_str;
use crate::text::digit_char;
use crate::text::digit_str;
use crate::text::nl_free;
use crate::text::count_nl;
use crate::text::lemma_nl_free_concat;
use crate::text::lemma_dec_str_digits;
use crate::text::u64_to_dec;
use crate::types::DirectoryEntry;
use crate::types::DisplayConfig;

verus! {

pub const KB: u64 = 1024;

pub const MB: u64 = 1024 * 1024;

pub const GB: u64 = 1024 * 1024 * 1024;

pub const TB: u64 = 1024 * 1024 * 1024 * 1024;

/// One truncated decimal digit of the fraction `size / unit`.
pub open spec fn frac1(size: nat, unit: nat) -> Seq<char> {
    seq![digit_char((size % unit) * 10 / unit)]
}

/// Two truncated decimal digits of the fraction `size / unit`.
pub open spec fn frac2(size: nat, unit: nat) -> Seq<char> {
    seq![
        digit_char((size % unit) * 100 / unit / 10),
        digit_char((size % unit) * 100 / unit % 10),
    ]
}

/// Binary-unit size text: bytes below 1024, then one decimal place per
/// unit, except terabytes with two.
pub open spec fn size_str(size: nat) -> Seq<char> {
    if size >= TB {
        dec_str(size / (TB as nat)) + "."@ + frac2(size, TB as nat) + "TB"@
    } else if size >= GB {
        dec_str(size / (GB as nat)) + "."@ + frac1(size, GB as nat) + "GB"@
    } else if size >= MB {
        dec_str(size / (MB as nat)) + "."@ + frac1(size, MB as nat) + "MB"@
    } else if size >= KB {
        dec_str(size / (KB as nat)) + "."@ + frac1(size, KB as nat) + "KB"@
    } else {
        dec_str(size) + "B"@
    }
}

pub const MINUTE: u64 = 60;

pub const HOUR: u64 = 3600;

pub const DAY: u64 = 86400;

pub const WEEK: u64 = 7 * 86400;

pub const MONTH: u64 = 30 * 86400;

pub const YEAR: u64 = 365 * 86400;

/// The age of a timestamp relative to `now`, saturating at zero.
pub open spec fn age_of(now: nat, modified: nat) -> nat {
    if now >= modified {
        (now - modified) as nat
    } else {
        0
    }
}

/// Relative-time text in integer-truncated buckets, from "just now" under
/// a minute up to whole years.
pub open spec fn time_str(now: nat, modified: nat) -> Seq<char> {
    let diff = age_of(now, modified);
    if diff < MINUTE {
        "just now"@
    } else if diff < HOUR {
        dec_str(diff / (MINUTE as nat)) + "m ago"@
    } else if diff < DAY {
        dec_str(diff / (HOUR as nat)) + "h ago"@
    } else if diff < WEEK {
        dec_str(diff / (DAY as nat)) + "d ago"@
    } else if diff < MONTH {
        dec_str(diff / (WEEK as nat)) + "w ago"@
    } else if diff < YEAR {
        dec_str(diff / (MONTH as nat)) + "mo ago"@
    } else {
        dec_str(diff / (YEAR as nat)) + "y ago"@
    }
}

/// Parenthesised metadata text: file count (directories only), size, and
/// relative modification time.
pub open spec fn metadata_str(e: DirectoryEntry, now: nat) -> Seq<char> {
    if e.is_dir {
        "("@ + dec_str(e.metadata.files_count as nat) + " files, "@ + size_str(
            e.metadata.size as nat,
        ) + ", modified "@ + time_str(now, e.metadata.modified as nat) + ")"@
    } else {
        "("@ + size_str(e.metadata.size as nat) + ", modified "@ + time_str(
            now,
            e.metadata.modified as nat,
        ) + ")"@
    }
}

/// The marker appended after the metadata: a folded or system marker for
/// gitignored directories, else the filter annotation when its display is
/// enabled.
pub open spec fn entry_suffix(e: DirectoryEntry, cfg: DisplayConfig) -> Seq<char> {
    if e.is_gitignored && e.is_dir {
        if cfg.show_system_dirs {
            " [system]"@
        } else {
            " [folded: system]"@
        }
    } else if e.filter_annotation is Some && cfg.show_filtered {
        " ["@ + e.filter_annotation->0@ + "]"@
    } else {
        Seq::<char>::empty()
    }
}

/// The one output line of an entry: prefix, connector, name, metadata and
/// suffix, closed by a newline.
pub open spec fn entry_line_str(
    e: DirectoryEntry,
    prefix: Seq<char>,
    is_last: bool,
    cfg: DisplayConfig,
    now: nat,
) -> Seq<char> {
    prefix + (if is_last {
        "└── "@
    } else {
        "├── "@
    }) + e.name@ + " "@ + metadata_str(e, now) + entry_suffix(e, cfg) + "\n"@
}

/// The summary line standing in for a directory's hidden children.
pub open spec fn hidden_line_str(prefix: Seq<char>, hidden: nat) -> Seq<char> {
    prefix + "├── "@ + "... "@ + dec_str(hidden) + " items hidden ..."@ + "\n"@
}

/// The fixed text fragments of rendered lines hold no newline.
pub proof fn lemma_literals_nl_free()
    ensures
        nl_free("just now"@),
        nl_free("m ago"@),
        nl_free("h ago"@),
        nl_free("d ago"@),
        nl_free("w ago"@),
        nl_free("mo ago"@),
        nl_free("y ago"@),
        nl_free("."@),
        nl_free("B"@),
        nl_free("KB"@),
        nl_free("MB"@),
        nl_free("GB"@),
        nl_free("TB"@),
        nl_free("("@),
        nl_free(")"@),
        nl_free(" files, "@),
        nl_free(", modified "@),
        nl_free(" "@),
        nl_free(" [system]"@),
        nl_free(" [folded: system]"@),
        nl_free(" ["@),
        nl_free("]"@),
        nl_free("└── "@),
        nl_free("├── "@),
        nl_free("    "@),
        nl_free("│   "@),
        nl_free("... "@),
        nl_free(" items hidden ..."@),
        count_nl("\n"@) == 1,
{
    reveal_strlit("just now");
    reveal_strlit("m ago");
    reveal_strlit("h ago");
    reveal_strlit("d ago");
    reveal_strlit("w ago");
    reveal_strlit("mo ago");
    reveal_strlit("y ago");
    reveal_strlit(".");
    reveal_strlit("B");
    reveal_strlit("KB");
    reveal_strlit("MB");
    reveal_strlit("GB");
    reveal_strlit("TB");
    reveal_strlit("(");
    reveal_strlit(")");
    reveal_strlit(" files, ");
    reveal_strlit(", modified ");
    reveal_strlit(" ");
    reveal_strlit(" [system]");
    reveal_strlit(" [folded: system]");
    reveal_strlit(" [");
    reveal_strlit("]");
    reveal_strlit("└── ");
    reveal_strlit("├── ");
    reveal_strlit("    ");
    reveal_strlit("│   ");
    reveal_strlit("... ");
    reveal_strlit(" items hidden ...");
    reveal_strlit("\n");
    assert("\n"@.drop_last() =~= Seq::<char>::empty());
    assert(count_nl("\n"@) == 1) by {
        reveal_with_fuel(count_nl, 2);
    }
}

/// Size text consists of digits, a dot and a unit: never a newline.
pub proof fn lemma_size_str_nl_free(size: nat)
    ensures
        nl_free(size_str(size)),
{
    lemma_literals_nl_free();
    lemma_dec_str_digits(size / (TB as nat));
    lemma_dec_str_digits(size / (GB as nat));
    lemma_dec_str_digits(size / (MB as nat));
    lemma_dec_str_digits(size / (KB as nat));
    lemma_dec_str_digits(size);
    assert forall|i: int| 0 <= i < size_str(size).len() implies size_str(size)[i] != '\n' by {
        lemma_nl_free_concat_all();
    }
}

/// Concatenations of newline-free parts are newline-free; restated here as
/// an ambient helper for the formatter's texts.
pub proof fn lemma_nl_free_concat_all()
    ensures
        forall|a: Seq<char>, b: Seq<char>|
            nl_free(a) && nl_free(b) ==> nl_free(#[trigger] (a + b)),
{
    assert forall|a: Seq<char>, b: Seq<char>| nl_free(a) && nl_free(b) implies nl_free(
        #[trigger] (a + b),
    ) by {
        lemma_nl_free_concat(a, b);
    }
}

/// Relative-time text consists of digits and a unit phrase: never a
/// newline.
pub proof fn lemma_time_str_nl_free(now: nat, modified: nat)
    ensures
        nl_free(time_str(now, modified)),
{
    let diff = age_of(now, modified);
    lemma_literals_nl_free();
    lemma_nl_free_concat_all();
    lemma_dec_str_digits(diff / (MINUTE as nat));
    lemma_dec_str_digits(diff / (HOUR as nat));
    lemma_dec_str_digits(diff / (DAY as nat));
    lemma_dec_str_digits(diff / (WEEK as nat));
    lemma_dec_str_digits(diff / (MONTH as nat));
    lemma_dec_str_digits(diff / (YEAR as nat));
}

/// Metadata text never holds a newline.
pub proof fn lemma_metadata_str_nl_free(e: DirectoryEntry, now: nat)
    ensures
        nl_free(metadata_str(e, now)),
{
    lemma_literals_nl_free();
    lemma_nl_free_concat_all();
    lemma_size_str_nl_free(e.metadata.size as nat);
    lemma_time_str_nl_free(now, e.metadata.modified as nat);
    lemma_dec_str_digits(e.metadata.files_count as nat);
}

/// An entry whose name and annotation are newline-free renders as exactly
/// one line.
pub proof fn lemma_entry_line_one_nl(
    e: DirectoryEntry,
    prefix: Seq<char>,
    is_last: bool,
    cfg: DisplayConfig,
    now: nat,
)
    requires
        nl_free(prefix),
        nl_free(e.name@),
        e.filter_annotation is Some ==> nl_free(e.filter_annotation->0@),
    ensures
        count_nl(entry_line_str(e, prefix, is_last, cfg, now)) == 1,
{
    lemma_literals_nl_free();
    lemma_nl_free_concat_all();
    lemma_metadata_str_nl_free(e, now);
    let body = prefix + (if is_last {
        "└── "@
    } else {
        "├── "@
    }) + e.name@ + " "@ + metadata_str(e, now) + entry_suffix(e, cfg);
    assert(nl_free(entry_suffix(e, cfg)));
    assert(nl_free(body));
    crate::text::lemma_count_nl_zero(body);
    crate::text::lemma_count_nl_concat(body, "\n"@);
}

/// The hidden-items summary renders as exactly one line.
pub proof fn lemma_hidden_line_one_nl(prefix: Seq<char>, hidden: nat)
    requires
        nl_free(prefix),
    ensures
        count_nl(hidden_line_str(prefix, hidden)) == 1,
{
    lemma_literals_nl_free();
    lemma_nl_free_concat_all();
    lemma_dec_str_digits(hidden);
    let body = prefix + "├── "@ + "... "@ + dec_str(hidden) + " items hidden ..."@;
    assert(nl_free(body));
    crate::text::lemma_count_nl_zero(body);
    crate::text::lemma_count_nl_concat(body, "\n"@);
}

/// Renders a size in binary units.
pub fn format_size(size: u64) -> (r: String)
    ensures
        r@ == size_str(size as nat),
{
    let mut s: String;
    if size >= TB {
        s = u64_to_dec(size / TB);
        s.append(".");
        let cents = size % TB * 100 / TB;
        s.append(digit_str(cents / 10));
        s.append(digit_str(cents % 10));
        s.append("TB");
        proof {
            assert(s@ =~= size_str(size as nat));
        }
    } else if size >= GB {
        s = u64_to_dec(size / GB);
        s.append(".");
        s.append(digit_str(size % GB * 10 / GB));
        s.append("GB");
        proof {
            assert(s@ =~= size_str(size as nat));
        }
    } else if size >= MB {
        s = u64_to_dec(size / MB);
        s.append(".");
        s.append(digit_str(size % MB * 10 / MB));
        s.append("MB");
        proof {
            assert(s@ =~= size_str(size as nat));
        }
    } else if size >= KB {
        s = u64_to_dec(size / KB);
        s.append(".");
        s.append(digit_str(size % KB * 10 / KB));
        s.append("KB");
        proof {
            assert(s@ =~= size_str(size as nat));
        }
    } else {
        s = u64_to_dec(size);
        s.append("B");
        proof {
            assert(s@ =~= size_str(size as nat));
        }
    }
    s
}

/// Renders the age of `modified` relative to `now` as bucketed text.
pub fn format_time(now: u64, modified: u64) -> (r: String)
    ensures
        r@ == time_str(now as nat, modified as nat),
{
    let diff: u64 = if now >= modified {
        now - modified
    } else {
        0
    };
    let mut s: String;
    if diff < MINUTE {
        s = String::new();
        s.append("just now");
        proof {
            assert(s@ =~= time_str(now as nat, modified as nat));
        }
    } else if diff < HOUR {
        s = u64_to_dec(diff / MINUTE);
        s.append("m ago");
        proof {
            assert(s@ =~= time_str(now as nat, modified as nat));
        }
    } else if diff < DAY {
        s = u64_to_dec(diff / HOUR);
        s.append("h ago");
        proof {
            assert(s@ =~= time_str(now as nat, modified as nat));
        }
    } else if diff < WEEK {
        s = u64_to_dec(diff / DAY);
        s.append("d ago");
        proof {
            assert(s@ =~= time_str(now as nat, modified as nat));
        }
    } else if diff < MONTH {
        s = u64_to_dec(diff / WEEK);
        s.append("w ago");
        proof {
            assert(s@ =~= time_str(now as nat, modified as nat));
        }
    } else if diff < YEAR {
        s = u64_to_dec(diff / MONTH);
        s.append("mo ago");
        proof {
            assert(s@ =~= time_str(now as nat, modified as nat));
        }
    } else {
        s = u64_to_dec(diff / YEAR);
        s.append("y ago");
        proof {
            assert(s@ =~= time_str(now as nat, modified as nat));
        }
    }
    s
}

/// Renders the metadata of a directory entry.
pub fn format_directory_metadata(entry: &DirectoryEntry, now: u64) -> (r: String)
    requires
        entry.is_dir,
    ensures
        r@ == metadata_str(*entry, now as nat),
{
    let mut s = String::new();
    s.append("(");
    let files = u64_to_dec(entry.metadata.files_count as u64);
    s.append(files.as_str());
    s.append(" files, ");
    let size = format_size(entry.metadata.size);
    s.append(size.as_str());
    s.append(", modified ");
    let time = format_time(now, entry.metadata.modified);
    s.append(time.as_str());
    s.append(")");
    proof {
        assert(s@ =~= metadata_str(*entry, now as nat));
    }
    s
}

/// Renders the metadata of a file entry.
pub fn format_file_metadata(entry: &DirectoryEntry, now: u64) -> (r: String)
    requires
        !entry.is_dir,
    ensures
        r@ == metadata_str(*entry, now as nat),
{
    let mut s = String::new();
    s.append("(");
    let size = format_size(entry.metadata.size);
    s.append(size.as_str());
    s.append(", modified ");
    let time = format_time(now, entry.metadata.modified);
    s.append(time.as_str());
    s.append(")");
    proof {
        assert(s@ =~= metadata_str(*entry, now as nat));
    }
    s
}

/// Renders the metadata of any entry.
pub fn format_metadata(entry: &DirectoryEntry, now: u64) -> (r: String)
    ensures
        r@ == metadata_str(*entry, now as nat),
{
    if entry.is_dir {
        format_directory_metadata(entry, now)
    } else {
        format_file_metadata(entry, now)
    }
}

/// Renders the single output line of one entry.
pub fn format_single_entry(
    entry: &DirectoryEntry,
    prefix: &str,
    is_last: bool,
    config: &DisplayConfig,
    now: u64,
) -> (r: String)
    ensures
        r@ == entry_line_str(*entry, prefix@, is_last, *config, now as nat),
{
    let mut s = String::new();
    s.append(prefix);
    if is_last {
        s.append("└── ");
    } else {
        s.append("├── ");
    }
    s.append(entry.name.as_str());
    s.append(" ");
    let meta = format_metadata(entry, now);
    s.append(meta.as_str());
    if entry.is_gitignored && entry.is_dir {
        if config.show_system_dirs {
            s.append(" [system]");
        } else {
            s.append(" [folded: system]");
        }
    } else {
        match &entry.filter_annotation {
            Option::Some(annotation) => {
                if config.show_filtered {
                    s.append(" [");
                    s.append(annotation.as_str());
                    s.append("]");
                }
            },
            Option::None => {},
        }
    }
    s.append("\n");
    proof {
        assert(s@ =~= entry_line_str(*entry, prefix@, is_last, *config, now as nat));
    }
    s
}

/// Renders the summary line for a directory's hidden children.
pub fn format_hidden_line(prefix: &str, hidden: u64) -> (r: String)
    ensures
        r@ == hidden_line_str(prefix@, hidden as nat),
{
    let mut s = String::new();
    s.append(prefix);
    s.append("├── ");
    s.append("... ");
    let n = u64_to_dec(hidden);
    s.append(n.as_str());
    s.append(" items hidden ...");
    s.append("\n");
    proof {
        assert(s@ =~= hidden_line_str(prefix@, hidden as nat));
    }
    s
}

} // verus!
