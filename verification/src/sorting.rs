//! The sibling sorter: a stable order composed of an optional
//! directories-first partition and the configured sort key.

use vstd::prelude::*;
use crate::text::lex_le;
use crate::types::DirectoryEntry;
use crate::types::DisplayConfig;
use crate::types::SortBy;

verus! {

/// Whether `a` sorts no later than `b`: directories first when configured,
/// then names ascending, or sizes and timestamps descending.
pub open spec fn entry_le(cfg: DisplayConfig, a: DirectoryEntry, b: DirectoryEntry) -> bool {
    if cfg.dirs_first && a.is_dir && !b.is_dir {
        true
    } else if cfg.dirs_first && !a.is_dir && b.is_dir {
        false
    } else {
        match cfg.sort_by {
            SortBy::Name => lex_le(a.name@, b.name@),
            SortBy::Size => b.metadata.size <= a.metadata.size,
            SortBy::Modified => b.metadata.modified <= a.metadata.modified,
            SortBy::Created => b.metadata.created <= a.metadata.created,
        }
    }
}

/// Where a stable sort places `x` in the sorted list `s`: directly after
/// every element that sorts no later than `x`.
pub open spec fn insert_pos(cfg: DisplayConfig, s: Seq<DirectoryEntry>, x: DirectoryEntry) -> nat
    decreases s.len(),
{
    if s.len() == 0 {
        0
    } else if entry_le(cfg, s[0], x) {
        1 + insert_pos(cfg, s.skip(1), x)
    } else {
        0
    }
}

pub open spec fn stable_insert(
    cfg: DisplayConfig,
    s: Seq<DirectoryEntry>,
    x: DirectoryEntry,
) -> Seq<DirectoryEntry> {
    s.insert(insert_pos(cfg, s, x) as int, x)
}

/// The stable sort of `s` under the configured order, defined as the
/// left-to-right insertion of each element into the sorted prefix.
pub open spec fn sort_by_cfg(cfg: DisplayConfig, s: Seq<DirectoryEntry>) -> Seq<DirectoryEntry>
    decreases s.len(),
{
    if s.len() == 0 {
        s
    } else {
        stable_insert(cfg, sort_by_cfg(cfg, s.drop_last()), s.last())
    }
}

pub proof fn lemma_insert_pos_le_len(cfg: DisplayConfig, s: Seq<DirectoryEntry>, x: DirectoryEntry)
    ensures
        insert_pos(cfg, s, x) <= s.len(),
    decreases s.len(),
{
    if s.len() > 0 && entry_le(cfg, s[0], x) {
        lemma_insert_pos_le_len(cfg, s.skip(1), x);
    }
}

pub proof fn lemma_sort_len(cfg: DisplayConfig, s: Seq<DirectoryEntry>)
    ensures
        sort_by_cfg(cfg, s).len() == s.len(),
    decreases s.len(),
{
    if s.len() > 0 {
        lemma_sort_len(cfg, s.drop_last());
        lemma_insert_pos_le_len(cfg, sort_by_cfg(cfg, s.drop_last()), s.last());
    }
}

/// The insertion position is characterised by what stands on each side:
/// everything before it sorts no later than `x`, and the element at it, if
/// any, does not.
pub proof fn lemma_insert_pos_char(
    cfg: DisplayConfig,
    s: Seq<DirectoryEntry>,
    x: DirectoryEntry,
    j: nat,
)
    requires
        j <= s.len(),
        forall|i: int| 0 <= i < j ==> entry_le(cfg, #[trigger] s[i], x),
        j < s.len() ==> !entry_le(cfg, s[j as int], x),
    ensures
        insert_pos(cfg, s, x) == j,
    decreases s.len(),
{
    if s.len() > 0 {
        if j == 0 {
        } else {
            assert(entry_le(cfg, s[0], x));
            assert(forall|i: int|
                0 <= i < j - 1 ==> entry_le(cfg, #[trigger] s.skip(1)[i], x)) by {
                assert(forall|i: int| 0 <= i < j - 1 ==> s.skip(1)[i] == s[i + 1]);
            }
            assert((j - 1) < s.skip(1).len() ==> !entry_le(cfg, s.skip(1)[j - 1], x));
            lemma_insert_pos_char(cfg, s.skip(1), x, (j - 1) as nat);
        }
    }
}

/// The order is total: of any two entries, one sorts no later than the
/// other.
pub proof fn lemma_entry_le_total(cfg: DisplayConfig, a: DirectoryEntry, b: DirectoryEntry)
    ensures
        entry_le(cfg, a, b) || entry_le(cfg, b, a),
{
    if !(cfg.dirs_first && a.is_dir != b.is_dir) {
        match cfg.sort_by {
            SortBy::Name => {
                lemma_lex_le_total(a.name@, b.name@);
            },
            _ => {},
        }
    }
}

pub proof fn lemma_lex_le_total(a: Seq<char>, b: Seq<char>)
    ensures
        lex_le(a, b) || lex_le(b, a),
    decreases a.len(),
{
    if a.len() > 0 && b.len() > 0 && (a[0] as u32) == (b[0] as u32) {
        lemma_lex_le_total(a.skip(1), b.skip(1));
    }
}

/// The order is transitive.
pub proof fn lemma_entry_le_trans(
    cfg: DisplayConfig,
    a: DirectoryEntry,
    b: DirectoryEntry,
    c: DirectoryEntry,
)
    requires
        entry_le(cfg, a, b),
        entry_le(cfg, b, c),
    ensures
        entry_le(cfg, a, c),
{
    match cfg.sort_by {
        SortBy::Name => {
            if !(cfg.dirs_first && (a.is_dir != b.is_dir || b.is_dir != c.is_dir || a.is_dir
                != c.is_dir)) {
                lemma_lex_le_trans(a.name@, b.name@, c.name@);
            } else if cfg.dirs_first && a.is_dir == b.is_dir && b.is_dir == c.is_dir {
                lemma_lex_le_trans(a.name@, b.name@, c.name@);
            }
        },
        _ => {},
    }
}

pub proof fn lemma_lex_le_trans(a: Seq<char>, b: Seq<char>, c: Seq<char>)
    requires
        lex_le(a, b),
        lex_le(b, c),
    ensures
        lex_le(a, c),
    decreases a.len(),
{
    if a.len() > 0 && b.len() > 0 && c.len() > 0 && (a[0] as u32) == (b[0] as u32) && (b[0] as u32)
        == (c[0] as u32) {
        lemma_lex_le_trans(a.skip(1), b.skip(1), c.skip(1));
    }
}

/// A list is sorted when every pair of positions respects the order.
pub open spec fn sorted_by(cfg: DisplayConfig, s: Seq<DirectoryEntry>) -> bool {
    forall|i: int, j: int| 0 <= i < j < s.len() ==> entry_le(cfg, #[trigger] s[i], #[trigger] s[j])
}

pub proof fn lemma_stable_insert_sorted(
    cfg: DisplayConfig,
    s: Seq<DirectoryEntry>,
    x: DirectoryEntry,
)
    requires
        sorted_by(cfg, s),
    ensures
        sorted_by(cfg, stable_insert(cfg, s, x)),
{
    lemma_insert_pos_le_len(cfg, s, x);
    let p = insert_pos(cfg, s, x) as int;
    let t = stable_insert(cfg, s, x);
    lemma_insert_pos_before(cfg, s, x);
    lemma_insert_pos_at(cfg, s, x);
    assert forall|i: int, j: int| 0 <= i < j < t.len() implies entry_le(
        cfg,
        #[trigger] t[i],
        #[trigger] t[j],
    ) by {
        if i < p && j < p {
        } else if i < p && j == p {
            assert(t[i] == s[i]);
        } else if i < p && j > p {
            assert(t[i] == s[i] && t[j] == s[j - 1]);
        } else if i == p && j > p {
            assert(t[j] == s[j - 1]);
            assert(p <= j - 1 < s.len());
            if entry_le(cfg, s[j - 1], x) {
                if p < j - 1 {
                    assert(entry_le(cfg, s[p], s[j - 1]));
                    lemma_entry_le_trans(cfg, s[p], s[j - 1], x);
                }
                assert(entry_le(cfg, s[p], x));
                assert(false);
            }
            lemma_entry_le_total(cfg, x, s[j - 1]);
        } else {
            assert(t[i] == s[i - 1] && t[j] == s[j - 1]);
        }
    }
}

/// Everything before the insertion position sorts no later than `x`.
pub proof fn lemma_insert_pos_before(cfg: DisplayConfig, s: Seq<DirectoryEntry>, x: DirectoryEntry)
    ensures
        forall|i: int|
            0 <= i < insert_pos(cfg, s, x) ==> entry_le(cfg, #[trigger] s[i], x),
    decreases s.len(),
{
    if s.len() > 0 && entry_le(cfg, s[0], x) {
        lemma_insert_pos_before(cfg, s.skip(1), x);
        lemma_insert_pos_le_len(cfg, s.skip(1), x);
        assert forall|i: int| 0 <= i < insert_pos(cfg, s, x) implies entry_le(
            cfg,
            #[trigger] s[i],
            x,
        ) by {
            if i > 0 {
                assert(0 <= i - 1 < insert_pos(cfg, s.skip(1), x));
                assert(s.skip(1)[i - 1] == s[i]);
                assert(entry_le(cfg, s.skip(1)[i - 1], x));
            }
        }
    }
}

/// Everything at or after the insertion position does not sort before `x`
/// is placed, keeping equal elements in arrival order.
pub proof fn lemma_insert_pos_at(cfg: DisplayConfig, s: Seq<DirectoryEntry>, x: DirectoryEntry)
    requires
        sorted_by(cfg, s),
    ensures
        insert_pos(cfg, s, x) < s.len() ==> !entry_le(
            cfg,
            s[insert_pos(cfg, s, x) as int],
            x,
        ),
    decreases s.len(),
{
    if s.len() > 0 && entry_le(cfg, s[0], x) {
        assert(forall|i: int, j: int|
            0 <= i < j < s.skip(1).len() ==> s.skip(1)[i] == s[i + 1] && s.skip(1)[j] == s[j + 1]);
        assert(sorted_by(cfg, s.skip(1)));
        lemma_insert_pos_at(cfg, s.skip(1), x);
        if insert_pos(cfg, s, x) < s.len() {
            assert(s[insert_pos(cfg, s, x) as int] == s.skip(1)[insert_pos(cfg, s.skip(1), x) as int]);
        }
    }
}

/// The stable sort yields a sorted list.
pub proof fn lemma_sort_sorted(cfg: DisplayConfig, s: Seq<DirectoryEntry>)
    ensures
        sorted_by(cfg, sort_by_cfg(cfg, s)),
    decreases s.len(),
{
    if s.len() > 0 {
        lemma_sort_sorted(cfg, s.drop_last());
        lemma_stable_insert_sorted(cfg, sort_by_cfg(cfg, s.drop_last()), s.last());
    }
}

/// Every element of a stable insertion is the inserted element or one of
/// the list's own.
pub proof fn lemma_stable_insert_elements(
    cfg: DisplayConfig,
    s: Seq<DirectoryEntry>,
    x: DirectoryEntry,
)
    ensures
        forall|k: int|
            0 <= k < stable_insert(cfg, s, x).len() ==> (#[trigger] stable_insert(cfg, s, x)[k]
                == x || s.contains(stable_insert(cfg, s, x)[k])),
{
    lemma_insert_pos_le_len(cfg, s, x);
    let p = insert_pos(cfg, s, x) as int;
    let t = stable_insert(cfg, s, x);
    assert forall|k: int| 0 <= k < t.len() implies (#[trigger] t[k] == x || s.contains(t[k])) by {
        if k < p {
            assert(t[k] == s[k]);
            assert(s.contains(t[k]));
        } else if k > p {
            assert(t[k] == s[k - 1]);
            assert(s.contains(t[k]));
        }
    }
}

/// Every element of the sorted list is an element of the input.
pub proof fn lemma_sort_elements(cfg: DisplayConfig, s: Seq<DirectoryEntry>)
    ensures
        forall|k: int|
            0 <= k < sort_by_cfg(cfg, s).len() ==> s.contains(#[trigger] sort_by_cfg(cfg, s)[k]),
    decreases s.len(),
{
    if s.len() > 0 {
        lemma_sort_elements(cfg, s.drop_last());
        lemma_stable_insert_elements(cfg, sort_by_cfg(cfg, s.drop_last()), s.last());
        assert forall|k: int| 0 <= k < sort_by_cfg(cfg, s).len() implies s.contains(
            #[trigger] sort_by_cfg(cfg, s)[k],
        ) by {
            let e = sort_by_cfg(cfg, s)[k];
            if e == s.last() {
                assert(s[s.len() - 1] == e);
            } else {
                assert(s.drop_last().contains(e) || e == s.last());
                if s.drop_last().contains(e) {
                    let j = choose|j: int| 0 <= j < s.drop_last().len() && s.drop_last()[j] == e;
                    assert(s[j] == e);
                }
            }
        }
    }
}

/// Whether `a` sorts no later than `b` under `config`.
pub fn entry_le_exec(config: &DisplayConfig, a: &DirectoryEntry, b: &DirectoryEntry) -> (r: bool)
    ensures
        r == entry_le(*config, *a, *b),
{
    if config.dirs_first && a.is_dir && !b.is_dir {
        return true;
    }
    if config.dirs_first && !a.is_dir && b.is_dir {
        return false;
    }
    match config.sort_by {
        SortBy::Name => crate::text::str_lex_le(a.name.as_str(), b.name.as_str()),
        SortBy::Size => b.metadata.size <= a.metadata.size,
        SortBy::Modified => b.metadata.modified <= a.metadata.modified,
        SortBy::Created => b.metadata.created <= a.metadata.created,
    }
}

/// The sorted view of `entries` through an index permutation.
pub open spec fn mapped(s: Seq<DirectoryEntry>, ord: Seq<usize>) -> Seq<DirectoryEntry> {
    Seq::new(ord.len(), |i: int| s[ord[i] as int])
}

/// Computes the order in which `entries` are displayed, as indexes into
/// `entries`, without moving the entries themselves.
pub fn sort_order(entries: &Vec<DirectoryEntry>, config: &DisplayConfig) -> (order: Vec<usize>)
    ensures
        order@.len() == entries@.len(),
        forall|i: int| 0 <= i < order@.len() ==> #[trigger] order@[i] < entries@.len(),
        mapped(entries@, order@) == sort_by_cfg(*config, entries@),
{
    let ghost cfg = *config;
    let mut order: Vec<usize> = Vec::new();
    let mut k: usize = 0;
    proof {
        assert(entries@.take(0) =~= Seq::<DirectoryEntry>::empty());
        assert(mapped(entries@, order@) =~= sort_by_cfg(cfg, entries@.take(0)));
    }
    while k < entries.len()
        invariant
            k <= entries@.len(),
            order@.len() == k,
            forall|i: int| 0 <= i < order@.len() ==> #[trigger] order@[i] < entries@.len(),
            mapped(entries@, order@) == sort_by_cfg(cfg, entries@.take(k as int)),
            cfg == *config,
        decreases entries@.len() - k,
    {
        let ghost prefix_sorted = sort_by_cfg(cfg, entries@.take(k as int));
        let mut j: usize = 0;
        loop
            invariant
                j <= order@.len(),
                order@.len() == k,
                k < entries@.len(),
                forall|i: int| 0 <= i < order@.len() ==> #[trigger] order@[i] < entries@.len(),
                mapped(entries@, order@) == prefix_sorted,
                cfg == *config,
                forall|i: int|
                    0 <= i < j ==> entry_le(cfg, #[trigger] prefix_sorted[i], entries@[k as int]),
            ensures
                j <= order@.len(),
                forall|i: int|
                    0 <= i < j ==> entry_le(cfg, #[trigger] prefix_sorted[i], entries@[k as int]),
                j < order@.len() ==> !entry_le(
                    cfg,
                    prefix_sorted[j as int],
                    entries@[k as int],
                ),
            decreases order@.len() - j,
        {
            if j >= order.len() {
                break;
            }
            let oj = order[j];
            proof {
                assert(prefix_sorted[j as int] == entries@[order@[j as int] as int]);
            }
            if !entry_le_exec(config, &entries[oj], &entries[k]) {
                break;
            }
            j = j + 1;
        }
        proof {
            lemma_insert_pos_char(cfg, prefix_sorted, entries@[k as int], j as nat);
        }
        order.insert(j, k);
        proof {
            assert(mapped(entries@, order@) =~= stable_insert(
                cfg,
                prefix_sorted,
                entries@[k as int],
            ));
            assert(entries@.take(k + 1).drop_last() =~= entries@.take(k as int));
            assert(entries@.take(k + 1).last() == entries@[k as int]);
        }
        k = k + 1;
    }
    proof {
        assert(entries@.take(entries@.len() as int) =~= entries@);
    }
    order
}

/// Sorts a sibling list in place, stably, under the configured order.
pub fn sort_entries(entries: &mut Vec<DirectoryEntry>, config: &DisplayConfig)
    ensures
        final(entries)@ == sort_by_cfg(*config, old(entries)@),
{
    let ghost cfg = *config;
    let ghost orig = old(entries)@;
    let mut k: usize = 0;
    proof {
        assert(orig.take(0) =~= Seq::<DirectoryEntry>::empty());
        assert(orig.skip(0) =~= orig);
        assert(entries@ =~= sort_by_cfg(cfg, orig.take(0)) + orig.skip(0));
    }
    while k < entries.len()
        invariant
            k <= orig.len(),
            entries@.len() == orig.len(),
            entries@ == sort_by_cfg(cfg, orig.take(k as int)) + orig.skip(k as int),
            cfg == *config,
        decreases orig.len() - k,
    {
        let ghost prefix_sorted = sort_by_cfg(cfg, orig.take(k as int));
        proof {
            lemma_sort_len(cfg, orig.take(k as int));
            assert(entries@[k as int] == orig.skip(k as int)[0]);
            assert(orig.skip(k as int)[0] == orig[k as int]);
        }
        let x = entries.remove(k);
        proof {
            assert(x == orig[k as int]);
            assert(forall|i: int|
                0 <= i < k ==> #[trigger] entries@[i] == prefix_sorted[i]);
        }
        let mut j: usize = 0;
        loop
            invariant
                j <= k,
                k <= entries@.len(),
                forall|i: int| 0 <= i < k ==> #[trigger] entries@[i] == prefix_sorted[i],
                cfg == *config,
                x == orig[k as int],
                prefix_sorted.len() == k,
                forall|i: int|
                    0 <= i < j ==> entry_le(cfg, #[trigger] prefix_sorted[i], orig[k as int]),
            ensures
                j <= k,
                forall|i: int|
                    0 <= i < j ==> entry_le(cfg, #[trigger] prefix_sorted[i], orig[k as int]),
                j < k ==> !entry_le(cfg, prefix_sorted[j as int], orig[k as int]),
            decreases k - j,
        {
            if j >= k {
                break;
            }
            if !entry_le_exec(config, &entries[j], &x) {
                break;
            }
            j = j + 1;
        }
        proof {
            lemma_insert_pos_char(cfg, prefix_sorted, orig[k as int], j as nat);
        }
        entries.insert(j, x);
        proof {
            assert(orig.take(k + 1).drop_last() =~= orig.take(k as int));
            assert(orig.take(k + 1).last() == orig[k as int]);
            assert(entries@ =~= sort_by_cfg(cfg, orig.take(k + 1)) + orig.skip(k + 1));
        }
        k = k + 1;
    }
    proof {
        assert(orig.take(orig.len() as int) =~= orig);
        assert(orig.skip(orig.len() as int) =~= Seq::<DirectoryEntry>::empty());
        assert(entries@ =~= sort_by_cfg(cfg, orig));
    }
}

} // verus!
