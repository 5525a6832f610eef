//! The budget planner and section selector: how many lines a directory's
//! children may consume, and how the (budget-capped) children split into a
//! shown head, a hidden middle, and a shown tail.

use vstd::prelude::*;

verus! {

/// How a directory's children split for one visit: the first `head_count`
/// and the last `tail_count` children are shown, the `hidden_count` in
/// between are replaced by one summary line.
pub struct DisplaySection {
    pub head_count: usize,
    pub tail_count: usize,
    pub hidden_count: usize,
}

pub open spec fn spec_min(a: nat, b: nat) -> nat {
    if a <= b {
        a
    } else {
        b
    }
}

pub open spec fn pow3(d: nat) -> nat
    decreases d,
{
    if d == 0 {
        1
    } else {
        3 * pow3((d - 1) as nat)
    }
}

/// Lines reserved for the directory's own structure: its header line and a
/// possible hidden-items summary, with extra slack per nesting level so
/// that deep branches do not starve their ancestors.
pub open spec fn structure_overhead(depth: nat) -> nat {
    2 + 2 * depth
}

pub open spec fn budget_available(depth: nat, lines: nat) -> nat {
    if lines > structure_overhead(depth) {
        (lines - structure_overhead(depth)) as nat
    } else {
        0
    }
}

/// The per-directory budget: how many of `total` children may be shown at
/// `depth` when `lines` output lines remain globally. Nested levels decay
/// geometrically so one deep chain cannot consume the whole budget, and a
/// floor of one guarantees forward progress whenever any budget remains.
pub open spec fn level_budget(total: nat, depth: nat, lines: nat) -> nat {
    if lines == 0 || total == 0 {
        0
    } else {
        let available = budget_available(depth, lines);
        if available == 0 {
            0
        } else {
            let base = if depth == 0 {
                spec_min(available, total)
            } else {
                spec_min(available / pow3(depth), total)
            };
            if base >= 1 {
                base
            } else {
                1
            }
        }
    }
}

/// The selector's internals, before the single-hidden-item correction.
pub open spec fn sec_available(budget: nat) -> nat {
    if budget >= 1 {
        (budget - 1) as nat
    } else {
        0
    }
}

pub open spec fn sec_min_tail(budget: nat) -> nat {
    if sec_available(budget) > 2 {
        1
    } else {
        0
    }
}

pub open spec fn sec_remaining(budget: nat) -> nat {
    if sec_available(budget) >= 1 + sec_min_tail(budget) {
        (sec_available(budget) - 1 - sec_min_tail(budget)) as nat
    } else {
        0
    }
}

pub open spec fn sec_head_pre(budget: nat) -> nat {
    1 + sec_remaining(budget) / 2
}

pub open spec fn sec_tail_pre(budget: nat) -> nat {
    sec_min_tail(budget) + (sec_remaining(budget) - sec_remaining(budget) / 2) as nat
}

pub open spec fn sec_hidden_pre(total: nat, budget: nat) -> nat {
    if total >= sec_head_pre(budget) + sec_tail_pre(budget) {
        (total - sec_head_pre(budget) - sec_tail_pre(budget)) as nat
    } else {
        0
    }
}

/// Head count after the correction: a one-item summary costs the same line
/// as the item itself, so a lone hidden item is shown directly instead.
pub open spec fn sec_head(total: nat, budget: nat) -> nat {
    if total <= budget {
        total
    } else if sec_hidden_pre(total, budget) == 1 {
        sec_head_pre(budget) + 1
    } else {
        sec_head_pre(budget)
    }
}

pub open spec fn sec_tail(total: nat, budget: nat) -> nat {
    if total <= budget {
        0
    } else {
        sec_tail_pre(budget)
    }
}

pub open spec fn sec_hidden(total: nat, budget: nat) -> nat {
    if total <= budget {
        0
    } else if sec_hidden_pre(total, budget) == 1 {
        0
    } else {
        sec_hidden_pre(total, budget)
    }
}

/// The three counts always partition the directory's children.
pub proof fn lemma_section_partition(total: nat, budget: nat)
    ensures
        sec_head(total, budget) + sec_tail(total, budget) + sec_hidden(total, budget) == total,
{
    if total > budget {
        assert(sec_head_pre(budget) + sec_tail_pre(budget) <= if budget >= 1 {
            budget
        } else {
            1nat
        });
    }
}

/// No child of a directory that fits its budget is hidden.
pub proof fn lemma_no_hidden_when_fits(total: nat, budget: nat)
    ensures
        total <= budget ==> sec_hidden(total, budget) == 0,
{
}

/// The hidden count is never exactly one: a lone hidden item is shown
/// directly, since its summary line would cost just as much.
pub proof fn lemma_hidden_never_one(total: nat, budget: nat)
    ensures
        sec_hidden(total, budget) != 1,
{
}

/// The number of children a section shows.
pub open spec fn sec_shown(total: nat, budget: nat) -> nat {
    sec_head(total, budget) + sec_tail(total, budget)
}

/// A larger budget never shows fewer children of one directory.
pub proof fn lemma_sec_shown_monotonic(total: nat, b1: nat, b2: nat)
    requires
        b1 <= b2,
    ensures
        sec_shown(total, b1) <= sec_shown(total, b2),
{
    lemma_section_partition(total, b1);
    lemma_section_partition(total, b2);
    if total > b1 && total > b2 {
        assert(sec_available(b1) <= sec_available(b2));
        assert(sec_remaining(b1) <= sec_remaining(b2));
    }
}

/// More remaining lines never shrink a directory's budget.
pub proof fn lemma_budget_monotonic(total: nat, depth: nat, l1: nat, l2: nat)
    requires
        l1 <= l2,
    ensures
        level_budget(total, depth, l1) <= level_budget(total, depth, l2),
{
    assert(budget_available(depth, l1) <= budget_available(depth, l2));
    if depth > 0 {
        lemma_pow3_pos(depth);
        vstd::arithmetic::div_mod::lemma_div_is_ordered(
            budget_available(depth, l1) as int,
            budget_available(depth, l2) as int,
            pow3(depth) as int,
        );
    }
}

/// More remaining lines never shrink the number of children one
/// directory visit shows, the per-directory cap included.
pub proof fn lemma_visit_shown_monotonic(
    total: nat,
    depth: nat,
    dir_limit: nat,
    l1: nat,
    l2: nat,
)
    requires
        l1 <= l2,
    ensures
        sec_shown(total, spec_min(level_budget(total, depth, l1), dir_limit)) <= sec_shown(
            total,
            spec_min(level_budget(total, depth, l2), dir_limit),
        ),
{
    lemma_budget_monotonic(total, depth, l1, l2);
    lemma_sec_shown_monotonic(
        total,
        spec_min(level_budget(total, depth, l1), dir_limit),
        spec_min(level_budget(total, depth, l2), dir_limit),
    );
}

pub proof fn lemma_pow3_pos(d: nat)
    ensures
        pow3(d) >= 1,
    decreases d,
{
    if d > 0 {
        lemma_pow3_pos((d - 1) as nat);
    }
}

} // verus!
