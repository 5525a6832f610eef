//! The tree renderer: a depth-first walk that owns the single global
//! lines-remaining counter, plans each directory visit with the budget
//! planner and section selector, and emits one line per shown entry.

use vstd::prelude::*;
use crate::budget::DisplaySection;
use crate::budget::level_budget;
use crate::budget::pow3;
use crate::budget::lemma_pow3_pos;
use crate::budget::sec_head;
use crate::budget::sec_tail;
use crate::budget::sec_hidden;
use crate::budget::sec_head_pre;
use crate::budget::sec_tail_pre;
use crate::budget::sec_hidden_pre;
use crate::budget::sec_available;
use crate::budget::sec_min_tail;
use crate::budget::sec_remaining;
use crate::budget::lemma_section_partition;
use crate::budget::spec_min;
use crate::format::entry_line_str;
use crate::format::lemma_entry_line_one_nl;
use crate::format::lemma_hidden_line_one_nl;
use crate::text::nl_free;
use crate::text::count_nl;
use crate::text::lemma_count_nl_concat;
use crate::text::lemma_count_nl_zero;
use crate::text::lemma_nl_free_concat;
use crate::format::hidden_line_str;
use crate::format::format_single_entry;
use crate::format::format_hidden_line;
use crate::sorting::sort_by_cfg;
use crate::sorting::entry_le;
use crate::sorting::sort_order;
use crate::sorting::mapped;
use crate::types::DirectoryEntry;
use crate::types::DisplayConfig;

verus! {

/// What a shown entry contributes to its children's prefix: blank space
/// under a corner connector, a vertical bar under a branch connector.
pub open spec fn cont_token(is_last: bool) -> Seq<char> {
    if is_last {
        "    "@
    } else {
        "│   "@
    }
}

/// Whether the renderer stays out of a shown directory's children: folded
/// gitignored directories and hidden filtered entries are not entered.
pub open spec fn skip_children(e: DirectoryEntry, cfg: DisplayConfig) -> bool {
    (e.is_gitignored && !cfg.show_system_dirs) || (e.filtered_by is Some && !cfg.show_filtered)
}

/// One planned emission of a directory visit: a shown entry with its
/// positional context, or the summary line for the hidden middle.
pub enum PlanItem {
    Shown { entry: DirectoryEntry, is_last: bool },
    HiddenMark { hidden: nat },
}

/// The display plan of one directory visit over its sorted children: the
/// head section, the summary line when more than one child is hidden, and
/// the tail section.
pub open spec fn plan_of(sorted: Seq<DirectoryEntry>, head: nat, tail: nat, hidden: nat) -> Seq<
    PlanItem,
> {
    Seq::new(
        head,
        |i: int|
            PlanItem::Shown {
                entry: sorted[i],
                is_last: tail == 0 && i + 1 == head && hidden == 0,
            },
    ) + (if hidden > 1 {
        seq![PlanItem::HiddenMark { hidden }]
    } else {
        Seq::<PlanItem>::empty()
    }) + Seq::new(
        tail,
        |i: int|
            PlanItem::Shown {
                entry: sorted[sorted.len() - tail + i],
                is_last: i + 1 == tail,
            },
    )
}

/// Renders a display plan: the emitted text and the lines left over. Every
/// emission decrements the shared counter, and every step re-checks it, so
/// the walk is bounded by the lines it may still emit.
pub open spec fn render_plan(
    plan: Seq<PlanItem>,
    prefix: Seq<char>,
    depth: nat,
    lines: nat,
    cfg: DisplayConfig,
    now: nat,
) -> (Seq<char>, nat)
    decreases lines, 1int, plan.len(),
{
    if plan.len() == 0 || lines == 0 {
        (Seq::<char>::empty(), lines)
    } else {
        match plan[0] {
            PlanItem::HiddenMark { hidden } => {
                let rest = render_plan(plan.skip(1), prefix, depth, (lines - 1) as nat, cfg, now);
                (hidden_line_str(prefix, hidden) + rest.0, rest.1)
            },
            PlanItem::Shown { entry, is_last } => {
                let line = entry_line_str(entry, prefix, is_last, cfg, now);
                let after = (lines - 1) as nat;
                let child = if entry.is_dir && after > 0 && !skip_children(entry, cfg) {
                    show_spec(entry.children@, prefix + cont_token(is_last), depth + 1, after, cfg, now)
                } else {
                    (Seq::<char>::empty(), after)
                };
                // a visit never returns more lines than it was given; the
                // bound is restated here so the measure visibly shrinks
                let rest = render_plan(plan.skip(1), prefix, depth, spec_min(child.1, after), cfg, now);
                (line + child.0 + rest.0, rest.1)
            },
        }
    }
}

/// Renders one sibling group: sorts it, plans the visit against the
/// per-directory budget capped by `dir_limit`, and renders the plan.
pub open spec fn show_spec(
    items: Seq<DirectoryEntry>,
    prefix: Seq<char>,
    depth: nat,
    lines: nat,
    cfg: DisplayConfig,
    now: nat,
) -> (Seq<char>, nat)
    decreases lines, 2int, 0int,
{
    if items.len() == 0 || lines == 0 {
        (Seq::<char>::empty(), lines)
    } else {
        let sorted = sort_by_cfg(cfg, items);
        let budget = level_budget(items.len(), depth, lines);
        let capped = spec_min(budget, cfg.dir_limit as nat);
        let plan = plan_of(
            sorted,
            sec_head(items.len(), capped),
            sec_tail(items.len(), capped),
            sec_hidden(items.len(), capped),
        );
        render_plan(plan, prefix, depth, lines, cfg, now)
    }
}

/// The whole rendering: the root marker line, then the root's children
/// against a budget of one line fewer. A zero budget renders nothing.
pub open spec fn render_str(root: DirectoryEntry, cfg: DisplayConfig, now: nat) -> Seq<char> {
    if cfg.max_lines == 0 {
        Seq::<char>::empty()
    } else {
        ".\n"@ + show_spec(
            root.children@,
            Seq::<char>::empty(),
            0,
            (cfg.max_lines - 1) as nat,
            cfg,
            now,
        ).0
    }
}

/// The mutable state of one render call: the shared lines-remaining
/// counter, the accumulated output, and the current nesting depth.
pub struct DisplayState {
    pub lines_remaining: usize,
    pub output: String,
    pub depth: usize,
    pub config: DisplayConfig,
    /// The fixed reference time, in seconds since the Unix epoch, against
    /// which relative times are rendered.
    pub now: u64,
}

impl DisplayState {
    /// A fresh state for one render of at most `max_lines` lines.
    pub fn new(max_lines: usize, config: &DisplayConfig, now: u64) -> (s: Self)
        ensures
            s.lines_remaining == max_lines,
            s.output@ == Seq::<char>::empty(),
            s.depth == 0,
            s.config == *config,
            s.now == now,
    {
        DisplayState {
            lines_remaining: max_lines,
            output: String::new(),
            depth: 0,
            config: *config,
            now,
        }
    }

    /// The per-directory budget for `total_items` children at the current
    /// depth and remaining lines.
    pub fn calculate_level_budget(&self, total_items: usize) -> (b: usize)
        ensures
            b as nat == level_budget(
                total_items as nat,
                self.depth as nat,
                self.lines_remaining as nat,
            ),
    {
        let lr = self.lines_remaining;
        let d = self.depth;
        if lr == 0 || total_items == 0 {
            return 0;
        }
        let available: usize = if lr <= 2 {
            0
        } else {
            let room = lr - 2;
            if d <= (room - 1) / 2 {
                proof {
                    assert(2 * d <= 2 * ((room - 1) / 2));
                    assert(2 * ((room - 1) / 2) <= room - 1) by {
                        assert((room - 1) / 2 * 2 <= room - 1);
                    }
                }
                room - 2 * d
            } else {
                proof {
                    assert(2 * d > room - 1) by {
                        if 2 * d <= room - 1 {
                            assert(d <= (room - 1) / 2);
                        }
                    }
                }
                0
            }
        };
        proof {
            assert(available as nat == crate::budget::budget_available(d as nat, lr as nat));
        }
        if available == 0 {
            return 0;
        }
        let mut b = available;
        let mut k: usize = 0;
        proof {
            vstd::arithmetic::div_mod::lemma_div_basics(available as int);
            assert(pow3(0) == 1);
            assert(b as nat == crate::budget::budget_available(d as nat, lr as nat) / pow3(0));
        }
        while k < d
            invariant
                k <= d,
                b as nat == crate::budget::budget_available(d as nat, lr as nat) / pow3(k as nat),
            decreases d - k,
        {
            proof {
                lemma_pow3_pos(k as nat);
                vstd::arithmetic::div_mod::lemma_div_denominator(
                    crate::budget::budget_available(d as nat, lr as nat) as int,
                    pow3(k as nat) as int,
                    3,
                );
                assert(pow3((k + 1) as nat) == pow3(k as nat) * 3);
            }
            b = b / 3;
            k = k + 1;
        }
        proof {
            if d == 0 {
                vstd::arithmetic::div_mod::lemma_div_basics(available as int);
                assert(pow3(0) == 1);
                assert(b as nat == crate::budget::budget_available(d as nat, lr as nat));
            }
        }
        let base = if b < total_items {
            b
        } else {
            total_items
        };
        if base >= 1 {
            base
        } else {
            1
        }
    }

    /// Splits `total` children into head, hidden and tail counts under the
    /// given (already capped) budget.
    pub fn calculate_display_section(&self, total: usize, budget: usize) -> (s: DisplaySection)
        ensures
            s.head_count as nat == sec_head(total as nat, budget as nat),
            s.tail_count as nat == sec_tail(total as nat, budget as nat),
            s.hidden_count as nat == sec_hidden(total as nat, budget as nat),
            s.head_count + s.tail_count + s.hidden_count == total,
            s.hidden_count != 1,
            total <= budget ==> s.hidden_count == 0,
    {
        proof {
            lemma_section_partition(total as nat, budget as nat);
        }
        if total <= budget {
            return DisplaySection { head_count: total, tail_count: 0, hidden_count: 0 };
        }
        let available: usize = if budget >= 1 {
            budget - 1
        } else {
            0
        };
        let min_tail: usize = if available > 2 {
            1
        } else {
            0
        };
        let remaining: usize = if available >= 1 + min_tail {
            available - 1 - min_tail
        } else {
            0
        };
        let additional_head = remaining / 2;
        let additional_tail = remaining - additional_head;
        let mut head = 1 + additional_head;
        let tail = min_tail + additional_tail;
        proof {
            assert(head as nat == sec_head_pre(budget as nat));
            assert(tail as nat == sec_tail_pre(budget as nat));
            assert(head + tail <= if available >= 2 {
                available
            } else {
                2
            });
        }
        let shown = head + tail;
        let mut hidden: usize = if total > shown {
            total - shown
        } else {
            0
        };
        proof {
            assert(hidden as nat == sec_hidden_pre(total as nat, budget as nat));
        }
        if hidden == 1 {
            head = head + 1;
            hidden = 0;
        }
        DisplaySection { head_count: head, tail_count: tail, hidden_count: hidden }
    }

    /// Renders the single output line of `entry` at the current position.
    pub fn format_entry(&self, entry: &DirectoryEntry, prefix: &str, is_last: bool) -> (r: String)
        ensures
            r@ == entry_line_str(*entry, prefix@, is_last, self.config, self.now as nat),
    {
        format_single_entry(entry, prefix, is_last, &self.config, self.now)
    }

    /// Emits one shown entry: its line, then its children when it is a
    /// directory that is entered, against the shared budget.
    pub fn show_one(&mut self, entry: &DirectoryEntry, prefix: &str, is_last: bool)
        requires
            old(self).lines_remaining > 0,
            old(self).depth as int + old(self).lines_remaining as int <= usize::MAX as int + 1,
        ensures
            final(self).config == old(self).config,
            final(self).now == old(self).now,
            final(self).depth == old(self).depth,
            final(self).output@ == old(self).output@ + shown_step(
                *entry,
                prefix@,
                old(self).depth as nat,
                old(self).lines_remaining as nat,
                is_last,
                old(self).config,
                old(self).now as nat,
            ).0,
            final(self).lines_remaining as nat == shown_step(
                *entry,
                prefix@,
                old(self).depth as nat,
                old(self).lines_remaining as nat,
                is_last,
                old(self).config,
                old(self).now as nat,
            ).1,
        decreases old(self).lines_remaining, 0int,
    {
        let ghost pre = *old(self);
        let ghost step = shown_step(
            *entry,
            prefix@,
            pre.depth as nat,
            pre.lines_remaining as nat,
            is_last,
            pre.config,
            pre.now as nat,
        );
        let line = self.format_entry(entry, prefix, is_last);
        self.output.append(line.as_str());
        self.lines_remaining = self.lines_remaining - 1;
        let should_skip = (entry.is_gitignored && !self.config.show_system_dirs) || (
        entry.filtered_by.is_some() && !self.config.show_filtered);
        if entry.is_dir && self.lines_remaining > 0 && !should_skip {
            let mut new_prefix = String::new();
            new_prefix.append(prefix);
            if is_last {
                new_prefix.append("    ");
            } else {
                new_prefix.append("│   ");
            }
            proof {
                assert(new_prefix@ == prefix@ + cont_token(is_last));
            }
            self.show_items(&entry.children, new_prefix.as_str());
            proof {
                assert(self.output@ =~= pre.output@ + step.0);
            }
        } else {
            proof {
                assert(step.0 =~= line@);
                assert(self.output@ =~= pre.output@ + step.0);
            }
        }
    }

    /// Renders one sibling group under `prefix`, consuming the shared
    /// budget: sorts the group, plans the visit, emits head, summary and
    /// tail, and recurses into shown directories.
    pub fn show_items(&mut self, items: &Vec<DirectoryEntry>, prefix: &str)
        requires
            old(self).depth + old(self).lines_remaining <= usize::MAX,
        ensures
            final(self).config == old(self).config,
            final(self).now == old(self).now,
            final(self).depth == old(self).depth,
            final(self).output@ == old(self).output@ + show_spec(
                items@,
                prefix@,
                old(self).depth as nat,
                old(self).lines_remaining as nat,
                old(self).config,
                old(self).now as nat,
            ).0,
            final(self).lines_remaining as nat == show_spec(
                items@,
                prefix@,
                old(self).depth as nat,
                old(self).lines_remaining as nat,
                old(self).config,
                old(self).now as nat,
            ).1,
        decreases old(self).lines_remaining, 1int,
    {
        let ghost pre = *old(self);
        let ghost d0 = pre.depth as nat;
        let ghost l0 = pre.lines_remaining as nat;
        let ghost cfg = pre.config;
        let ghost nowg = pre.now as nat;
        let ghost full = show_spec(items@, prefix@, d0, l0, cfg, nowg);

        if items.len() == 0 || self.lines_remaining == 0 {
            proof {
                assert(full.0 =~= Seq::<char>::empty());
                assert(self.output@ =~= pre.output@ + full.0);
            }
            return ;
        }
        let total = items.len();
        let budget = self.calculate_level_budget(total);
        let capped = if budget < self.config.dir_limit {
            budget
        } else {
            self.config.dir_limit
        };
        let section = self.calculate_display_section(total, capped);
        let order = sort_order(items, &self.config);
        let ghost sorted = sort_by_cfg(cfg, items@);
        let ghost headn = sec_head(total as nat, capped as nat);
        let ghost tailn = sec_tail(total as nat, capped as nat);
        let ghost hiddenn = sec_hidden(total as nat, capped as nat);
        let ghost plan = plan_of(sorted, headn, tailn, hiddenn);
        let ghost markn: int = if hiddenn > 1 { 1int } else { 0int };
        proof {
            crate::sorting::lemma_sort_len(cfg, items@);
            lemma_plan_indexing(sorted, headn, tailn, hiddenn);
            assert(capped as nat == spec_min(
                level_budget(total as nat, d0, l0),
                cfg.dir_limit as nat,
            ));
            assert(full == render_plan(plan, prefix@, d0, l0, cfg, nowg));
        }
        self.depth = self.depth + 1;
        let ghost mut emitted: Seq<char> = Seq::<char>::empty();
        let ghost mut pos: int = 0;

        // head section
        let mut i: usize = 0;
        proof {
            assert(plan.skip(0) =~= plan);
            assert(self.output@ =~= pre.output@ + emitted);
            assert(full.0 =~= emitted + render_plan(
                plan.skip(0),
                prefix@,
                d0,
                self.lines_remaining as nat,
                cfg,
                nowg,
            ).0);
        }
        while i < section.head_count && self.lines_remaining > 0
            invariant
                pre == *old(self),
                d0 == pre.depth as nat,
                nowg == pre.now as nat,
                cfg == pre.config,
                i <= section.head_count,
                pos == i as int,
                section.head_count as nat == headn,
                section.tail_count as nat == tailn,
                section.hidden_count as nat == hiddenn,
                headn + tailn + hiddenn == total as nat,
                total == items@.len(),
                order@.len() == items@.len(),
                forall|q: int| 0 <= q < order@.len() ==> #[trigger] order@[q] < items@.len(),
                mapped(items@, order@) == sorted,
                sorted == sort_by_cfg(cfg, items@),
                sorted.len() == total as nat,
                plan == plan_of(sorted, headn, tailn, hiddenn),
                plan.len() == headn + markn + tailn,
                markn == (if hiddenn > 1 { 1int } else { 0int }),
                forall|q: int|
                    0 <= q < headn ==> #[trigger] plan[q] == (PlanItem::Shown {
                        entry: sorted[q],
                        is_last: tailn == 0 && q + 1 == headn && hiddenn == 0,
                    }),
                self.depth == pre.depth + 1,
                self.config == cfg,
                self.now == pre.now,
                self.lines_remaining <= pre.lines_remaining,
                pre.depth + pre.lines_remaining <= usize::MAX,
                self.output@ == pre.output@ + emitted,
                full.0 == emitted + render_plan(
                    plan.skip(pos),
                    prefix@,
                    d0,
                    self.lines_remaining as nat,
                    cfg,
                    nowg,
                ).0,
                full.1 == render_plan(
                    plan.skip(pos),
                    prefix@,
                    d0,
                    self.lines_remaining as nat,
                    cfg,
                    nowg,
                ).1,
            decreases section.head_count - i,
        {
            let ghost cur0 = self.lines_remaining as nat;
            let idx = order[i];
            let entry = &items[idx];
            let is_last = section.tail_count == 0 && i + 1 == section.head_count
                && section.hidden_count == 0;
            proof {
                assert(plan.skip(pos)[0] == plan[pos]);
                assert(mapped(items@, order@)[i as int] == items@[order@[i as int] as int]);
                assert(*entry == sorted[i as int]);
                lemma_render_plan_unfold_shown(
                    plan.skip(pos),
                    prefix@,
                    d0,
                    cur0,
                    cfg,
                    nowg,
                );
            }
            let ghost step = shown_step(
                *entry,
                prefix@,
                self.depth as nat,
                self.lines_remaining as nat,
                is_last,
                self.config,
                self.now as nat,
            );
            proof {
                assert(step == shown_step(*entry, prefix@, d0 + 1, cur0, is_last, cfg, nowg));
                if entry.is_dir && cur0 - 1 > 0 && !skip_children(*entry, cfg) {
                    lemma_show_le(
                        entry.children@,
                        prefix@ + cont_token(is_last),
                        d0 + 1,
                        (cur0 - 1) as nat,
                        cfg,
                        nowg,
                    );
                }
                assert(step.1 <= cur0 - 1);
            }
            self.show_one(entry, prefix, is_last);
            proof {
                assert(plan.skip(pos).skip(1) =~= plan.skip(pos + 1));
                assert(self.lines_remaining as nat == step.1);
                assert(self.output@ == pre.output@ + emitted + step.0);
                assert(render_plan(plan.skip(pos), prefix@, d0, cur0, cfg, nowg).0 == step.0
                    + render_plan(plan.skip(pos + 1), prefix@, d0, step.1, cfg, nowg).0);
                emitted = emitted + step.0;
                pos = pos + 1;
                assert(self.output@ =~= pre.output@ + emitted);
                assert(full.0 =~= emitted + render_plan(
                    plan.skip(pos),
                    prefix@,
                    d0,
                    self.lines_remaining as nat,
                    cfg,
                    nowg,
                ).0);
            }
            i = i + 1;
        }
        // summary line for the hidden middle
        if section.hidden_count > 1 && self.lines_remaining > 0 {
            let ghost cur0 = self.lines_remaining as nat;
            proof {
                assert(i as nat == headn);
                assert(plan[pos] == (PlanItem::HiddenMark { hidden: hiddenn }));
                assert(plan.skip(pos)[0] == plan[pos]);
            }
            let hline = format_hidden_line(prefix, section.hidden_count as u64);
            self.output.append(hline.as_str());
            self.lines_remaining = self.lines_remaining - 1;
            proof {
                assert(plan.skip(pos).skip(1) =~= plan.skip(pos + 1));
                assert(render_plan(plan.skip(pos), prefix@, d0, cur0, cfg, nowg).0
                    =~= hline@ + render_plan(
                    plan.skip(pos + 1),
                    prefix@,
                    d0,
                    (cur0 - 1) as nat,
                    cfg,
                    nowg,
                ).0);
                emitted = emitted + hline@;
                pos = pos + 1;
                assert(self.output@ =~= pre.output@ + emitted);
                assert(full.0 =~= emitted + render_plan(
                    plan.skip(pos),
                    prefix@,
                    d0,
                    self.lines_remaining as nat,
                    cfg,
                    nowg,
                ).0);
            }
        }
        // tail section
        if section.tail_count > 0 && self.lines_remaining > 0 {
            let ghost tail_base = pos;
            let tail_start = total - section.tail_count;
            let mut j: usize = 0;
            while j < section.tail_count && self.lines_remaining > 0
                invariant
                    pre == *old(self),
                    d0 == pre.depth as nat,
                    nowg == pre.now as nat,
                    cfg == pre.config,
                    j <= section.tail_count,
                    pos == tail_base + j as int,
                    tail_base == headn + markn,
                    tail_start + section.tail_count == total,
                    section.tail_count as nat == tailn,
                    headn + tailn + hiddenn == total as nat,
                    total == items@.len(),
                    order@.len() == items@.len(),
                    forall|q: int| 0 <= q < order@.len() ==> #[trigger] order@[q] < items@.len(),
                    mapped(items@, order@) == sorted,
                    sorted == sort_by_cfg(cfg, items@),
                    sorted.len() == total as nat,
                    plan == plan_of(sorted, headn, tailn, hiddenn),
                    plan.len() == headn + markn + tailn,
                    markn == (if hiddenn > 1 { 1int } else { 0int }),
                    forall|q: int|
                        headn + markn <= q < plan.len() ==> #[trigger] plan[q]
                            == (PlanItem::Shown {
                            entry: sorted[sorted.len() - tailn + (q - headn - markn)],
                            is_last: q - headn - markn + 1 == tailn,
                        }),
                    self.depth == pre.depth + 1,
                    self.config == cfg,
                    self.now == pre.now,
                    self.lines_remaining <= pre.lines_remaining,
                    pre.depth + pre.lines_remaining <= usize::MAX,
                    self.output@ == pre.output@ + emitted,
                    full.0 == emitted + render_plan(
                        plan.skip(pos),
                        prefix@,
                        d0,
                        self.lines_remaining as nat,
                        cfg,
                        nowg,
                    ).0,
                    full.1 == render_plan(
                        plan.skip(pos),
                        prefix@,
                        d0,
                        self.lines_remaining as nat,
                        cfg,
                        nowg,
                    ).1,
                decreases section.tail_count - j,
            {
                let ghost cur0 = self.lines_remaining as nat;
                let idx = order[tail_start + j];
                let entry = &items[idx];
                let is_last = j + 1 == section.tail_count;
                proof {
                    assert(plan[pos] == (PlanItem::Shown {
                        entry: sorted[sorted.len() - tailn + (pos - headn - markn)],
                        is_last: pos - headn - markn + 1 == tailn,
                    }));
                    assert(pos - headn - markn == j as int);
                    assert(plan.skip(pos)[0] == plan[pos]);
                    assert(mapped(items@, order@)[tail_start + j as int] == items@[order@[
                        tail_start + j as int] as int]);
                    assert(*entry == sorted[sorted.len() - tailn + j as int]);
                    lemma_render_plan_unfold_shown(
                        plan.skip(pos),
                        prefix@,
                        d0,
                        cur0,
                        cfg,
                        nowg,
                    );
                }
                let ghost step = shown_step(
                    *entry,
                    prefix@,
                    self.depth as nat,
                    self.lines_remaining as nat,
                    is_last,
                    self.config,
                    self.now as nat,
                );
                proof {
                    assert(step == shown_step(*entry, prefix@, d0 + 1, cur0, is_last, cfg, nowg));
                    if entry.is_dir && cur0 - 1 > 0 && !skip_children(*entry, cfg) {
                        lemma_show_le(
                            entry.children@,
                            prefix@ + cont_token(is_last),
                            d0 + 1,
                            (cur0 - 1) as nat,
                            cfg,
                            nowg,
                        );
                    }
                    assert(step.1 <= cur0 - 1);
                }
                self.show_one(entry, prefix, is_last);
                proof {
                    assert(plan.skip(pos).skip(1) =~= plan.skip(pos + 1));
                    assert(self.lines_remaining as nat == step.1);
                    assert(self.output@ == pre.output@ + emitted + step.0);
                    assert(render_plan(plan.skip(pos), prefix@, d0, cur0, cfg, nowg).0 == step.0
                        + render_plan(plan.skip(pos + 1), prefix@, d0, step.1, cfg, nowg).0);
                    emitted = emitted + step.0;
                    pos = pos + 1;
                    assert(self.output@ =~= pre.output@ + emitted);
                    assert(full.0 =~= emitted + render_plan(
                        plan.skip(pos),
                        prefix@,
                        d0,
                        self.lines_remaining as nat,
                        cfg,
                        nowg,
                    ).0);
                }
                j = j + 1;
            }
        }
        self.depth = self.depth - 1;
        proof {
            if self.lines_remaining > 0 {
                assert(pos == plan.len());
                assert(plan.skip(pos) =~= Seq::<PlanItem>::empty());
            }
            assert(render_plan(plan.skip(pos), prefix@, d0, self.lines_remaining as nat, cfg, nowg)
                == (Seq::<char>::empty(), self.lines_remaining as nat));
            assert(full.0 =~= emitted);
            assert(self.output@ =~= pre.output@ + full.0);
        }
    }
}

/// What one shown entry contributes: its line and its children's
/// rendering, with the lines that remain afterwards. The child visit runs
/// at `child_depth` one level below the entry's own.
pub open spec fn shown_step(
    e: DirectoryEntry,
    prefix: Seq<char>,
    child_depth: nat,
    lines: nat,
    is_last: bool,
    cfg: DisplayConfig,
    now: nat,
) -> (Seq<char>, nat)
    recommends
        lines > 0,
{
    let line = entry_line_str(e, prefix, is_last, cfg, now);
    let after = (lines - 1) as nat;
    let child = if e.is_dir && after > 0 && !skip_children(e, cfg) {
        show_spec(e.children@, prefix + cont_token(is_last), child_depth, after, cfg, now)
    } else {
        (Seq::<char>::empty(), after)
    };
    (line + child.0, child.1)
}

/// Unfolds one shown entry off the front of a plan: the step's text, then
/// the rest of the plan against what the step left over.
pub proof fn lemma_render_plan_unfold_shown(
    plan: Seq<PlanItem>,
    prefix: Seq<char>,
    depth: nat,
    lines: nat,
    cfg: DisplayConfig,
    now: nat,
)
    requires
        plan.len() > 0,
        lines > 0,
        plan[0] is Shown,
    ensures
        ({
            let step = shown_step(
                plan[0]->Shown_entry,
                prefix,
                depth + 1,
                lines,
                plan[0]->Shown_is_last,
                cfg,
                now,
            );
            let rest = render_plan(plan.skip(1), prefix, depth, step.1, cfg, now);
            render_plan(plan, prefix, depth, lines, cfg, now) == (step.0 + rest.0, rest.1)
        }),
{
    let e = plan[0]->Shown_entry;
    let is_last = plan[0]->Shown_is_last;
    let after = (lines - 1) as nat;
    if e.is_dir && after > 0 && !skip_children(e, cfg) {
        lemma_show_le(e.children@, prefix + cont_token(is_last), depth + 1, after, cfg, now);
    }
    let step = shown_step(e, prefix, depth + 1, lines, is_last, cfg, now);
    assert(spec_min(step.1, after) == step.1);
    let rest = render_plan(plan.skip(1), prefix, depth, step.1, cfg, now);
    assert(render_plan(plan, prefix, depth, lines, cfg, now).0 =~= step.0 + rest.0);
}

/// Where each planned item stands in the plan, and what it is.
pub proof fn lemma_plan_indexing(sorted: Seq<DirectoryEntry>, head: nat, tail: nat, hidden: nat)
    ensures
        plan_of(sorted, head, tail, hidden).len() == head + (if hidden > 1 {
            1int
        } else {
            0int
        }) + tail,
        forall|q: int|
            0 <= q < head ==> #[trigger] plan_of(sorted, head, tail, hidden)[q]
                == (PlanItem::Shown {
                entry: sorted[q],
                is_last: tail == 0 && q + 1 == head && hidden == 0,
            }),
        hidden > 1 ==> plan_of(sorted, head, tail, hidden)[head as int] == (PlanItem::HiddenMark {
            hidden,
        }),
        forall|q: int|
            head + (if hidden > 1 {
                1int
            } else {
                0int
            }) <= q < plan_of(sorted, head, tail, hidden).len() ==> #[trigger] plan_of(
                sorted,
                head,
                tail,
                hidden,
            )[q] == (PlanItem::Shown {
                entry: sorted[sorted.len() - tail + (q - head - (if hidden > 1 {
                    1int
                } else {
                    0int
                }))],
                is_last: q - head - (if hidden > 1 {
                    1int
                } else {
                    0int
                }) + 1 == tail,
            }),
{
}

/// Well-formed input: no entry name or filter annotation holds a newline,
/// at any depth of the tree. The scanning collaborator supplies such
/// trees; the line-count bound is stated for them.
pub open spec fn wf_entry(e: DirectoryEntry) -> bool
    decreases e,
{
    &&& nl_free(e.name@)
    &&& (e.filter_annotation is Some ==> nl_free(e.filter_annotation->0@))
    &&& forall|i: int| 0 <= i < e.children@.len() ==> wf_entry(#[trigger] e.children@[i])
}

pub open spec fn wf_entries(items: Seq<DirectoryEntry>) -> bool {
    forall|i: int| 0 <= i < items.len() ==> wf_entry(#[trigger] items[i])
}

/// Renders the tree against a fixed reference time. The output is a pure
/// function of the tree, the configuration and `now`, so two renders of
/// the same arguments are byte-identical.
pub fn format_tree_at(root: &DirectoryEntry, config: &DisplayConfig, now: u64) -> (r: String)
    ensures
        r@ == render_str(*root, *config, now as nat),
        config.max_lines == 0 ==> r@ == Seq::<char>::empty(),
{
    let mut state = DisplayState::new(config.max_lines, config, now);
    if config.max_lines == 0 {
        return state.output;
    }
    state.output.append(".\n");
    state.lines_remaining = state.lines_remaining - 1;
    proof {
        reveal_strlit("");
        assert(""@ =~= Seq::<char>::empty());
        assert(state.output@ =~= ".\n"@);
    }
    state.show_items(&root.children, "");
    proof {
        assert(state.output@ =~= render_str(*root, *config, now as nat));
    }
    state.output
}

/// Relies on std::time::SystemTime::now, read once per render, as seconds
/// since the Unix epoch. Nothing is assumed of the clock's value.
#[verifier::external_body]
fn now_secs() -> u64 {
    std::time::SystemTime::now().duration_since(std::time::UNIX_EPOCH).unwrap_or_default().as_secs()
}

/// Renders the tree against the current time. Whatever the clock reads,
/// the result is a faithful render for that reference time, and the
/// line-count bound holds for every well-formed tree.
pub fn format_tree(root: &DirectoryEntry, config: &DisplayConfig) -> (r: String)
    ensures
        exists|now: nat| r@ == render_str(*root, *config, now),
        config.max_lines == 0 ==> r@ == Seq::<char>::empty(),
        wf_entry(*root) ==> count_nl(r@) <= config.max_lines,
{
    let now = now_secs();
    let r = format_tree_at(root, config, now);
    proof {
        if wf_entry(*root) {
            lemma_render_line_bound(*root, *config, now as nat);
        }
    }
    r
}

/// A plan never hands back more lines than it was given.
pub proof fn lemma_render_plan_le(
    plan: Seq<PlanItem>,
    prefix: Seq<char>,
    depth: nat,
    lines: nat,
    cfg: DisplayConfig,
    now: nat,
)
    ensures
        render_plan(plan, prefix, depth, lines, cfg, now).1 <= lines,
    decreases lines, 1int, plan.len(),
{
    if plan.len() == 0 || lines == 0 {
    } else {
        match plan[0] {
            PlanItem::HiddenMark { hidden } => {
                lemma_render_plan_le(plan.skip(1), prefix, depth, (lines - 1) as nat, cfg, now);
            },
            PlanItem::Shown { entry, is_last } => {
                let after = (lines - 1) as nat;
                if entry.is_dir && after > 0 && !skip_children(entry, cfg) {
                    lemma_show_le(
                        entry.children@,
                        prefix + cont_token(is_last),
                        depth + 1,
                        after,
                        cfg,
                        now,
                    );
                }
                let child = if entry.is_dir && after > 0 && !skip_children(entry, cfg) {
                    show_spec(entry.children@, prefix + cont_token(is_last), depth + 1, after, cfg, now)
                } else {
                    (Seq::<char>::empty(), after)
                };
                lemma_render_plan_le(
                    plan.skip(1),
                    prefix,
                    depth,
                    spec_min(child.1, after),
                    cfg,
                    now,
                );
            },
        }
    }
}

/// A visit never hands back more lines than it was given.
pub proof fn lemma_show_le(
    items: Seq<DirectoryEntry>,
    prefix: Seq<char>,
    depth: nat,
    lines: nat,
    cfg: DisplayConfig,
    now: nat,
)
    ensures
        show_spec(items, prefix, depth, lines, cfg, now).1 <= lines,
    decreases lines, 2int, 0int,
{
    if items.len() == 0 || lines == 0 {
    } else {
        let sorted = sort_by_cfg(cfg, items);
        let budget = level_budget(items.len(), depth, lines);
        let capped = spec_min(budget, cfg.dir_limit as nat);
        let plan = plan_of(
            sorted,
            sec_head(items.len(), capped),
            sec_tail(items.len(), capped),
            sec_hidden(items.len(), capped),
        );
        lemma_render_plan_le(plan, prefix, depth, lines, cfg, now);
    }
}

/// Every shown entry of a plan is well formed.
pub open spec fn wf_plan(plan: Seq<PlanItem>) -> bool {
    forall|i: int|
        0 <= i < plan.len() ==> (#[trigger] plan[i] is Shown ==> wf_entry(plan[i]->Shown_entry))
}

/// Rendering a well-formed plan emits exactly one newline per consumed
/// line: the newline count plus the leftover lines equal the given lines.
pub proof fn lemma_render_plan_count(
    plan: Seq<PlanItem>,
    prefix: Seq<char>,
    depth: nat,
    lines: nat,
    cfg: DisplayConfig,
    now: nat,
)
    requires
        nl_free(prefix),
        wf_plan(plan),
    ensures
        count_nl(render_plan(plan, prefix, depth, lines, cfg, now).0) + render_plan(
            plan,
            prefix,
            depth,
            lines,
            cfg,
            now,
        ).1 == lines,
    decreases lines, 1int, plan.len(),
{
    if plan.len() == 0 || lines == 0 {
    } else {
        crate::format::lemma_literals_nl_free();
        match plan[0] {
            PlanItem::HiddenMark { hidden } => {
                assert(wf_plan(plan.skip(1)));
                lemma_render_plan_count(plan.skip(1), prefix, depth, (lines - 1) as nat, cfg, now);
                lemma_hidden_line_one_nl(prefix, hidden);
                lemma_count_nl_concat(
                    hidden_line_str(prefix, hidden),
                    render_plan(plan.skip(1), prefix, depth, (lines - 1) as nat, cfg, now).0,
                );
            },
            PlanItem::Shown { entry, is_last } => {
                assert(plan[0] is Shown);
                assert(wf_entry(entry));
                let after = (lines - 1) as nat;
                let line = entry_line_str(entry, prefix, is_last, cfg, now);
                lemma_entry_line_one_nl(entry, prefix, is_last, cfg, now);
                let child = if entry.is_dir && after > 0 && !skip_children(entry, cfg) {
                    show_spec(
                        entry.children@,
                        prefix + cont_token(is_last),
                        depth + 1,
                        after,
                        cfg,
                        now,
                    )
                } else {
                    (Seq::<char>::empty(), after)
                };
                if entry.is_dir && after > 0 && !skip_children(entry, cfg) {
                    lemma_nl_free_concat(prefix, cont_token(is_last));
                    lemma_show_count(
                        entry.children@,
                        prefix + cont_token(is_last),
                        depth + 1,
                        after,
                        cfg,
                        now,
                    );
                    lemma_show_le(
                        entry.children@,
                        prefix + cont_token(is_last),
                        depth + 1,
                        after,
                        cfg,
                        now,
                    );
                }
                assert(count_nl(child.0) + child.1 == after);
                assert(spec_min(child.1, after) == child.1);
                assert(wf_plan(plan.skip(1)));
                lemma_render_plan_count(plan.skip(1), prefix, depth, child.1, cfg, now);
                let rest = render_plan(plan.skip(1), prefix, depth, child.1, cfg, now);
                lemma_count_nl_concat(line, child.0);
                lemma_count_nl_concat(line + child.0, rest.0);
            },
        }
    }
}

/// Rendering a well-formed sibling group emits exactly one newline per
/// consumed line.
pub proof fn lemma_show_count(
    items: Seq<DirectoryEntry>,
    prefix: Seq<char>,
    depth: nat,
    lines: nat,
    cfg: DisplayConfig,
    now: nat,
)
    requires
        nl_free(prefix),
        wf_entries(items),
    ensures
        count_nl(show_spec(items, prefix, depth, lines, cfg, now).0) + show_spec(
            items,
            prefix,
            depth,
            lines,
            cfg,
            now,
        ).1 == lines,
    decreases lines, 2int, 0int,
{
    if items.len() == 0 || lines == 0 {
    } else {
        let sorted = sort_by_cfg(cfg, items);
        let budget = level_budget(items.len(), depth, lines);
        let capped = spec_min(budget, cfg.dir_limit as nat);
        let head = sec_head(items.len(), capped);
        let tail = sec_tail(items.len(), capped);
        let hidden = sec_hidden(items.len(), capped);
        let plan = plan_of(sorted, head, tail, hidden);
        crate::sorting::lemma_sort_len(cfg, items);
        crate::sorting::lemma_sort_elements(cfg, items);
        lemma_plan_indexing(sorted, head, tail, hidden);
        assert forall|i: int|
            0 <= i < plan.len() && #[trigger] plan[i] is Shown implies wf_entry(
            plan[i]->Shown_entry,
        ) by {
            if plan[i] is Shown {
                let e = plan[i]->Shown_entry;
                assert(sorted.contains(e)) by {
                    if i < head {
                        assert(sorted[i] == e);
                    } else {
                        assert(sorted[sorted.len() - tail + (i - head - (if hidden > 1 {
                            1int
                        } else {
                            0int
                        }))] == e);
                    }
                }
                let k = choose|k: int| 0 <= k < sorted.len() && sorted[k] == e;
                assert(items.contains(sorted[k]));
                let q = choose|q: int| 0 <= q < items.len() && items[q] == e;
                assert(wf_entry(items[q]));
            }
        }
        lemma_render_plan_count(plan, prefix, depth, lines, cfg, now);
    }
}

/// The hard budget invariant: for every well-formed tree, configuration
/// and reference time, the rendering holds at most `max_lines` lines.
pub proof fn lemma_line_budget(root: DirectoryEntry, cfg: DisplayConfig, now: nat)
    requires
        wf_entry(root),
    ensures
        count_nl(render_str(root, cfg, now)) <= cfg.max_lines,
{
    lemma_render_line_bound(root, cfg, now);
}

proof fn lemma_render_line_bound(root: DirectoryEntry, cfg: DisplayConfig, now: nat)
    requires
        wf_entry(root),
    ensures
        count_nl(render_str(root, cfg, now)) <= cfg.max_lines,
{
    if cfg.max_lines == 0 {
    } else {
        crate::format::lemma_literals_nl_free();
        let rest = show_spec(
            root.children@,
            Seq::<char>::empty(),
            0,
            (cfg.max_lines - 1) as nat,
            cfg,
            now,
        );
        assert(nl_free(Seq::<char>::empty()));
        lemma_show_count(
            root.children@,
            Seq::<char>::empty(),
            0,
            (cfg.max_lines - 1) as nat,
            cfg,
            now,
        );
        lemma_count_nl_concat(".\n"@, rest.0);
        assert(count_nl(".\n"@) == 1) by {
            reveal_with_fuel(count_nl, 2);
            reveal_strlit(".\n");
            reveal_strlit(".");
            assert(".\n"@.drop_last() =~= "."@);
            assert(nl_free("."@));
            lemma_count_nl_zero("."@);
        }
    }
}

/// The order-context property: in a directory visit that hides children,
/// every shown head item sorts no later than every hidden item, and every
/// hidden item sorts no later than every shown tail item, under the active
/// sort key.
pub proof fn lemma_order_context(cfg: DisplayConfig, items: Seq<DirectoryEntry>, capped: nat)
    ensures
        ({
            let sorted = sort_by_cfg(cfg, items);
            let head = sec_head(items.len(), capped);
            let tail = sec_tail(items.len(), capped);
            let hidden = sec_hidden(items.len(), capped);
            &&& forall|i: int, h: int|
                0 <= i < head && head <= h < head + hidden ==> entry_le(
                    cfg,
                    #[trigger] sorted[i],
                    #[trigger] sorted[h],
                )
            &&& forall|h: int, t: int|
                head <= h < head + hidden && head + hidden <= t < items.len() ==> entry_le(
                    cfg,
                    #[trigger] sorted[h],
                    #[trigger] sorted[t],
                )
        }),
{
    crate::sorting::lemma_sort_len(cfg, items);
    crate::sorting::lemma_sort_sorted(cfg, items);
    crate::budget::lemma_section_partition(items.len(), capped);
}

} // verus!
