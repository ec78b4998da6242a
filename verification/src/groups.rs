//! Group sequencing: walking a plan into booklet groups.
//!
//! A group is a half-open range of positions in padded page space.  The
//! sequencer starts at the cover-adjusted first index, deals each booklet
//! its planned number of sheets (four positions per sheet), and clamps
//! the final group to the padded total, so the groups tile the padded
//! space contiguously.

use vstd::prelude::*;

use crate::plan::{
    cover_adjusted_count, padded_total, plan_spec, plan_wf, tail_pad, BookletConfig,
};
use crate::config_wf;

verus! {

/// One booklet group: a contiguous run of positions in padded page space.
#[derive(Clone, Copy, Debug, PartialEq, Eq, Structural)]
pub struct BookletGroup {
    /// 1-based position of this booklet in the document.
    pub ordinal: u32,
    /// First position of the group.
    pub start_index: u32,
    /// One past the last position of the group.
    pub end_index: u32,
    /// This is the document's first group.
    pub is_first: bool,
    /// This is the document's last group.
    pub is_last: bool,
}

/// Position where the first group starts: 1 when a cover is stripped
/// (its pages stay addressable but outside every group), otherwise 0.
pub open spec fn first_index(has_cover: bool, keep_cover: bool) -> int {
    if has_cover && !keep_cover {
        1
    } else {
        0
    }
}

/// Sheets dealt to the 0-based `i`-th booklet: the nominal count, plus
/// one for the leading extended booklets.
pub open spec fn group_sheets(plan: BookletConfig, i: int) -> int {
    plan.booklet_sheets + if i < plan.add_sheet_booklet_count {
        1int
    } else {
        0int
    }
}

/// Positions consumed by the first `i` booklets of the plan.
pub open spec fn cum_pages(plan: BookletConfig, i: int) -> int {
    (plan.booklet_sheets * i + if i <= plan.add_sheet_booklet_count {
        i
    } else {
        plan.add_sheet_booklet_count as int
    }) * 4
}

/// One more booklet consumes exactly its dealt sheets, four positions each.
pub proof fn lemma_cum_step(plan: BookletConfig, i: int)
    requires
        i >= 0,
        plan.booklet_sheets >= 1,
    ensures
        cum_pages(plan, i + 1) == cum_pages(plan, i) + group_sheets(plan, i) * 4,
        cum_pages(plan, i) + 4 <= cum_pages(plan, i + 1),
{
    assert(plan.booklet_sheets * (i + 1) == plan.booklet_sheets * i + plan.booklet_sheets)
        by (nonlinear_arith);
    assert(group_sheets(plan, i) * 4 >= 4);
}

/// No booklets consume no positions.
pub proof fn lemma_cum_zero(plan: BookletConfig)
    ensures
        cum_pages(plan, 0) == 0,
{
    assert(plan.booklet_sheets * 0 == 0) by (nonlinear_arith);
}

/// The consumed-position count grows by at least four per booklet.
pub proof fn lemma_cum_mono(plan: BookletConfig, i: int, j: int)
    requires
        0 <= i <= j,
        plan.booklet_sheets >= 1,
    ensures
        cum_pages(plan, i) + 4 * (j - i) <= cum_pages(plan, j),
    decreases j - i,
{
    if i < j {
        lemma_cum_mono(plan, i, j - 1);
        lemma_cum_step(plan, j - 1);
    }
}

/// What the sequencer owes: the groups tile padded page space from the
/// first index up to its end, ordinals count from one, exactly the last
/// group is flagged last and absorbs both the clamp to the real page
/// limit and the tail padding, and every group but the last stops short
/// of the real limit.
pub open spec fn group_seq_wf(
    gs: Seq<BookletGroup>,
    plan: BookletConfig,
    page_count: int,
    has_cover: bool,
    keep_cover: bool,
) -> bool {
    let a = cover_adjusted_count(page_count, has_cover, keep_cover);
    let t = padded_total(a);
    let f = first_index(has_cover, keep_cover);
    &&& gs.len() >= 1
    &&& forall|j: int| 0 <= j < gs.len() ==> (#[trigger] gs[j]).ordinal == j + 1
    &&& forall|j: int|
        0 <= j < gs.len() ==> (#[trigger] gs[j]).start_index == f + cum_pages(plan, j)
    &&& forall|j: int|
        0 <= j < gs.len() - 1 ==> (#[trigger] gs[j]).end_index == f + cum_pages(plan, j + 1)
    &&& gs[gs.len() - 1].end_index == f + t
    &&& forall|j: int| 0 <= j < gs.len() ==> ((#[trigger] gs[j]).is_first <==> j == 0)
    &&& forall|j: int| 0 <= j < gs.len() ==> ((#[trigger] gs[j]).is_last <==> j == gs.len() - 1)
    &&& forall|j: int| 0 <= j < gs.len() ==> cum_pages(plan, j) < a
    &&& cum_pages(plan, gs.len() as int) >= a
}

/// Positions of one group that lie below the real-content limit; the
/// clamp only matters for the last group, whose range also covers the
/// tail padding.
pub open spec fn real_pages_in_group(g: BookletGroup, real_limit: int) -> int {
    (if g.end_index <= real_limit {
        g.end_index as int
    } else {
        real_limit
    }) - g.start_index
}

/// Sum over the groups of their real-content sizes.
pub open spec fn sum_real_pages(gs: Seq<BookletGroup>, real_limit: int) -> int
    decreases gs.len(),
{
    if gs.len() == 0 {
        0
    } else {
        sum_real_pages(gs.drop_last(), real_limit) + real_pages_in_group(gs.last(), real_limit)
    }
}

proof fn lemma_sum_prefix(
    gs: Seq<BookletGroup>,
    plan: BookletConfig,
    page_count: int,
    has_cover: bool,
    keep_cover: bool,
    j: int,
)
    requires
        config_wf(page_count, has_cover, keep_cover),
        plan_wf(plan),
        group_seq_wf(gs, plan, page_count, has_cover, keep_cover),
        0 <= j < gs.len(),
    ensures
        sum_real_pages(
            gs.take(j),
            first_index(has_cover, keep_cover) + cover_adjusted_count(
                page_count,
                has_cover,
                keep_cover,
            ),
        ) == cum_pages(plan, j),
    decreases j,
{
    let a = cover_adjusted_count(page_count, has_cover, keep_cover);
    let f = first_index(has_cover, keep_cover);
    if j == 0 {
        lemma_cum_zero(plan);
        assert(gs.take(0).len() == 0);
    } else {
        lemma_sum_prefix(gs, plan, page_count, has_cover, keep_cover, j - 1);
        let pre = gs.take(j);
        assert(pre.drop_last() =~= gs.take(j - 1));
        assert(pre.last() == gs[j - 1]);
        assert(gs[j - 1].end_index == f + cum_pages(plan, j));
        assert(cum_pages(plan, j) < a);
        assert(real_pages_in_group(gs[j - 1], f + a) == cum_pages(plan, j) - cum_pages(
            plan,
            j - 1,
        ));
    }
}

/// The groups' real-content sizes sum to the cover-adjusted page count,
/// and that count plus the tail padding is the padded total: the
/// smallest multiple of four at or above the adjusted count.
pub proof fn lemma_groups_cover_adjusted_count(
    gs: Seq<BookletGroup>,
    plan: BookletConfig,
    page_count: int,
    has_cover: bool,
    keep_cover: bool,
)
    requires
        config_wf(page_count, has_cover, keep_cover),
        plan_wf(plan),
        group_seq_wf(gs, plan, page_count, has_cover, keep_cover),
    ensures
        ({
            let a = cover_adjusted_count(page_count, has_cover, keep_cover);
            let f = first_index(has_cover, keep_cover);
            &&& sum_real_pages(gs, f + a) == a
            &&& a + tail_pad(a) == padded_total(a)
            &&& padded_total(a) % 4 == 0
            &&& a <= padded_total(a) < a + 4
        }),
{
    let a = cover_adjusted_count(page_count, has_cover, keep_cover);
    let t = padded_total(a);
    let f = first_index(has_cover, keep_cover);
    let n = gs.len() as int;
    crate::plan::lemma_padded_total_bounds(a);
    lemma_sum_prefix(gs, plan, page_count, has_cover, keep_cover, n - 1);
    assert(gs.drop_last() =~= gs.take(n - 1));
    assert(gs.last() == gs[n - 1]);
    assert(gs[n - 1].end_index == f + t);
    assert(gs[n - 1].start_index == f + cum_pages(plan, n - 1));
    assert(cum_pages(plan, n - 1) < a);
    assert(real_pages_in_group(gs[n - 1], f + a) == a - cum_pages(plan, n - 1));
}

/// Every group is non-empty and covers a whole number of sheets: its
/// size is a positive multiple of four.
pub proof fn lemma_group_sizes(
    gs: Seq<BookletGroup>,
    plan: BookletConfig,
    page_count: int,
    has_cover: bool,
    keep_cover: bool,
)
    requires
        config_wf(page_count, has_cover, keep_cover),
        plan_wf(plan),
        group_seq_wf(gs, plan, page_count, has_cover, keep_cover),
    ensures
        forall|j: int|
            0 <= j < gs.len() ==> (#[trigger] gs[j]).start_index < gs[j].end_index && (gs[j].end_index
                - gs[j].start_index) % 4 == 0,
{
    let a = cover_adjusted_count(page_count, has_cover, keep_cover);
    let t = padded_total(a);
    let f = first_index(has_cover, keep_cover);
    let n = gs.len() as int;
    crate::plan::lemma_padded_total_bounds(a);
    assert forall|j: int| 0 <= j < n implies (#[trigger] gs[j]).start_index < gs[j].end_index
        && (gs[j].end_index - gs[j].start_index) % 4 == 0 by {
        lemma_cum_step(plan, j);
        assert(gs[j].start_index == f + cum_pages(plan, j));
        if j < n - 1 {
            assert(gs[j].end_index == f + cum_pages(plan, j + 1));
            vstd::arithmetic::div_mod::lemma_mod_multiples_basic(group_sheets(plan, j), 4);
        } else {
            assert(gs[j].end_index == f + t);
            assert(cum_pages(plan, j) < a <= t);
            let sheets_before = plan.booklet_sheets * j + if j <= plan.add_sheet_booklet_count {
                j
            } else {
                plan.add_sheet_booklet_count as int
            };
            assert(cum_pages(plan, j) == sheets_before * 4);
            vstd::arithmetic::div_mod::lemma_fundamental_div_mod(t, 4);
            let ts = t / 4;
            assert(t == 4 * ts);
            assert(t - cum_pages(plan, j) == (ts - sheets_before) * 4) by (nonlinear_arith)
                requires
                    t == 4 * ts,
                    cum_pages(plan, j) == sheets_before * 4,
            ;
            vstd::arithmetic::div_mod::lemma_mod_multiples_basic(ts - sheets_before, 4);
        }
    }
}

/// The extension never outgrows the booklet count, and the dealt sheet
/// counts stay within one sheet of the nominal size, while an
/// unextended layout would have ended in a short trailing booklet.
pub proof fn lemma_extension_balances(
    gs: Seq<BookletGroup>,
    plan: BookletConfig,
    page_count: int,
    sheets_per_booklet: int,
    has_cover: bool,
    keep_cover: bool,
)
    requires
        crate::plan::plan_inputs_ok(page_count, sheets_per_booklet, has_cover, keep_cover),
        plan == plan_spec(page_count, sheets_per_booklet, has_cover, keep_cover),
        group_seq_wf(gs, plan, page_count, has_cover, keep_cover),
    ensures
        plan.add_sheet_booklet_count <= gs.len(),
        forall|j: int|
            0 <= j < gs.len() ==> plan.booklet_sheets <= #[trigger] group_sheets(plan, j)
                <= plan.booklet_sheets + 1,
        ({
            let a = cover_adjusted_count(page_count, has_cover, keep_cover);
            let total = padded_total(a);
            let ppb = sheets_per_booklet * 4;
            let r = total % ppb;
            // with leftover sheets dealt out, the spread between the
            // largest and smallest booklet is at most one sheet, while
            // the undealt layout would have trailed by the whole shortfall
            (r > 0 && r / 4 <= total / ppb) ==> {
                let spread = if 0 < plan.add_sheet_booklet_count < gs.len() {
                    1int
                } else {
                    0int
                };
                &&& spread <= sheets_per_booklet - r / 4
                &&& (r / 4 < sheets_per_booklet - 1 ==> spread < sheets_per_booklet - r / 4)
            }
        }),
{
    let a = cover_adjusted_count(page_count, has_cover, keep_cover);
    let t = padded_total(a);
    let ppb = sheets_per_booklet * 4;
    let k = t / ppb;
    let r = t % ppb;
    let n = gs.len() as int;
    crate::plan::lemma_padded_total_bounds(a);
    crate::plan::lemma_remainder_sheets(t, sheets_per_booklet);
    assert(plan.booklet_sheets >= 1) by {
        crate::plan::lemma_plan_spec_wf(page_count, sheets_per_booklet, has_cover, keep_cover);
    }
    if r / 4 <= k {
        // first tie-break: nominal size kept, r / 4 leading booklets extended
        assert(plan.add_sheet_booklet_count == r / 4);
        assert(plan.booklet_sheets == sheets_per_booklet);
        if k == 0 {
            assert(t == r) by {
                vstd::arithmetic::div_mod::lemma_fundamental_div_mod(t, ppb);
                assert(ppb * 0 == 0) by (nonlinear_arith);
            }
            assert(r / 4 >= 1) by {
                assert(t >= 4);
                assert(t / 4 >= 1) by (nonlinear_arith)
                    requires
                        t >= 4,
                        t % 4 == 0,
                        t / 4 == (t - t % 4) / 4,
                ;
                vstd::arithmetic::div_mod::lemma_fundamental_div_mod(t, 4);
                vstd::arithmetic::div_mod::lemma_mod_division_less_than_divisor(t, 4);
                if t / 4 < 1 {
                    assert(4 * (t / 4) <= 0) by (nonlinear_arith)
                        requires
                            t / 4 <= 0,
                    ;
                }
            }
            assert(false);
        }
        // cum(k) == t, so the sequence has at least k groups
        assert(cum_pages(plan, k) == t) by {
            assert(t / 4 == k * sheets_per_booklet + r / 4);
            assert(cum_pages(plan, k) == (sheets_per_booklet * k + r / 4) * 4);
            vstd::arithmetic::div_mod::lemma_fundamental_div_mod(t, 4);
            assert((k * sheets_per_booklet + r / 4) * 4 == t) by (nonlinear_arith)
                requires
                    t / 4 == k * sheets_per_booklet + r / 4,
                    t == 4 * (t / 4) + t % 4,
                    t % 4 == 0,
            ;
            assert(sheets_per_booklet * k == k * sheets_per_booklet) by (nonlinear_arith);
        }
        if n < k {
            lemma_cum_mono(plan, n, k - 1);
            lemma_cum_step(plan, k - 1);
            assert(cum_pages(plan, n) <= cum_pages(plan, k) - 4);
            assert(cum_pages(plan, n) < a);
            assert(false);
        }
        assert(plan.add_sheet_booklet_count <= n);
    } else if r * 4 < ppb * 3 {
        // second tie-break: one more booklet, sheets spread evenly
        let s = t / 4;
        crate::plan::lemma_branch_two_bounds(t, sheets_per_booklet);
        assert(plan.add_sheet_booklet_count == s % (k + 1));
        vstd::arithmetic::div_mod::lemma_mod_division_less_than_divisor(s, k + 1);
        assert(plan.add_sheet_booklet_count <= k);
        // cum(k + 1) == t, so the sequence has at least k + 1 groups
        assert(cum_pages(plan, k + 1) == t) by {
            let q = s / (k + 1);
            let m = s % (k + 1);
            vstd::arithmetic::div_mod::lemma_fundamental_div_mod(s, k + 1);
            assert(s == (k + 1) * q + m);
            assert(m <= k + 1);
            assert(cum_pages(plan, k + 1) == (q * (k + 1) + m) * 4);
            vstd::arithmetic::div_mod::lemma_fundamental_div_mod(t, 4);
            assert((q * (k + 1) + m) * 4 == t) by (nonlinear_arith)
                requires
                    s == (k + 1) * q + m,
                    t == 4 * s + t % 4,
                    t % 4 == 0,
            ;
        }
        if n < k + 1 {
            lemma_cum_mono(plan, n, k);
            lemma_cum_step(plan, k);
            assert(cum_pages(plan, n) < a);
            assert(false);
        }
    } else {
        assert(plan.add_sheet_booklet_count == 0);
    }
}

/// Produces the ordered booklet groups for one document.
///
/// The plan would normally come from `calc_booklet_sheets` or
/// `plan_booklets` on the same inputs; any well-formed plan is accepted,
/// and the groups then tile the padded page space it implies.
pub fn sequence_groups(
    page_count: u32,
    plan: &BookletConfig,
    has_cover: bool,
    keep_cover: bool,
) -> (groups: Vec<BookletGroup>)
    requires
        config_wf(page_count as int, has_cover, keep_cover),
        plan_wf(*plan),
    ensures
        group_seq_wf(groups@, *plan, page_count as int, has_cover, keep_cover),
{
    let ghost pc = page_count as int;
    let ghost a = cover_adjusted_count(pc, has_cover, keep_cover);
    let ghost t = padded_total(a);
    proof {
        crate::plan::lemma_padded_total_bounds(a);
        lemma_cum_zero(*plan);
    }
    let f: u32 = if has_cover && !keep_cover {
        1
    } else {
        0
    };
    let adjusted: u32 = if has_cover {
        if keep_cover {
            page_count + 2
        } else {
            page_count - 2
        }
    } else {
        page_count
    };
    let total: u32 = ((adjusted + 3) / 4) * 4;
    let real_limit: u32 = f + adjusted;
    let limit: u32 = f + total;
    let mut groups: Vec<BookletGroup> = Vec::new();
    let mut cursor: u32 = f;
    let mut ordinal: u32 = 1;
    while cursor < real_limit
        invariant
            config_wf(pc, has_cover, keep_cover),
            plan_wf(*plan),
            a == cover_adjusted_count(pc, has_cover, keep_cover),
            t == padded_total(a),
            a <= t < a + 4,
            f == first_index(has_cover, keep_cover),
            real_limit == f + a,
            limit == f + t,
            ordinal == groups@.len() + 1,
            4 * groups@.len() <= cum_pages(*plan, groups@.len() as int),
            cursor == f + if cum_pages(*plan, groups@.len() as int) >= a {
                t
            } else {
                cum_pages(*plan, groups@.len() as int)
            },
            forall|j: int|
                0 <= j < groups@.len() ==> (#[trigger] groups@[j]).ordinal == j + 1,
            forall|j: int|
                0 <= j < groups@.len() ==> (#[trigger] groups@[j]).start_index == f + cum_pages(
                    *plan,
                    j,
                ),
            forall|j: int|
                0 <= j < groups@.len() ==> (#[trigger] groups@[j]).end_index == f + if cum_pages(
                    *plan,
                    j + 1,
                ) >= a {
                    t
                } else {
                    cum_pages(*plan, j + 1)
                },
            forall|j: int|
                0 <= j < groups@.len() ==> ((#[trigger] groups@[j]).is_first <==> j == 0),
            forall|j: int|
                0 <= j < groups@.len() ==> ((#[trigger] groups@[j]).is_last <==> cum_pages(
                    *plan,
                    j + 1,
                ) >= a),
            forall|j: int| 0 <= j < groups@.len() ==> cum_pages(*plan, j) < a,
        decreases limit - cursor,
    {
        let ghost i = groups@.len() as int;
        proof {
            lemma_cum_step(*plan, i);
        }
        let extra: u32 = if ordinal <= plan.add_sheet_booklet_count {
            1
        } else {
            0
        };
        let size: u64 = (plan.booklet_sheets as u64 + extra as u64) * 4;
        let nominal_end: u64 = cursor as u64 + size;
        let last: bool = nominal_end >= real_limit as u64;
        proof {
            assert(cum_pages(*plan, i) < a);
            assert(size == group_sheets(*plan, i) * 4);
            assert(nominal_end == f + cum_pages(*plan, i + 1));
        }
        let end: u32 = if last {
            limit
        } else {
            nominal_end as u32
        };
        groups.push(
            BookletGroup {
                ordinal,
                start_index: cursor,
                end_index: end,
                is_first: ordinal == 1,
                is_last: last,
            },
        );
        cursor = end;
        ordinal = ordinal + 1;
    }
    proof {
        if groups@.len() == 0 {
            assert(cum_pages(*plan, 0) == 0);
            assert(false);
        }
        assert(cum_pages(*plan, groups@.len() as int) >= a);
        let last_j = groups@.len() - 1;
        assert(groups@[last_j].end_index == f + t);
    }
    groups
}

} // verus!
