//! Sheet-side imposition: which pages land on every face of a sheet.
//!
//! Within one booklet group the engine emits one sheet side per step.
//! A side carries two page references — the bottom and top half of the
//! printed face — and a front/back flag.  Saddle binding pairs positions
//! from the two ends of the group inward; edge binding pairs the two
//! halves of the group in parallel.  Cover positions and tail padding
//! resolve to blanks or to the cover pages through a per-group kind.

use vstd::prelude::*;

use crate::binding::BindingRule;
use crate::groups::{first_index, group_seq_wf, sequence_groups, BookletGroup};
use crate::plan::{plan_booklets, plan_inputs_ok, plan_spec, plan_wf};
use crate::{config_wf, BookletError};

verus! {

/// Quarter-turn applied to a rendered page; the booklet template lays
/// pages sideways on the sheet, and front and back faces turn opposite
/// ways so the folded result reads upright.
#[derive(Clone, Copy, Debug, PartialEq, Eq, Structural)]
pub enum Rotation {
    /// Quarter turn clockwise.
    Cw90,
    /// Quarter turn counterclockwise.
    Ccw90,
}

/// One half of a sheet side: a source page with its rotation, or a
/// blank left unprinted.
#[derive(Clone, Copy, Debug, PartialEq, Eq, Structural)]
pub enum PageRef {
    /// Nothing is printed in this half.
    Blank,
    /// Source page `index`, drawn turned by `rotation`.
    Real { index: u32, rotation: Rotation },
}

/// One printable face of a physical sheet.
#[derive(Clone, Copy, Debug, PartialEq, Eq, Structural)]
pub struct SheetSide {
    /// Bottom half of the face.
    pub low: PageRef,
    /// Top half of the face.
    pub high: PageRef,
    /// True on the reverse face of a sheet; governs rotation and the
    /// fold-guide direction, and fronts alone carry the booklet label.
    pub is_back: bool,
}

/// How a group relates to the kept cover, resolved once per group.
#[derive(Clone, Copy, Debug, PartialEq, Eq, Structural)]
pub enum GroupKind {
    /// No cover position inside this group.
    Body,
    /// First group of a kept-cover document: its topmost position is
    /// the front cover.
    FirstWithCover,
    /// Last group of a kept-cover document: its topmost position is
    /// the back cover.
    LastWithCover,
    /// A kept-cover document of a single group: both covers share the
    /// outermost sheet face.
    FirstAndLast,
}

/// The group kind the flags imply; only a kept cover makes a group special.
pub open spec fn group_kind_spec(
    is_first: bool,
    is_last: bool,
    has_cover: bool,
    keep_cover: bool,
) -> GroupKind {
    if has_cover && keep_cover {
        if is_first && is_last {
            GroupKind::FirstAndLast
        } else if is_first {
            GroupKind::FirstWithCover
        } else if is_last {
            GroupKind::LastWithCover
        } else {
            GroupKind::Body
        }
    } else {
        GroupKind::Body
    }
}

/// Resolves the group kind from a group's flags.
pub fn resolve_group_kind(
    group: &BookletGroup,
    has_cover: bool,
    keep_cover: bool,
) -> (kind: GroupKind)
    ensures
        kind == group_kind_spec(group.is_first, group.is_last, has_cover, keep_cover),
{
    if has_cover && keep_cover {
        if group.is_first && group.is_last {
            GroupKind::FirstAndLast
        } else if group.is_first {
            GroupKind::FirstWithCover
        } else if group.is_last {
            GroupKind::LastWithCover
        } else {
            GroupKind::Body
        }
    } else {
        GroupKind::Body
    }
}

/// What the sheet-side functions need of a group: a non-empty range of
/// whole sheets, starting at or after the document's first index, and —
/// under a kept cover — starting past the cover positions unless it is
/// the first group.
pub open spec fn group_wf(
    g: BookletGroup,
    page_count: int,
    has_cover: bool,
    keep_cover: bool,
) -> bool {
    &&& g.start_index < g.end_index
    &&& (g.end_index - g.start_index) % 4 == 0
    &&& first_index(has_cover, keep_cover) <= g.start_index
    &&& (has_cover && keep_cover && !g.is_first) ==> g.start_index >= 2
}

/// The position a given step reads for the bottom half: the low cursor
/// walks up from the group start.
pub open spec fn low_position(g: BookletGroup, step: int) -> int {
    g.start_index + step
}

/// The position a given step reads for the top half: under saddle
/// binding the high cursor walks down from the group end; under edge
/// binding it walks up from the group midpoint.
pub open spec fn high_position(g: BookletGroup, step: int, binding_at_middle: bool) -> int {
    if binding_at_middle {
        g.end_index - 1 - step
    } else {
        g.start_index + (g.end_index - g.start_index) / 2 + step
    }
}

/// Steps a group emits before the cursors meet: half its size.
pub open spec fn step_count(g: BookletGroup) -> int {
    (g.end_index - g.start_index) / 2
}

/// Whether the position holds a source page (as opposed to a blank),
/// given the group it is read from.
pub open spec fn pos_holds_page(
    pos: int,
    g: BookletGroup,
    page_count: int,
    has_cover: bool,
    keep_cover: bool,
) -> bool {
    match group_kind_spec(g.is_first, g.is_last, has_cover, keep_cover) {
        GroupKind::Body => {
            if has_cover && keep_cover {
                pos <= page_count - 1
            } else if has_cover {
                pos < page_count - 1
            } else {
                pos < page_count
            }
        },
        GroupKind::FirstWithCover => pos == g.end_index - 1 || 1 <= pos <= page_count - 2,
        GroupKind::LastWithCover => pos == g.end_index - 1 || pos <= page_count - 1,
        GroupKind::FirstAndLast => pos == 0 || pos == g.end_index - 1 || 2 <= pos <= page_count
            - 1,
    }
}

/// The source page a position holds, when it holds one.
///
/// A kept cover occupies the outermost face of its booklet: the front
/// cover is the topmost position of the first group, the back cover the
/// topmost position of the last, and the body pages sit one position
/// later than their index from the second group on.  A stripped cover
/// leaves positions at their page index with the two cover pages out of
/// range; with no cover, positions and page indices coincide.
pub open spec fn page_at(
    pos: int,
    g: BookletGroup,
    page_count: int,
    has_cover: bool,
    keep_cover: bool,
) -> int {
    match group_kind_spec(g.is_first, g.is_last, has_cover, keep_cover) {
        GroupKind::Body => {
            if has_cover && keep_cover {
                pos - 1
            } else {
                pos
            }
        },
        GroupKind::FirstWithCover => {
            if pos == g.end_index - 1 {
                0
            } else {
                pos
            }
        },
        GroupKind::LastWithCover => {
            if pos == g.end_index - 1 {
                page_count - 1
            } else {
                pos - 1
            }
        },
        GroupKind::FirstAndLast => {
            if pos == 0 {
                page_count - 1
            } else if pos == g.end_index - 1 {
                0
            } else {
                pos - 1
            }
        },
    }
}

/// The page a position holds, or nothing for a blank.
pub fn page_at_position(
    pos: u32,
    group: &BookletGroup,
    page_count: u32,
    has_cover: bool,
    keep_cover: bool,
) -> (found: Option<u32>)
    requires
        config_wf(page_count as int, has_cover, keep_cover),
        group_wf(*group, page_count as int, has_cover, keep_cover),
        group.start_index <= pos < group.end_index,
    ensures
        found is Some <==> pos_holds_page(
            pos as int,
            *group,
            page_count as int,
            has_cover,
            keep_cover,
        ),
        found is Some ==> found->Some_0 == page_at(
            pos as int,
            *group,
            page_count as int,
            has_cover,
            keep_cover,
        ),
{
    match resolve_group_kind(group, has_cover, keep_cover) {
        GroupKind::Body => {
            if has_cover && keep_cover {
                if pos <= page_count - 1 {
                    Some(pos - 1)
                } else {
                    None
                }
            } else if has_cover {
                if pos < page_count - 1 {
                    Some(pos)
                } else {
                    None
                }
            } else {
                if pos < page_count {
                    Some(pos)
                } else {
                    None
                }
            }
        },
        GroupKind::FirstWithCover => {
            if pos == group.end_index - 1 {
                Some(0)
            } else if 1 <= pos && pos <= page_count - 2 {
                Some(pos)
            } else {
                None
            }
        },
        GroupKind::LastWithCover => {
            if pos == group.end_index - 1 {
                Some(page_count - 1)
            } else if pos <= page_count - 1 {
                Some(pos - 1)
            } else {
                None
            }
        },
        GroupKind::FirstAndLast => {
            if pos == 0 {
                Some(page_count - 1)
            } else if pos == group.end_index - 1 {
                Some(0)
            } else if 2 <= pos && pos <= page_count - 1 {
                Some(pos - 1)
            } else {
                None
            }
        },
    }
}

/// Rotation of the bottom half: fronts turn clockwise, backs the other way.
pub open spec fn low_rotation(is_back: bool) -> Rotation {
    if is_back {
        Rotation::Ccw90
    } else {
        Rotation::Cw90
    }
}

/// Rotation of the top half: with saddle binding it matches the bottom
/// half; with edge binding the top half turns the other way.
pub open spec fn high_rotation(is_back: bool, binding_at_middle: bool) -> Rotation {
    if binding_at_middle {
        low_rotation(is_back)
    } else {
        low_rotation(!is_back)
    }
}

/// The other quarter turn.
pub open spec fn opposite_rotation(rotation: Rotation) -> Rotation {
    match rotation {
        Rotation::Cw90 => Rotation::Ccw90,
        Rotation::Ccw90 => Rotation::Cw90,
    }
}

/// The reference printed in one half: the page the position holds with
/// the half's rotation, or a blank.
pub open spec fn page_ref_spec(
    pos: int,
    rotation: Rotation,
    g: BookletGroup,
    page_count: int,
    has_cover: bool,
    keep_cover: bool,
) -> PageRef {
    if pos_holds_page(pos, g, page_count, has_cover, keep_cover) {
        PageRef::Real {
            index: page_at(pos, g, page_count, has_cover, keep_cover) as u32,
            rotation,
        }
    } else {
        PageRef::Blank
    }
}

/// The sheet side a group emits at one step.
pub open spec fn sheet_side_spec(
    g: BookletGroup,
    step: int,
    binding_at_middle: bool,
    page_count: int,
    has_cover: bool,
    keep_cover: bool,
) -> SheetSide {
    let back = step % 2 == 1;
    SheetSide {
        low: page_ref_spec(
            low_position(g, step),
            low_rotation(back),
            g,
            page_count,
            has_cover,
            keep_cover,
        ),
        high: page_ref_spec(
            high_position(g, step, binding_at_middle),
            high_rotation(back, binding_at_middle),
            g,
            page_count,
            has_cover,
            keep_cover,
        ),
        is_back: back,
    }
}

/// The low and high position one step of a group reads, with the
/// front/back flag, or nothing once the cursors have met and the group
/// is done.
pub fn calc_sheet_lh_page_idx(
    page_idx: u32,
    group_start_idx: u32,
    group_end_idx: u32,
    binding_at_middle: bool,
) -> (found: Option<(u32, u32, bool)>)
    requires
        group_start_idx < group_end_idx,
        (group_end_idx - group_start_idx) % 4 == 0,
        group_start_idx <= page_idx <= group_end_idx,
    ensures
        ({
            let step = page_idx - group_start_idx;
            let size = group_end_idx - group_start_idx;
            &&& (found is Some <==> step < size / 2)
            &&& found is Some ==> found->Some_0 == (
                page_idx,
                (if binding_at_middle {
                    group_end_idx - 1 - step
                } else {
                    group_start_idx + size / 2 + step
                }) as u32,
                step % 2 == 1int,
            )
        }),
{
    let size: u32 = group_end_idx - group_start_idx;
    let step: u32 = page_idx - group_start_idx;
    if step >= size / 2 {
        return None;
    }
    let high: u32 = if binding_at_middle {
        group_end_idx - 1 - step
    } else {
        group_start_idx + size / 2 + step
    };
    Some((page_idx, high, step % 2 == 1))
}

/// The sheet side a group emits at one step.
pub fn sheet_side_at(
    group: &BookletGroup,
    step: u32,
    binding_at_middle: bool,
    page_count: u32,
    has_cover: bool,
    keep_cover: bool,
) -> (side: SheetSide)
    requires
        config_wf(page_count as int, has_cover, keep_cover),
        group_wf(*group, page_count as int, has_cover, keep_cover),
        step < step_count(*group),
    ensures
        side == sheet_side_spec(
            *group,
            step as int,
            binding_at_middle,
            page_count as int,
            has_cover,
            keep_cover,
        ),
{
    let back: bool = step % 2 == 1;
    let low_pos: u32 = group.start_index + step;
    let size: u32 = group.end_index - group.start_index;
    let high_pos: u32 = if binding_at_middle {
        group.end_index - 1 - step
    } else {
        group.start_index + size / 2 + step
    };
    let low_rot: Rotation = if back {
        Rotation::Ccw90
    } else {
        Rotation::Cw90
    };
    let high_rot: Rotation = if binding_at_middle {
        low_rot
    } else if back {
        Rotation::Cw90
    } else {
        Rotation::Ccw90
    };
    let low = match page_at_position(low_pos, group, page_count, has_cover, keep_cover) {
        Some(index) => PageRef::Real { index, rotation: low_rot },
        None => PageRef::Blank,
    };
    let high = match page_at_position(high_pos, group, page_count, has_cover, keep_cover) {
        Some(index) => PageRef::Real { index, rotation: high_rot },
        None => PageRef::Blank,
    };
    SheetSide { low, high, is_back: back }
}

/// All sheet sides of one group, in emission order: one per step until
/// the cursors meet, half the group's size in all.
pub fn sequence_sheet_sides(
    group: &BookletGroup,
    binding_at_middle: bool,
    page_count: u32,
    has_cover: bool,
    keep_cover: bool,
) -> (sides: Vec<SheetSide>)
    requires
        config_wf(page_count as int, has_cover, keep_cover),
        group_wf(*group, page_count as int, has_cover, keep_cover),
    ensures
        sides@.len() == step_count(*group),
        forall|j: int|
            0 <= j < sides@.len() ==> sides@[j] == sheet_side_spec(
                *group,
                j,
                binding_at_middle,
                page_count as int,
                has_cover,
                keep_cover,
            ),
{
    let half: u32 = (group.end_index - group.start_index) / 2;
    let mut sides: Vec<SheetSide> = Vec::new();
    let mut step: u32 = 0;
    while step < half
        invariant
            config_wf(page_count as int, has_cover, keep_cover),
            group_wf(*group, page_count as int, has_cover, keep_cover),
            half == step_count(*group),
            step <= half,
            sides@.len() == step,
            forall|j: int|
                0 <= j < sides@.len() ==> sides@[j] == sheet_side_spec(
                    *group,
                    j,
                    binding_at_middle,
                    page_count as int,
                    has_cover,
                    keep_cover,
                ),
        decreases half - step,
    {
        let side = sheet_side_at(group, step, binding_at_middle, page_count, has_cover, keep_cover);
        sides.push(side);
        step = step + 1;
    }
    sides
}

/// Every group the sequencer hands out is fit for imposition: the
/// sheet-side functions' preconditions hold of each one.
pub proof fn lemma_sequenced_groups_are_imposable(
    gs: Seq<BookletGroup>,
    plan: crate::plan::BookletConfig,
    page_count: int,
    has_cover: bool,
    keep_cover: bool,
)
    requires
        config_wf(page_count, has_cover, keep_cover),
        crate::plan::plan_wf(plan),
        crate::groups::group_seq_wf(gs, plan, page_count, has_cover, keep_cover),
    ensures
        forall|j: int|
            0 <= j < gs.len() ==> group_wf(#[trigger] gs[j], page_count, has_cover, keep_cover),
{
    crate::groups::lemma_group_sizes(gs, plan, page_count, has_cover, keep_cover);
    assert forall|j: int| 0 <= j < gs.len() implies group_wf(
        #[trigger] gs[j],
        page_count,
        has_cover,
        keep_cover,
    ) by {
        crate::groups::lemma_cum_zero(plan);
        crate::groups::lemma_cum_mono(plan, 0, j);
        assert(gs[j].start_index == first_index(has_cover, keep_cover)
            + crate::groups::cum_pages(plan, j));
        if has_cover && keep_cover && !gs[j].is_first {
            assert(j >= 1);
            crate::groups::lemma_cum_mono(plan, 1, j);
            crate::groups::lemma_cum_step(plan, 0);
        }
    }
}

/// Under saddle binding the emitted pairs visit every position of the
/// group exactly once: the low cursor strictly increases, the high
/// cursor strictly decreases, the low half and the high half never
/// overlap, and together the cursors reach each position in the group's
/// range within the group's half-size step count.
pub proof fn lemma_middle_pairing_visits_each_position_once(g: BookletGroup)
    requires
        g.start_index < g.end_index,
        (g.end_index - g.start_index) % 2 == 0,
    ensures
        forall|j1: int, j2: int|
            0 <= j1 < j2 < step_count(g) ==> low_position(g, j1) < low_position(g, j2)
                && high_position(g, j1, true) > high_position(g, j2, true),
        forall|j: int|
            0 <= j < step_count(g) ==> low_position(g, j) < g.start_index + step_count(g)
                <= #[trigger] high_position(g, j, true),
        forall|p: int|
            g.start_index <= p < g.start_index + step_count(g) ==> 0 <= p - g.start_index
                < step_count(g) && #[trigger] low_position(g, p - g.start_index) == p,
        forall|p: int|
            g.start_index + step_count(g) <= p < g.end_index ==> 0 <= g.end_index - 1 - p
                < step_count(g) && #[trigger] high_position(g, g.end_index - 1 - p, true) == p,
{
    let size = g.end_index - g.start_index;
    let half = step_count(g);
    assert(size == 2 * half) by {
        vstd::arithmetic::div_mod::lemma_fundamental_div_mod(size as int, 2);
    }
}

/// The front/back flag strictly alternates, starting front on the
/// first step of every group.
pub proof fn lemma_back_alternates(
    g: BookletGroup,
    binding_at_middle: bool,
    page_count: int,
    has_cover: bool,
    keep_cover: bool,
)
    ensures
        !sheet_side_spec(g, 0, binding_at_middle, page_count, has_cover, keep_cover).is_back,
        forall|step: int|
            step >= 0 ==> (#[trigger] sheet_side_spec(
                g,
                step + 1,
                binding_at_middle,
                page_count,
                has_cover,
                keep_cover,
            ).is_back) == !sheet_side_spec(
                g,
                step,
                binding_at_middle,
                page_count,
                has_cover,
                keep_cover,
            ).is_back,
{
    assert forall|step: int| step >= 0 implies (#[trigger] sheet_side_spec(
        g,
        step + 1,
        binding_at_middle,
        page_count,
        has_cover,
        keep_cover,
    ).is_back) == !sheet_side_spec(
        g,
        step,
        binding_at_middle,
        page_count,
        has_cover,
        keep_cover,
    ).is_back by {
        vstd::arithmetic::div_mod::lemma_fundamental_div_mod(step, 2);
        vstd::arithmetic::div_mod::lemma_fundamental_div_mod(step + 1, 2);
        vstd::arithmetic::div_mod::lemma_mod_division_less_than_divisor(step, 2);
        vstd::arithmetic::div_mod::lemma_mod_division_less_than_divisor(step + 1, 2);
    }
}

/// The rotation a page gets on a back face is the opposite of the
/// rotation the same half would give it on a front face, under either
/// binding.
pub proof fn lemma_back_rotation_opposite(binding_at_middle: bool)
    ensures
        low_rotation(true) == opposite_rotation(low_rotation(false)),
        high_rotation(true, binding_at_middle) == opposite_rotation(
            high_rotation(false, binding_at_middle),
        ),
{
}

/// Plans, sequences and imposes one whole document: every booklet
/// group paired with its ordered sheet sides, ready to be rendered and
/// written out one face at a time.
///
/// Succeeds exactly when `plan_booklets` does; the groups tile the
/// padded page space of the computed plan and each group carries the
/// sheet sides it emits.
pub fn impose_document(page_count: u32, rule: &BindingRule) -> (result: Result<
    Vec<(BookletGroup, Vec<SheetSide>)>,
    BookletError,
>)
    ensures
        ({
            let ok = plan_inputs_ok(
                page_count as int,
                rule.sheets_per_booklet as int,
                rule.has_cover,
                rule.keep_cover,
            );
            let plan = plan_spec(
                page_count as int,
                rule.sheets_per_booklet as int,
                rule.has_cover,
                rule.keep_cover,
            );
            &&& (result is Ok <==> ok)
            &&& result is Err ==> result->Err_0 == BookletError::ConfigurationError
            &&& result is Ok ==> {
                let items = result->Ok_0@;
                &&& group_seq_wf(
                    items.map_values(|pair: (BookletGroup, Vec<SheetSide>)| pair.0),
                    plan,
                    page_count as int,
                    rule.has_cover,
                    rule.keep_cover,
                )
                &&& forall|i: int|
                    0 <= i < items.len() ==> {
                        let g = (#[trigger] items[i]).0;
                        let sides = items[i].1@;
                        &&& sides.len() == step_count(g)
                        &&& forall|j: int|
                            0 <= j < sides.len() ==> sides[j] == sheet_side_spec(
                                g,
                                j,
                                rule.binding_at_middle,
                                page_count as int,
                                rule.has_cover,
                                rule.keep_cover,
                            )
                    }
            }
        }),
{
    let plan = match plan_booklets(page_count, rule) {
        Ok(plan) => plan,
        Err(error) => {
            return Err(error);
        },
    };
    let groups = sequence_groups(page_count, &plan, rule.has_cover, rule.keep_cover);
    proof {
        lemma_sequenced_groups_are_imposable(
            groups@,
            plan,
            page_count as int,
            rule.has_cover,
            rule.keep_cover,
        );
    }
    let mut items: Vec<(BookletGroup, Vec<SheetSide>)> = Vec::new();
    let mut i: usize = 0;
    while i < groups.len()
        invariant
            config_wf(page_count as int, rule.has_cover, rule.keep_cover),
            plan_wf(plan),
            group_seq_wf(groups@, plan, page_count as int, rule.has_cover, rule.keep_cover),
            forall|x: int|
                0 <= x < groups@.len() ==> group_wf(
                    #[trigger] groups@[x],
                    page_count as int,
                    rule.has_cover,
                    rule.keep_cover,
                ),
            i <= groups@.len(),
            items@.len() == i,
            forall|x: int| 0 <= x < i ==> (#[trigger] items@[x]).0 == groups@[x],
            forall|x: int|
                0 <= x < i ==> (#[trigger] items@[x]).1@.len() == step_count(items@[x].0),
            forall|x: int, j: int|
                0 <= x < i && 0 <= j < items@[x].1@.len() ==> #[trigger] items@[x].1@[j]
                    == sheet_side_spec(
                    items@[x].0,
                    j,
                    rule.binding_at_middle,
                    page_count as int,
                    rule.has_cover,
                    rule.keep_cover,
                ),
        decreases groups@.len() - i,
    {
        let g = groups[i];
        let sides = sequence_sheet_sides(
            &g,
            rule.binding_at_middle,
            page_count,
            rule.has_cover,
            rule.keep_cover,
        );
        items.push((g, sides));
        i = i + 1;
    }
    proof {
        assert(items@.map_values(|pair: (BookletGroup, Vec<SheetSide>)| pair.0) =~= groups@);
    }
    Ok(items)
}

/// Steps one group's sheet-side sequence as the caller-facing state
/// machine: the side at `step` while the group is active, or a
/// precondition violation once the group is done.
pub fn next_sheet_side(
    group: &BookletGroup,
    step: u32,
    binding_at_middle: bool,
    page_count: u32,
    has_cover: bool,
    keep_cover: bool,
) -> (result: Result<SheetSide, BookletError>)
    requires
        config_wf(page_count as int, has_cover, keep_cover),
        group_wf(*group, page_count as int, has_cover, keep_cover),
    ensures
        step < step_count(*group) ==> result == Ok::<SheetSide, BookletError>(
            sheet_side_spec(
                *group,
                step as int,
                binding_at_middle,
                page_count as int,
                has_cover,
                keep_cover,
            ),
        ),
        step >= step_count(*group) ==> result == Err::<SheetSide, BookletError>(
            BookletError::PreconditionViolation,
        ),
{
    let half: u32 = (group.end_index - group.start_index) / 2;
    if step >= half {
        return Err(BookletError::PreconditionViolation);
    }
    Ok(sheet_side_at(group, step, binding_at_middle, page_count, has_cover, keep_cover))
}

} // verus!
