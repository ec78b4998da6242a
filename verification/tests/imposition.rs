use booklet_imposition::groups::{sequence_groups, BookletGroup};
use booklet_imposition::imposition::{
    calc_sheet_lh_page_idx, impose_document, next_sheet_side, resolve_group_kind,
    sequence_sheet_sides, GroupKind, PageRef, Rotation, SheetSide,
};
use booklet_imposition::plan::calc_booklet_sheets;
use booklet_imposition::BookletError;

fn body_group(start: u32, end: u32) -> BookletGroup {
    BookletGroup { ordinal: 1, start_index: start, end_index: end, is_first: true, is_last: true }
}

#[test]
fn saddle_pairing_nests_from_the_ends_inward() {
    // positions pair (0,39), (1,38), ... inward; back faces on odd steps
    assert_eq!(calc_sheet_lh_page_idx(0, 0, 40, true), Some((0, 39, false)));
    assert_eq!(calc_sheet_lh_page_idx(1, 0, 40, true), Some((1, 38, true)));
    assert_eq!(calc_sheet_lh_page_idx(19, 0, 40, true), Some((19, 20, true)));
    assert_eq!(calc_sheet_lh_page_idx(20, 0, 40, true), None);
    assert_eq!(calc_sheet_lh_page_idx(40, 0, 40, true), None);
}

#[test]
fn edge_pairing_runs_the_two_halves_in_parallel() {
    assert_eq!(calc_sheet_lh_page_idx(0, 0, 40, false), Some((0, 20, false)));
    assert_eq!(calc_sheet_lh_page_idx(1, 0, 40, false), Some((1, 21, true)));
    assert_eq!(calc_sheet_lh_page_idx(19, 0, 40, false), Some((19, 39, true)));
    assert_eq!(calc_sheet_lh_page_idx(20, 0, 40, false), None);
}

#[test]
fn saddle_group_visits_each_position_exactly_once() {
    let (start, end) = (8u32, 32u32);
    let mut seen = vec![0u32; 40];
    let mut last_low: Option<u32> = None;
    let mut last_high: Option<u32> = None;
    let mut steps: u32 = 0;
    let mut page_idx = start;
    while let Some((low, high, _)) = calc_sheet_lh_page_idx(page_idx, start, end, true) {
        seen[low as usize] += 1;
        seen[high as usize] += 1;
        if let Some(prev) = last_low {
            assert!(low > prev, "low cursor must strictly increase");
        }
        if let Some(prev) = last_high {
            assert!(high < prev, "high cursor must strictly decrease");
        }
        last_low = Some(low);
        last_high = Some(high);
        steps += 1;
        page_idx += 1;
    }
    assert_eq!(steps, (end - start) / 2);
    for pos in 0..40u32 {
        let expected = if (start..end).contains(&pos) { 1 } else { 0 };
        assert_eq!(seen[pos as usize], expected, "position {} visited wrongly", pos);
    }
}

#[test]
fn back_flag_alternates_starting_front() {
    let group = body_group(0, 40);
    for &middle in &[true, false] {
        let sides = sequence_sheet_sides(&group, middle, 40, false, false);
        assert_eq!(sides.len(), 20);
        for (j, side) in sides.iter().enumerate() {
            assert_eq!(side.is_back, j % 2 == 1);
        }
    }
}

#[test]
fn back_faces_turn_opposite_to_front_faces() {
    let group = body_group(0, 40);
    let saddle = sequence_sheet_sides(&group, true, 40, false, false);
    // saddle binding: both halves of a face turn the same way
    assert_eq!(saddle[0].low, PageRef::Real { index: 0, rotation: Rotation::Cw90 });
    assert_eq!(saddle[0].high, PageRef::Real { index: 39, rotation: Rotation::Cw90 });
    assert_eq!(saddle[1].low, PageRef::Real { index: 1, rotation: Rotation::Ccw90 });
    assert_eq!(saddle[1].high, PageRef::Real { index: 38, rotation: Rotation::Ccw90 });
    let edge = sequence_sheet_sides(&group, false, 40, false, false);
    // edge binding: the top half turns against the bottom half
    assert_eq!(edge[0].low, PageRef::Real { index: 0, rotation: Rotation::Cw90 });
    assert_eq!(edge[0].high, PageRef::Real { index: 20, rotation: Rotation::Ccw90 });
    assert_eq!(edge[1].low, PageRef::Real { index: 1, rotation: Rotation::Ccw90 });
    assert_eq!(edge[1].high, PageRef::Real { index: 21, rotation: Rotation::Cw90 });
}

#[test]
fn tail_padding_prints_blank() {
    // 38 real pages in a 40-position group: positions 38 and 39 are blank
    let group = body_group(0, 40);
    let saddle = sequence_sheet_sides(&group, true, 38, false, false);
    assert_eq!(saddle[0].low, PageRef::Real { index: 0, rotation: Rotation::Cw90 });
    assert_eq!(saddle[0].high, PageRef::Blank);
    assert_eq!(saddle[1].high, PageRef::Blank);
    assert_eq!(saddle[2].high, PageRef::Real { index: 37, rotation: Rotation::Cw90 });
    // under edge binding the padding meets the end of the top half
    let edge = sequence_sheet_sides(&group, false, 38, false, false);
    let last = edge.last().unwrap();
    assert_eq!(last.low, PageRef::Real { index: 19, rotation: Rotation::Ccw90 });
    assert_eq!(last.high, PageRef::Blank);
    assert!(last.is_back);
}

#[test]
fn kept_cover_first_side_pairs_blank_with_the_cover() {
    let plan = calc_booklet_sheets(202, 10, true, true);
    let groups = sequence_groups(202, &plan, true, true);
    let first_sides = sequence_sheet_sides(&groups[0], true, 202, true, true);
    assert_eq!(first_sides.len(), 22);
    let side = first_sides[0];
    assert_eq!(side.low, PageRef::Blank);
    assert_eq!(side.high, PageRef::Real { index: 0, rotation: Rotation::Cw90 });
    assert!(!side.is_back);
    // the last group's outermost face carries the back cover on top
    let last_sides = sequence_sheet_sides(&groups[4], true, 202, true, true);
    assert_eq!(last_sides[0].high, PageRef::Real { index: 201, rotation: Rotation::Cw90 });
}

#[test]
fn kept_cover_pages_appear_exactly_once() {
    let (pc, spb) = (6u32, 1u32);
    let plan = calc_booklet_sheets(pc, spb, true, true);
    let groups = sequence_groups(pc, &plan, true, true);
    assert_eq!(groups.len(), 2);
    let mut seen = vec![0u32; pc as usize];
    let mut all: Vec<SheetSide> = Vec::new();
    for g in groups.iter() {
        for side in sequence_sheet_sides(g, true, pc, true, true) {
            for half in [side.low, side.high] {
                if let PageRef::Real { index, .. } = half {
                    seen[index as usize] += 1;
                }
            }
            all.push(side);
        }
    }
    for (page, count) in seen.iter().enumerate() {
        assert_eq!(*count, 1, "page {} printed {} times", page, count);
    }
    // cover front on the first face, body pages nested behind it
    assert_eq!(all[0].low, PageRef::Blank);
    assert_eq!(all[0].high, PageRef::Real { index: 0, rotation: Rotation::Cw90 });
    assert_eq!(all[1].low, PageRef::Real { index: 1, rotation: Rotation::Ccw90 });
    assert_eq!(all[1].high, PageRef::Real { index: 2, rotation: Rotation::Ccw90 });
    // back cover on the last group's outer face
    assert_eq!(all[2].low, PageRef::Real { index: 3, rotation: Rotation::Cw90 });
    assert_eq!(all[2].high, PageRef::Real { index: 5, rotation: Rotation::Cw90 });
    assert_eq!(all[3].low, PageRef::Real { index: 4, rotation: Rotation::Ccw90 });
    assert_eq!(all[3].high, PageRef::Blank);
}

#[test]
fn single_group_kept_cover_shares_the_outer_face() {
    let plan = calc_booklet_sheets(2, 1, true, true);
    let groups = sequence_groups(2, &plan, true, true);
    assert_eq!(groups.len(), 1);
    assert_eq!(resolve_group_kind(&groups[0], true, true), GroupKind::FirstAndLast);
    let sides = sequence_sheet_sides(&groups[0], true, 2, true, true);
    assert_eq!(sides.len(), 2);
    // back cover below, front cover above, blank reverse
    assert_eq!(sides[0].low, PageRef::Real { index: 1, rotation: Rotation::Cw90 });
    assert_eq!(sides[0].high, PageRef::Real { index: 0, rotation: Rotation::Cw90 });
    assert_eq!(sides[1].low, PageRef::Blank);
    assert_eq!(sides[1].high, PageRef::Blank);
}

#[test]
fn stripped_cover_pages_never_print() {
    let pc = 12u32;
    let plan = calc_booklet_sheets(pc, 10, true, false);
    let groups = sequence_groups(pc, &plan, true, false);
    let mut seen = vec![0u32; pc as usize];
    for g in groups.iter() {
        for side in sequence_sheet_sides(g, true, pc, true, false) {
            for half in [side.low, side.high] {
                if let PageRef::Real { index, .. } = half {
                    seen[index as usize] += 1;
                }
            }
        }
    }
    assert_eq!(seen[0], 0, "front cover must be stripped");
    assert_eq!(seen[(pc - 1) as usize], 0, "back cover must be stripped");
    for page in 1..(pc - 1) as usize {
        assert_eq!(seen[page], 1, "body page {} printed {} times", page, seen[page]);
    }
}

#[test]
fn group_kinds_resolve_from_the_flags() {
    let mut g = body_group(0, 8);
    g.is_last = false;
    assert_eq!(resolve_group_kind(&g, true, true), GroupKind::FirstWithCover);
    assert_eq!(resolve_group_kind(&g, true, false), GroupKind::Body);
    assert_eq!(resolve_group_kind(&g, false, false), GroupKind::Body);
    let g2 = BookletGroup { ordinal: 3, start_index: 16, end_index: 24, is_first: false, is_last: true };
    assert_eq!(resolve_group_kind(&g2, true, true), GroupKind::LastWithCover);
    let g3 = BookletGroup { ordinal: 2, start_index: 8, end_index: 16, is_first: false, is_last: false };
    assert_eq!(resolve_group_kind(&g3, true, true), GroupKind::Body);
    assert_eq!(resolve_group_kind(&body_group(0, 8), true, true), GroupKind::FirstAndLast);
}

#[test]
fn impose_document_pairs_each_group_with_its_sides() {
    let mut rule = booklet_imposition::binding::BindingRule::default();
    rule.sheets_per_booklet = 10;
    let items = impose_document(40, &rule).unwrap();
    assert_eq!(items.len(), 1);
    let (group, sides) = &items[0];
    assert_eq!((group.start_index, group.end_index), (0, 40));
    assert_eq!(sides.len(), 20);
    assert_eq!(sides[0].low, PageRef::Real { index: 0, rotation: Rotation::Cw90 });
    assert_eq!(sides[0].high, PageRef::Real { index: 39, rotation: Rotation::Cw90 });
    rule.sheets_per_booklet = 0;
    assert_eq!(impose_document(40, &rule), Err(BookletError::ConfigurationError));
}

#[test]
fn stepping_a_finished_group_is_a_precondition_violation() {
    let group = body_group(0, 8);
    assert!(next_sheet_side(&group, 0, true, 8, false, false).is_ok());
    assert!(next_sheet_side(&group, 3, true, 8, false, false).is_ok());
    assert_eq!(
        next_sheet_side(&group, 4, true, 8, false, false),
        Err(BookletError::PreconditionViolation)
    );
    assert_eq!(
        next_sheet_side(&group, 100, true, 8, false, false),
        Err(BookletError::PreconditionViolation)
    );
}
