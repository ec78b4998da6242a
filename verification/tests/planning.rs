use booklet_imposition::binding::BindingRule;
use booklet_imposition::groups::{sequence_groups, BookletGroup};
use booklet_imposition::plan::{calc_booklet_sheets, plan_booklets, BookletConfig};
use booklet_imposition::BookletError;

fn rule(sheets_per_booklet: usize, has_cover: bool, keep_cover: bool) -> BindingRule {
    let mut r = BindingRule::default();
    r.sheets_per_booklet = sheets_per_booklet;
    r.has_cover = has_cover;
    r.keep_cover = keep_cover;
    r
}

fn padded_total_of(page_count: u32, has_cover: bool, keep_cover: bool) -> u32 {
    let adjusted = if has_cover {
        if keep_cover {
            page_count + 2
        } else {
            page_count - 2
        }
    } else {
        page_count
    };
    (adjusted + 3) / 4 * 4
}

#[test]
fn forty_pages_ten_sheets_is_one_full_booklet() {
    let plan = plan_booklets(40, &rule(10, false, false)).unwrap();
    assert_eq!(
        plan,
        BookletConfig { booklet_sheets: 10, add_sheet_booklet_count: 0, tail_pad_page: 0 }
    );
    let groups = sequence_groups(40, &plan, false, false);
    assert_eq!(groups.len(), 1);
    assert_eq!(
        groups[0],
        BookletGroup { ordinal: 1, start_index: 0, end_index: 40, is_first: true, is_last: true }
    );
}

#[test]
fn thirty_eight_pages_pad_two_at_the_tail() {
    let plan = plan_booklets(38, &rule(10, false, false)).unwrap();
    assert_eq!(
        plan,
        BookletConfig { booklet_sheets: 10, add_sheet_booklet_count: 0, tail_pad_page: 2 }
    );
    let groups = sequence_groups(38, &plan, false, false);
    assert_eq!(groups.len(), 1);
    assert_eq!(groups[0].start_index, 0);
    assert_eq!(groups[0].end_index, 40);
}

#[test]
fn kept_cover_adds_two_blank_slots() {
    let plan = plan_booklets(202, &rule(10, true, true)).unwrap();
    assert_eq!(
        plan,
        BookletConfig { booklet_sheets: 10, add_sheet_booklet_count: 1, tail_pad_page: 0 }
    );
    let groups = sequence_groups(202, &plan, true, true);
    assert_eq!(groups.len(), 5);
    // the one extended booklet leads with eleven sheets
    assert_eq!(groups[0].start_index, 0);
    assert_eq!(groups[0].end_index, 44);
    assert_eq!(groups[1].start_index, 44);
    assert_eq!(groups[1].end_index, 84);
    assert_eq!(groups[4].end_index, 204);
    assert!(groups[0].is_first && !groups[0].is_last);
    assert!(groups[4].is_last && !groups[4].is_first);
}

#[test]
fn zero_sheets_per_booklet_is_a_configuration_error() {
    let result = plan_booklets(40, &rule(0, false, false));
    assert_eq!(result, Err(BookletError::ConfigurationError));
}

#[test]
fn zero_pages_is_a_configuration_error() {
    let result = plan_booklets(0, &rule(10, false, false));
    assert_eq!(result, Err(BookletError::ConfigurationError));
}

#[test]
fn cover_on_a_too_short_document_is_a_configuration_error() {
    assert_eq!(
        plan_booklets(1, &rule(10, true, true)),
        Err(BookletError::ConfigurationError)
    );
    assert_eq!(
        plan_booklets(2, &rule(10, true, false)),
        Err(BookletError::ConfigurationError)
    );
    assert!(plan_booklets(2, &rule(10, true, true)).is_ok());
    assert!(plan_booklets(3, &rule(10, true, false)).is_ok());
}

#[test]
fn values_past_the_maxima_are_configuration_errors() {
    assert_eq!(
        plan_booklets(u32::MAX, &rule(10, false, false)),
        Err(BookletError::ConfigurationError)
    );
    assert_eq!(
        plan_booklets(40, &rule(usize::MAX, false, false)),
        Err(BookletError::ConfigurationError)
    );
}

#[test]
fn planning_twice_gives_identical_plans() {
    let first = plan_booklets(97, &rule(7, true, false));
    let second = plan_booklets(97, &rule(7, true, false));
    assert_eq!(first, second);
    let first = plan_booklets(40, &rule(10, false, false));
    let second = plan_booklets(40, &rule(10, false, false));
    assert_eq!(first, second);
}

#[test]
fn short_trailing_booklet_is_spread_evenly() {
    // 68 pages at ten sheets: seventeen sheets over two booklets,
    // nine sheets leading, eight trailing
    let plan = calc_booklet_sheets(68, 10, false, false);
    assert_eq!(
        plan,
        BookletConfig { booklet_sheets: 8, add_sheet_booklet_count: 1, tail_pad_page: 0 }
    );
    let groups = sequence_groups(68, &plan, false, false);
    assert_eq!(groups.len(), 2);
    assert_eq!((groups[0].start_index, groups[0].end_index), (0, 36));
    assert_eq!((groups[1].start_index, groups[1].end_index), (36, 68));
}

#[test]
fn nearly_full_trailing_booklet_keeps_the_nominal_size() {
    // 36 pages at ten sheets: nine of ten sheets used, one short booklet
    let plan = calc_booklet_sheets(36, 10, false, false);
    assert_eq!(
        plan,
        BookletConfig { booklet_sheets: 10, add_sheet_booklet_count: 0, tail_pad_page: 0 }
    );
    let groups = sequence_groups(36, &plan, false, false);
    assert_eq!(groups.len(), 1);
    assert_eq!((groups[0].start_index, groups[0].end_index), (0, 36));
}

#[test]
fn leftover_sheets_go_one_each_to_leading_booklets() {
    // 96 pages at two sheets: twelve full booklets
    let plan = calc_booklet_sheets(96, 2, false, false);
    assert_eq!(plan.booklet_sheets, 2);
    assert_eq!(plan.add_sheet_booklet_count, 0);
    // 108 pages at two sheets: one leftover sheet extends the first booklet
    let plan = calc_booklet_sheets(108, 2, false, false);
    assert_eq!(
        plan,
        BookletConfig { booklet_sheets: 2, add_sheet_booklet_count: 1, tail_pad_page: 0 }
    );
    let groups = sequence_groups(108, &plan, false, false);
    assert_eq!(groups.len(), 13);
    assert_eq!(groups[0].end_index - groups[0].start_index, 12);
    for g in groups.iter().skip(1) {
        assert_eq!(g.end_index - g.start_index, 8);
    }
}

#[test]
fn stripped_cover_starts_the_first_group_at_one() {
    let plan = plan_booklets(40, &rule(10, true, false)).unwrap();
    assert_eq!(plan.tail_pad_page, 2);
    let groups = sequence_groups(40, &plan, true, false);
    assert_eq!(groups.len(), 1);
    assert_eq!((groups[0].start_index, groups[0].end_index), (1, 41));
}

#[test]
fn group_sizes_sum_to_the_padded_total() {
    // every group's size is a whole number of sheets and the groups
    // tile the padded page space, which is the smallest multiple of
    // four at or above the cover-adjusted count
    let cases: &[(u32, u32, bool, bool)] = &[
        (40, 10, false, false),
        (38, 10, false, false),
        (202, 10, true, true),
        (68, 10, false, false),
        (36, 10, false, false),
        (1, 1, false, false),
        (5, 1, true, true),
        (7, 2, true, false),
        (999, 3, false, false),
        (1000, 25, true, true),
    ];
    for &(pc, spb, hc, kc) in cases {
        let plan = calc_booklet_sheets(pc, spb, hc, kc);
        let groups = sequence_groups(pc, &plan, hc, kc);
        let padded = padded_total_of(pc, hc, kc);
        let adjusted = padded - plan.tail_pad_page;
        let first = if hc && !kc { 1 } else { 0 };
        let mut cursor = first;
        let mut size_sum = 0u32;
        for g in groups.iter() {
            assert_eq!(g.start_index, cursor, "groups must be contiguous");
            assert!(g.end_index > g.start_index);
            assert_eq!((g.end_index - g.start_index) % 4, 0);
            size_sum += g.end_index - g.start_index;
            cursor = g.end_index;
        }
        assert_eq!(cursor, first + padded);
        assert_eq!(size_sum, padded);
        assert_eq!((adjusted + plan.tail_pad_page) % 4, 0);
        assert!(plan.tail_pad_page < 4);
        assert!(padded >= adjusted && padded < adjusted + 4);
    }
}

#[test]
fn extension_never_outgrows_the_booklet_count() {
    let cases: &[(u32, u32, bool, bool)] = &[
        (40, 10, false, false),
        (108, 2, false, false),
        (68, 10, false, false),
        (202, 10, true, true),
        (999, 3, false, false),
        (123, 4, true, false),
    ];
    for &(pc, spb, hc, kc) in cases {
        let plan = calc_booklet_sheets(pc, spb, hc, kc);
        let groups = sequence_groups(pc, &plan, hc, kc);
        assert!((plan.add_sheet_booklet_count as usize) <= groups.len());
        // dealt sheet counts stay within one sheet of each other
        let sheets: Vec<u32> = (0..groups.len() as u32)
            .map(|i| plan.booklet_sheets + if i < plan.add_sheet_booklet_count { 1 } else { 0 })
            .collect();
        let max = sheets.iter().max().unwrap();
        let min = sheets.iter().min().unwrap();
        assert!(max - min <= 1);
    }
}
