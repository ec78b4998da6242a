//! Booklet planning: distributing a page count over booklets.
//!
//! Given the total page count and the desired sheets per booklet, the
//! planner computes how many sheets an ordinary booklet gets, how many
//! leading booklets receive one extra sheet, and how many blank filler
//! pages pad the tail so that the padded page count is a multiple of
//! four (one sheet carries four logical pages: two sides of two pages).

use vstd::arithmetic::div_mod::{
    lemma_div_is_ordered, lemma_div_is_ordered_by_denominator, lemma_div_multiples_vanish,
    lemma_div_pos_is_pos, lemma_fundamental_div_mod, lemma_mod_division_less_than_divisor,
    lemma_mod_multiples_basic,
};
use vstd::prelude::*;

use crate::binding::BindingRule;
use crate::{config_wf, BookletError, MAX_PAGE_COUNT, MAX_SHEETS_PER_BOOKLET};

verus! {

/// Distribution plan for one document: how the padded page count is
/// spread over booklets.
#[derive(Clone, Copy, Debug, PartialEq, Eq, Structural)]
pub struct BookletConfig {
    /// Sheets in an ordinary booklet.
    pub booklet_sheets: u32,
    /// Number of leading booklets that receive `booklet_sheets + 1`
    /// sheets instead, dissolving an otherwise short trailing booklet.
    pub add_sheet_booklet_count: u32,
    /// Blank filler pages appended so the padded page count is a
    /// multiple of four; always between 0 and 3.
    pub tail_pad_page: u32,
}

/// Page count after the cover adjustment: a kept cover needs two extra
/// blank slots for the reverse faces of the two cover pages; a stripped
/// cover removes its two pages from imposition.
pub open spec fn cover_adjusted_count(page_count: int, has_cover: bool, keep_cover: bool) -> int {
    if has_cover {
        if keep_cover {
            page_count + 2
        } else {
            page_count - 2
        }
    } else {
        page_count
    }
}

/// The adjusted count rounded up to the next multiple of four.
pub open spec fn padded_total(adjusted: int) -> int {
    ((adjusted + 3) / 4) * 4
}

/// Blank filler slots appended at the tail; the difference between the
/// padded total and the adjusted count.
pub open spec fn tail_pad(adjusted: int) -> int {
    padded_total(adjusted) - adjusted
}

/// The plan the engine owes for the given inputs.
///
/// With `total` the padded page count and `r` its remainder against the
/// pages one booklet holds, the tie-break policy for `r` is, in order:
/// give the `r / 4` leftover sheets one each to the leading booklets when
/// the booklet count allows; otherwise, when the remainder is under three
/// quarters of a booklet, add one booklet and spread the sheets evenly,
/// the residue again going one sheet each to the leading booklets;
/// otherwise keep the nominal size with no extension and let the short
/// trailing booklet stand.
pub open spec fn plan_spec(
    page_count: int,
    sheets_per_booklet: int,
    has_cover: bool,
    keep_cover: bool,
) -> BookletConfig {
    let adjusted = cover_adjusted_count(page_count, has_cover, keep_cover);
    let total = padded_total(adjusted);
    let tail = tail_pad(adjusted);
    let pages_per_booklet = sheets_per_booklet * 4;
    let whole_booklets = total / pages_per_booklet;
    let remainder_pages = total % pages_per_booklet;
    if remainder_pages / 4 <= whole_booklets {
        BookletConfig {
            booklet_sheets: sheets_per_booklet as u32,
            add_sheet_booklet_count: (remainder_pages / 4) as u32,
            tail_pad_page: tail as u32,
        }
    } else if remainder_pages * 4 < pages_per_booklet * 3 {
        let total_sheets = total / 4;
        BookletConfig {
            booklet_sheets: (total_sheets / (whole_booklets + 1)) as u32,
            add_sheet_booklet_count: (total_sheets % (whole_booklets + 1)) as u32,
            tail_pad_page: tail as u32,
        }
    } else {
        BookletConfig {
            booklet_sheets: sheets_per_booklet as u32,
            add_sheet_booklet_count: 0,
            tail_pad_page: tail as u32,
        }
    }
}

/// Bounds every plan the engine hands out satisfies.
pub open spec fn plan_wf(plan: BookletConfig) -> bool {
    &&& 1 <= plan.booklet_sheets <= MAX_SHEETS_PER_BOOKLET
    &&& plan.tail_pad_page <= 3
    &&& plan.add_sheet_booklet_count <= MAX_PAGE_COUNT / 4 + 2
}

/// The padded total is the smallest multiple of four that is at least
/// the adjusted count.
pub proof fn lemma_padded_total_bounds(adjusted: int)
    requires
        adjusted >= 0,
    ensures
        adjusted <= padded_total(adjusted) < adjusted + 4,
        padded_total(adjusted) % 4 == 0,
        0 <= tail_pad(adjusted) <= 3,
{
    lemma_fundamental_div_mod(adjusted + 3, 4);
    lemma_mod_division_less_than_divisor(adjusted + 3, 4);
    lemma_mod_multiples_basic((adjusted + 3) / 4, 4);
    vstd::arithmetic::mul::lemma_mul_is_commutative(4, (adjusted + 3) / 4);
}

/// A multiple of four split into booklet-sized chunks leaves a remainder
/// that is itself a multiple of four, and the total sheet count splits
/// accordingly.
pub proof fn lemma_remainder_sheets(total: int, spb: int)
    requires
        1 <= spb,
        total >= 0,
        total % 4 == 0,
    ensures
        (total % (spb * 4)) % 4 == 0,
        total / 4 == (total / (spb * 4)) * spb + (total % (spb * 4)) / 4,
        0 <= total % (spb * 4) < spb * 4,
        0 <= total / (spb * 4),
{
    let ppb = spb * 4;
    let k = total / ppb;
    let r = total % ppb;
    let s = total / 4;
    assert(ppb >= 4) by (nonlinear_arith)
        requires
            1 <= spb,
            ppb == spb * 4,
    ;
    lemma_fundamental_div_mod(total, ppb);
    lemma_mod_division_less_than_divisor(total, ppb);
    lemma_div_pos_is_pos(total, ppb);
    lemma_fundamental_div_mod(total, 4);
    assert(total == 4 * s);
    assert(ppb * k == 4 * (spb * k)) by (nonlinear_arith)
        requires
            ppb == spb * 4,
    ;
    let m = s - spb * k;
    assert(r == 4 * m);
    assert(m >= 0);
    lemma_div_multiples_vanish(m, 4);
    assert(r / 4 == m);
    lemma_mod_multiples_basic(m, 4);
    vstd::arithmetic::mul::lemma_mul_is_commutative(m, 4);
    assert(r % 4 == 0);
    assert(s == k * spb + r / 4) by {
        vstd::arithmetic::mul::lemma_mul_is_commutative(spb, k);
    }
}

/// In the second tie-break branch the recomputed nominal sheet count is
/// between 1 and the requested sheets per booklet.
pub proof fn lemma_branch_two_bounds(total: int, spb: int)
    requires
        1 <= spb,
        total >= 4,
        total % 4 == 0,
        (total % (spb * 4)) / 4 > total / (spb * 4),
    ensures
        1 <= (total / 4) / (total / (spb * 4) + 1),
        (total / 4) / (total / (spb * 4) + 1) <= spb,
{
    let ppb = spb * 4;
    let k = total / ppb;
    let r = total % ppb;
    let s = total / 4;
    let q = r / 4;
    let n = s / (k + 1);
    lemma_remainder_sheets(total, spb);
    assert(s == k * spb + q);
    assert(q >= k + 1);
    assert(k >= 0);
    assert(k * spb >= 0) by (nonlinear_arith)
        requires
            k >= 0,
            spb >= 1,
    ;
    assert(s >= k + 1);
    // q <= spb - 1: the remainder is a positive multiple of four below ppb.
    assert(r <= ppb - 4);
    lemma_div_is_ordered(r, ppb - 4, 4);
    lemma_div_multiples_vanish(spb - 1, 4);
    assert(4 * (spb - 1) == ppb - 4);
    assert(q <= spb - 1);
    // n >= 1.
    lemma_fundamental_div_mod(s, k + 1);
    lemma_mod_division_less_than_divisor(s, k + 1);
    assert(s == (k + 1) * n + s % (k + 1));
    if n < 1 {
        lemma_div_pos_is_pos(s, k + 1);
        assert(n == 0);
        assert((k + 1) * n == 0) by (nonlinear_arith)
            requires
                n == 0,
        ;
        assert(s == s % (k + 1));
        assert(false);
    }
    // n <= spb.
    assert(s < (k + 1) * spb + 1) by (nonlinear_arith)
        requires
            s == k * spb + q,
            q <= spb - 1,
            k >= 0,
            spb >= 1,
    ;
    if n > spb {
        assert((k + 1) * n >= (k + 1) * (spb + 1)) by (nonlinear_arith)
            requires
                n >= spb + 1,
                k >= 0,
        ;
        assert((k + 1) * (spb + 1) > (k + 1) * spb) by (nonlinear_arith)
            requires
                k >= 0,
        ;
        assert(false);
    }
}

/// The computed plan satisfies the bounds of `plan_wf`.
pub proof fn lemma_plan_spec_wf(
    page_count: int,
    sheets_per_booklet: int,
    has_cover: bool,
    keep_cover: bool,
)
    requires
        config_wf(page_count, has_cover, keep_cover),
        1 <= sheets_per_booklet <= MAX_SHEETS_PER_BOOKLET,
    ensures
        plan_wf(plan_spec(page_count, sheets_per_booklet, has_cover, keep_cover)),
{
    let adjusted = cover_adjusted_count(page_count, has_cover, keep_cover);
    let total = padded_total(adjusted);
    let ppb = sheets_per_booklet * 4;
    let k = total / ppb;
    let r = total % ppb;
    lemma_padded_total_bounds(adjusted);
    assert(1 <= adjusted && adjusted <= MAX_PAGE_COUNT + 2);
    lemma_remainder_sheets(total, sheets_per_booklet);
    lemma_div_is_ordered_by_denominator(total, 4, ppb);
    lemma_div_is_ordered(total, MAX_PAGE_COUNT + 5, 4);
    assert(k <= total / 4);
    assert(total / 4 <= (MAX_PAGE_COUNT + 5) / 4);
    if r / 4 <= k {
        lemma_div_pos_is_pos(r, 4);
    } else if r * 4 < ppb * 3 {
        lemma_branch_two_bounds(total, sheets_per_booklet);
        lemma_mod_division_less_than_divisor(total / 4, k + 1);
        lemma_div_pos_is_pos(total / 4, k + 1);
        assert(total / 4 <= MAX_PAGE_COUNT / 4 + 2);
    } else {
    }
}

/// The inputs describe a booklet run the engine can carry out.
pub open spec fn plan_inputs_ok(
    page_count: int,
    sheets_per_booklet: int,
    has_cover: bool,
    keep_cover: bool,
) -> bool {
    &&& config_wf(page_count, has_cover, keep_cover)
    &&& 1 <= sheets_per_booklet <= MAX_SHEETS_PER_BOOKLET
}

/// Checks the configuration and computes the distribution plan.
///
/// Succeeds exactly when the inputs describe a booklet run: at least one
/// page and one sheet per booklet, both within the supported maxima, and
/// a document long enough for its cover flags.  Everything else is a
/// configuration error; the plan itself never fails.
pub fn plan_booklets(page_count: u32, rule: &BindingRule) -> (result: Result<
    BookletConfig,
    BookletError,
>)
    ensures
        plan_inputs_ok(
            page_count as int,
            rule.sheets_per_booklet as int,
            rule.has_cover,
            rule.keep_cover,
        ) ==> result == Ok::<BookletConfig, BookletError>(
            plan_spec(
                page_count as int,
                rule.sheets_per_booklet as int,
                rule.has_cover,
                rule.keep_cover,
            ),
        ),
        !plan_inputs_ok(
            page_count as int,
            rule.sheets_per_booklet as int,
            rule.has_cover,
            rule.keep_cover,
        ) ==> result == Err::<BookletConfig, BookletError>(BookletError::ConfigurationError),
        result is Ok ==> plan_wf(result->Ok_0),
{
    if rule.sheets_per_booklet == 0 || rule.sheets_per_booklet > MAX_SHEETS_PER_BOOKLET as usize {
        return Err(BookletError::ConfigurationError);
    }
    if page_count == 0 || page_count > MAX_PAGE_COUNT {
        return Err(BookletError::ConfigurationError);
    }
    if rule.has_cover && page_count < 2 {
        return Err(BookletError::ConfigurationError);
    }
    if rule.has_cover && !rule.keep_cover && page_count < 3 {
        return Err(BookletError::ConfigurationError);
    }
    let sheets: u32 = rule.sheets_per_booklet as u32;
    Ok(calc_booklet_sheets(page_count, sheets, rule.has_cover, rule.keep_cover))
}

/// Planning is a pure function of its inputs: two plans computed from
/// identical inputs are identical.
pub proof fn lemma_plan_idempotent(
    page_count: int,
    sheets_per_booklet: int,
    has_cover: bool,
    keep_cover: bool,
    first: BookletConfig,
    second: BookletConfig,
)
    requires
        first == plan_spec(page_count, sheets_per_booklet, has_cover, keep_cover),
        second == plan_spec(page_count, sheets_per_booklet, has_cover, keep_cover),
    ensures
        first == second,
{
}

/// Computes the distribution plan for one document.
///
/// `page_count` is the source page count before the cover adjustment;
/// the adjustment and the padding to a whole-sheet boundary happen here.
pub fn calc_booklet_sheets(
    page_count: u32,
    sheets_per_booklet: u32,
    has_cover: bool,
    keep_cover: bool,
) -> (plan: BookletConfig)
    requires
        config_wf(page_count as int, has_cover, keep_cover),
        1 <= sheets_per_booklet <= MAX_SHEETS_PER_BOOKLET,
    ensures
        plan == plan_spec(page_count as int, sheets_per_booklet as int, has_cover, keep_cover),
        plan_wf(plan),
{
    proof {
        lemma_plan_spec_wf(page_count as int, sheets_per_booklet as int, has_cover, keep_cover);
    }
    let adjusted: u32 = if has_cover {
        if keep_cover {
            page_count + 2
        } else {
            page_count - 2
        }
    } else {
        page_count
    };
    proof {
        lemma_padded_total_bounds(adjusted as int);
    }
    let total: u32 = ((adjusted + 3) / 4) * 4;
    let last_add: u32 = total - adjusted;
    let pages_per_booklet: u32 = sheets_per_booklet * 4;
    let whole_booklets: u32 = total / pages_per_booklet;
    let remainder_pages: u32 = total % pages_per_booklet;
    proof {
        lemma_remainder_sheets(total as int, sheets_per_booklet as int);
        lemma_div_is_ordered_by_denominator(total as int, 4, pages_per_booklet as int);
    }
    if remainder_pages / 4 <= whole_booklets {
        BookletConfig {
            booklet_sheets: sheets_per_booklet,
            add_sheet_booklet_count: remainder_pages / 4,
            tail_pad_page: last_add,
        }
    } else if remainder_pages * 4 < pages_per_booklet * 3 {
        let total_sheets: u32 = total / 4;
        let booklet_count: u32 = whole_booklets + 1;
        BookletConfig {
            booklet_sheets: total_sheets / booklet_count,
            add_sheet_booklet_count: total_sheets % booklet_count,
            tail_pad_page: last_add,
        }
    } else {
        BookletConfig {
            booklet_sheets: sheets_per_booklet,
            add_sheet_booklet_count: 0,
            tail_pad_page: last_add,
        }
    }
}

} // verus!
