//! Booklet imposition engine.
//!
//! Converts a linear document of pages into printable booklets: it partitions
//! a page count into balanced booklet groups, decides which two logical pages
//! land on every physical sheet side and in which orientation, and handles
//! cover pages and tail padding so that every group aligns to whole-sheet
//! boundaries.  The engine is purely computational; rendering pages and
//! writing output documents are left to the callers.

use vstd::prelude::*;

pub mod binding;
pub mod groups;
pub mod imposition;
pub mod plan;
pub mod split;

verus! {

/// Largest page count the engine accepts, so that padding arithmetic
/// stays within `u32`.
pub const MAX_PAGE_COUNT: u32 = 0xFFFF_FFF0;

/// Largest sheets-per-booklet value the engine accepts, so that the
/// pages-per-booklet arithmetic stays within `u32`.
pub const MAX_SHEETS_PER_BOOKLET: u32 = 0x0FFF_FFFF;

/// The ways a caller can misuse the engine.
#[derive(Clone, Copy, Debug, PartialEq, Eq, Structural)]
pub enum BookletError {
    /// The configuration cannot describe a booklet run: zero pages, zero
    /// sheets per booklet, a value past the supported maxima, or a cover
    /// flag on a document too short to have a cover.
    ConfigurationError,
    /// A generator was stepped past its end; a caller bug, never produced
    /// by the engine itself.
    PreconditionViolation,
}

/// The page count and cover flags describe a document the engine can impose.
pub open spec fn config_wf(page_count: int, has_cover: bool, keep_cover: bool) -> bool {
    &&& 1 <= page_count <= MAX_PAGE_COUNT
    &&& has_cover ==> page_count >= 2
    &&& (has_cover && !keep_cover) ==> page_count >= 3
}

} // verus!
