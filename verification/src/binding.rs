//! Binding configuration: how one document is to be imposed.
//!
//! `BindingRule` carries the caller's choices — sheets per booklet,
//! binding style and cover handling — together with the input file and
//! output directory locations.  The engine never inspects a path's
//! contents; paths only travel through to the caller.

use std::path::PathBuf;
use vstd::prelude::*;

verus! {

/// `std::path::PathBuf`, declared so the configuration can carry file
/// locations; values of it are opaque to the engine.
#[verifier::external_type_specification]
#[verifier::external_body]
pub struct ExPathBuf(PathBuf);

/// Relies on `<PathBuf as Clone>::clone`: duplicates a path value.
#[verifier::external_body]
fn clone_path(path: &PathBuf) -> PathBuf {
    path.clone()
}

/// Relies on `PathBuf::new`: makes an empty path.
#[verifier::external_body]
fn empty_path() -> PathBuf {
    PathBuf::new()
}

/// Relies on `PathBuf::pop`: truncates the path to its parent component;
/// leaves the path as it was when it has no parent.
#[verifier::external_body]
fn path_pop(path: &mut PathBuf) -> bool {
    path.pop()
}

/// Relies on `PathBuf::push`: extends the path with one component.
#[verifier::external_body]
fn path_push(path: &mut PathBuf, component: &str) {
    path.push(component);
}

/// The caller's imposition choices for one document.
pub struct BindingRule {
    /// Source document location.
    pub input_path: PathBuf,
    /// Directory the finished booklets go to; defaults to an `out`
    /// folder beside the input file.
    pub output_dir: PathBuf,
    /// Sheets of paper per booklet; each sheet carries four logical pages.
    pub sheets_per_booklet: usize,
    /// True for saddle binding (sheets nested and folded at the middle);
    /// false for edge binding (sheets cut and stacked).
    pub binding_at_middle: bool,
    /// The document's first and last page are a physical cover.
    pub has_cover: bool,
    /// Meaningful only with `has_cover`: the cover stays part of the
    /// printed booklets rather than being stripped before imposition.
    pub keep_cover: bool,
}

impl Default for BindingRule {
    /// Ten sheets per booklet, saddle binding, no cover, empty paths.
    fn default() -> (rule: Self)
        ensures
            rule.sheets_per_booklet == 10,
            rule.binding_at_middle,
            !rule.has_cover,
            !rule.keep_cover,
    {
        BindingRule {
            input_path: empty_path(),
            output_dir: empty_path(),
            sheets_per_booklet: 10,
            binding_at_middle: true,
            has_cover: false,
            keep_cover: false,
        }
    }
}

impl BindingRule {
    /// A default rule for one input document, with the output directory
    /// set to an `out` folder beside the input file.
    pub fn new(input_path: &PathBuf) -> (rule: Self)
        ensures
            rule.sheets_per_booklet == 10,
            rule.binding_at_middle,
            !rule.has_cover,
            !rule.keep_cover,
    {
        let mut output_dir = clone_path(input_path);
        let _ = path_pop(&mut output_dir);
        path_push(&mut output_dir, "out");
        let defaults = BindingRule::default();
        BindingRule {
            input_path: clone_path(input_path),
            output_dir,
            sheets_per_booklet: defaults.sheets_per_booklet,
            binding_at_middle: defaults.binding_at_middle,
            has_cover: defaults.has_cover,
            keep_cover: defaults.keep_cover,
        }
    }

    /// Replaces the output directory when the caller chose one; every
    /// other choice is kept.
    pub fn set_output_path(self, out_path: &Option<PathBuf>) -> (rule: Self)
        ensures
            rule.sheets_per_booklet == self.sheets_per_booklet,
            rule.binding_at_middle == self.binding_at_middle,
            rule.has_cover == self.has_cover,
            rule.keep_cover == self.keep_cover,
    {
        match out_path {
            Some(path) => BindingRule { output_dir: clone_path(path), ..self },
            None => self,
        }
    }
}

} // verus!
