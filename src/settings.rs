//! How conflicts are displayed: marker size, style and revision names.

use vstd::prelude::*;

verus! {

/// The marker size that conflicts are displayed with unless told otherwise.
pub const DEFAULT_CONFLICT_MARKER_SIZE: usize = 7;

/// Settings that decide how a merge with conflicts is rendered.
#[derive(Clone, Debug)]
pub struct DisplaySettings {
    /// Whether conflicts show the base revision between `|||||||` and `=======`
    pub diff3: bool,
    /// Whether conflicts are displayed compactly
    pub compact: bool,
    /// How many times each marker character is repeated
    pub conflict_marker_size: usize,
    /// The name of the base revision in conflict markers
    pub base_revision_name: String,
    /// The name of the left revision in conflict markers
    pub left_revision_name: String,
    /// The name of the right revision in conflict markers
    pub right_revision_name: String,
}

impl DisplaySettings {
    /// Settings with base, left and right as names, diff3 style and markers of size seven.
    pub fn new() -> (r: DisplaySettings)
        ensures
            r.diff3,
            !r.compact,
            r.conflict_marker_size == DEFAULT_CONFLICT_MARKER_SIZE,
            r.base_revision_name@ == "base"@,
            r.left_revision_name@ == "left"@,
            r.right_revision_name@ == "right"@,
    {
        DisplaySettings {
            diff3: true,
            compact: false,
            conflict_marker_size: DEFAULT_CONFLICT_MARKER_SIZE,
            base_revision_name: String::from_str("base"),
            left_revision_name: String::from_str("left"),
            right_revision_name: String::from_str("right"),
        }
    }
}

impl Default for DisplaySettings {
    /// The settings of `DisplaySettings::new`.
    fn default() -> (r: DisplaySettings)
        ensures
            r.diff3,
            !r.compact,
            r.conflict_marker_size == DEFAULT_CONFLICT_MARKER_SIZE,
            r.base_revision_name@ == "base"@,
            r.left_revision_name@ == "left"@,
            r.right_revision_name@ == "right"@,
    {
        DisplaySettings::new()
    }
}

} // verus!
