//! The run's options and the code regions that a fix removes.

use vstd::prelude::*;

verus! {

/// The options of one run. Each list option holds every value given for it
/// (after comma splitting and the `pyproject.toml` merge).
#[derive(Debug, Clone)]
pub struct Args {
    pub paths: Vec<String>,
    pub fix: bool,
    pub dry: bool,
    pub only: Vec<String>,
    pub exclude: Vec<String>,
    pub ignore_definitions: Vec<String>,
    pub ignore_definitions_if_decorated_with: Vec<String>,
    pub ignore_definitions_if_inherits_from: Vec<String>,
    pub ignore_bodies_of: Vec<String>,
    pub ignore_bodies_if_decorated_with: Vec<String>,
    pub ignore_bodies_if_inherits_from: Vec<String>,
    pub ignore_if_decorated_with: Vec<String>,
    pub ignore_if_inherits_from: Vec<String>,
    pub ignore_names: Vec<String>,
    pub ignore_names_if_decorated_with: Vec<String>,
    pub ignore_names_if_inherits_from: Vec<String>,
    pub ignore_names_in_files: Vec<String>,
    pub ignore_non_self_attributes: bool,
    pub ignore_class_attributes: bool,
    pub tach_config: Vec<String>,
    pub no_color: bool,
    pub quiet: bool,
    pub count: bool,
    pub verbose: bool,
    pub version: bool,
}

impl Args {
    /// No option set: every list empty, every flag off.
    pub open spec fn is_default(&self) -> bool {
        &&& self.paths@.len() == 0
        &&& !self.fix
        &&& !self.dry
        &&& self.only@.len() == 0
        &&& self.exclude@.len() == 0
        &&& self.ignore_definitions@.len() == 0
        &&& self.ignore_definitions_if_decorated_with@.len() == 0
        &&& self.ignore_definitions_if_inherits_from@.len() == 0
        &&& self.ignore_bodies_of@.len() == 0
        &&& self.ignore_bodies_if_decorated_with@.len() == 0
        &&& self.ignore_bodies_if_inherits_from@.len() == 0
        &&& self.ignore_if_decorated_with@.len() == 0
        &&& self.ignore_if_inherits_from@.len() == 0
        &&& self.ignore_names@.len() == 0
        &&& self.ignore_names_if_decorated_with@.len() == 0
        &&& self.ignore_names_if_inherits_from@.len() == 0
        &&& self.ignore_names_in_files@.len() == 0
        &&& !self.ignore_non_self_attributes
        &&& !self.ignore_class_attributes
        &&& self.tach_config@.len() == 0
        &&& !self.no_color
        &&& !self.quiet
        &&& !self.count
        &&& !self.verbose
        &&& !self.version
    }
}

impl Default for Args {
    fn default() -> (a: Self)
        ensures
            a.is_default(),
    {
        Args {
            paths: Vec::new(),
            fix: false,
            dry: false,
            only: Vec::new(),
            exclude: Vec::new(),
            ignore_definitions: Vec::new(),
            ignore_definitions_if_decorated_with: Vec::new(),
            ignore_definitions_if_inherits_from: Vec::new(),
            ignore_bodies_of: Vec::new(),
            ignore_bodies_if_decorated_with: Vec::new(),
            ignore_bodies_if_inherits_from: Vec::new(),
            ignore_if_decorated_with: Vec::new(),
            ignore_if_inherits_from: Vec::new(),
            ignore_names: Vec::new(),
            ignore_names_if_decorated_with: Vec::new(),
            ignore_names_if_inherits_from: Vec::new(),
            ignore_names_in_files: Vec::new(),
            ignore_non_self_attributes: false,
            ignore_class_attributes: false,
            tach_config: Vec::new(),
            no_color: false,
            quiet: false,
            count: false,
            verbose: false,
            version: false,
        }
    }
}

/// A code file region to remove: lines `line_start..=line_end` (1-based),
/// cut from column `col_start` of the first line to column `col_end` of the
/// last. Parts are ordered lexicographically by
/// (line_start, line_end, col_start, col_end).
#[derive(Debug, Clone, Copy, PartialEq, Eq, Structural, Hash, PartialOrd, Ord)]
pub struct Part {
    pub line_start: u32,
    pub line_end: u32,
    pub col_start: u32,
    pub col_end: u32,
}

/// The order of parts: lexicographic over (line_start, line_end, col_start, col_end).
pub open spec fn part_le(a: Part, b: Part) -> bool {
    ||| a.line_start < b.line_start
    ||| a.line_start == b.line_start && a.line_end < b.line_end
    ||| a.line_start == b.line_start && a.line_end == b.line_end && a.col_start < b.col_start
    ||| a.line_start == b.line_start && a.line_end == b.line_end && a.col_start == b.col_start
        && a.col_end <= b.col_end
}

/// `a <= b` in the order of parts.
pub fn part_less_or_equal(a: Part, b: Part) -> (r: bool)
    ensures
        r == part_le(a, b),
{
    if a.line_start != b.line_start {
        a.line_start < b.line_start
    } else if a.line_end != b.line_end {
        a.line_end < b.line_end
    } else if a.col_start != b.col_start {
        a.col_start < b.col_start
    } else {
        a.col_end <= b.col_end
    }
}

impl Part {
    pub fn new(line_start: u32, line_end: u32, col_start: u32, col_end: u32) -> (p: Self)
        ensures
            p.line_start == line_start,
            p.line_end == line_end,
            p.col_start == col_start,
            p.col_end == col_end,
    {
        Part { line_start, line_end, col_start, col_end }
    }
}

} // verus!
