//! Verbosity levels of tasks, written as tags `l0` (most important) to
//! `l3` (most verbose).

use vstd::prelude::*;
use crate::sorted::{str_contains, str_views};

verus! {

/// A task's level; untagged tasks are at `L1`.
#[derive(Clone, Copy, PartialEq, Eq, Structural, Debug)]
pub enum Level {
    L0,
    L1,
    L2,
    L3,
}

impl Level {
    /// The level's position: `L0` is 0, `L3` is 3.
    pub open spec fn spec_rank(self) -> nat {
        match self {
            Level::L0 => 0,
            Level::L1 => 1,
            Level::L2 => 2,
            Level::L3 => 3,
        }
    }

    /// The level's position: `L0` is 0, `L3` is 3.
    pub fn rank(&self) -> (r: u8)
        ensures
            r == self.spec_rank(),
    {
        match self {
            Level::L0 => 0,
            Level::L1 => 1,
            Level::L2 => 2,
            Level::L3 => 3,
        }
    }

    /// Whether `self` is at most as verbose as `other`.
    pub fn at_most(&self, other: &Level) -> (r: bool)
        ensures
            r == (self.spec_rank() <= other.spec_rank()),
    {
        self.rank() <= other.rank()
    }
}

impl Default for Level {
    fn default() -> (r: Level)
        ensures
            r == Level::L1,
    {
        Level::L1
    }
}

/// The level that a set of tags gives: the least of `l0`..`l3` present,
/// `L1` when none is.
pub open spec fn level_of_tags(tags: Seq<Seq<char>>) -> Level {
    if tags.contains("l0"@) {
        Level::L0
    } else if tags.contains("l1"@) {
        Level::L1
    } else if tags.contains("l2"@) {
        Level::L2
    } else if tags.contains("l3"@) {
        Level::L3
    } else {
        Level::L1
    }
}

/// The level of a task with tags `tags`.
pub fn parse_level(tags: &Vec<String>) -> (r: Level)
    ensures
        r == level_of_tags(str_views(tags@)),
{
    if str_contains(tags, "l0") {
        Level::L0
    } else if str_contains(tags, "l1") {
        Level::L1
    } else if str_contains(tags, "l2") {
        Level::L2
    } else if str_contains(tags, "l3") {
        Level::L3
    } else {
        Level::L1
    }
}

} // verus!
