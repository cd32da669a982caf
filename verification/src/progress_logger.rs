//! Throughput bookkeeping for long-running crawl stages.
//!
//! The logger counts items in the current reporting window and overall;
//! the caller owns the clock and the output: it asks for the counters,
//! prints its report, and resets the window. Only the counting is here.

use vstd::prelude::*;

verus! {

/// Mathematical model of a [`ProgressLogger`]: its tag, the item count of
/// the current reporting window, the overall total, and the optional
/// target the caller is working toward.
pub ghost struct ProgressView {
    pub tagline: Seq<char>,
    pub item_count: int,
    pub total: int,
    pub target: Option<usize>,
}

impl View for ProgressLogger {
    type V = ProgressView;

    closed spec fn view(&self) -> ProgressView {
        ProgressView {
            tagline: self.tagline@,
            item_count: self.item_count as int,
            total: self.total as int,
            target: self.target,
        }
    }
}

/// Counts processed items for one named crawl stage: a running window
/// (reset at each report) and an overall total.
pub struct ProgressLogger {
    tagline: String,
    item_count: usize,
    total: usize,
    target: Option<usize>,
}

impl ProgressLogger {
    /// A fresh logger for the stage named `tagline`, with no target.
    pub fn new(tagline: &str) -> (r: ProgressLogger)
        ensures
            r@.tagline == tagline@,
            r@.item_count == 0,
            r@.total == 0,
            r@.target is None,
    {
        ProgressLogger {
            tagline: tagline.to_owned(),
            item_count: 0,
            total: 0,
            target: None,
        }
    }

    /// A fresh logger for a stage expected to process `target` items.
    pub fn new_with_target(tagline: &str, target: usize) -> (r: ProgressLogger)
        ensures
            r@.tagline == tagline@,
            r@.item_count == 0,
            r@.total == 0,
            r@.target == Some(target),
    {
        ProgressLogger {
            tagline: tagline.to_owned(),
            item_count: 0,
            total: 0,
            target: Some(target),
        }
    }

    /// Count `count` further items into the window and the total.
    pub fn increment(&mut self, count: usize)
        requires
            old(self)@.item_count + count <= usize::MAX,
            old(self)@.total + count <= usize::MAX,
        ensures
            final(self)@ == (ProgressView {
                item_count: old(self)@.item_count + count,
                total: old(self)@.total + count,
                ..old(self)@
            }),
    {
        self.item_count = self.item_count + count;
        self.total = self.total + count;
    }

    /// The item count of the current reporting window.
    pub fn item_count(&self) -> (r: usize)
        ensures
            r == self@.item_count,
    {
        self.item_count
    }

    /// The overall total since the logger was created.
    pub fn total(&self) -> (r: usize)
        ensures
            r == self@.total,
    {
        self.total
    }

    /// The target this stage is working toward, if one was given.
    pub fn target(&self) -> (r: Option<usize>)
        ensures
            r == self@.target,
    {
        self.target
    }

    /// The stage's tag, for the caller's report line.
    pub fn tagline(&self) -> (r: &str)
        ensures
            r@ == self@.tagline,
    {
        self.tagline.as_str()
    }

    /// Close the current reporting window after a report: the window count
    /// starts over, the total stands.
    pub fn reset_window(&mut self)
        ensures
            final(self)@ == (ProgressView { item_count: 0, ..old(self)@ }),
    {
        self.item_count = 0;
    }
}

} // verus!
