//! The two externally configured thresholds that cut the position sequence
//! into its three sections, and the classification they induce.

use vstd::prelude::*;

verus! {

/// The configured section boundaries. Both values come from the environment;
/// a sensible configuration has `0 < list_size < extended_list_size`.
#[derive(Debug, Clone, Copy, PartialEq, Eq, Structural)]
pub struct ListConfig {
    /// Positions `1..=list_size` form the main list.
    pub list_size: i16,
    /// Positions `list_size+1..=extended_list_size` form the extended list.
    pub extended_list_size: i16,
}

/// The three non-overlapping sections of the list.
#[derive(Debug, Clone, Copy, PartialEq, Eq, Structural)]
pub enum ListSection {
    Main,
    Extended,
    Legacy,
}

/// Which section a position falls in: `None` (no position) and everything
/// beyond the extended list are legacy.
pub open spec fn section_spec(config: ListConfig, position: Option<i16>) -> ListSection {
    match position {
        Option::None => ListSection::Legacy,
        Option::Some(p) => if p <= config.list_size {
            ListSection::Main
        } else if p <= config.extended_list_size {
            ListSection::Extended
        } else {
            ListSection::Legacy
        },
    }
}

impl ListConfig {
    /// Classifies a position under this configuration. The boundaries are
    /// recomputed from the configuration on every call, never stored with a
    /// demon.
    pub fn section_of(&self, position: Option<i16>) -> (s: ListSection)
        ensures
            s == section_spec(*self, position),
    {
        match position {
            None => ListSection::Legacy,
            Some(p) => {
                if p <= self.list_size {
                    ListSection::Main
                } else if p <= self.extended_list_size {
                    ListSection::Extended
                } else {
                    ListSection::Legacy
                }
            },
        }
    }
}

} // verus!
