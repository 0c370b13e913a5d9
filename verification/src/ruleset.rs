use vstd::prelude::*;

verus! {

/// The size of the well and how fast pieces fall.
#[derive(Clone, Copy, Debug, PartialEq, Eq, Structural)]
pub struct TetrisRuleset {
    pub well_size_rows: u32,
    pub well_size_cols: u32,
    /// Time between gravity steps, and between a piece settling and the next
    /// one appearing, in milliseconds.
    pub initial_speed_ms: u32,
}

impl TetrisRuleset {
    /// A ruleset with the given well size and speed.
    pub fn new(well_size_rows: u32, well_size_cols: u32, initial_speed_ms: u32) -> (ruleset: Self)
        ensures
            ruleset.well_size_rows == well_size_rows,
            ruleset.well_size_cols == well_size_cols,
            ruleset.initial_speed_ms == initial_speed_ms,
    {
        TetrisRuleset { well_size_rows, well_size_cols, initial_speed_ms }
    }
}

impl Default for TetrisRuleset {
    /// A well of 20 rows and 10 columns, with a step every 200 ms.
    fn default() -> (ruleset: Self)
        ensures
            ruleset.well_size_rows == 20,
            ruleset.well_size_cols == 10,
            ruleset.initial_speed_ms == 200,
    {
        TetrisRuleset::new(20, 10, 200)
    }
}

} // verus!
