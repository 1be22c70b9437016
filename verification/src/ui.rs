//! State for the letter-grid front end: how many square buttons fit.

use vstd::prelude::*;

verus! {

/// Persistent front-end state: the side length of the square button grid,
/// recalculated from the available space on every repaint.
#[derive(Debug, Clone, PartialEq, Eq, Structural)]
pub struct TemplateApp {
    grid_size: usize,
}

impl TemplateApp {
    pub closed spec fn spec_grid_size(&self) -> usize {
        self.grid_size
    }

    pub fn grid_size(&self) -> (r: usize)
        ensures
            r == self.spec_grid_size(),
    {
        self.grid_size
    }

    /// Fit a square grid into a space that holds `max_cols` columns and
    /// `max_rows` rows: the smaller of the two, and at least one.
    pub fn fit_grid(&mut self, max_cols: usize, max_rows: usize)
        ensures
            final(self).spec_grid_size() == (if max_cols <= max_rows {
                if max_cols >= 1 {
                    max_cols
                } else {
                    1usize
                }
            } else {
                if max_rows >= 1 {
                    max_rows
                } else {
                    1usize
                }
            }),
    {
        let smaller = if max_cols <= max_rows {
            max_cols
        } else {
            max_rows
        };
        self.grid_size = if smaller >= 1 {
            smaller
        } else {
            1
        };
    }
}

impl Default for TemplateApp {
    fn default() -> (r: Self)
        ensures
            r.spec_grid_size() == 1,
    {
        TemplateApp { grid_size: 1 }
    }
}

} // verus!
