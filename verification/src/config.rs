use vstd::prelude::*;

verus! {

/// The settings of the bot: whether it reports its evaluations, whether it prunes, how much
/// positional values count (in percent) and how deep it searches.
#[derive(Clone, Copy, Debug)]
pub struct AppSettings {
    pub eval_print: bool,
    pub pruning: bool,
    pub positional_value_factor: i32,
    pub search_depth: u8,
}

impl AppSettings {
    /// The settings as read from a file are brought into range: the positional factor
    /// into 0 to 100, the search depth to at least 1.
    pub fn normalized(self) -> (res: Self)
        ensures
            res.eval_print == self.eval_print,
            res.pruning == self.pruning,
            res.positional_value_factor == if self.positional_value_factor < 0 {
                0
            } else if self.positional_value_factor > 100 {
                100
            } else {
                self.positional_value_factor
            },
            res.search_depth == if self.search_depth < 1 {
                1
            } else {
                self.search_depth
            },
    {
        let factor = if self.positional_value_factor < 0 {
            0
        } else if self.positional_value_factor > 100 {
            100
        } else {
            self.positional_value_factor
        };
        let depth = if self.search_depth < 1 {
            1
        } else {
            self.search_depth
        };
        AppSettings {
            eval_print: self.eval_print,
            pruning: self.pruning,
            positional_value_factor: factor,
            search_depth: depth,
        }
    }
}

} // verus!
