use vstd::prelude::*;

verus! {

/// The footer hint listing the key bindings, shown while no search is
/// active.
#[derive(Clone, Copy, Debug)]
pub struct Instructions {}

impl Instructions {
    pub fn new() -> (res: Self) {
        Instructions {  }
    }
}

/// The instructions footer keeps no state.
#[derive(Clone, Copy, Debug)]
pub struct State {}

} // verus!
