use vstd::prelude::*;

verus! {

/// Easing curves that shape how animation progress maps to time.
#[derive(Debug, Clone, Copy, PartialEq, Eq, Structural)]
pub enum Easing {
    Linear,
    EaseIn,
    EaseOut,
    EaseInOut,
    Bounce,
    Elastic,
}

} // verus!
