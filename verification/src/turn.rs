use vstd::prelude::*;

verus! {

/// The right to make one call that changes what the handles of a channel share.
///
/// A turn is used up by the call, and a handle keeps account of the turns that it gave: see
/// [`Handle::unnoted`](crate::handle::Handle::unnoted). So no call goes unnoted.
pub struct Turn {
    single: (),
}

impl Turn {
    /// Makes a turn. Only the module of the handles can show what this asks for.
    pub(crate) fn new() -> Self
        requires
            crate::handle::here(),
    {
        Turn { single: () }
    }
}

} // verus!
