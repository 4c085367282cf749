//! Identity of stored items.

use vstd::prelude::*;

verus! {

/// Items that are stored and looked up by a text key.
pub trait ID {
    fn id(&self) -> String;
}

} // verus!
