//! Looking a secret up in two sources, the first one first.

use vstd::prelude::*;

verus! {

/// What a lookup in two sources does after asking the first one.
pub enum Lookup<T> {
    /// The first source had the value.
    Found(T),
    /// The first source failed: ask the second, whose answer is final.
    AskSecond,
}

/// The first source's value wins; any failure of the first source defers to the second.
pub fn after_first<T, E>(first: Result<T, E>) -> (r: Lookup<T>)
    ensures
        first matches Ok(v) ==> r == Lookup::Found(v),
        first is Err ==> r is AskSecond,
{
    match first {
        Ok(v) => Lookup::Found(v),
        Err(_) => Lookup::AskSecond,
    }
}

} // verus!
