//! A small fact the whole crate leans on: a byte vector's deep view is its
//! plain view.

use vstd::prelude::*;

verus! {

/// A byte vector's deep view is its plain view.
pub broadcast proof fn lemma_bytes_deep_view(v: Vec<u8>)
    ensures
        #[trigger] v.deep_view() == v@,
{
    assert(v.deep_view() =~= v@);
}

} // verus!
