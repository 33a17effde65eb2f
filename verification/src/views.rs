//! Small facts about views that the other modules use ambiently.
use vstd::prelude::*;

verus! {

/// The deep view of a byte vector is its ordinary view, element for element.
pub broadcast proof fn lemma_byte_vec_deep_view(v: Vec<u8>)
    ensures
        #[trigger] v.deep_view() == v@,
{
    assert(v.deep_view() =~= v@);
}

} // verus!
