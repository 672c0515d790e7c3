use vstd::prelude::*;

verus! {

/// Whether every byte of `b` is ASCII.
pub open spec fn all_ascii(b: Seq<u8>) -> bool {
    forall|i: int| 0 <= i < b.len() ==> #[trigger] b[i] < 128
}

/// 0 where `plist_data` is all ASCII text (as XML and JSON are), 1
/// otherwise.
pub fn plist_is_binary(plist_data: &[u8]) -> (r: u8)
    ensures
        r == (if all_ascii(plist_data@) {
            0u8
        } else {
            1u8
        }),
{
    let mut i: usize = 0;
    while i < plist_data.len()
        invariant
            i <= plist_data@.len(),
            forall|j: int| 0 <= j < i ==> #[trigger] plist_data@[j] < 128,
        decreases plist_data@.len() - i,
    {
        if plist_data[i] >= 128 {
            return 1;
        }
        i += 1;
    }
    0
}

} // verus!
