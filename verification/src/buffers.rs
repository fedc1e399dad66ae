//! Joining byte buffers into one contiguous buffer.
use vstd::prelude::*;
use crate::crc32::flatten_bytes;

verus! {

/// The buffers joined, in order, into one.
pub fn concat_buffers(buffers: &Vec<Vec<u8>>) -> (out: Vec<u8>)
    ensures
        out@ == flatten_bytes(buffers@.map_values(|b: Vec<u8>| b@)),
{
    let ghost views = buffers@.map_values(|b: Vec<u8>| b@);
    let mut out: Vec<u8> = Vec::new();
    let mut i: usize = 0;
    while i < buffers.len()
        invariant
            i <= buffers@.len(),
            views == buffers@.map_values(|b: Vec<u8>| b@),
            out@ == flatten_bytes(views.take(i as int)),
        decreases buffers@.len() - i,
    {
        assert(views.take(i + 1).drop_last() =~= views.take(i as int));
        out.extend_from_slice(buffers[i].as_slice());
        i = i + 1;
    }
    assert(views.take(i as int) =~= views);
    out
}

} // verus!
