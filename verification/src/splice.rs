//! Bidirectional splice.
//!
//! Once a pending client stream has met its agent data stream, the relay is
//! a plain bidirectional byte copy: everything one side wrote is handed to
//! the other side unchanged, in order, until both sides have closed, and
//! the byte totals are reported. This module is the transfer itself over
//! the gathered bytes; moving them on and off the sockets is I/O around it.

use vstd::prelude::*;

verus! {

/// The byte totals a finished splice reports.
#[derive(Clone, Copy, Debug, PartialEq, Eq, Structural)]
pub struct SpliceReport {
    /// Bytes that flowed from stream A to stream B.
    pub bytes_a_to_b: u64,
    /// Bytes that flowed from stream B to stream A.
    pub bytes_b_to_a: u64,
}

/// Appends every byte of `src` to `dst`, in order.
fn copy_stream(src: &Vec<u8>, dst: &mut Vec<u8>)
    ensures
        final(dst)@ == old(dst)@ + src@,
{
    let mut i: usize = 0;
    while i < src.len()
        invariant
            i <= src@.len(),
            dst@ == old(dst)@ + src@.take(i as int),
        decreases src@.len() - i,
    {
        dst.push(src[i]);
        i = i + 1;
        proof {
            assert(src@.take(i as int) =~= src@.take(i as int - 1).push(src@[i as int - 1]));
        }
    }
    proof {
        assert(src@.take(src@.len() as int) =~= src@);
    }
}

/// Splices two streams: everything A wrote (`a_in`) is delivered to B
/// (`b_out`) byte for byte, everything B wrote (`b_in`) is delivered to A
/// (`a_out`), and the report carries exactly the two byte totals.
pub fn splice(a_in: &Vec<u8>, b_in: &Vec<u8>, a_out: &mut Vec<u8>, b_out: &mut Vec<u8>) -> (r:
    SpliceReport)
    requires
        a_in@.len() <= u64::MAX,
        b_in@.len() <= u64::MAX,
    ensures
        final(b_out)@ == old(b_out)@ + a_in@,
        final(a_out)@ == old(a_out)@ + b_in@,
        r.bytes_a_to_b == a_in@.len(),
        r.bytes_b_to_a == b_in@.len(),
{
    copy_stream(a_in, b_out);
    copy_stream(b_in, a_out);
    SpliceReport { bytes_a_to_b: a_in.len() as u64, bytes_b_to_a: b_in.len() as u64 }
}

} // verus!
