//! Line framing.
//!
//! The control protocol is ASCII and line-oriented: a line is the byte
//! sequence up to and including a single `\n` (0x0A). Writers append the
//! terminator; readers take one byte at a time, so that nothing past the
//! terminator is consumed — after its opening lines a data stream turns into
//! a raw byte tunnel, and an over-read would eat tunneled payload.

use vstd::prelude::*;
use vstd::string::*;

verus! {

/// The line terminator, 0x0A.
pub const NEWLINE_BYTE: u8 = 10;

/// Byte budget of a single framed line.
pub const MAX_LINE_BYTES: usize = 4096;

/// The bytes a writer puts on the wire for one line: the line, then `\n`.
pub open spec fn framed(line: Seq<u8>) -> Seq<u8> {
    line.push(NEWLINE_BYTE)
}

/// What a reader with `budget` bytes left takes from the head of `src`:
/// byte after byte, stopping right after the first `\n`, at the budget,
/// or when `src` runs dry.
pub open spec fn taken_line(src: Seq<u8>, budget: nat) -> Seq<u8>
    decreases src.len(),
{
    if budget == 0 || src.len() == 0 {
        Seq::empty()
    } else if src[0] == NEWLINE_BYTE {
        seq![src[0]]
    } else {
        seq![src[0]] + taken_line(src.drop_first(), (budget - 1) as nat)
    }
}

/// A line without its trailing `\n`, if it carries one.
pub open spec fn stripped(line: Seq<u8>) -> Seq<u8> {
    if line.len() > 0 && line.last() == NEWLINE_BYTE {
        line.drop_last()
    } else {
        line
    }
}

/// Reads one line out of an in-memory byte source, the way the socket
/// readers of this crate consume their streams: starting at `pos`, bytes are
/// appended to the caller-owned `line_bytes` until a `\n` has been appended,
/// `max_bytes` bytes were taken, or the source is exhausted. Returns the
/// position of the first byte not consumed.
pub fn read_line_bytes(
    source: &Vec<u8>,
    pos: usize,
    line_bytes: &mut Vec<u8>,
    max_bytes: usize,
) -> (new_pos: usize)
    requires
        pos <= source@.len(),
    ensures
        final(line_bytes)@ == old(line_bytes)@ + taken_line(source@.skip(pos as int), max_bytes as nat),
        new_pos == pos + taken_line(source@.skip(pos as int), max_bytes as nat).len(),
{
    let ghost want = taken_line(source@.skip(pos as int), max_bytes as nat);
    let mut p: usize = pos;
    let mut total: usize = 0;
    loop
        invariant_except_break
            want == want.take(total as int)
                + taken_line(source@.skip(p as int), (max_bytes - total) as nat),
        invariant
            pos <= p <= source@.len(),
            total <= max_bytes,
            total <= want.len(),
            p == pos + total,
            line_bytes@ == old(line_bytes)@ + want.take(total as int),
        ensures
            total == want.len(),
            p == pos + total,
            line_bytes@ == old(line_bytes)@ + want.take(total as int),
        decreases max_bytes - total,
    {
        let ghost rest = taken_line(source@.skip(p as int), (max_bytes - total) as nat);
        if total >= max_bytes {
            proof {
                assert(rest =~= Seq::<u8>::empty());
                assert(want =~= want.take(total as int));
            }
            break;
        }
        if p >= source.len() {
            proof {
                assert(source@.skip(p as int).len() == 0);
                assert(rest =~= Seq::<u8>::empty());
                assert(want =~= want.take(total as int));
            }
            break;
        }
        let b = source[p];
        proof {
            assert(source@.skip(p as int)[0] == b);
            assert(rest.len() > 0);
            assert(total < want.len());
            assert(want[total as int] == rest[0]);
            assert(rest[0] == b);
        }
        line_bytes.push(b);
        p = p + 1;
        total = total + 1;
        proof {
            assert(want.take(total as int) =~= want.take(total as int - 1).push(b));
            assert(source@.skip(p as int - 1).drop_first() =~= source@.skip(p as int));
        }
        if b == NEWLINE_BYTE {
            proof {
                assert(rest =~= seq![b]);
                assert(want =~= want.take(total as int - 1) + seq![b]);
                assert(want =~= want.take(total as int));
            }
            break;
        } else {
            proof {
                assert(rest =~= seq![b] + taken_line(
                    source@.skip(p as int),
                    (max_bytes - total) as nat,
                ));
                assert(want =~= want.take(total as int)
                    + taken_line(source@.skip(p as int), (max_bytes - total) as nat));
            }
        }
    }
    proof {
        assert(want.take(want.len() as int) =~= want);
        assert(line_bytes@ == old(line_bytes)@ + want);
    }
    p
}

/// A decoded line without its trailing `'\n'`, if it carries one.
pub open spec fn stripped_chars(line: Seq<char>) -> Seq<char> {
    if line.len() > 0 && line.last() == '\n' {
        line.drop_last()
    } else {
        line
    }
}

/// Strips the trailing `'\n'` a framed read leaves on a decoded line.
pub fn rm_newline(line: String) -> (r: String)
    ensures
        r@ == stripped_chars(line@),
{
    let n = line.as_str().unicode_len();
    if n > 0 {
        let c = line.as_str().get_char(n - 1);
        if c == '\n' {
            let s = line.as_str().substring_char(0, n - 1);
            proof {
                assert(line@.subrange(0, line@.len() - 1) =~= line@.drop_last());
            }
            return s.to_owned();
        }
    }
    line
}

/// Writing a line and reading it back is the identity: for a line that
/// holds no terminator and fits the reader's budget with its `\n`, the
/// reader takes exactly the framed bytes, and stripping the terminator
/// yields the line that was written.
pub proof fn lemma_write_read_round_trip(line: Seq<u8>, budget: nat)
    requires
        !line.contains(NEWLINE_BYTE),
        line.len() + 1 <= budget,
    ensures
        taken_line(framed(line), budget) == framed(line),
        stripped(framed(line)) == line,
    decreases line.len(),
{
    assert(framed(line).last() == NEWLINE_BYTE);
    assert(framed(line).drop_last() =~= line);
    if line.len() == 0 {
        assert(framed(line) =~= seq![NEWLINE_BYTE]);
        assert(taken_line(framed(line), budget) =~= framed(line));
    } else {
        assert(framed(line)[0] == line[0]);
        assert(line.contains(line[0]));
        assert(line[0] != NEWLINE_BYTE);
        let tail = line.drop_first();
        assert(forall|i: int| 0 <= i < tail.len() ==> tail[i] == line[i + 1]);
        assert(forall|i: int|
            0 <= i < tail.len() ==> line.contains(#[trigger] tail[i]));
        assert(!tail.contains(NEWLINE_BYTE));
        lemma_write_read_round_trip(tail, (budget - 1) as nat);
        assert(framed(line).drop_first() =~= framed(tail));
        assert(taken_line(framed(line), budget) =~= seq![line[0]] + framed(tail));
        assert(seq![line[0]] + framed(tail) =~= framed(line));
    }
}

} // verus!
