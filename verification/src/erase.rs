//! Overwriting a file before it is removed.
use vstd::prelude::*;

verus! {

/// How many times a file is overwritten.
pub const PASSES: usize = 1;

/// How many bytes are written at once.
pub const CHUNK: u64 = 65_536;

/// The pieces a file is overwritten in.
pub open spec fn pieces(len: nat) -> Seq<u64>
    decreases len,
{
    if len == 0 {
        seq![]
    } else if len <= CHUNK {
        seq![len as u64]
    } else {
        seq![CHUNK] + pieces((len - CHUNK) as nat)
    }
}

/// How many bytes to write next, of a file of which so many are written.
pub fn next_piece(len: u64, written: u64) -> (n: u64)
    requires
        written < len,
    ensures
        0 < n <= CHUNK,
        n <= len - written,
        pieces((len - written) as nat) == seq![n] + pieces((len - written - n) as nat),
{
    let left: u64 = len - written;
    if left <= CHUNK {
        assert(pieces(0) =~= seq![]);
        assert(seq![left] + pieces(0) =~= seq![left]);
        left
    } else {
        CHUNK
    }
}

/// All of the pieces laid end to end.
pub open spec fn total(ps: Seq<u64>) -> nat
    decreases ps.len(),
{
    if ps.len() == 0 {
        0
    } else {
        ps[0] as nat + total(ps.drop_first())
    }
}

/// Every byte of a file is overwritten, and none after it; of an empty file
/// nothing is written.
pub proof fn law_the_whole_file_is_overwritten(len: nat)
    requires
        len <= u64::MAX,
    ensures
        total(pieces(len)) == len,
        forall|i: int| 0 <= i < pieces(len).len() ==> 0 < #[trigger] pieces(len)[i] <= CHUNK,
    decreases len,
{
    if len > CHUNK {
        law_the_whole_file_is_overwritten((len - CHUNK) as nat);
        let rest = pieces((len - CHUNK) as nat);
        assert(pieces(len).drop_first() =~= rest);
        assert forall|i: int| 0 <= i < pieces(len).len() implies 0 < #[trigger] pieces(len)[i]
            <= CHUNK by {
            if i > 0 {
                assert(pieces(len)[i] == rest[i - 1]);
            }
        }
    } else if len > 0 {
        assert(pieces(len).drop_first() =~= seq![]);
        assert(total(seq![]) == 0);
    }
}

} // verus!
