//! Byte strings that stand at a place in a buffer.

use vstd::prelude::*;

use super::tsblock::take;

verus! {

/// Whether `x` stands in `b` at offset `pos`.
pub open spec fn stands_at(b: Seq<u8>, pos: int, x: Seq<u8>) -> bool {
    0 <= pos && pos + x.len() <= b.len() && b.subrange(pos, pos + x.len()) == x
}

/// What stands at a place can be taken from it.
pub proof fn lemma_take(b: Seq<u8>, pos: int, x: Seq<u8>)
    requires
        stands_at(b, pos, x),
    ensures
        take(b, pos, x.len() as int) == Ok::<(Seq<u8>, int), Seq<char>>((x, pos + x.len())),
{
}

/// Two byte strings in a row stand one behind the other.
pub proof fn lemma_split(b: Seq<u8>, pos: int, x: Seq<u8>, y: Seq<u8>)
    requires
        stands_at(b, pos, x + y),
    ensures
        stands_at(b, pos, x),
        stands_at(b, pos + x.len(), y),
{
    let all = b.subrange(pos, pos + (x + y).len());
    assert(b.subrange(pos, pos + x.len()) =~= x) by {
        assert forall|i: int| 0 <= i < x.len() implies b[pos + i] == x[i] by {
            assert(all[i] == (x + y)[i]);
        }
    }
    assert(b.subrange(pos + x.len(), pos + x.len() + y.len()) =~= y) by {
        assert forall|i: int| 0 <= i < y.len() implies b[pos + x.len() + i] == y[i] by {
            assert(all[x.len() + i] == (x + y)[x.len() + i]);
        }
    }
}

/// A byte string stands at the start of itself and whatever follows.
pub proof fn lemma_stands_first(x: Seq<u8>, rest: Seq<u8>)
    ensures
        stands_at(x + rest, 0, x),
{
    assert((x + rest).subrange(0, x.len() as int) =~= x);
}

} // verus!
