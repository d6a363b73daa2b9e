//! Cutting a run of bytes into chunks: disjoint pieces of one size, the last
//! of which may be shorter.

use vstd::prelude::*;
use vstd::slice::{slice_subrange, slice_to_vec};

verus! {

/// The size of the chunks that a writer hands to its pool, in bytes.
pub const CHUNK_SIZE: usize = 4;

/// `bytes` cut into pieces of `size` bytes, in their order. Where the length
/// is no multiple of `size`, the last piece holds what is left. No bytes
/// give no piece, and so does a size of zero.
pub open spec fn chunks(bytes: Seq<u8>, size: nat) -> Seq<Seq<u8>>
    decreases bytes.len(),
{
    if bytes.len() == 0 || size == 0 {
        Seq::empty()
    } else if bytes.len() <= size {
        seq![bytes]
    } else {
        seq![bytes.take(size as int)] + chunks(bytes.skip(size as int), size)
    }
}

/// The pieces cover the bytes: strung together in their order they are the
/// bytes again, so that no byte is left out, none is there twice, and none
/// has changed its place.
pub proof fn lemma_chunks_cover(bytes: Seq<u8>, size: nat)
    requires
        size > 0,
    ensures
        chunks(bytes, size).flatten() == bytes,
    decreases bytes.len(),
{
    let pieces = chunks(bytes, size);
    if bytes.len() == 0 {
        assert(pieces.flatten() =~= bytes);
    } else if bytes.len() <= size {
        assert(pieces.drop_first() =~= Seq::<Seq<u8>>::empty());
        assert(pieces.drop_first().flatten() =~= Seq::<u8>::empty());
        assert(pieces.flatten() =~= bytes);
    } else {
        lemma_chunks_cover(bytes.skip(size as int), size);
        assert(pieces.drop_first() =~= chunks(bytes.skip(size as int), size));
        assert(pieces.flatten() =~= bytes.take(size as int) + bytes.skip(size as int));
        assert(bytes.take(size as int) + bytes.skip(size as int) =~= bytes);
    }
}

/// Every piece but the last is `size` bytes long, and the last holds at
/// least one byte and at most `size`.
pub proof fn lemma_chunk_lengths(bytes: Seq<u8>, size: nat, i: int)
    requires
        size > 0,
        0 <= i < chunks(bytes, size).len(),
    ensures
        i < chunks(bytes, size).len() - 1 ==> chunks(bytes, size)[i].len() == size,
        0 < chunks(bytes, size)[i].len() <= size,
    decreases bytes.len(),
{
    if bytes.len() > size && i > 0 {
        lemma_chunk_lengths(bytes.skip(size as int), size, i - 1);
    } else if bytes.len() > size {
        assert(chunks(bytes.skip(size as int), size).len() > 0);
    }
}

/// `k` times `size` bytes give exactly `k` pieces, each of `size` bytes.
pub proof fn lemma_chunks_of_multiple(bytes: Seq<u8>, size: nat, k: nat)
    requires
        size > 0,
        bytes.len() == k * size,
    ensures
        chunks(bytes, size).len() == k,
        forall|i: int| 0 <= i < k ==> (#[trigger] chunks(bytes, size)[i]).len() == size,
    decreases k,
{
    if k == 0 {
        assert(bytes.len() == 0) by (nonlinear_arith)
            requires
                bytes.len() == k * size,
                k == 0,
        ;
    } else {
        assert(bytes.len() >= size && bytes.len() - size == (k - 1) * size) by (nonlinear_arith)
            requires
                bytes.len() == k * size,
                k >= 1,
                size > 0,
        ;
        if bytes.len() > size {
            lemma_chunks_of_multiple(bytes.skip(size as int), size, (k - 1) as nat);
        } else {
            assert(k == 1) by (nonlinear_arith)
                requires
                    bytes.len() == k * size,
                    bytes.len() == size,
                    size > 0,
                    k >= 1,
            ;
        }
    }
}

/// The pieces of a vector as contracts see them.
pub open spec fn piece_views(pieces: Seq<Vec<u8>>) -> Seq<Seq<u8>> {
    pieces.map_values(|piece: Vec<u8>| piece@)
}

/// How many bytes the piece at the head of `len` bytes takes.
pub fn head_len(len: usize, size: usize) -> (n: usize)
    requires
        size > 0,
    ensures
        n == if len <= size {
            len
        } else {
            size
        },
{
    if len <= size {
        len
    } else {
        size
    }
}

/// Cuts `bytes` into pieces of `size` bytes; the last piece holds what is
/// left.
pub fn split(bytes: &[u8], size: usize) -> (pieces: Vec<Vec<u8>>)
    requires
        size > 0,
    ensures
        piece_views(pieces@) == chunks(bytes@, size as nat),
{
    let mut pieces: Vec<Vec<u8>> = Vec::new();
    let len = bytes.len();
    let mut offset: usize = 0;
    proof {
        assert(bytes@.skip(0) =~= bytes@);
        assert(piece_views(pieces@) + chunks(bytes@, size as nat) =~= chunks(bytes@, size as nat));
    }
    while offset < len
        invariant
            size > 0,
            len == bytes@.len(),
            offset <= len,
            piece_views(pieces@) + chunks(bytes@.skip(offset as int), size as nat) == chunks(
                bytes@,
                size as nat,
            ),
        decreases len - offset,
    {
        let n = head_len(len - offset, size);
        let piece = slice_to_vec(slice_subrange(bytes, offset, offset + n));
        proof {
            let rest = bytes@.skip(offset as int);
            let after = piece_views(pieces@).push(piece@);
            assert(piece@ =~= rest.take(n as int));
            assert(rest.skip(n as int) =~= bytes@.skip(offset + n));
            if rest.len() <= size {
                assert(rest.take(n as int) =~= rest);
                assert(chunks(rest.skip(n as int), size as nat) =~= Seq::<Seq<u8>>::empty());
            }
            assert(after + chunks(bytes@.skip(offset + n), size as nat) =~= piece_views(pieces@)
                + chunks(rest, size as nat));
        }
        let ghost before = piece_views(pieces@);
        pieces.push(piece);
        proof {
            assert(piece_views(pieces@) =~= before.push(piece@));
        }
        offset = offset + n;
    }
    proof {
        assert(chunks(bytes@.skip(offset as int), size as nat) =~= Seq::<Seq<u8>>::empty());
        assert(piece_views(pieces@) + Seq::<Seq<u8>>::empty() =~= piece_views(pieces@));
    }
    pieces
}

} // verus!
