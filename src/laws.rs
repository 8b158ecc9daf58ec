//! Properties of the byte stream that hold for every seed and every way of
//! reading it.
use vstd::prelude::*;

use crate::rng::{seed_stream, RngModel};

verus! {

/// The sum of the chunk sizes.
pub open spec fn chunk_total(sizes: Seq<nat>) -> nat
    decreases sizes.len(),
{
    if sizes.len() == 0 {
        0
    } else {
        chunk_total(sizes.drop_last()) + sizes.last()
    }
}

/// The bytes of successive reads: `sizes[k]` bytes taken from the stream
/// `streams[k]`, one read after the other.
pub open spec fn chunks_read(streams: Seq<RngModel>, sizes: Seq<nat>) -> Seq<u8>
    decreases sizes.len(),
{
    if sizes.len() == 0 {
        Seq::empty()
    } else {
        chunks_read(streams, sizes.drop_last()) + streams[sizes.len() - 1].peek(sizes.last())
    }
}

/// Taking `n` bytes and then `m` more gives the bytes of one read of
/// `n + m`, and leaves the stream where that read leaves it.
pub proof fn lemma_two_reads(a: RngModel, b: RngModel, c: RngModel, n: nat, m: nat)
    requires
        b.advanced_by(a, n),
        c.advanced_by(b, m),
    ensures
        a.peek(n) + b.peek(m) == a.peek(n + m),
        c.advanced_by(a, n + m),
{
    assert forall|j: int| 0 <= j implies #[trigger] c.upcoming(j) == a.upcoming(j + (n + m)) by {
        assert(b.upcoming(j + m) == a.upcoming(j + m + n));
    }
    assert forall|j: int| n <= j < n + m implies #[trigger] a.peek(n + m)[j] == b.peek(m)[j - n] by {
        assert(b.upcoming(j - n) == a.upcoming(j - n + n));
    }
    assert(a.peek(n) + b.peek(m) =~= a.peek(n + m));
}

/// Chunking invariance: reading a stream in chunks of any sizes, one read
/// after the other, gives the bytes of a single read of their total
/// length, and leaves the stream where that single read leaves it.
pub proof fn lemma_chunking_invariance(streams: Seq<RngModel>, sizes: Seq<nat>)
    requires
        streams.len() == sizes.len() + 1,
        streams[0].wf(),
        forall|k: int|
            0 <= k < sizes.len() ==> streams[k + 1].advanced_by(streams[k], #[trigger] sizes[k]),
    ensures
        chunks_read(streams, sizes) == streams[0].peek(chunk_total(sizes)),
        streams.last().advanced_by(streams[0], chunk_total(sizes)),
    decreases sizes.len(),
{
    if sizes.len() == 0 {
        assert(chunks_read(streams, sizes) =~= streams[0].peek(0));
    } else {
        let l = sizes.len() - 1;
        let first = streams.drop_last();
        let head = sizes.drop_last();
        assert forall|k: int| 0 <= k < head.len() implies first[k + 1].advanced_by(
            first[k],
            #[trigger] head[k],
        ) by {
            assert(sizes[k] == head[k]);
        }
        lemma_chunking_invariance(first, head);
        assert(chunks_read(first, head) == chunks_read(streams, head)) by {
            lemma_chunks_read_prefix(streams, head);
        }
        assert(streams[l + 1].advanced_by(streams[l], sizes[l]));
        lemma_two_reads(streams[0], streams[l], streams[l + 1], chunk_total(head), sizes[l]);
    }
}

/// `chunks_read` looks only at the streams that the sizes reach.
proof fn lemma_chunks_read_prefix(streams: Seq<RngModel>, sizes: Seq<nat>)
    requires
        sizes.len() < streams.len(),
    ensures
        chunks_read(streams.subrange(0, sizes.len() as int + 1), sizes) == chunks_read(
            streams,
            sizes,
        ),
    decreases sizes.len(),
{
    if sizes.len() > 0 {
        lemma_chunks_read_prefix(streams, sizes.drop_last());
        lemma_chunks_read_prefix(streams.subrange(0, sizes.len() as int + 1), sizes.drop_last());
        assert(streams.subrange(0, sizes.len() as int + 1).subrange(0, sizes.len() as int)
            =~= streams.subrange(0, sizes.len() as int));
    }
}

/// Determinism: streams freshly seeded with the same seed produce the same
/// bytes, the bytes of that seed's stream.
pub proof fn lemma_same_seed_same_bytes(a: RngModel, b: RngModel, seed: Seq<u64>, n: nat)
    requires
        a.fresh_from(seed),
        b.fresh_from(seed),
    ensures
        a.peek(n) == seed_stream(seed, n),
        a.peek(n) == b.peek(n),
{
    assert(a.peek(n) =~= seed_stream(seed, n));
    assert(b.peek(n) =~= seed_stream(seed, n));
}

} // verus!
