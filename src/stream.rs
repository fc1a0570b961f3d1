//! A model of reading an asset as a stream: each read hands out the next unread
//! bytes, as many as fit in the caller's buffer.
use vstd::prelude::*;

verus! {

/// Where a read that starts at `pos` with room for `cap` bytes stops in a buffer of `len` bytes.
pub open spec fn chunk_end(len: int, pos: int, cap: int) -> int {
    if pos + cap < len {
        pos + cap
    } else {
        len
    }
}

/// The bytes that one read from `pos` with room for `cap` bytes hands out.
pub open spec fn chunk(data: Seq<u8>, pos: int, cap: int) -> Seq<u8> {
    data.subrange(pos, chunk_end(data.len() as int, pos, cap))
}

/// The cursor after a run of reads from `pos`, one for each buffer size in `caps`.
pub open spec fn cursor_after(data: Seq<u8>, pos: int, caps: Seq<nat>) -> int
    decreases caps.len(),
{
    if caps.len() == 0 {
        pos
    } else {
        cursor_after(data, chunk_end(data.len() as int, pos, caps[0] as int), caps.drop_first())
    }
}

/// Everything a run of reads from `pos` hands out, chunk after chunk.
pub open spec fn streamed(data: Seq<u8>, pos: int, caps: Seq<nat>) -> Seq<u8>
    decreases caps.len(),
{
    if caps.len() == 0 {
        Seq::empty()
    } else {
        chunk(data, pos, caps[0] as int) + streamed(
            data,
            chunk_end(data.len() as int, pos, caps[0] as int),
            caps.drop_first(),
        )
    }
}

/// A run of reads hands out the bytes from where it started to where the cursor
/// ends, in order, with no gap and no byte twice; the cursor never passes the end.
pub proof fn lemma_streamed_is_contiguous(data: Seq<u8>, pos: int, caps: Seq<nat>)
    requires
        0 <= pos <= data.len(),
    ensures
        pos <= cursor_after(data, pos, caps) <= data.len(),
        streamed(data, pos, caps) == data.subrange(pos, cursor_after(data, pos, caps)),
    decreases caps.len(),
{
    if caps.len() > 0 {
        let next = chunk_end(data.len() as int, pos, caps[0] as int);
        lemma_streamed_is_contiguous(data, next, caps.drop_first());
        assert(streamed(data, pos, caps) =~= data.subrange(pos, cursor_after(data, pos, caps)));
    }
}

/// Reading from the start until a read with a non-empty buffer hands out nothing
/// yields the whole flat view, in order.
pub proof fn lemma_stream_until_exhausted(data: Seq<u8>, caps: Seq<nat>, last: nat)
    requires
        last > 0,
        chunk(data, cursor_after(data, 0, caps), last as int).len() == 0,
    ensures
        streamed(data, 0, caps) == data,
        streamed(data, 0, caps.push(last)) == data,
{
    lemma_streamed_is_contiguous(data, 0, caps);
    lemma_streamed_is_contiguous(data, 0, caps.push(last));
    lemma_cursor_after_push(data, 0, caps, last);
    assert(data.subrange(0, data.len() as int) =~= data);
}

/// One more read moves the cursor on from where the run before it left it.
pub proof fn lemma_cursor_after_push(data: Seq<u8>, pos: int, caps: Seq<nat>, last: nat)
    ensures
        cursor_after(data, pos, caps.push(last)) == chunk_end(
            data.len() as int,
            cursor_after(data, pos, caps),
            last as int,
        ),
    decreases caps.len(),
{
    if caps.len() > 0 {
        let next = chunk_end(data.len() as int, pos, caps[0] as int);
        assert(caps.push(last)[0] == caps[0]);
        assert(caps.push(last).drop_first() =~= caps.drop_first().push(last));
        lemma_cursor_after_push(data, next, caps.drop_first(), last);
    } else {
        let end = chunk_end(data.len() as int, pos, last as int);
        assert(caps.push(last).drop_first() =~= Seq::<nat>::empty());
        assert(cursor_after(data, end, Seq::<nat>::empty()) == end);
    }
}

/// Once the cursor is at the end, every further read hands out nothing and the
/// cursor stays at the end.
pub proof fn lemma_exhausted_stays_empty(data: Seq<u8>, caps: Seq<nat>)
    ensures
        cursor_after(data, data.len() as int, caps) == data.len(),
        streamed(data, data.len() as int, caps) == Seq::<u8>::empty(),
    decreases caps.len(),
{
    if caps.len() > 0 {
        lemma_exhausted_stays_empty(data, caps.drop_first());
        assert(chunk(data, data.len() as int, caps[0] as int) =~= Seq::<u8>::empty());
        assert(streamed(data, data.len() as int, caps) =~= Seq::<u8>::empty());
    }
}

} // verus!
