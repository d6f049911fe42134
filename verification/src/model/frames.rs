//! Raw connections as frames.
use vstd::prelude::*;
use vstd::string::*;

use crate::model::wire::{RawConnFrame, RawConnFrameView};
use crate::text::bytes_between;

verus! {

/// Read at most this many bytes at a time.
pub const RAW_BUF: usize = 16384;

/// A frame that carries bytes, or the end of one half, of an open connection.
pub open spec fn plain_frame(connection_id: Seq<char>, payload: Seq<u8>, is_eof: bool) -> RawConnFrameView {
    RawConnFrameView {
        session_id: Seq::empty(),
        connection_id,
        payload,
        is_eof,
        service_name: Seq::empty(),
    }
}

/// Make a frame of an open connection.
pub fn raw_frame(connection_id: &str, payload: Vec<u8>, is_eof: bool) -> (r: RawConnFrame)
    ensures
        r@ == plain_frame(connection_id@, payload@, is_eof),
{
    RawConnFrame {
        session_id: String::new(),
        connection_id: connection_id.to_string(),
        payload,
        is_eof,
        service_name: String::new(),
    }
}

/// Make the opening frame of a routed connection: it carries the routing and the bytes already
/// read.
pub fn opening_frame(
    session_id: &str,
    connection_id: &str,
    service_name: &str,
    initial: Vec<u8>,
) -> (r: RawConnFrame)
    ensures
        r@ == (RawConnFrameView {
            session_id: session_id@,
            connection_id: connection_id@,
            payload: initial@,
            is_eof: false,
            service_name: service_name@,
        }),
{
    RawConnFrame {
        session_id: session_id.to_string(),
        connection_id: connection_id.to_string(),
        payload: initial,
        is_eof: false,
        service_name: service_name.to_string(),
    }
}

/// The frame for what was read from one half of a connection, and whether that half is done: a
/// read of nothing, like a read that failed, ends it.
pub fn frame_of_read(connection_id: &str, read: Option<&[u8]>) -> (r: (RawConnFrame, bool))
    ensures
        match read {
            Some(bytes) => if bytes@.len() == 0 {
                r.0@ == plain_frame(connection_id@, bytes@, true) && r.1
            } else {
                r.0@ == plain_frame(connection_id@, bytes@, false) && !r.1
            },
            None => r.0@ == plain_frame(connection_id@, Seq::empty(), true) && r.1,
        },
{
    match read {
        Some(bytes) => if bytes.len() == 0 {
            assert(bytes@ =~= Seq::empty());
            (raw_frame(connection_id, Vec::new(), true), true)
        } else {
            assert(bytes@.subrange(0, bytes@.len() as int) =~= bytes@);
            (raw_frame(connection_id, bytes_between(bytes, 0, bytes.len()), false), false)
        },
        None => (raw_frame(connection_id, Vec::new(), true), true),
    }
}

// ── Laws ──────────────────────────────────────────────────────────────────────

/// The frames that carry what was read from one half of a connection, read by read, and its end.
pub open spec fn frames_of(connection_id: Seq<char>, reads: Seq<Seq<u8>>) -> Seq<RawConnFrameView> {
    reads.map_values(|bytes: Seq<u8>| plain_frame(connection_id, bytes, false)).push(
        plain_frame(connection_id, Seq::empty(), true),
    )
}

/// The bytes that frames carry, in order.
pub open spec fn carried(frames: Seq<RawConnFrameView>) -> Seq<u8>
    decreases frames.len(),
{
    if frames.len() == 0 {
        Seq::empty()
    } else {
        carried(frames.drop_last()) + frames.last().payload
    }
}

/// The bytes of some reads, in order.
pub open spec fn joined(reads: Seq<Seq<u8>>) -> Seq<u8>
    decreases reads.len(),
{
    if reads.len() == 0 {
        Seq::empty()
    } else {
        joined(reads.drop_last()) + reads.last()
    }
}

proof fn lemma_data_frames(connection_id: Seq<char>, reads: Seq<Seq<u8>>)
    ensures
        carried(reads.map_values(|bytes: Seq<u8>| plain_frame(connection_id, bytes, false)))
            == joined(reads),
    decreases reads.len(),
{
    let frames = reads.map_values(|bytes: Seq<u8>| plain_frame(connection_id, bytes, false));
    if reads.len() > 0 {
        lemma_data_frames(connection_id, reads.drop_last());
        assert(frames.drop_last() =~= reads.drop_last().map_values(
            |bytes: Seq<u8>| plain_frame(connection_id, bytes, false),
        ));
    }
}

/// A connection passes through unchanged: its frames carry every byte that was read, in order and
/// once, however the reads cut it up, and only the last one ends it.
pub proof fn connection_is_transparent(connection_id: Seq<char>, reads: Seq<Seq<u8>>)
    ensures
        carried(frames_of(connection_id, reads)) == joined(reads),
        forall|i: int|
            0 <= i < frames_of(connection_id, reads).len() ==> ((#[trigger] frames_of(
                connection_id,
                reads,
            )[i]).is_eof <==> i == reads.len()),
{
    let data = reads.map_values(|bytes: Seq<u8>| plain_frame(connection_id, bytes, false));
    lemma_data_frames(connection_id, reads);
    assert(frames_of(connection_id, reads).drop_last() =~= data);
    assert(joined(reads) + Seq::<u8>::empty() =~= joined(reads));
}

/// Every frame of a connection names that connection, and carries one read, in its order.
pub proof fn frames_name_their_connection(connection_id: Seq<char>, reads: Seq<Seq<u8>>, i: int)
    requires
        0 <= i < reads.len(),
    ensures
        frames_of(connection_id, reads).len() == reads.len() + 1,
        frames_of(connection_id, reads)[i].connection_id == connection_id,
        frames_of(connection_id, reads)[i].payload == reads[i],
        frames_of(connection_id, reads).last().connection_id == connection_id,
        frames_of(connection_id, reads).last().payload.len() == 0,
{
}

/// What reads join to is what they hold, one behind the other.
pub proof fn joined_is_flat(reads: Seq<Seq<u8>>)
    ensures
        joined(reads) == reads.flatten(),
{
    reads.lemma_flatten_and_flatten_alt_are_equivalent();
    lemma_joined_is_flat_alt(reads);
}

proof fn lemma_joined_is_flat_alt(reads: Seq<Seq<u8>>)
    ensures
        joined(reads) == reads.flatten_alt(),
    decreases reads.len(),
{
    if reads.len() > 0 {
        lemma_joined_is_flat_alt(reads.drop_last());
    }
}

/// Raw connections are read sixteen kilobytes at a time.
pub proof fn reads_have_their_size()
    ensures
        RAW_BUF == 16 * 1024,
{
}

} // verus!
