//! The byte layout of a file: the header chunk, and the track chunks with
//! their length fields and closing End-Of-Track events.
use vstd::prelude::*;
use crate::event::{event_bytes, is_end_of_track, AbsoluteEvent, Event, TrackEvent};
use crate::vlq::vlq;

verus! {

/// The bytes of a run of events, each after its delta time.
pub open spec fn track_body(s: Seq<(nat, Event)>) -> Seq<u8>
    decreases s.len(),
{
    if s.len() == 0 {
        Seq::empty()
    } else {
        track_body(s.drop_last()) + vlq(s.last().0) + event_bytes(s.last().1)
    }
}

/// Whether some event of the run is an End-Of-Track meta event.
pub open spec fn saw_end_of_track(s: Seq<(nat, Event)>) -> bool
    decreases s.len(),
{
    s.len() > 0 && (saw_end_of_track(s.drop_last()) || is_end_of_track(s.last().1))
}

/// An End-Of-Track meta event at delta time zero.
pub open spec fn end_of_track_bytes() -> Seq<u8> {
    seq![0x00u8, 0xFFu8, 0x2Fu8, 0x00u8]
}

/// What follows the eight header bytes of a track chunk: the events, and an
/// End-Of-Track event where none of them was one.
pub open spec fn track_content(s: Seq<(nat, Event)>) -> Seq<u8> {
    if saw_end_of_track(s) {
        track_body(s)
    } else {
        track_body(s) + end_of_track_bytes()
    }
}

/// `n` in four bytes, most significant first.
pub open spec fn be32(n: nat) -> Seq<u8> {
    seq![
        (n / 0x100_0000 % 256) as u8,
        (n / 0x1_0000 % 256) as u8,
        (n / 0x100 % 256) as u8,
        (n % 256) as u8,
    ]
}

/// `n` in two bytes, most significant first.
pub open spec fn be16(n: nat) -> Seq<u8> {
    seq![(n / 0x100 % 256) as u8, (n % 256) as u8]
}

/// The number that four bytes spell, most significant first.
pub open spec fn be32_value(b: Seq<u8>) -> nat {
    b[0] as nat * 0x100_0000 + b[1] as nat * 0x1_0000 + b[2] as nat * 0x100 + b[3] as nat
}

pub open spec fn track_signature() -> Seq<u8> {
    seq![0x4Du8, 0x54u8, 0x72u8, 0x6Bu8]
}

pub open spec fn header_signature() -> Seq<u8> {
    seq![0x4Du8, 0x54u8, 0x68u8, 0x64u8]
}

/// The track chunk for a run of events.
pub open spec fn track_chunk(s: Seq<(nat, Event)>) -> Seq<u8> {
    track_signature() + be32(track_content(s).len()) + track_content(s)
}

/// A chunk that opens with the track signature and whose length field counts
/// exactly the bytes after the eight header bytes.
pub open spec fn is_track_chunk(c: Seq<u8>) -> bool {
    &&& c.len() >= 8
    &&& c.take(4) == track_signature()
    &&& be32_value(c.subrange(4, 8)) == c.len() - 8
}

/// A division in two bytes, two's complement, most significant first.
pub open spec fn division_bytes(d: i16) -> Seq<u8> {
    if d < 0 {
        be16((d + 0x1_0000) as nat)
    } else {
        be16(d as nat)
    }
}

/// The fourteen bytes of the header chunk.
pub open spec fn header_bytes(format: u16, track_count: nat, division: i16) -> Seq<u8> {
    header_signature() + be32(6) + be16(format as nat) + be16(track_count) + division_bytes(division)
}

/// Byte sequences one after the other, in order.
pub open spec fn concat(chunks: Seq<Seq<u8>>) -> Seq<u8>
    decreases chunks.len(),
{
    if chunks.len() == 0 {
        Seq::empty()
    } else {
        concat(chunks.drop_last()) + chunks.last()
    }
}

/// A whole file: the header, then the track chunks in order.
pub open spec fn file_bytes(format: u16, division: i16, chunks: Seq<Seq<u8>>) -> Seq<u8> {
    header_bytes(format, chunks.len(), division) + concat(chunks)
}

/// The events of a decoded track, with their delta times.
pub open spec fn timed_events(evs: Seq<TrackEvent>) -> Seq<(nat, Event)> {
    Seq::new(evs.len(), |i: int| (evs[i].vtime as nat, evs[i].event))
}

/// The latest tick among the events; zero for none.
pub open spec fn latest_time(evs: Seq<AbsoluteEvent>) -> nat
    decreases evs.len(),
{
    if evs.len() == 0 {
        0
    } else if latest_time(evs.drop_last()) < evs.last().time {
        evs.last().time as nat
    } else {
        latest_time(evs.drop_last())
    }
}

/// Absolute events with their delta times: the ticks between an event and
/// the latest event before it. An event stamped earlier than one before it
/// is placed at that event's tick, with delta zero.
pub open spec fn delta_events(evs: Seq<AbsoluteEvent>) -> Seq<(nat, Event)> {
    Seq::new(
        evs.len(),
        |i: int| ((latest_time(evs.take(i + 1)) - latest_time(evs.take(i))) as nat, evs[i].event),
    )
}

/// Adding one event to a run adds its bytes at the end.
pub proof fn lemma_body_step(s: Seq<(nat, Event)>, i: int)
    requires
        0 <= i < s.len(),
    ensures
        track_body(s.take(i + 1)) == track_body(s.take(i)) + vlq(s[i].0) + event_bytes(s[i].1),
        saw_end_of_track(s.take(i + 1)) == (saw_end_of_track(s.take(i)) || is_end_of_track(s[i].1)),
{
    assert(s.take(i + 1).drop_last() == s.take(i));
}

/// The bytes of the first events of a run are no more than those of all.
pub proof fn lemma_body_prefix_len(s: Seq<(nat, Event)>, i: int)
    requires
        0 <= i <= s.len(),
    ensures
        track_body(s.take(i)).len() <= track_body(s).len(),
    decreases s.len() - i,
{
    if i < s.len() {
        lemma_body_step(s, i);
        lemma_body_prefix_len(s, i + 1);
    } else {
        assert(s.take(i) == s);
    }
}

/// Four bytes written from a 32-bit number spell that number.
pub proof fn lemma_be32_value(n: nat)
    requires
        n <= u32::MAX,
    ensures
        be32_value(be32(n)) == n,
{
    let x = n as u32;
    assert((x / 0x100_0000) % 256 * 0x100_0000 + (x / 0x1_0000) % 256 * 0x1_0000 + (x / 0x100) % 256 * 0x100 + x % 256 == x) by (bit_vector);
}

/// Every track chunk's length field counts exactly the bytes that follow its
/// eight header bytes.
pub proof fn lemma_track_length_field(s: Seq<(nat, Event)>)
    requires
        track_content(s).len() <= u32::MAX,
    ensures
        is_track_chunk(track_chunk(s)),
        be32_value(track_chunk(s).subrange(4, 8)) == track_chunk(s).len() - 8,
        track_chunk(s).subrange(8, track_chunk(s).len() as int) == track_content(s),
{
    let c = track_chunk(s);
    lemma_be32_value(track_content(s).len());
    assert(c.take(4) == track_signature());
    assert(c.subrange(4, 8) == be32(track_content(s).len()));
    assert(c.subrange(8, c.len() as int) == track_content(s));
}

/// A run of events that already ends with an End-Of-Track event is closed
/// with nothing added; a run with no End-Of-Track event at all is closed with
/// exactly one, `00 FF 2F 00`.
pub proof fn lemma_end_of_track_added_once(s: Seq<(nat, Event)>)
    ensures
        s.len() > 0 && is_end_of_track(s.last().1) ==> track_content(s) == track_body(s),
        !saw_end_of_track(s) ==> track_content(s) == track_body(s) + end_of_track_bytes(),
{
}

/// A file without tracks is its fourteen-byte header alone, with a track
/// count of zero.
pub proof fn lemma_empty_file(format: u16, division: i16)
    ensures
        file_bytes(format, division, Seq::empty()) == header_bytes(format, 0, division),
        header_bytes(format, 0, division).len() == 14,
        header_bytes(format, 0, division).subrange(10, 12) == seq![0u8, 0u8],
{
    let h = header_bytes(format, 0, division);
    assert(file_bytes(format, division, Seq::empty()) == h);
    assert(h.subrange(10, 12) == be16(0));
}

} // verus!
