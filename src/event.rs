//! The events that a track holds, the decoded file that a writer can be
//! built from, and the bytes that each event stands for in a track chunk.
use vstd::prelude::*;
use crate::vlq::vlq;

verus! {

/// The byte that opens every meta event in a track.
pub const META_MARKER: u8 = 0xFF;

/// The meta command that closes a track.
pub const END_OF_TRACK: u8 = 0x2F;

/// A channel or system message, copied into the track as it stands.
pub struct MidiMessage {
    pub data: Vec<u8>,
}

/// A meta event: its command byte, the payload length that the file records,
/// and the payload itself.
pub struct MetaEvent {
    pub command: u8,
    pub length: u64,
    pub data: Vec<u8>,
}

pub enum Event {
    Midi(MidiMessage),
    Meta(MetaEvent),
}

/// An event with the ticks that separate it from the event before it.
pub struct TrackEvent {
    pub vtime: u64,
    pub event: Event,
}

/// An event with its tick counted from the start of the track.
pub struct AbsoluteEvent {
    pub time: u64,
    pub event: Event,
}

pub struct Track {
    pub events: Vec<TrackEvent>,
}

/// How the tracks of a file relate to one another.
pub enum SMFFormat {
    /// One track.
    Single,
    /// Several tracks played together.
    MultiTrack,
    /// Several independent sequences.
    MultiSong,
}

/// A file as a reader decoded it.
pub struct SMF {
    pub format: SMFFormat,
    pub tracks: Vec<Track>,
    pub division: i16,
}

/// The number that the header records for a format.
pub open spec fn format_code(f: SMFFormat) -> u16 {
    match f {
        SMFFormat::Single => 0,
        SMFFormat::MultiTrack => 1,
        SMFFormat::MultiSong => 2,
    }
}

impl SMFFormat {
    pub fn code(&self) -> (r: u16)
        ensures
            r == format_code(*self),
    {
        match self {
            SMFFormat::Single => 0,
            SMFFormat::MultiTrack => 1,
            SMFFormat::MultiSong => 2,
        }
    }
}

/// The bytes of an event in a track, after its delta time.
pub open spec fn event_bytes(e: Event) -> Seq<u8> {
    match e {
        Event::Midi(m) => m.data@,
        Event::Meta(m) => seq![META_MARKER, m.command] + vlq(m.length as nat) + m.data@,
    }
}

pub open spec fn is_end_of_track(e: Event) -> bool {
    match e {
        Event::Meta(m) => m.command == END_OF_TRACK,
        Event::Midi(_) => false,
    }
}

} // verus!
