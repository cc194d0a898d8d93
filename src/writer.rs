//! The encoder: it gathers finished track chunks and writes them after the
//! file header.
use vstd::prelude::*;
use crate::chunk::{
    be16, be32, concat, delta_events, division_bytes, end_of_track_bytes, file_bytes,
    header_bytes, header_signature, is_track_chunk, latest_time, lemma_body_prefix_len,
    lemma_body_step, lemma_track_length_field, saw_end_of_track, timed_events, track_body,
    track_chunk, track_content, track_signature,
};
use crate::event::{
    event_bytes, format_code, is_end_of_track, AbsoluteEvent, Event, SMFFormat, TrackEvent,
    END_OF_TRACK, META_MARKER, SMF,
};
use crate::vlq::{lemma_vlq_len_u64, vlq, vlq_high};

verus! {

/// Gathers track chunks, each complete with its length field, and writes
/// them after the file header.
pub struct SMFWriter {
    format: u16,
    ticks: i16,
    tracks: Vec<Vec<u8>>,
}

impl SMFWriter {
    /// The format number that the header records.
    pub closed spec fn format(&self) -> u16 {
        self.format
    }

    /// Ticks per quarter note, or the SMPTE form of the division.
    pub closed spec fn division(&self) -> i16 {
        self.ticks
    }

    /// The finished track chunks, in the order they were added.
    pub closed spec fn chunks(&self) -> Seq<Seq<u8>> {
        self.tracks@.map_values(|t: Vec<u8>| t@)
    }

    /// Every chunk held is a track chunk with a correct length field.
    pub open spec fn wf(&self) -> bool {
        forall|i: int| 0 <= i < self.chunks().len() ==> is_track_chunk(#[trigger] self.chunks()[i])
    }

    /// A writer for a file of several tracks played together, with the given
    /// division and no tracks yet.
    pub fn new_with_division(ticks: i16) -> (w: SMFWriter)
        ensures
            w.format() == 1,
            w.division() == ticks,
            w.chunks() == Seq::<Seq<u8>>::empty(),
            w.wf(),
    {
        let w = SMFWriter { format: 1, ticks: ticks, tracks: Vec::new() };
        assert(w.chunks() =~= Seq::<Seq<u8>>::empty());
        w
    }

    /// A writer with the given format and division, and no tracks yet.
    pub fn new_with_division_and_format(format: SMFFormat, ticks: i16) -> (w: SMFWriter)
        ensures
            w.format() == format_code(format),
            w.division() == ticks,
            w.chunks() == Seq::<Seq<u8>>::empty(),
            w.wf(),
    {
        let w = SMFWriter { format: format.code(), ticks: ticks, tracks: Vec::new() };
        assert(w.chunks() =~= Seq::<Seq<u8>>::empty());
        w
    }

    /// How many tracks have been added.
    pub fn track_count(&self) -> (r: usize)
        ensures
            r == self.chunks().len(),
    {
        self.tracks.len()
    }

    /// Holds the finished chunk as the last track.
    fn push_track(&mut self, vec: Vec<u8>)
        requires
            old(self).wf(),
            is_track_chunk(vec@),
        ensures
            final(self).format() == old(self).format(),
            final(self).division() == old(self).division(),
            final(self).chunks() == old(self).chunks().push(vec@),
            final(self).wf(),
    {
        let ghost v = vec@;
        self.tracks.push(vec);
        assert(self.chunks() =~= old(self).chunks().push(v));
    }

    /// A writer holding every track of a decoded file, in order, with the
    /// file's format and division.
    pub fn from_smf(smf: SMF) -> (w: SMFWriter)
        requires
            forall|i: int|
                0 <= i < smf.tracks@.len() ==> #[trigger] track_content(
                    timed_events(smf.tracks@[i].events@),
                ).len() <= u32::MAX,
        ensures
            w.format() == format_code(smf.format),
            w.division() == smf.division,
            w.chunks() == Seq::new(
                smf.tracks@.len(),
                |i: int| track_chunk(timed_events(smf.tracks@[i].events@)),
            ),
            w.wf(),
    {
        let mut writer = SMFWriter::new_with_division_and_format(smf.format, smf.division);
        let ghost want = Seq::new(
            smf.tracks@.len(),
            |i: int| track_chunk(timed_events(smf.tracks@[i].events@)),
        );
        let mut t: usize = 0;
        while t < smf.tracks.len()
            invariant
                t <= smf.tracks@.len(),
                want == Seq::new(
                    smf.tracks@.len(),
                    |i: int| track_chunk(timed_events(smf.tracks@[i].events@)),
                ),
                forall|i: int|
                    0 <= i < smf.tracks@.len() ==> #[trigger] track_content(
                        timed_events(smf.tracks@[i].events@),
                    ).len() <= u32::MAX,
                writer.format() == format_code(smf.format),
                writer.division() == smf.division,
                writer.chunks() == want.take(t as int),
                writer.wf(),
            decreases smf.tracks@.len() - t,
        {
            let vec = SMFWriter::encode_track(smf.tracks[t].events.as_slice());
            writer.push_track(vec);
            assert(want.take(t + 1) == want.take(t as int).push(want[t as int]));
            t = t + 1;
        }
        assert(want.take(t as int) == want);
        writer
    }

    /// The track chunk for events that carry their delta times.
    fn encode_track(events: &[TrackEvent]) -> (vec: Vec<u8>)
        requires
            track_content(timed_events(events@)).len() <= u32::MAX,
        ensures
            vec@ == track_chunk(timed_events(events@)),
            is_track_chunk(vec@),
    {
        let ghost evs = timed_events(events@);
        let mut vec: Vec<u8> = Vec::new();
        SMFWriter::start_track_header(&mut vec);

        let mut length: u32 = 0;
        let mut saw_eot: bool = false;
        let mut i: usize = 0;
        proof {
            assert(evs.take(0) =~= Seq::<(nat, Event)>::empty());
        }
        while i < events.len()
            invariant
                i <= events@.len(),
                evs == timed_events(events@),
                track_content(evs).len() <= u32::MAX,
                vec@ == track_signature() + seq![0u8, 0u8, 0u8, 0u8] + track_body(evs.take(i as int)),
                length == track_body(evs.take(i as int)).len(),
                saw_eot == saw_end_of_track(evs.take(i as int)),
            decreases events@.len() - i,
        {
            let event = &events[i];
            proof {
                lemma_body_step(evs, i as int);
                lemma_body_prefix_len(evs, i + 1);
            }
            length = length + SMFWriter::write_vtime(event.vtime, &mut vec);
            SMFWriter::write_event(&mut vec, &event.event, &mut length, &mut saw_eot);
            i = i + 1;
        }
        proof {
            assert(evs.take(i as int) == evs);
            assert(vec@.subrange(8, vec@.len() as int) == track_body(evs));
            assert(vec@.take(4) == track_signature());
        }
        SMFWriter::finish_track_write(&mut vec, length, saw_eot);
        proof {
            lemma_track_length_field(evs);
        }
        vec
    }

    /// Adds a track made of events stamped with absolute ticks. Each event is
    /// written with the ticks since the latest event before it; one stamped
    /// earlier than that goes at the same tick, with delta zero. An
    /// End-Of-Track event is added unless one is among the events.
    pub fn add_track(&mut self, track: &[AbsoluteEvent])
        requires
            old(self).wf(),
            track_content(delta_events(track@)).len() <= u32::MAX,
        ensures
            final(self).format() == old(self).format(),
            final(self).division() == old(self).division(),
            final(self).chunks() == old(self).chunks().push(track_chunk(delta_events(track@))),
            final(self).wf(),
    {
        let ghost evs = delta_events(track@);
        let mut vec: Vec<u8> = Vec::new();
        SMFWriter::start_track_header(&mut vec);

        let mut length: u32 = 0;
        let mut cur_time: u64 = 0;
        let mut saw_eot: bool = false;
        let mut i: usize = 0;
        proof {
            assert(evs.take(0) =~= Seq::<(nat, Event)>::empty());
            assert(track@.take(0) =~= Seq::<AbsoluteEvent>::empty());
        }
        while i < track.len()
            invariant
                i <= track@.len(),
                evs == delta_events(track@),
                track_content(evs).len() <= u32::MAX,
                cur_time == latest_time(track@.take(i as int)),
                vec@ == track_signature() + seq![0u8, 0u8, 0u8, 0u8] + track_body(evs.take(i as int)),
                length == track_body(evs.take(i as int)).len(),
                saw_eot == saw_end_of_track(evs.take(i as int)),
            decreases track@.len() - i,
        {
            let ev = &track[i];
            proof {
                assert(track@.take(i + 1).drop_last() == track@.take(i as int));
                lemma_body_step(evs, i as int);
                lemma_body_prefix_len(evs, i + 1);
            }
            let vtime: u64 = if ev.time >= cur_time {
                ev.time - cur_time
            } else {
                0
            };
            if ev.time > cur_time {
                cur_time = ev.time;
            }
            length = length + SMFWriter::write_vtime(vtime, &mut vec);
            SMFWriter::write_event(&mut vec, &ev.event, &mut length, &mut saw_eot);
            i = i + 1;
        }
        proof {
            assert(evs.take(i as int) == evs);
            assert(vec@.subrange(8, vec@.len() as int) == track_body(evs));
            assert(vec@.take(4) == track_signature());
        }
        SMFWriter::finish_track_write(&mut vec, length, saw_eot);
        proof {
            lemma_track_length_field(evs);
        }
        self.push_track(vec);
    }
    /// Appends the variable-length encoding of `val` to `out`, and returns
    /// how many bytes that took.
    pub fn write_vtime(val: u64, out: &mut Vec<u8>) -> (r: u32)
        ensures
            final(out)@ == old(out)@ + vlq(val as nat),
            r == vlq(val as nat).len(),
    {
        proof {
            lemma_vlq_len_u64(val);
        }
        // the seven-bit groups, least significant first
        let mut storage: Vec<u8> = Vec::new();
        let mut cur: u64 = val;
        let val_mask: u64 = 0x7F;
        let cont_mask: u8 = 0x80;

        assert(cur & val_mask == cur % 128) by (bit_vector)
            requires
                val_mask == 0x7F,
        ;
        assert(cur >> 7 == cur / 128) by (bit_vector);
        storage.push((cur & val_mask) as u8);
        cur = cur >> 7;
        assert(storage@.reverse() == seq![(val % 128) as u8]);

        while cur != 0
            invariant
                val_mask == 0x7F,
                cont_mask == 0x80,
                vlq(val as nat) == vlq_high(cur as nat) + storage@.reverse(),
                storage@.len() <= vlq(val as nat).len(),
            decreases cur,
        {
            let low: u8 = (cur & val_mask) as u8;
            assert(cur & val_mask == cur % 128) by (bit_vector)
                requires
                    val_mask == 0x7F,
            ;
            assert(low | cont_mask == low + 128) by (bit_vector)
                requires
                    low < 128,
                    cont_mask == 0x80,
            ;
            let to_write: u8 = low | cont_mask;
            let ghost old_storage = storage@;
            assert(cur >> 7 == cur / 128) by (bit_vector);
            let next: u64 = cur >> 7;
            assert(vlq_high(cur as nat) == vlq_high(next as nat).push(to_write));
            storage.push(to_write);
            assert(storage@.reverse() == seq![to_write] + old_storage.reverse());
            assert(vlq_high(cur as nat) + old_storage.reverse()
                == vlq_high(next as nat) + storage@.reverse());
            cur = next;
        }
        assert(vlq_high(0) == Seq::<u8>::empty());
        assert(vlq(val as nat) == storage@.reverse());

        let written: u32 = storage.len() as u32;
        let mut i: usize = storage.len();
        while i > 0
            invariant
                i <= storage@.len(),
                out@ == old(out)@ + storage@.reverse().take(storage@.len() - i),
            decreases i,
        {
            i = i - 1;
            out.push(storage[i]);
            assert(storage@.reverse().take(storage@.len() - i)
                == storage@.reverse().take(storage@.len() - i - 1).push(storage@[i as int]));
        }
        assert(storage@.reverse().take(storage@.len() as int) == storage@.reverse());
        written
    }

    /// Appends `v` in two bytes, most significant first.
    fn write_be_u16(out: &mut Vec<u8>, v: u16)
        ensures
            final(out)@ == old(out)@ + be16(v as nat),
    {
        out.push((v / 0x100) as u8);
        out.push((v % 0x100) as u8);
        assert(out@ =~= old(out)@ + be16(v as nat));
    }

    /// Appends `v` in two bytes, two's complement, most significant first.
    fn write_be_i16(out: &mut Vec<u8>, v: i16)
        ensures
            final(out)@ == old(out)@ + division_bytes(v),
    {
        let bits: u16 = if v < 0 {
            (v as i32 + 0x1_0000) as u16
        } else {
            v as u16
        };
        SMFWriter::write_be_u16(out, bits);
    }

    /// Appends `v` in four bytes, most significant first.
    fn write_be_u32(out: &mut Vec<u8>, v: u32)
        ensures
            final(out)@ == old(out)@ + be32(v as nat),
    {
        out.push((v / 0x100_0000) as u8);
        out.push((v / 0x1_0000 % 0x100) as u8);
        out.push((v / 0x100 % 0x100) as u8);
        out.push((v % 0x100) as u8);
        assert(out@ =~= old(out)@ + be32(v as nat));
    }

    /// Appends the header chunk.
    fn write_header(&self, out: &mut Vec<u8>)
        requires
            self.chunks().len() <= u16::MAX,
        ensures
            final(out)@ == old(out)@ + header_bytes(self.format(), self.chunks().len(), self.division()),
    {
        out.push(0x4D);
        out.push(0x54);
        out.push(0x68);
        out.push(0x64);
        assert(out@ == old(out)@ + header_signature());
        SMFWriter::write_be_u32(out, 6);
        SMFWriter::write_be_u16(out, self.format);
        SMFWriter::write_be_u16(out, self.tracks.len() as u16);
        SMFWriter::write_be_i16(out, self.ticks);
        assert(out@ =~= old(out)@ + header_bytes(self.format(), self.chunks().len(), self.division()));
    }

    /// Appends the whole file to `out`: the header, then every track chunk in
    /// the order the tracks were added. The writer is used up.
    pub fn write_all(self, out: &mut Vec<u8>)
        requires
            self.chunks().len() <= u16::MAX,
        ensures
            final(out)@ == old(out)@ + file_bytes(self.format(), self.division(), self.chunks()),
    {
        self.write_header(out);
        let ghost start = out@;
        let ghost chunks = self.chunks();
        let mut i: usize = 0;
        while i < self.tracks.len()
            invariant
                i <= self.tracks@.len(),
                chunks == self.chunks(),
                out@ == start + concat(chunks.take(i as int)),
            decreases self.tracks@.len() - i,
        {
            SMFWriter::push_all(out, self.tracks[i].as_slice());
            assert(chunks.take(i + 1).drop_last() == chunks.take(i as int));
            i = i + 1;
        }
        assert(chunks.take(i as int) == chunks);
    }

    /// Appends `data` to `vec`.
    fn push_all(vec: &mut Vec<u8>, data: &[u8])
        ensures
            final(vec)@ == old(vec)@ + data@,
    {
        let mut i: usize = 0;
        while i < data.len()
            invariant
                i <= data@.len(),
                vec@ == old(vec)@ + data@.take(i as int),
            decreases data@.len() - i,
        {
            vec.push(data[i]);
            i = i + 1;
            assert(data@.take(i as int) == data@.take(i - 1).push(data@[i - 1]));
        }
        assert(data@.take(data@.len() as int) == data@);
    }

    /// Opens a track chunk: the signature, then four zero bytes where the
    /// length goes once it is known.
    fn start_track_header(vec: &mut Vec<u8>)
        ensures
            final(vec)@ == old(vec)@ + track_signature() + seq![0u8, 0u8, 0u8, 0u8],
    {
        vec.push(0x4D);
        vec.push(0x54);
        vec.push(0x72);
        vec.push(0x6B);
        vec.push(0);
        vec.push(0);
        vec.push(0);
        vec.push(0);
        assert(vec@ == old(vec)@ + track_signature() + seq![0u8, 0u8, 0u8, 0u8]);
    }

    /// Appends the bytes of one event, adds their number to `length`, and
    /// records in `saw_eot` whether the event closes the track.
    fn write_event(vec: &mut Vec<u8>, event: &Event, length: &mut u32, saw_eot: &mut bool)
        requires
            *old(length) + event_bytes(*event).len() <= u32::MAX,
        ensures
            final(vec)@ == old(vec)@ + event_bytes(*event),
            *final(length) == *old(length) + event_bytes(*event).len(),
            *final(saw_eot) == (*old(saw_eot) || is_end_of_track(*event)),
    {
        match event {
            Event::Midi(midi) => {
                SMFWriter::push_all(vec, midi.data.as_slice());
                *length = *length + midi.data.len() as u32;
            },
            Event::Meta(meta) => {
                proof {
                    lemma_vlq_len_u64(meta.length);
                }
                vec.push(META_MARKER);
                vec.push(meta.command);
                // the marker and the command byte come before the length
                *length = *length + SMFWriter::write_vtime(meta.length, vec) + 2;
                SMFWriter::push_all(vec, meta.data.as_slice());
                *length = *length + meta.data.len() as u32;
                if meta.command == END_OF_TRACK {
                    *saw_eot = true;
                }
                assert(vec@ == old(vec)@ + event_bytes(*event));
            },
        }
    }

    /// Closes a track chunk that starts at the front of `vec` and holds
    /// `length` bytes after its header: adds an End-Of-Track event unless one
    /// was written, then fills in the length field.
    fn finish_track_write(vec: &mut Vec<u8>, length: u32, saw_eot: bool)
        requires
            old(vec)@.len() == length + 8,
            !saw_eot ==> length + 4 <= u32::MAX,
        ensures
            ({
                let content = if saw_eot {
                    old(vec)@.subrange(8, old(vec)@.len() as int)
                } else {
                    old(vec)@.subrange(8, old(vec)@.len() as int) + end_of_track_bytes()
                };
                final(vec)@ == old(vec)@.take(4) + be32(content.len()) + content
            }),
    {
        let mut length = length;
        if !saw_eot {
            // no End-Of-Track among the events: add one
            length = length + SMFWriter::write_vtime(0, vec) + 1;
            vec.push(META_MARKER);
            vec.push(END_OF_TRACK);
            length = length + SMFWriter::write_vtime(0, vec) + 1;
            assert(vlq(0) == seq![0u8]);
        }
        vec.set(4, (length / 0x100_0000) as u8);
        vec.set(5, (length / 0x1_0000 % 256) as u8);
        vec.set(6, (length / 0x100 % 256) as u8);
        vec.set(7, (length % 256) as u8);
        proof {
            let content = if saw_eot {
                old(vec)@.subrange(8, old(vec)@.len() as int)
            } else {
                old(vec)@.subrange(8, old(vec)@.len() as int) + end_of_track_bytes()
            };
            assert(vec@ =~= old(vec)@.take(4) + be32(content.len()) + content);
        }
    }
}

} // verus!
