use rimd::event::{
    AbsoluteEvent, Event, MetaEvent, MidiMessage, SMFFormat, Track, TrackEvent, END_OF_TRACK, SMF,
};
use rimd::writer::SMFWriter;

fn note_on() -> Event {
    Event::Midi(MidiMessage { data: vec![0x90, 0x3C, 0x40] })
}

fn meta(command: u8, data: Vec<u8>) -> Event {
    Event::Meta(MetaEvent { command, length: data.len() as u64, data })
}

fn at(time: u64, event: Event) -> AbsoluteEvent {
    AbsoluteEvent { time, event }
}

fn file_of(writer: SMFWriter) -> Vec<u8> {
    let mut out = Vec::new();
    writer.write_all(&mut out);
    out
}

/// The one track chunk of a file written with a single track.
fn only_track(writer: SMFWriter) -> Vec<u8> {
    let out = file_of(writer);
    out[14..].to_vec()
}

fn length_field(chunk: &[u8]) -> u32 {
    u32::from_be_bytes([chunk[4], chunk[5], chunk[6], chunk[7]])
}

#[test]
fn vwrite() {
    let mut vec1 = Vec::new();
    SMFWriter::write_vtime(127, &mut vec1);
    assert!(vec1[0] == 0x7f);

    vec1.clear();
    SMFWriter::write_vtime(255, &mut vec1);
    assert!(vec1[0] == 0x81);
    assert!(vec1[1] == 0x7f);

    vec1.clear();
    SMFWriter::write_vtime(32768, &mut vec1);
    assert!(vec1[0] == 0x82);
    assert!(vec1[1] == 0x80);
    assert!(vec1[2] == 0x00);
}

#[test]
fn vlq_exact_bytes_and_counts() {
    let cases: Vec<(u64, Vec<u8>)> = vec![
        (0, vec![0x00]),
        (127, vec![0x7F]),
        (128, vec![0x81, 0x00]),
        (255, vec![0x81, 0x7F]),
        (32768, vec![0x82, 0x80, 0x00]),
        (0x0FFF_FFFF, vec![0xFF, 0xFF, 0xFF, 0x7F]),
    ];
    for (v, want) in cases {
        let mut out = vec![0xAA];
        let n = SMFWriter::write_vtime(v, &mut out);
        assert_eq!(n as usize, want.len());
        assert_eq!(out[0], 0xAA);
        assert_eq!(&out[1..], &want[..]);
    }
}

#[test]
fn vlq_largest_value_takes_ten_bytes() {
    let mut out = Vec::new();
    let n = SMFWriter::write_vtime(u64::MAX, &mut out);
    assert_eq!(n, 10);
    assert_eq!(out, vec![0x81, 0xFF, 0xFF, 0xFF, 0xFF, 0xFF, 0xFF, 0xFF, 0xFF, 0x7F]);
}

#[test]
fn vlq_round_trip_on_samples() {
    for v in [0u64, 1, 127, 128, 8191, 16383, 16384, 2097151, 2097152, 1 << 40, u64::MAX] {
        let mut out = Vec::new();
        SMFWriter::write_vtime(v, &mut out);
        let mut value: u128 = 0;
        for (i, b) in out.iter().enumerate() {
            assert_eq!(*b >= 0x80, i + 1 < out.len());
            value = value * 128 + (*b & 0x7F) as u128;
        }
        assert_eq!(value, v as u128);
    }
}

#[test]
fn header_for_two_tracks() {
    let mut w = SMFWriter::new_with_division(480);
    w.add_track(&[at(0, note_on())]);
    w.add_track(&[]);
    assert_eq!(w.track_count(), 2);
    let out = file_of(w);
    assert_eq!(
        &out[..14],
        &[0x4D, 0x54, 0x68, 0x64, 0x00, 0x00, 0x00, 0x06, 0x00, 0x01, 0x00, 0x02, 0x01, 0xE0]
    );
}

#[test]
fn absolute_times_become_deltas() {
    let mut w = SMFWriter::new_with_division(96);
    let one = || Event::Midi(MidiMessage { data: vec![0xF8] });
    w.add_track(&[at(0, one()), at(120, one()), at(120, one()), at(500, one())]);
    let chunk = only_track(w);
    // deltas 0, 120, 0 and 380 (two bytes: 0x82 0x7C), then the closing event
    let body = vec![
        0x00, 0xF8, 0x78, 0xF8, 0x00, 0xF8, 0x82, 0x7C, 0xF8, 0x00, 0xFF, 0x2F, 0x00,
    ];
    assert_eq!(&chunk[..4], b"MTrk");
    assert_eq!(length_field(&chunk), body.len() as u32);
    assert_eq!(&chunk[8..], &body[..]);
}

#[test]
fn earlier_timestamp_gets_delta_zero() {
    let mut w = SMFWriter::new_with_division(96);
    let one = || Event::Midi(MidiMessage { data: vec![0xF8] });
    w.add_track(&[at(100, one()), at(40, one()), at(150, one())]);
    let chunk = only_track(w);
    assert_eq!(&chunk[8..], &[0x64, 0xF8, 0x00, 0xF8, 0x32, 0xF8, 0x00, 0xFF, 0x2F, 0x00]);
}

#[test]
fn empty_writer_writes_header_only() {
    let out = file_of(SMFWriter::new_with_division(-6136));
    assert_eq!(
        out,
        vec![0x4D, 0x54, 0x68, 0x64, 0x00, 0x00, 0x00, 0x06, 0x00, 0x01, 0x00, 0x00, 0xE8, 0x08]
    );
}

#[test]
fn format_and_division_from_constructor() {
    let out = file_of(SMFWriter::new_with_division_and_format(SMFFormat::MultiSong, 0x1234));
    assert_eq!(&out[8..14], &[0x00, 0x02, 0x00, 0x00, 0x12, 0x34]);
    let out = file_of(SMFWriter::new_with_division_and_format(SMFFormat::Single, 24));
    assert_eq!(&out[8..14], &[0x00, 0x00, 0x00, 0x00, 0x00, 0x18]);
}

#[test]
fn track_length_field_counts_content() {
    let mut w = SMFWriter::new_with_division(480);
    let tempo = meta(0x51, vec![0x07, 0xA1, 0x20]);
    let text = meta(0x01, vec![b'x'; 200]);
    w.add_track(&[at(0, tempo), at(0, text), at(1000, note_on())]);
    let chunk = only_track(w);
    assert_eq!(length_field(&chunk) as usize, chunk.len() - 8);
    // tempo: delta, FF 51 03 and its three bytes
    assert_eq!(&chunk[8..15], &[0x00, 0xFF, 0x51, 0x03, 0x07, 0xA1, 0x20]);
    // a 200-byte payload has a two-byte length
    assert_eq!(&chunk[15..19], &[0x00, 0xFF, 0x01, 0x81]);
    assert_eq!(chunk[19], 0x48);
    assert_eq!(chunk.len(), 8 + 7 + 205 + 5 + 4);
}

#[test]
fn end_of_track_not_repeated() {
    let mut w = SMFWriter::new_with_division(480);
    w.add_track(&[at(0, note_on()), at(10, meta(END_OF_TRACK, vec![]))]);
    let chunk = only_track(w);
    assert_eq!(&chunk[8..], &[0x00, 0x90, 0x3C, 0x40, 0x0A, 0xFF, 0x2F, 0x00]);
    assert_eq!(length_field(&chunk), 8);
}

#[test]
fn end_of_track_added_when_missing() {
    let mut w = SMFWriter::new_with_division(480);
    w.add_track(&[at(0, note_on())]);
    let chunk = only_track(w);
    assert_eq!(&chunk[8..], &[0x00, 0x90, 0x3C, 0x40, 0x00, 0xFF, 0x2F, 0x00]);
    assert_eq!(length_field(&chunk), 8);
}

#[test]
fn empty_track_is_only_end_of_track() {
    let mut w = SMFWriter::new_with_division(480);
    w.add_track(&[]);
    let chunk = only_track(w);
    assert_eq!(chunk, vec![0x4D, 0x54, 0x72, 0x6B, 0x00, 0x00, 0x00, 0x04, 0x00, 0xFF, 0x2F, 0x00]);
}

#[test]
fn from_decoded_file_keeps_deltas_and_order() {
    let first = Track {
        events: vec![
            TrackEvent { vtime: 0, event: note_on() },
            TrackEvent { vtime: 200, event: meta(END_OF_TRACK, vec![]) },
        ],
    };
    let second = Track { events: vec![TrackEvent { vtime: 5, event: note_on() }] };
    let smf = SMF { format: SMFFormat::MultiSong, tracks: vec![first, second], division: 96 };
    let out = file_of(SMFWriter::from_smf(smf));
    assert_eq!(
        &out[..14],
        &[0x4D, 0x54, 0x68, 0x64, 0x00, 0x00, 0x00, 0x06, 0x00, 0x02, 0x00, 0x02, 0x00, 0x60]
    );
    let first_chunk = [
        0x4D, 0x54, 0x72, 0x6B, 0x00, 0x00, 0x00, 0x09, 0x00, 0x90, 0x3C, 0x40, 0x81, 0x48, 0xFF,
        0x2F, 0x00,
    ];
    let second_chunk = [
        0x4D, 0x54, 0x72, 0x6B, 0x00, 0x00, 0x00, 0x08, 0x05, 0x90, 0x3C, 0x40, 0x00, 0xFF, 0x2F,
        0x00,
    ];
    assert_eq!(&out[14..31], &first_chunk[..]);
    assert_eq!(&out[31..], &second_chunk[..]);
}

#[test]
fn tracks_written_in_order_added() {
    let mut w = SMFWriter::new_with_division(480);
    w.add_track(&[at(0, Event::Midi(MidiMessage { data: vec![0xF8] }))]);
    w.add_track(&[at(0, Event::Midi(MidiMessage { data: vec![0xFA] }))]);
    let out = file_of(w);
    assert_eq!(out.len(), 14 + 2 * 14);
    assert_eq!(out[14 + 9], 0xF8);
    assert_eq!(out[28 + 9], 0xFA);
}
