use yks_converter::byte_buffer::ByteBuffer;
use yks_converter::mf2tt2mf::Mf2tt2mf;
use yks_converter::mml::{chars_of, remove_spaces, tokenize};
use yks_converter::scan::parse_digits;
use yks_converter::track_event::{
    EndOfTrack, MetaText, MidiEvent, NoteOff, NoteOn, SeqSpec, SysEx, Tempo, TrackEvent,
};
use yks_converter::yks_converter::{encode_track, write_var_len};
use yks_converter::{ConversionError, YksConverter};

/// (time, encoded bytes) of every event of the first track of `mml` on channel 1.
fn first_track(mml: &str) -> Vec<(u32, Vec<u8>)> {
    let mut parser = Mf2tt2mf::new(1, 1, 64, 0);
    assert!(parser.from_mml(mml));
    parser.build()[0]
        .iter()
        .map(|e| (e.lead_time(), e.to_buffer().to_vec()))
        .collect()
}

/// (time, note) of the NoteOn and NoteOff events of the first track.
fn notes(mml: &str) -> (Vec<(u32, u8)>, Vec<(u32, u8)>) {
    let mut parser = Mf2tt2mf::new(2, 1, 64, 0);
    assert!(parser.from_mml(mml));
    let tracks = parser.build();
    let mut ons = Vec::new();
    let mut offs = Vec::new();
    for e in &tracks[0] {
        let bytes = e.to_buffer().to_vec();
        match e {
            MidiEvent::NoteOn(_) => ons.push((e.lead_time(), bytes[1])),
            MidiEvent::NoteOff(_) => offs.push((e.lead_time(), bytes[1])),
            _ => {}
        }
    }
    (ons, offs)
}

fn convert(mml: &str) -> Vec<u8> {
    YksConverter::new(mml.to_string(), 1).to_buffer_result().unwrap().to_vec()
}

#[test]
fn length_divides_whole_note() {
    for n in 1u32..=192 {
        let (ons, offs) = notes(&format!("MML@l{}c,,;", n));
        assert_eq!(offs[0].0 - ons[0].0, 384 / n);
        let (ons, offs) = notes(&format!("MML@l{}.c,,;", n));
        assert_eq!(offs[0].0 - ons[0].0, (384 / n) * 3 / 2);
        let (ons, offs) = notes(&format!("MML@c{}.,,;", n));
        assert_eq!(offs[0].0 - ons[0].0, (384 / n) * 3 / 2);
    }
}

#[test]
fn length_out_of_range_is_ignored() {
    let (ons, offs) = notes("MML@l193c,,;");
    assert_eq!(offs[0].0 - ons[0].0, 96);
    let (ons, offs) = notes("MML@l0c,,;");
    assert_eq!(offs[0].0 - ons[0].0, 96);
    let (ons, offs) = notes("MML@c0,,;");
    assert_eq!(offs[0].0 - ons[0].0, 96);
    let (ons, offs) = notes("MML@l16.c,,;");
    assert_eq!(offs[0].0 - ons[0].0, 36);
}

#[test]
fn conversion_is_deterministic() {
    let mml = "MML@t150l8o5c+d-e#f&f<g4.r8a16b,v12cde,n60n61;";
    assert_eq!(convert(mml), convert(mml));
}

#[test]
fn running_status_omits_repeated_status() {
    let ev = first_track("MML@c,,;");
    // ProgramChange, then two ControlChanges on the same channel.
    assert_eq!(ev[3], (192, vec![0xC0, 0x01]));
    assert_eq!(ev[4], (193, vec![0xB0, 0x0A, 0x40]));
    assert_eq!(ev[5], (194, vec![0xB0, 0x5B, 0x00]));
    let bytes = convert("MML@c,,;");
    let hex: String = bytes.iter().map(|b| format!("{:02x}", b)).collect();
    // delta 1, pan; delta 1, reverb without its status byte
    assert!(hex.contains("01b00a40015b00"));
    // a different kind writes its status again: NoteOn then NoteOff
    assert!(hex.contains("903c4060803c00"));
}

#[test]
fn running_status_on_another_channel() {
    let mut track = Vec::new();
    let mut a = NoteOn::new(1, 60, 64);
    a.set_lead_time(0);
    let mut b = NoteOn::new(1, 62, 64);
    b.set_lead_time(10);
    let mut c = NoteOn::new(2, 64, 64);
    c.set_lead_time(10);
    track.push(MidiEvent::NoteOn(a));
    track.push(MidiEvent::NoteOn(b));
    track.push(MidiEvent::NoteOn(c));
    let body = encode_track(&track).unwrap().to_vec();
    assert_eq!(body, vec![0x00, 0x90, 60, 64, 0x0A, 62, 64, 0x00, 0x91, 64, 64]);
}

#[test]
fn var_len_examples() {
    assert_eq!(write_var_len(0).to_vec(), vec![0x00]);
    assert_eq!(write_var_len(127).to_vec(), vec![0x7F]);
    assert_eq!(write_var_len(128).to_vec(), vec![0x81, 0x00]);
    assert_eq!(write_var_len(16383).to_vec(), vec![0xFF, 0x7F]);
    assert_eq!(write_var_len(16384).to_vec(), vec![0x81, 0x80, 0x00]);
    assert_eq!(write_var_len(0x0FFF_FFFF).to_vec(), vec![0xFF, 0xFF, 0xFF, 0x7F]);
    assert_eq!(write_var_len(u32::MAX).to_vec(), vec![0x8F, 0xFF, 0xFF, 0xFF, 0x7F]);
}

#[test]
fn tie_same_pitch_sounds_once() {
    let (ons, offs) = notes("MML@c4&c4,,;");
    assert_eq!(ons, vec![(384, 60)]);
    assert_eq!(offs, vec![(576, 60)]);
}

#[test]
fn tie_other_pitch_releases_at_once() {
    let (ons, offs) = notes("MML@c4&d4,,;");
    assert_eq!(ons, vec![(384, 60), (480, 62)]);
    assert_eq!(offs, vec![(480, 60), (576, 62)]);
    let ev = first_track("MML@c4&d4,,;");
    let off_c = ev.iter().position(|e| e.1 == vec![0x80, 60, 0]).unwrap();
    assert_eq!(ev[off_c + 1], (480, vec![0x90, 62, 64]));
}

#[test]
fn tie_left_open_is_closed_at_the_end() {
    let (ons, offs) = notes("MML@c4&,,;");
    assert_eq!(ons, vec![(384, 60)]);
    assert_eq!(offs, vec![(480, 60)]);
    let ev = first_track("MML@c4&,,;");
    assert_eq!(ev.last().unwrap(), &(576, vec![0xFF, 0x2F, 0x00]));
}

#[test]
fn single_note_score() {
    let mut parser = Mf2tt2mf::new(1, 1, 64, 0);
    assert!(parser.from_mml("MML@c,,;"));
    let tracks = parser.build();
    assert_eq!(tracks.len(), 3);
    let first: Vec<(u32, Vec<u8>)> =
        tracks[0].iter().map(|e| (e.lead_time(), e.to_buffer().to_vec())).collect();
    assert_eq!(first.len(), 9);
    assert_eq!(first[6], (384, vec![0x90, 60, 64]));
    assert_eq!(first[7], (480, vec![0x80, 60, 0]));
    assert_eq!(first[8], (576, vec![0xFF, 0x2F, 0x00]));
    for t in 1..3 {
        let ev: Vec<(u32, Vec<u8>)> =
            tracks[t].iter().map(|e| (e.lead_time(), e.to_buffer().to_vec())).collect();
        assert_eq!(
            ev,
            vec![
                (192, vec![0xC0, 0x01]),
                (193, vec![0xB0, 10, 64]),
                (194, vec![0xB0, 91, 0]),
                (385, vec![0xFF, 0x2F, 0x00]),
            ]
        );
    }
}

#[test]
fn garbage_is_skipped() {
    assert_eq!(convert("MML@c##d,,;"), convert("MML@c#d,,;"));
    assert_eq!(convert("MML@c&&d,,;"), convert("MML@c&d,,;"));
    assert_eq!(convert("MML@..c-+d,,;"), convert("MML@c-d,,;"));
    assert_eq!(convert("MML@ c d ,,;"), convert("MML@cd,,;"));
    assert_eq!(convert("MML@1c2.3d,,;"), convert("MML@c2.d,,;"));
}

#[test]
fn octave_up_stops_at_nine() {
    assert_eq!(notes("MML@o9>c,,;"), notes("MML@o9c,,;"));
    assert_eq!(notes("MML@o8>>>c,,;"), notes("MML@o9c,,;"));
}

#[test]
fn octave_down_stops_at_zero() {
    assert_eq!(notes("MML@o0<c,,;"), notes("MML@o0c,,;"));
    assert_eq!(notes("MML@o1<<<d,,;"), notes("MML@o0d,,;"));
}

#[test]
fn octave_command_is_not_clamped() {
    // from octave 12, four steps down reach 8, not 5
    let (ons, _) = notes("MML@o12<<<<c,,;");
    assert_eq!(ons[0].1, 108);
    assert_eq!(notes("MML@o12<<<<c,,;"), notes("MML@o8c,,;"));
    // out of the note range, the pitch folds back by octaves
    let (ons, _) = notes("MML@o12c,,;");
    assert_eq!(ons[0].1, 108);
}

#[test]
fn low_notes_fold_up() {
    // octave 0, c flat: -1 becomes 11, then 23
    let (ons, _) = notes("MML@o0c-,,;");
    assert_eq!(ons[0].1, 23);
}

#[test]
fn note_numbers_are_used_directly() {
    let (ons, offs) = notes("MML@n60n97n,,;");
    assert_eq!(ons, vec![(384, 60), (480, 0), (576, 0)]);
    assert_eq!(offs, vec![(480, 60), (576, 0), (672, 0)]);
}

#[test]
fn rests_move_the_cursor() {
    let (ons, _) = notes("MML@r4.c,,;");
    assert_eq!(ons, vec![(528, 60)]);
    let (ons, _) = notes("MML@l8rc,,;");
    assert_eq!(ons, vec![(432, 60)]);
}

#[test]
fn tempo_and_volume() {
    let ev = first_track("MML@t120v15c,,;");
    assert!(ev.contains(&(384, vec![0xFF, 0x51, 0x03, 0x07, 0xA1, 0x20])));
    assert!(ev.contains(&(384, vec![0x90, 60, 120])));
    let ev = first_track("MML@t0v0c,,;");
    assert_eq!(ev.iter().filter(|e| e.1[0] == 0xFF && e.1[1] == 0x51).count(), 1);
    assert!(ev.contains(&(384, vec![0x90, 60, 8])));
    let ev = first_track("MML@v99c,,;");
    assert!(ev.contains(&(384, vec![0x90, 60, 120])));
}

#[test]
fn commands_ignore_zero_led_arguments() {
    // "l08": the argument stops at the leading zero, so the length is unchanged
    let (ons, offs) = notes("MML@l08c,,;");
    assert_eq!(offs[0].0 - ons[0].0, 96);
    // an argument too large for 32 bits counts as 0
    let (ons, offs) = notes("MML@l99999999999c,,;");
    assert_eq!(offs[0].0 - ons[0].0, 96);
}

#[test]
fn header_and_chunks() {
    let bytes = convert("MML@c,,;");
    assert_eq!(&bytes[0..14], &[0x4D, 0x54, 0x68, 0x64, 0, 0, 0, 6, 0, 1, 0, 3, 0, 96]);
    assert_eq!(&bytes[14..18], b"MTrk");
}

#[test]
fn several_scores_use_their_channels() {
    let c = YksConverter::new_multi(
        vec!["MML@c,,;".to_string(), "MML@d,,;".to_string()],
        vec![26, 74],
    );
    let bytes = c.to_buffer_result().unwrap().to_vec();
    assert_eq!(&bytes[10..12], &[0, 6]);
    let hex: String = bytes.iter().map(|b| format!("{:02x}", b)).collect();
    // second score: program 74 on channel 2, its note on channel 2
    assert!(hex.contains("8140c14a01b10a40015b00813e913e40608"));
    assert!(hex.contains("8140c01a"));
}

#[test]
fn count_mismatch_is_an_error() {
    let c = YksConverter::new_multi(vec!["MML@c,,;".to_string()], vec![1, 2]);
    assert_eq!(
        c.to_buffer_result().unwrap_err(),
        ConversionError::MmlInstCountMismatch { mml_count: 1, inst_count: 2 }
    );
    assert!(c.to_buffer().is_none());
}

#[test]
fn bad_shape_is_an_error() {
    let c = YksConverter::new_multi(
        vec!["MML@c,,;".to_string(), "MML@c,,".to_string()],
        vec![1, 2],
    );
    assert_eq!(
        c.to_buffer_result().unwrap_err(),
        ConversionError::MmlParseFailed("MML@c,,".to_string())
    );
    let c = YksConverter::new("MML@cx,,;".to_string(), 1);
    assert!(c.to_buffer_result().is_err());
    let c = YksConverter::new("xx MML@c,,; yy".to_string(), 1);
    assert_eq!(c.to_buffer_result().unwrap().to_vec(), convert("MML@c,,;"));
}

#[test]
fn empty_event_is_an_error() {
    let track = vec![MidiEvent::SeqSpec(SeqSpec::new(Vec::new()))];
    assert_eq!(
        encode_track(&track).unwrap_err(),
        ConversionError::EventConversionFailed(String::new())
    );
    let track = vec![MidiEvent::SeqSpec(SeqSpec::new(vec![0x01, 0x02]))];
    assert_eq!(encode_track(&track).unwrap().to_vec(), vec![0x00, 0x01, 0x02]);
}

#[test]
fn event_encodings() {
    let mut t = Tempo::new(0x123456);
    t.set_lead_time(7);
    assert_eq!(t.lead_time(), 7);
    assert_eq!(t.to_buffer().to_vec(), vec![0xFF, 0x51, 0x03, 0x12, 0x34, 0x56]);
    assert_eq!(MetaText::new("ab".to_string()).to_buffer().to_vec(), vec![0xFF, 0x01, 2, b'a', b'b']);
    assert_eq!(SysEx::new(vec![1, 2, 3]).to_buffer().to_vec(), vec![0xF0, 3, 1, 2, 3]);
    assert_eq!(NoteOff::new(16, 60, 0).to_buffer().to_vec(), vec![0x8F, 60, 0]);
    assert_eq!(NoteOff::new(16, 61, 0).note(), 61);
    assert_eq!(EndOfTrack::new().to_buffer().to_vec(), vec![0xFF, 0x2F, 0x00]);
    let copy = MidiEvent::Tempo(t).clone_event();
    assert_eq!(copy.lead_time(), 7);
}

#[test]
fn byte_buffer_big_endian_writes() {
    let mut b = ByteBuffer::new();
    b.put_u16(0x1234);
    b.put_u32(0x89AB_CDEF);
    b.put_string("Az");
    b.put_bytes_array(&[7]);
    assert_eq!(b.to_vec(), vec![0x12, 0x34, 0x89, 0xAB, 0xCD, 0xEF, b'A', b'z', 7]);
    assert_eq!(b.size(), 9);
    assert_eq!(b.get_at(2), 0x89);
    assert_eq!(b.get_at(9), 0);
    assert_eq!(b.get(), 0x12);
    assert_eq!(b.get(), 0x34);
    let mut c = ByteBuffer::new();
    c.put_byte(1).put_bytes(&b);
    assert_eq!(c.size(), 10);
    c.clear();
    assert_eq!(c.size(), 0);
    assert_eq!(c.get(), 0);
}

#[test]
fn tokenizer_skips_and_splits() {
    let toks = tokenize(&remove_spaces(&chars_of("c+4.& x o5 L16 r")));
    let heads: Vec<char> = toks.iter().map(|t| t.head).collect();
    assert_eq!(heads, vec!['c', 'o', 'L', 'r']);
    assert_eq!(toks[0].accidental, Some('+'));
    assert_eq!(toks[0].digits, vec!['4']);
    assert!(toks[0].dotted && toks[0].tied);
    assert_eq!(parse_digits(&toks[2].digits), Some(16));
    assert_eq!(parse_digits(&vec!['2', '1', '4', '7', '4', '8', '3', '6', '4', '8']), None);
    assert_eq!(parse_digits(&Vec::new()), None);
}

#[test]
fn event_descriptions() {
    let mut on = NoteOn::new(1, 60, 64);
    on.set_lead_time(384);
    assert_eq!(on.value(), "NoteOn: ch=1, note=60, vel=64");
    assert_eq!(NoteOff::new(12, 0, 0).value(), "NoteOff: ch=12, note=0, vel=0");
    assert_eq!(Tempo::new(500000).value(), "Tempo: 500000");
    assert_eq!(MetaText::new("hi".to_string()).value(), "Text: hi");
    assert_eq!(SysEx::new(vec![0x41, 0xf7, 0x0a]).value(), "SysEx: 41 f7 0a");
    assert_eq!(SeqSpec::new(vec![0xff, 0x00]).value(), "ff 00");
    assert_eq!(SeqSpec::new(Vec::new()).value(), "");
    assert_eq!(EndOfTrack::new().value(), "EndOfTrack");
}

#[test]
fn text_listing() {
    let mut parser = Mf2tt2mf::new(2, 5, 64, 0);
    assert!(parser.from_mml("MML@c,,;"));
    let lines = parser.build_to_string();
    assert_eq!(lines[0], "MFile 1 2 96");
    assert_eq!(lines[1], "MTrk");
    assert_eq!(lines[2], "192 ProgramChange: ch=2, program=5");
    assert_eq!(lines[3], "193 ControlChange: ch=2, cc=10, val=64");
    assert_eq!(lines[4], "194 ControlChange: ch=2, cc=91, val=0");
    assert_eq!(lines[5], "384 NoteOn: ch=2, note=60, vel=64");
    assert_eq!(lines[6], "480 NoteOff: ch=2, note=60, vel=0");
    assert_eq!(lines[7], "576 EndOfTrack");
    assert_eq!(lines[8], "MTrk");
    assert_eq!(lines.len(), 1 + 7 + 5 + 5);
}

#[test]
fn length_with_tie_mark_sets_no_tie() {
    let (ons, offs) = notes("MML@l8&c,,;");
    assert_eq!(ons, vec![(384, 60)]);
    assert_eq!(offs, vec![(432, 60)]);
    let ev = first_track("MML@l4&c,,;");
    assert_eq!(ev[6], (384, vec![0x90, 60, 64]));
    assert_eq!(ev[7], (480, vec![0x80, 60, 0]));
    assert_eq!(ev[8], (576, vec![0xFF, 0x2F, 0x00]));
    assert_eq!(ev.len(), 9);
}

#[test]
fn rest_with_accidental_takes_the_default_length() {
    let (ons, _) = notes("MML@r+4.c,,;");
    assert_eq!(ons, vec![(480, 60)]);
    let (ons, _) = notes("MML@r4.&c,,;");
    assert_eq!(ons, vec![(528, 60)]);
}

fn part(text: &str, lead: u32) -> Vec<(u32, Vec<u8>)> {
    let m = Mf2tt2mf::new(3, 1, 64, 0);
    m.parse_track(&chars_of(text), lead)
        .iter()
        .map(|e| (e.lead_time(), e.to_buffer().to_vec()))
        .collect()
}

#[test]
fn part_lengths_from_parse_track() {
    for n in [1u32, 3, 8, 96, 192] {
        let d = 384 / n;
        let dd = d * 3 / 2;
        let one = |ticks: u32, tail: u32| {
            vec![
                (10, vec![0x92, 60, 64]),
                (10 + ticks, vec![0x82, 60, 0]),
                (10 + ticks + tail, vec![0xFF, 0x2F, 0x00]),
            ]
        };
        assert_eq!(part(&format!("l{}c", n), 10), one(d, d));
        assert_eq!(part(&format!("l{}.c", n), 10), one(dd, dd));
        assert_eq!(part(&format!("c{}", n), 10), one(d, 96));
        assert_eq!(part(&format!("c{}.", n), 10), one(dd, 96));
    }
}

#[test]
fn part_garbage_from_parse_track() {
    assert_eq!(part("c4xyz!d8", 384), part("c4d8", 384));
    assert_eq!(part("l8 ?? c", 384), part("l8c", 384));
    assert_eq!(part("e%", 384), part("e", 384));
}
