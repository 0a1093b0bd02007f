use yks_converter::mf2tt2mf::Mf2tt2mf;
use yks_converter::mml::{chars_of, split_score};
use yks_converter::track_event::{MidiEvent, TrackEvent};
use yks_converter::YksConverter;

fn is_note_on(e: &MidiEvent) -> bool {
    e.value().contains("NoteOn")
}

fn is_note_off(e: &MidiEvent) -> bool {
    e.value().contains("NoteOff")
}

fn is_note(e: &MidiEvent) -> bool {
    e.value().contains("Note")
}

fn hex(bytes: &[u8]) -> String {
    bytes.iter().map(|b| format!("{:02x}", b)).collect::<String>()
}

#[test]
fn should_parse_simple_mml_regex() {
    let mut parser = Mf2tt2mf::new(1, 1, 64, 0);
    let mml = "MML@t180l8ccccccc4,l8eeeeeee4,l8ggggggg4;";

    let result = parser.from_mml(mml);

    assert!(result, "MML regex parsing should succeed for valid input");
}

#[test]
fn should_fail_with_invalid_mml_format() {
    let mut parser = Mf2tt2mf::new(1, 1, 64, 0);
    let mml = "MML@t120l4cdefgab>c4.,,,;";

    let result = parser.from_mml(mml);

    println!("Result for failing MML: {}", result);
    assert!(!result);
    assert_eq!(parser.build().len(), 0);
}

#[test]
fn should_debug_regex_matching() {
    let pattern = regex::Regex::new(
        r"(MML@)\s*([\s0-9a-glnortvA-GLNORTV#<>.&+-]*),\s*([\s0-9a-glnortvA-GLNORTV#<>.&+-]*),\s*([\s0-9a-glnortvA-GLNORTV#<>.&+-]*);",
    )
    .unwrap();

    let test_cases = [
        "MML@t120l4cdefgab>c4.,,,;",
        "MML@t180l8ccccccc4,l8eeeeeee4,l8ggggggg4;",
    ];

    for (i, mml) in test_cases.iter().enumerate() {
        let captures = pattern.captures(mml);
        println!("Test case {}: '{}' -> {:?}", i + 1, mml, captures.is_some());
        let parts = split_score(&chars_of(mml));
        assert_eq!(captures.is_some(), parts.is_some());
        if let (Some(caps), Some(parts)) = (captures, parts) {
            for (j, cap) in caps.iter().enumerate() {
                if let Some(c) = cap {
                    println!("  Group {}: '{}'", j, c.as_str());
                    if j >= 2 {
                        let part: String = parts[j - 2].iter().collect();
                        assert_eq!(part, c.as_str());
                    }
                }
            }
        }
    }
}

#[test]
fn should_generate_same_midi_as_cpp_for_readme_example() {
    let expected_hex = "4d546864000000060001000300604d54726b0000009000ff0120596f6b6f736f2050726f6a6563742868747470733a2f2f796f6b6f2e736f2f2900ff510307a12000f00a4110421240007f0041f78140c00101b00a40015b00813eff510304d18d00903c4030803c0000903e4030803e000090404030804000009041403080410000904340308043000090454030804500009047403080470000904840811080480030ff2f004d54726b000000518140c00101b00a40015b00813e903040308030000090324030803200009034403080340000903540308035000090374030803700009039403080390000903b4030803b0000903c408110803c0030ff2f004d54726b000000518140c00101b00a40015b00813e9048403080480000904a4030804a0000904c4030804c0000904d4030804d0000904f4030804f000090514030805100009053403080530000905440811080540030ff2f00";

    let converter = YksConverter::new(
        "MML@t190l8cdefgab>c4.,l8<cdefgab>c4.,l8>cdefgab>c4.;".to_string(),
        1,
    );

    if let Some(buffer) = converter.to_buffer() {
        let got_hex = hex(buffer.as_slice());

        println!("expected length: {} chars", expected_hex.len());
        println!("got length:      {} chars", got_hex.len());
        println!(
            "expected first 100: {}",
            &expected_hex[0..std::cmp::min(100, expected_hex.len())]
        );
        println!("got first 100:      {}", &got_hex[0..std::cmp::min(100, got_hex.len())]);

        if got_hex != expected_hex {
            let max_len = std::cmp::max(got_hex.len(), expected_hex.len());
            for i in (0..max_len).step_by(2) {
                let r_byte = if i < got_hex.len() {
                    &got_hex[i..std::cmp::min(i + 2, got_hex.len())]
                } else {
                    "--"
                };
                let c_byte = if i < expected_hex.len() {
                    &expected_hex[i..std::cmp::min(i + 2, expected_hex.len())]
                } else {
                    "--"
                };
                if r_byte != c_byte {
                    println!("Byte difference at position {}: got={} vs expected={}", i / 2, r_byte, c_byte);
                    if i / 2 > 50 {
                        break;
                    }
                }
            }
        }

        assert_eq!(got_hex, expected_hex, "MIDI output should match the reference bytes exactly");
    } else {
        panic!("Failed to generate MIDI buffer");
    }
}

#[test]
fn should_parse_single_note_c() {
    let mut parser = Mf2tt2mf::new(1, 1, 64, 0);
    let mml = "MML@c,,;";

    let result = parser.from_mml(mml);
    assert!(result, "Should parse single note C successfully");

    let track_events = parser.build();
    assert_eq!(track_events.len(), 3, "Should have three tracks (c, empty, empty)");

    let first_track = &track_events[0];
    let has_note_on = first_track.iter().any(is_note_on);
    let has_note_off = first_track.iter().any(is_note_off);

    assert!(has_note_on, "Should have NoteOn event for note C");
    assert!(has_note_off, "Should have NoteOff event for note C");
}

#[test]
fn should_parse_note_sequence_cdef() {
    let mut parser = Mf2tt2mf::new(1, 1, 64, 0);
    let mml = "MML@cdef,,;";

    let result = parser.from_mml(mml);
    assert!(result, "Should parse note sequence CDEF successfully");

    let track_events = parser.build();
    let first_track = &track_events[0];

    let note_on_count = first_track.iter().filter(|e| is_note_on(e)).count();
    let note_off_count = first_track.iter().filter(|e| is_note_off(e)).count();

    assert_eq!(note_on_count, 4, "Should have 4 NoteOn events for C-D-E-F");
    assert_eq!(note_off_count, 4, "Should have 4 NoteOff events for C-D-E-F");
}

#[test]
fn should_debug_dotted_quarter_note() {
    let mut parser = Mf2tt2mf::new(1, 1, 64, 0);
    let mml = "MML@c4.,,;";

    let result = parser.from_mml(mml);
    assert!(result, "Should parse dotted quarter note");

    let tracks = parser.build();
    let first_track = &tracks[0];

    println!("\nDebug dotted quarter note 'c4.' parsing:");
    for (i, event) in first_track.iter().enumerate() {
        if is_note(event) {
            println!("Event {}: {} at time {}", i, event.value(), event.lead_time());
        }
    }

    let note_on = first_track.iter().find(|e| is_note_on(e)).unwrap();
    let note_off = first_track.iter().find(|e| is_note_off(e)).unwrap();

    let duration = note_off.lead_time() - note_on.lead_time();
    println!("\nNote duration: {} ticks (expected: 144 for dotted quarter)", duration);
    assert_eq!(duration, 144);

    let converter = YksConverter::new("MML@c4.,,;".to_string(), 1);
    if let Some(buffer) = converter.to_buffer() {
        println!("\nMIDI hex for 'c4.': {}", hex(buffer.as_slice()));
    }
}

#[test]
fn should_parse_note_length_token_l8() {
    let mut parser = Mf2tt2mf::new(1, 1, 64, 0);
    let mml = "MML@l8cde,,;";

    let result = parser.from_mml(mml);
    assert!(result, "Should parse length token l8 successfully");

    let track_events = parser.build();
    let first_track = &track_events[0];

    let note_on_count = first_track.iter().filter(|e| is_note_on(e)).count();
    assert_eq!(note_on_count, 3, "Should have 3 NoteOn events for C-D-E");

    let note_events: Vec<_> = first_track.iter().filter(|e| is_note(e)).collect();

    println!("Note events timing:");
    for event in &note_events {
        println!("  {} at time {}", event.value(), event.lead_time());
    }

    let first_note_on = note_events.iter().find(|e| is_note_on(e)).unwrap();
    let first_note_off = note_events.iter().find(|e| is_note_off(e)).unwrap();

    let note_duration = first_note_off.lead_time() - first_note_on.lead_time();
    println!("Current note duration: {} ticks", note_duration);
    println!("Expected for l8 (eighth note): 48 ticks (384/8)");

    assert_eq!(note_duration, 48, "l8 should create eighth notes with 48 tick duration (384/8)");
}

#[test]
fn should_debug_simple_note_parsing() {
    let mut parser = Mf2tt2mf::new(1, 1, 64, 0);
    let mml = "MML@c,,;";

    let result = parser.from_mml(mml);
    assert!(result, "Should parse simple note");

    let tracks = parser.build();
    let first_track = &tracks[0];

    println!("\nDebug single note 'c' parsing:");
    for (i, event) in first_track.iter().enumerate() {
        println!("Event {}: {} at time {}", i, event.value(), event.lead_time());
    }

    let note_events: Vec<_> = first_track.iter().filter(|e| is_note(e)).collect();

    println!("\nNote events only:");
    for event in &note_events {
        println!("  {} at time {}", event.value(), event.lead_time());
    }
    assert_eq!(note_events.len(), 2);

    let converter = YksConverter::new("MML@c,,;".to_string(), 1);
    if let Some(buffer) = converter.to_buffer() {
        println!("\nMIDI hex for single 'c': {}", hex(buffer.as_slice()));
    }
}
