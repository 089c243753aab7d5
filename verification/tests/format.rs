use play_files::ErrorKind;
use play_files::MidiChannel;
use play_files::MidiStep;
use play_files::Settings;
use play_files::Step;
use play_files::Track;
use play_files::TrackSpeed;

fn varint(mut n: usize) -> Vec<u8> {
    let mut out = Vec::new();
    loop {
        let b = (n % 128) as u8;
        n /= 128;
        if n == 0 {
            out.push(b);
            return out;
        }
        out.push(b | 0x80);
    }
}

fn cc_record(cutoff: u8) -> Vec<u8> {
    vec![0xc2, 1, 2, 3, 4, cutoff, 71, 10, 11, 12, 13, 14, 15]
}

fn settings_bytes(name: &str, dir: &str, bpm: f32) -> Vec<u8> {
    let mut b = Vec::new();
    b.push(0x12);
    b.push(name.len() as u8);
    b.extend(name.as_bytes());
    b.push(0x62);
    b.push(dir.len() as u8);
    b.extend(dir.as_bytes());
    b.push(0x85);
    b.push(0x01);
    b.extend(bpm.to_le_bytes());
    b.push(0x20);
    b.extend([9, 8, 7, 6, 5]);
    b.push(0xa8);
    b.extend([1, 2]);
    for _ in 0..32 {
        b.extend(cc_record(74));
    }
    b
}

fn step_bytes(fields: &[u16; 21], tail: &[u8]) -> Vec<u8> {
    let mut inner = vec![0x0a, 44];
    for f in fields.iter() {
        inner.extend(f.to_le_bytes());
    }
    inner.extend(tail);
    let mut out = vec![0x0a];
    out.extend(varint(inner.len()));
    out.extend(inner);
    out
}

/// A track file body: 64 steps followed by the attribute tail.
fn track_file_bytes(first_steps: &[Vec<u8>], attrs: &[u8]) -> Vec<u8> {
    let mut out = Vec::new();
    for s in first_steps.iter() {
        out.extend(s.clone());
    }
    for _ in first_steps.len()..64 {
        out.extend(step_bytes(&[0; 21], &[]));
    }
    out.extend(attrs);
    out
}

#[test]
fn settings_header_fields() {
    let s = Settings::read(settings_bytes("blank", "/Projects", 120.0)).unwrap();
    assert_eq!(s.name, "blank");
    assert_eq!(s.directory, "/Projects");
    assert_eq!(f32::from_bits(s.bpm_bits), 120.0);
    assert_eq!(s.jack_cc_mapping.len(), 16);
    assert_eq!(s.usb_cc_mapping.len(), 16);
    assert_eq!(s.jack_cc_mapping[0].cutoff, 74);
    assert_eq!(s.jack_cc_mapping[0].resonance, 71);
    assert_eq!(s.jack_cc_mapping[0].u_first_bytes, [1, 2, 3, 4]);
    assert_eq!(s.usb_cc_mapping[15].bit_depth, 15);
    assert_eq!(s.x20, vec![9, 8, 7, 6, 5]);
    assert_eq!(s.xa8, vec![1, 2]);
    assert_eq!(s.xb0, Vec::<u8>::new());
}

#[test]
fn settings_fast_tempo() {
    let s = Settings::read(settings_bytes("400 bpm", "/Projects", 400.0)).unwrap();
    assert_eq!(s.name, "400 bpm");
    assert_eq!(f32::from_bits(s.bpm_bits), 400.0);
}

#[test]
fn settings_truncated() {
    let mut b = settings_bytes("blank", "/Projects", 120.0);
    b.truncate(b.len() - 5);
    let e = Settings::read(b).unwrap_err();
    assert_eq!(e.kind, ErrorKind::Truncated);
}

#[test]
fn settings_unknown_tag() {
    let b = vec![0x13, 0x00];
    let e = Settings::read(b).unwrap_err();
    assert_eq!(e.kind, ErrorKind::UnknownTag(0x13));
    assert_eq!(e.offset, 0);
}

#[test]
fn settings_invalid_utf8_name() {
    let b = vec![0x12, 2, 0xff, 0xfe];
    let e = Settings::read(b).unwrap_err();
    assert_eq!(e.kind, ErrorKind::InvalidUtf8);
}

#[test]
fn audio_step_field_mapping() {
    let fields: [u16; 21] = [
        7600,                 // volume
        (-10000i16) as u16,   // pan
        10000,                // filter cutoff
        123,                  // filter resonance
        16,                   // bit depth
        10000,                // overdrive
        60,                   // note
        (-5i16) as u16,       // delay
        7,                    // reverb
        1,                    // sample
        0,                    // sample start
        0x7fff,               // sample end
        (-100i16) as u16,     // micro tune
        10000,                // sample attack
        9999,                 // sample decay
        0xffff,               // sample folder
        2,                    // repeat type
        3,                    // repeat grid
        4,                    // chance type
        5,                    // chance action
        (-10000i16) as u16,   // micro move
    ];
    let body = track_file_bytes(&[step_bytes(&fields, &[6, 6])], &[0x10, 2, 0x30, 0]);
    let t = Track::<Step>::read(body, 0, 0).unwrap();
    assert_eq!(t.steps.len(), 2);
    let s = &t.steps[0];
    assert_eq!(s.number, 0);
    assert_eq!(s.volume, 7600);
    assert_eq!(s.pan, -10000);
    assert_eq!(s.filter_cutoff, 10000);
    assert_eq!(s.filter_resonance, 123);
    assert_eq!(s.bit_depth, 16);
    assert_eq!(s.overdrive, 10000);
    assert_eq!(s.note, 60);
    assert_eq!(s.delay, -5);
    assert_eq!(s.reverb, 7);
    assert_eq!(s.sample, 1);
    assert_eq!(s.sample_start, 0);
    assert_eq!(s.sample_end, 0x7fff);
    assert_eq!(s.micro_tune, -100);
    assert_eq!(s.sample_attack, 10000);
    assert_eq!(s.sample_decay, 9999);
    assert_eq!(s.sample_folder, 0xffff);
    assert_eq!(s.repeat_type, 2);
    assert_eq!(s.repeat_grid, 3);
    assert_eq!(s.chance_type, 4);
    assert_eq!(s.chance_action, 5);
    assert_eq!(s.micro_move, -10000);
    assert_eq!(s.rest, vec![6, 6]);
    assert_eq!(t.steps[1].number, 1);
}

#[test]
fn audio_step_byte_fields_truncate() {
    let mut fields: [u16; 21] = [0; 21];
    fields[4] = 0x0104;  // bit depth keeps its low byte
    fields[6] = 0x0177;  // note keeps its low byte
    let body = track_file_bytes(&[step_bytes(&fields, &[])], &[0x10, 1]);
    let t = Track::<Step>::read(body, 0, 0).unwrap();
    assert_eq!(t.steps[0].bit_depth, 4);
    assert_eq!(t.steps[0].note, 0x77);
}

fn midi_fields() -> [u16; 21] {
    [
        100,               // velocity
        60,                // note length
        14,                // cc74
        11,                // cc71
        13,                // cc13
        12,                // cc12
        60,                // note
        19,                // cc19
        17,                // cc17
        0,                 // channel
        9,                 // chord
        0,                 // unused
        (-100i16) as u16,  // pitch bend
        22,                // cc22
        75,                // cc75
        2,                 // program
        5,                 // repeat type
        6,                 // repeat grid
        7,                 // chance type
        8,                 // chance action
        (-42i16) as u16,   // micro move
    ]
}

#[test]
fn midi_step_all_present() {
    let body = track_file_bytes(
        &[step_bytes(&midi_fields(), &[0, 0, 0, 0, 0, 0xff, 0xff, 0xff])],
        &[0x10, 1],
    );
    let t = Track::<MidiStep>::read(body, 0, 0).unwrap();
    let s = &t.steps[0];
    assert_eq!(s.velocity, 100);
    assert_eq!(s.note_length, 60);
    assert_eq!(s.note, 60);
    assert_eq!(s.channel, MidiChannel::Jack(1));
    assert_eq!(s.chord, 9);
    assert_eq!(s.micro_move, -42);
    assert_eq!(s.pitch_bend, Some(-100));
    assert_eq!(s.cc12, Some(12));
    assert_eq!(s.cc13, Some(13));
    assert_eq!(s.cc17, Some(17));
    assert_eq!(s.cc19, Some(19));
    assert_eq!(s.cc22, Some(22));
    assert_eq!(s.cc71, Some(11));
    assert_eq!(s.cc74, Some(14));
    assert_eq!(s.cc75, Some(75));
    assert_eq!(s.program, Some(2));
    assert_eq!(s.repeat_type, 5);
    assert_eq!(s.repeat_grid, 6);
    assert_eq!(s.chance_type, 7);
    assert_eq!(s.chance_action, 8);
}

#[test]
fn midi_step_short_tail_leaves_options_absent() {
    // a two-byte tail carries no bitmask: every optional field is absent
    let body = track_file_bytes(&[step_bytes(&midi_fields(), &[0, 0])], &[0x10, 1]);
    let t = Track::<MidiStep>::read(body, 0, 0).unwrap();
    let s = &t.steps[0];
    assert_eq!(s.pitch_bend, None);
    assert_eq!(s.cc12, None);
    assert_eq!(s.cc13, None);
    assert_eq!(s.cc17, None);
    assert_eq!(s.cc19, None);
    assert_eq!(s.cc22, None);
    assert_eq!(s.cc71, None);
    assert_eq!(s.cc74, None);
    assert_eq!(s.cc75, None);
    assert_eq!(s.program, None);
    // the non-optional fields keep their raw values
    assert_eq!(s.repeat_type, 5);
    assert_eq!(s.velocity, 100);
}

#[test]
fn midi_step_bitmask_selects_fields() {
    // only cc12, pitch bend and program are marked present; the repeat
    // bits are clear, which zeroes the repeat fields rather than
    // removing them
    let m1 = 0b0010_0000;
    let m2 = 0b0010_0000;
    let m3 = 0b0000_0010;
    let body = track_file_bytes(
        &[step_bytes(&midi_fields(), &[0, 0, 0, 0, 0, m1, m2, m3])],
        &[0x10, 1],
    );
    let t = Track::<MidiStep>::read(body, 0, 0).unwrap();
    let s = &t.steps[0];
    assert_eq!(s.cc12, Some(12));
    assert_eq!(s.cc13, None);
    assert_eq!(s.cc74, None);
    assert_eq!(s.pitch_bend, Some(-100));
    assert_eq!(s.cc22, None);
    assert_eq!(s.program, Some(2));
    assert_eq!(s.cc75, None);
    assert_eq!(s.repeat_type, 0);
    assert_eq!(s.repeat_grid, 0);
}

#[test]
fn midi_channels() {
    for (raw, want) in [
        (0u16, MidiChannel::Jack(1)),
        (1, MidiChannel::Jack(2)),
        (15, MidiChannel::Jack(16)),
        (16, MidiChannel::Usb(1)),
        (31, MidiChannel::Usb(16)),
    ] {
        let mut fields = midi_fields();
        fields[9] = raw;
        let body = track_file_bytes(&[step_bytes(&fields, &[])], &[0x10, 1]);
        let t = Track::<MidiStep>::read(body, 0, 0).unwrap();
        assert_eq!(t.steps[0].channel, want);
    }
}

#[test]
fn track_attributes() {
    let attrs = [
        0x10, 12,    // num_steps
        0x38, 75,    // swing
        0x40, 5,     // play mode
        0x20, 1,     // speed numerator
        0x28, 16,    // speed denominator
        0x30, 3,     // saved variation
        0x4a, 2, 1, 0,  // variations map
        0x18, 9,     // unknown tag 0x18
        0x77, 0,     // unrecognised tag: one payload byte, ignored
    ];
    let body = track_file_bytes(&[], &attrs);
    let t = Track::<Step>::read(body, 4, 7).unwrap();
    assert_eq!(t.steps.len(), 12);
    assert_eq!(t.swing, 75);
    assert_eq!(t.play_mode, 5);
    assert_eq!(t.track_speed, TrackSpeed::Fraction(1, 16));
    // a track read from a file keeps the variation it was asked for
    assert_eq!(t.number, 4);
    assert_eq!(t.variation, 7);
    assert!(!t.is_default);
}

#[test]
fn track_speed_combinations() {
    for (attrs, want) in [
        (vec![0x10, 1, 0x20, 1], TrackSpeed::Fraction(1, 1)),
        (vec![0x10, 1, 0x20, 8], TrackSpeed::Fraction(8, 1)),
        (vec![0x10, 1, 0x20, 0], TrackSpeed::Paused),
        (vec![0x10, 1, 0x20, 1, 0x28, 16], TrackSpeed::Fraction(1, 16)),
        (vec![0x10, 1, 0x20, 3, 0x28, 0], TrackSpeed::Paused),
        (vec![0x10, 1, 0x28, 4], TrackSpeed::Paused),
        (vec![0x10, 1], TrackSpeed::Paused),
    ] {
        let body = track_file_bytes(&[], &attrs);
        let t = Track::<Step>::read(body, 0, 0).unwrap();
        assert_eq!(t.track_speed, want);
    }
}

#[test]
fn track_structural_errors() {
    // num_steps missing (zero) is out of range
    let body = track_file_bytes(&[], &[0x38, 50]);
    let e = Track::<Step>::read(body, 0, 0).unwrap_err();
    assert_eq!(e.kind, ErrorKind::StructuralViolation);

    // an inner element count other than 44
    let mut step = step_bytes(&[0; 21], &[]);
    step[2] = 43;
    let body = track_file_bytes(&[step], &[0x10, 1]);
    let e = Track::<Step>::read(body, 0, 0).unwrap_err();
    assert_eq!(e.kind, ErrorKind::StructuralViolation);

    // a step frame whose announced length undercuts its fixed part
    let mut step = step_bytes(&[0; 21], &[]);
    step[1] = 10;
    let body = track_file_bytes(&[step], &[0x10, 1]);
    let e = Track::<Step>::read(body, 0, 0).unwrap_err();
    assert_eq!(e.kind, ErrorKind::StructuralViolation);

    // a truncated step
    let body = step_bytes(&[0; 21], &[])[..20].to_vec();
    let e = Track::<Step>::read(body, 0, 0).unwrap_err();
    assert_eq!(e.kind, ErrorKind::Truncated);
}
