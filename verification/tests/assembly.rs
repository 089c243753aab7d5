use play_files::ErrorKind;
use play_files::Pattern;
use play_files::PatternFile;
use play_files::Project;
use play_files::TrackFile;

fn varint(mut n: usize) -> Vec<u8> {
    let mut out = Vec::new();
    loop {
        let b = (n % 128) as u8;
        n /= 128;
        if n == 0 {
            out.push(b);
            return out;
        }
        out.push(b | 0x80);
    }
}

fn cc_record() -> Vec<u8> {
    vec![0xc2, 1, 2, 3, 4, 74, 71, 10, 11, 12, 13, 14, 15]
}

fn settings_bytes(name: &str) -> Vec<u8> {
    let mut b = Vec::new();
    b.push(0x12);
    b.push(name.len() as u8);
    b.extend(name.as_bytes());
    b.push(0x62);
    b.push(9);
    b.extend(b"/Projects");
    b.push(0x85);
    b.push(0x01);
    b.extend(120.0f32.to_le_bytes());
    for _ in 0..32 {
        b.extend(cc_record());
    }
    b
}

fn default_step() -> Vec<u8> {
    let mut inner = vec![0x0a, 44];
    inner.extend([0u8; 42]);
    let mut out = vec![0x0a];
    out.extend(varint(inner.len()));
    out.extend(inner);
    out
}

/// A track file body: 64 steps followed by the attribute tail.
fn track_file_body(attrs: &[u8]) -> Vec<u8> {
    let mut out = Vec::new();
    for _ in 0..64 {
        out.extend(default_step());
    }
    out.extend(attrs);
    out
}

/// An inlined track block: the same body behind a tag and length prefix.
fn inline_track(attrs: &[u8]) -> Vec<u8> {
    let body = track_file_body(attrs);
    let mut out = vec![0x0a];
    out.extend(varint(body.len()));
    out.extend(body);
    out
}

/// A pattern file: eight audio then eight MIDI inlined tracks.  The first
/// audio lane is saved at `first_audio_variation`; everything else at 0.
fn pattern_bytes(first_audio_variation: u8, rest: &[u8]) -> Vec<u8> {
    let mut b = Vec::new();
    b.extend(inline_track(&[0x10, 16, 0x30, first_audio_variation]));
    for _ in 1..8 {
        b.extend(inline_track(&[0x10, 16, 0x30, 0]));
    }
    for _ in 0..8 {
        b.extend(inline_track(&[0x10, 16, 0x30, 0]));
    }
    b.extend(rest);
    b
}

fn file(track: u8, variation: u8) -> TrackFile {
    TrackFile { track, variation, bytes: track_file_body(&[0x10, 8]) }
}

#[test]
fn pattern_variation_slots() {
    // the first audio lane was saved at variation 2; stored files exist
    // for its variations 0, 2 and 3, and for the first MIDI lane's 1
    let files = vec![file(0, 0), file(0, 2), file(0, 3), file(8, 1)];
    let p = Pattern::read(pattern_bytes(2, b"tail"), 7, files).unwrap();
    assert_eq!(p.number, 7);
    assert_eq!(p.rest, b"tail".to_vec());

    assert!(p.audio_tracks[0][0].is_some());
    assert!(p.audio_tracks[0][1].is_none());
    assert!(p.audio_tracks[0][2].is_some());
    assert!(p.audio_tracks[0][3].is_some());

    // the inlined copy keeps the slot it was saved at; the stored file
    // for the same variation never displaces it
    assert!(p.audio_tracks[0][2].as_ref().unwrap().is_default);
    assert_eq!(p.audio_tracks[0][2].as_ref().unwrap().steps.len(), 16);
    assert!(!p.audio_tracks[0][0].as_ref().unwrap().is_default);
    assert_eq!(p.audio_tracks[0][0].as_ref().unwrap().steps.len(), 8);

    // every other audio lane holds only its inlined default variation
    assert!(p.audio_tracks[1][0].is_some());
    assert!(p.audio_tracks[1][1].is_none());

    // MIDI files use lane numbers 8 to 15
    assert!(p.midi_tracks[0][0].is_some());
    assert!(p.midi_tracks[0][1].is_some());
    assert!(!p.midi_tracks[0][1].as_ref().unwrap().is_default);

    // the accessors hand out the variation-0 slot
    assert_eq!(p.audio_track(0).variation, 0);
    assert_eq!(p.audio_track(1).number, 1);
    assert_eq!(p.midi_track(0).variation, 0);
}

#[test]
fn pattern_rejects_wild_inline_variation() {
    let mut b = Vec::new();
    b.extend(inline_track(&[0x10, 16, 0x30, 16]));
    for _ in 1..16 {
        b.extend(inline_track(&[0x10, 16, 0x30, 0]));
    }
    let e = Pattern::read(b, 0, Vec::new()).unwrap_err();
    assert_eq!(e.kind, ErrorKind::StructuralViolation);
}

#[test]
fn pattern_fails_when_a_track_file_fails() {
    let bad = TrackFile { track: 3, variation: 1, bytes: vec![0x0a] };
    let e = Pattern::read(pattern_bytes(0, &[]), 0, vec![bad]).unwrap_err();
    assert_eq!(e.kind, ErrorKind::Truncated);
}

fn project_input(pattern_name: &str) -> (Vec<u8>, Vec<u8>, Vec<PatternFile>) {
    let pf = PatternFile {
        name: pattern_name.to_string(),
        bytes: pattern_bytes(0, &[]),
        track_files: vec![file(2, 1)],
    };
    (settings_bytes("blank"), vec![0xde, 0xad], vec![pf])
}

#[test]
fn project_end_to_end() {
    let (s, a, pf) = project_input("12.pattern");
    let p = Project::read(s, a, pf).unwrap();
    assert_eq!(p.settings.name, "blank");
    assert_eq!(p.settings.jack_cc_mapping.len(), 16);
    assert_eq!(p.samples.rest, vec![0xde, 0xad]);
    assert_eq!(p.patterns.len(), 1);
    assert_eq!(p.patterns[0].number, 12);
    assert!(p.patterns[0].audio_tracks[2][1].is_some());
    for t in 0..8 {
        assert!(p.patterns[0].audio_tracks[t][0].is_some());
        assert!(p.patterns[0].midi_tracks[t][0].is_some());
    }
}

#[test]
fn project_pattern_numbers_from_names() {
    for (name, want) in [("0.pattern", 0u8), ("007.pattern", 7), ("a31.pattern", 31)] {
        let (s, a, pf) = project_input(name);
        let p = Project::read(s, a, pf).unwrap();
        assert_eq!(p.patterns[0].number, want);
    }
}

#[test]
fn project_rejects_bad_pattern_names() {
    for name in ["x.pattern", ".pattern", "999.pattern", "12.patternx", "pattern"] {
        let (s, a, pf) = project_input(name);
        let e = Project::read(s, a, pf).unwrap_err();
        assert_eq!(e.kind, ErrorKind::BadPatternName);
    }
}

#[test]
fn project_decodes_deterministically() {
    let (s1, a1, pf1) = project_input("3.pattern");
    let (s2, a2, pf2) = project_input("3.pattern");
    let p1 = Project::read(s1, a1, pf1).unwrap();
    let p2 = Project::read(s2, a2, pf2).unwrap();
    assert_eq!(p1, p2);
}
