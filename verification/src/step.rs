//! One cell of a track: the per-step parameter block.
//!
//! Audio and MIDI steps share one frame — an outer `0x0A` tag with a varint
//! length, an inner `0x0A` tag with a varint element count that must be 44,
//! then 42 bytes holding 21 little-endian 16-bit slots, then an opaque tail
//! — but read the slots under different names.  A MIDI step's tail, when
//! long enough, carries a bitmask marking ten of its fields present or
//! absent.

use vstd::prelude::*;

use crate::error::err_at;
use crate::error::ErrorKind;
use crate::error::Outcome;
use crate::error::ParseError;
use crate::reader::le16;
use crate::reader::le16_signed;
use crate::reader::vq_good;
use crate::reader::vq_size;
use crate::reader::vq_too_long;
use crate::reader::vq_value;
use crate::reader::Reader;

verus! {

/// The key positions of a step frame at some buffer position: the first
/// field byte, the first tail byte, and one past the whole step.
#[verifier::ext_equal]
pub struct FrameShape {
    pub body: int,
    pub tail: int,
    pub end: int,
}

/// What decoding the shared step frame at `pos` amounts to.  On success the
/// outcome's `end` stands one past the step: the announced length counted
/// from just after the outer varint.
pub open spec fn spec_step_frame(buf: Seq<u8>, pos: int) -> Outcome<FrameShape> {
    if pos >= buf.len() {
        Outcome::Failed { err: err_at(ErrorKind::Truncated, pos) }
    } else if buf[pos] != 0x0a {
        Outcome::Failed { err: err_at(ErrorKind::StructuralViolation, pos) }
    } else if vq_too_long(buf, pos + 1) {
        Outcome::Failed { err: err_at(ErrorKind::VarintTooLong, pos + 1) }
    } else if !vq_good(buf, pos + 1) {
        Outcome::Failed { err: err_at(ErrorKind::Truncated, pos + 1) }
    } else {
        let len = vq_value(buf, pos + 1);
        let start = pos + 1 + vq_size(buf, pos + 1);
        if start >= buf.len() {
            Outcome::Failed { err: err_at(ErrorKind::Truncated, start) }
        } else if buf[start] != 0x0a {
            Outcome::Failed { err: err_at(ErrorKind::StructuralViolation, start) }
        } else if vq_too_long(buf, start + 1) {
            Outcome::Failed { err: err_at(ErrorKind::VarintTooLong, start + 1) }
        } else if !vq_good(buf, start + 1) {
            Outcome::Failed { err: err_at(ErrorKind::Truncated, start + 1) }
        } else {
            let count = vq_value(buf, start + 1);
            let body = start + 1 + vq_size(buf, start + 1);
            if count != 44 {
                Outcome::Failed { err: err_at(ErrorKind::StructuralViolation, start + 1) }
            } else if body + 42 > buf.len() {
                Outcome::Failed { err: err_at(ErrorKind::Truncated, body) }
            } else if len < body + 42 - start {
                Outcome::Failed { err: err_at(ErrorKind::StructuralViolation, pos) }
            } else if start + len > buf.len() {
                Outcome::Failed { err: err_at(ErrorKind::Truncated, body + 42) }
            } else {
                Outcome::Parsed {
                    v: FrameShape { body, tail: body + 42, end: start + len },
                    end: start + len,
                }
            }
        }
    }
}

/// The unsigned value of 16-bit slot `slot` of a step body.
pub open spec fn slot_u(buf: Seq<u8>, body: int, slot: int) -> int {
    le16(buf, body + 2 * slot)
}

/// The two's-complement value of 16-bit slot `slot` of a step body.
pub open spec fn slot_s(buf: Seq<u8>, body: int, slot: int) -> int {
    le16_signed(buf, body + 2 * slot)
}

/// The low byte of 16-bit slot `slot` of a step body.
pub open spec fn slot_byte(buf: Seq<u8>, body: int, slot: int) -> u8 {
    (slot_u(buf, body, slot) % 256) as u8
}

/// Whether bit `k` of `b` is set.
pub open spec fn bit_set(b: u8, k: u8) -> bool {
    ((b >> k) & 1) != 0
}

/// How one step of a variant decodes, and the decoder that follows it.
pub trait TrackStep: View + Sized {
    /// What one step of this variant decodes to at `pos`.
    spec fn spec_parse(buf: Seq<u8>, pos: int, number: usize) -> Outcome<Self::V>;

    /// A decoded step advances the position and stays inside the buffer.
    proof fn lemma_parse_range(buf: Seq<u8>, pos: int, number: usize)
        ensures
            Self::spec_parse(buf, pos, number) matches Outcome::Parsed { v, end } ==> pos < end
                <= buf.len(),
    ;

    /// Decode one step, leaving the cursor on the first byte after it.
    fn from_reader(reader: &mut Reader, number: usize) -> (r: Result<Self, ParseError>)
        ensures
            final(reader).bytes() == old(reader).bytes(),
            match Self::spec_parse(old(reader).bytes(), old(reader).cur(), number) {
                Outcome::Parsed { v, end } => {
                    &&& r matches Ok(s) && s@ == v
                    &&& final(reader).cur() == end
                },
                Outcome::Failed { err } => r matches Err(e) && e == err,
            },
    ;
}

/// One audio step: 21 named numeric parameters and an opaque tail.
#[derive(Clone, Debug, PartialEq)]
pub struct Step {
    /// Step number, 0 indexed
    pub number: usize,
    /// Sample number
    pub sample: u16,
    /// Midi note number
    pub note: u8,
    /// 0 dB at 7600; 200 = 1 dB
    pub volume: u16,
    /// -10000 is hard left, 10000 is hard right; 100 = 1%
    pub pan: i16,
    /// -10000 is LP100; 10000 is HP100; 100 = 1%
    pub filter_cutoff: i16,
    /// 10000 is 100%; 100 = 1%
    pub filter_resonance: u16,
    /// 10000 is 100%; 100 = 1%
    pub overdrive: u16,
    /// 4-16
    pub bit_depth: u8,
    /// -10000 is -11/24 step; 10000 is +11/24 step
    pub micro_move: i16,
    /// 10000 is 100%; 100 = 1%
    pub reverb: i16,
    pub delay: i16,
    /// 0: start of sample; 32767: end of sample
    pub sample_start: i16,
    pub sample_end: i16,
    /// 10000 is 100%; 100 = 1%
    pub sample_attack: u16,
    pub sample_decay: u16,
    /// Used for display and randomise only; 0xFFFF = all samples
    pub sample_folder: u16,
    /// 0 = off
    pub repeat_type: u16,
    pub repeat_grid: u16,
    /// 0 = always
    pub chance_type: u16,
    /// 0 = play step
    pub chance_action: u16,
    /// -10000 is -100 cents; 10000 is +100 cents; 100 = 1 cent
    pub micro_tune: i16,
    /// Bytes of the frame not yet reverse-engineered, kept verbatim
    pub rest: Vec<u8>,
}

/// The mathematical content of a `Step`.
#[verifier::ext_equal]
pub struct StepModel {
    pub number: usize,
    pub sample: u16,
    pub note: u8,
    pub volume: u16,
    pub pan: i16,
    pub filter_cutoff: i16,
    pub filter_resonance: u16,
    pub overdrive: u16,
    pub bit_depth: u8,
    pub micro_move: i16,
    pub reverb: i16,
    pub delay: i16,
    pub sample_start: i16,
    pub sample_end: i16,
    pub sample_attack: u16,
    pub sample_decay: u16,
    pub sample_folder: u16,
    pub repeat_type: u16,
    pub repeat_grid: u16,
    pub chance_type: u16,
    pub chance_action: u16,
    pub micro_tune: i16,
    pub rest: Seq<u8>,
}

impl View for Step {
    type V = StepModel;

    open spec fn view(&self) -> StepModel {
        StepModel {
            number: self.number,
            sample: self.sample,
            note: self.note,
            volume: self.volume,
            pan: self.pan,
            filter_cutoff: self.filter_cutoff,
            filter_resonance: self.filter_resonance,
            overdrive: self.overdrive,
            bit_depth: self.bit_depth,
            micro_move: self.micro_move,
            reverb: self.reverb,
            delay: self.delay,
            sample_start: self.sample_start,
            sample_end: self.sample_end,
            sample_attack: self.sample_attack,
            sample_decay: self.sample_decay,
            sample_folder: self.sample_folder,
            repeat_type: self.repeat_type,
            repeat_grid: self.repeat_grid,
            chance_type: self.chance_type,
            chance_action: self.chance_action,
            micro_tune: self.micro_tune,
            rest: self.rest@,
        }
    }
}

/// What decoding one audio step at `pos` amounts to: the slots of the frame
/// read under their audio names.
pub open spec fn spec_parse_audio_step(buf: Seq<u8>, pos: int, number: usize) -> Outcome<
    StepModel,
> {
    match spec_step_frame(buf, pos) {
        Outcome::Failed { err } => Outcome::Failed { err },
        Outcome::Parsed { v: f, .. } => Outcome::Parsed {
            v: StepModel {
                number,
                volume: slot_u(buf, f.body, 0) as u16,
                pan: slot_s(buf, f.body, 1) as i16,
                filter_cutoff: slot_s(buf, f.body, 2) as i16,
                filter_resonance: slot_u(buf, f.body, 3) as u16,
                bit_depth: slot_byte(buf, f.body, 4),
                overdrive: slot_u(buf, f.body, 5) as u16,
                note: slot_byte(buf, f.body, 6),
                delay: slot_s(buf, f.body, 7) as i16,
                reverb: slot_s(buf, f.body, 8) as i16,
                sample: slot_u(buf, f.body, 9) as u16,
                sample_start: slot_s(buf, f.body, 10) as i16,
                sample_end: slot_s(buf, f.body, 11) as i16,
                micro_tune: slot_s(buf, f.body, 12) as i16,
                sample_attack: slot_u(buf, f.body, 13) as u16,
                sample_decay: slot_u(buf, f.body, 14) as u16,
                sample_folder: slot_u(buf, f.body, 15) as u16,
                repeat_type: slot_u(buf, f.body, 16) as u16,
                repeat_grid: slot_u(buf, f.body, 17) as u16,
                chance_type: slot_u(buf, f.body, 18) as u16,
                chance_action: slot_u(buf, f.body, 19) as u16,
                micro_move: slot_s(buf, f.body, 20) as i16,
                rest: buf.subrange(f.tail, f.end),
            },
            end: f.end,
        },
    }
}

/// Where a MIDI note is sent: one of sixteen channels on the jack port or
/// on the usb port.
#[derive(Clone, Copy, Debug, PartialEq, Eq, Structural)]
pub enum MidiChannel {
    Jack(u8),
    Usb(u8),
}

/// The channel encoded by a raw slot value: 0 to 15 name the jack channels
/// 1 to 16, and 16 to 31 the usb channels 1 to 16.  Larger raw values, which
/// the device does not write, wrap modulo 256 on the usb side.
pub open spec fn channel_of(raw: int) -> MidiChannel {
    if raw < 16 {
        MidiChannel::Jack((raw + 1) as u8)
    } else {
        MidiChannel::Usb(((raw % 256 + 241) % 256) as u8)
    }
}

/// For every raw value the device writes — 0 to 31 — the decoded channel
/// lies on one of the sixteen jack or sixteen usb channels.
pub proof fn lemma_channel_range(raw: int)
    requires
        0 <= raw < 32,
    ensures
        channel_of(raw) matches MidiChannel::Jack(c) ==> 1 <= c <= 16,
        channel_of(raw) matches MidiChannel::Usb(c) ==> 1 <= c <= 16,
{
}

impl From<u16> for MidiChannel {
    fn from(raw: u16) -> (r: MidiChannel) {
        let c = if raw < 16 {
            MidiChannel::Jack(raw as u8 + 1)
        } else {
            MidiChannel::Usb(((raw % 256 + 241) % 256) as u8)
        };
        proof {
            assert(c == channel_of(raw as int));
        }
        c
    }
}

impl vstd::std_specs::convert::FromSpecImpl<u16> for MidiChannel {
    open spec fn obeys_from_spec() -> bool {
        true
    }

    open spec fn from_spec(raw: u16) -> MidiChannel {
        channel_of(raw as int)
    }
}

/// One MIDI step: channel, note data and controller values, ten of them
/// optional under the tail bitmask, and an opaque tail.
#[derive(Clone, Debug, PartialEq)]
pub struct MidiStep {
    /// Step number, 0 indexed
    pub number: usize,
    pub channel: MidiChannel,
    pub program: Option<u8>,
    /// Midi note number
    pub note: u8,
    pub velocity: u8,
    /// Note length in 60ths of a quarter note
    pub note_length: u16,
    /// Chord enum value, passed through uninterpreted
    pub chord: i16,
    /// -10000 is -11/24 step; 10000 is +11/24 step
    pub micro_move: i16,
    /// -10000 is -100 cents; 10000 is +100 cents; 100 = 1 cent
    pub pitch_bend: Option<i16>,
    pub cc12: Option<u8>,
    pub cc13: Option<u8>,
    pub cc17: Option<u8>,
    pub cc19: Option<u8>,
    pub cc22: Option<u8>,
    pub cc71: Option<u8>,
    pub cc74: Option<u8>,
    pub cc75: Option<u8>,
    /// 0 = off
    pub repeat_type: u16,
    pub repeat_grid: u16,
    /// 0 = always
    pub chance_type: u16,
    /// 0 = play step
    pub chance_action: u16,
    /// Bytes of the frame not yet reverse-engineered, kept verbatim
    pub rest: Vec<u8>,
}

/// The mathematical content of a `MidiStep`.
#[verifier::ext_equal]
pub struct MidiStepModel {
    pub number: usize,
    pub channel: MidiChannel,
    pub program: Option<u8>,
    pub note: u8,
    pub velocity: u8,
    pub note_length: u16,
    pub chord: i16,
    pub micro_move: i16,
    pub pitch_bend: Option<i16>,
    pub cc12: Option<u8>,
    pub cc13: Option<u8>,
    pub cc17: Option<u8>,
    pub cc19: Option<u8>,
    pub cc22: Option<u8>,
    pub cc71: Option<u8>,
    pub cc74: Option<u8>,
    pub cc75: Option<u8>,
    pub repeat_type: u16,
    pub repeat_grid: u16,
    pub chance_type: u16,
    pub chance_action: u16,
    pub rest: Seq<u8>,
}

impl View for MidiStep {
    type V = MidiStepModel;

    open spec fn view(&self) -> MidiStepModel {
        MidiStepModel {
            number: self.number,
            channel: self.channel,
            program: self.program,
            note: self.note,
            velocity: self.velocity,
            note_length: self.note_length,
            chord: self.chord,
            micro_move: self.micro_move,
            pitch_bend: self.pitch_bend,
            cc12: self.cc12,
            cc13: self.cc13,
            cc17: self.cc17,
            cc19: self.cc19,
            cc22: self.cc22,
            cc71: self.cc71,
            cc74: self.cc74,
            cc75: self.cc75,
            repeat_type: self.repeat_type,
            repeat_grid: self.repeat_grid,
            chance_type: self.chance_type,
            chance_action: self.chance_action,
            rest: self.rest@,
        }
    }
}

/// What decoding one MIDI step at `pos` amounts to.  A tail of more than
/// two bytes carries the presence bitmask in its sixth to eighth bytes — a
/// tail of three to seven bytes, which the device does not write, is
/// malformed — and a shorter tail leaves every optional field absent.
pub open spec fn spec_parse_midi_step(buf: Seq<u8>, pos: int, number: usize) -> Outcome<
    MidiStepModel,
> {
    match spec_step_frame(buf, pos) {
        Outcome::Failed { err } => Outcome::Failed { err },
        Outcome::Parsed { v: f, .. } => {
            let tail_len = f.end - f.tail;
            if tail_len > 2 && tail_len < 8 {
                Outcome::Failed { err: err_at(ErrorKind::StructuralViolation, f.tail) }
            } else {
                let masked = tail_len > 2;
                let m1 = buf[f.tail + 5];
                let m2 = buf[f.tail + 6];
                let m3 = buf[f.tail + 7];
                Outcome::Parsed {
                    v: MidiStepModel {
                        number,
                        velocity: slot_byte(buf, f.body, 0),
                        note_length: slot_u(buf, f.body, 1) as u16,
                        cc74: opt_slot(buf, f.body, 2, masked && bit_set(m1, 2)),
                        cc71: opt_slot(buf, f.body, 3, masked && bit_set(m1, 3)),
                        cc13: opt_slot(buf, f.body, 4, masked && bit_set(m1, 4)),
                        cc12: opt_slot(buf, f.body, 5, masked && bit_set(m1, 5)),
                        note: slot_byte(buf, f.body, 6),
                        cc19: opt_slot(buf, f.body, 7, masked && bit_set(m2, 0)),
                        cc17: opt_slot(buf, f.body, 8, masked && bit_set(m2, 1)),
                        channel: channel_of(slot_u(buf, f.body, 9)),
                        chord: slot_s(buf, f.body, 10) as i16,
                        pitch_bend: if masked && bit_set(m2, 5) {
                            Some(slot_s(buf, f.body, 12) as i16)
                        } else {
                            None
                        },
                        cc22: opt_slot(buf, f.body, 13, masked && bit_set(m2, 6)),
                        cc75: opt_slot(buf, f.body, 14, masked && bit_set(m3, 0)),
                        program: opt_slot(buf, f.body, 15, masked && bit_set(m3, 1)),
                        repeat_type: if masked && !bit_set(m3, 2) {
                            0
                        } else {
                            slot_u(buf, f.body, 16) as u16
                        },
                        repeat_grid: if masked && !bit_set(m3, 3) {
                            0
                        } else {
                            slot_u(buf, f.body, 17) as u16
                        },
                        chance_type: slot_u(buf, f.body, 18) as u16,
                        chance_action: slot_u(buf, f.body, 19) as u16,
                        micro_move: slot_s(buf, f.body, 20) as i16,
                        rest: buf.subrange(f.tail, f.end),
                    },
                    end: f.end,
                }
            }
        },
    }
}

/// The low byte of a slot when `present` holds, and nothing otherwise.
pub open spec fn opt_slot(buf: Seq<u8>, body: int, slot: int, present: bool) -> Option<u8> {
    if present {
        Some(slot_byte(buf, body, slot))
    } else {
        None
    }
}

/// Decode the shared step frame, returning the announced length and the
/// position just after the outer varint.
fn read_frame(reader: &mut Reader) -> (r: Result<(usize, usize), ParseError>)
    ensures
        final(reader).bytes() == old(reader).bytes(),
        match spec_step_frame(old(reader).bytes(), old(reader).cur()) {
            Outcome::Parsed { v: f, .. } => {
                &&& r matches Ok(p) && ({
                    &&& p.1 + p.0 == f.end
                    &&& p.1 < f.body
                    &&& final(reader).cur() == f.body
                    &&& f.body + 42 == f.tail
                    &&& f.tail <= f.end <= old(reader).bytes().len()
                })
            },
            Outcome::Failed { err } => r matches Err(e) && e == err,
        },
{
    let step_start = reader.pos();
    let tag = reader.read()?;
    if tag != 0x0a {
        return Err(ParseError::at(ErrorKind::StructuralViolation, step_start));
    }
    let len = reader.read_variable_quantity()?;
    let start = reader.pos();
    let tag2 = reader.read()?;
    if tag2 != 0x0a {
        return Err(ParseError::at(ErrorKind::StructuralViolation, start));
    }
    let count_pos = reader.pos();
    let count = reader.read_variable_quantity()?;
    if count != 44 {
        return Err(ParseError::at(ErrorKind::StructuralViolation, count_pos));
    }
    let body = reader.pos();
    let blen = reader.buffer_len();
    proof {
        assert(body <= blen);
    }
    if blen - body < 42 {
        return Err(ParseError::at(ErrorKind::Truncated, body));
    }
    if len < body - start + 42 {
        return Err(ParseError::at(ErrorKind::StructuralViolation, step_start));
    }
    if len > blen - start {
        return Err(ParseError::at(ErrorKind::Truncated, body + 42));
    }
    Ok((len, start))
}

impl TrackStep for Step {
    open spec fn spec_parse(buf: Seq<u8>, pos: int, number: usize) -> Outcome<StepModel> {
        spec_parse_audio_step(buf, pos, number)
    }

    proof fn lemma_parse_range(buf: Seq<u8>, pos: int, number: usize) {
    }

    fn from_reader(reader: &mut Reader, number: usize) -> (r: Result<Step, ParseError>) {
        let (len, start) = read_frame(reader)?;
        let fields = reader.read_bytes(42)?;
        let advanced = reader.pos() - start;
        let rest = reader.read_bytes(len - advanced)?;
        let s = Step {
            number,
            volume: u16_at(&fields, 0),
            pan: i16_at(&fields, 2),
            filter_cutoff: i16_at(&fields, 4),
            filter_resonance: u16_at(&fields, 6),
            bit_depth: (u16_at(&fields, 8) % 256) as u8,
            overdrive: u16_at(&fields, 10),
            note: (u16_at(&fields, 12) % 256) as u8,
            delay: i16_at(&fields, 14),
            reverb: i16_at(&fields, 16),
            sample: u16_at(&fields, 18),
            sample_start: i16_at(&fields, 20),
            sample_end: i16_at(&fields, 22),
            micro_tune: i16_at(&fields, 24),
            sample_attack: u16_at(&fields, 26),
            sample_decay: u16_at(&fields, 28),
            sample_folder: u16_at(&fields, 30),
            repeat_type: u16_at(&fields, 32),
            repeat_grid: u16_at(&fields, 34),
            chance_type: u16_at(&fields, 36),
            chance_action: u16_at(&fields, 38),
            micro_move: i16_at(&fields, 40),
            rest,
        };
        Ok(s)
    }
}

impl TrackStep for MidiStep {
    open spec fn spec_parse(buf: Seq<u8>, pos: int, number: usize) -> Outcome<MidiStepModel> {
        spec_parse_midi_step(buf, pos, number)
    }

    proof fn lemma_parse_range(buf: Seq<u8>, pos: int, number: usize) {
    }

    #[verifier::rlimit(60)]
    fn from_reader(reader: &mut Reader, number: usize) -> (r: Result<MidiStep, ParseError>) {
        let ghost buf = reader.bytes();
        let (len, start) = read_frame(reader)?;
        let fields = reader.read_bytes(42)?;
        let tail_pos = reader.pos();
        let advanced = reader.pos() - start;
        let rest = reader.read_bytes(len - advanced)?;

        let velocity = (u16_at(&fields, 0) % 256) as u8;
        let note_length = u16_at(&fields, 2);
        let mut cc74 = Some((u16_at(&fields, 4) % 256) as u8);
        let mut cc71 = Some((u16_at(&fields, 6) % 256) as u8);
        let mut cc13 = Some((u16_at(&fields, 8) % 256) as u8);
        let mut cc12 = Some((u16_at(&fields, 10) % 256) as u8);
        let note = (u16_at(&fields, 12) % 256) as u8;
        let mut cc19 = Some((u16_at(&fields, 14) % 256) as u8);
        let mut cc17 = Some((u16_at(&fields, 16) % 256) as u8);
        let channel = MidiChannel::from(u16_at(&fields, 18));
        let chord = i16_at(&fields, 20);
        let mut pitch_bend = Some(i16_at(&fields, 24));
        let mut cc22 = Some((u16_at(&fields, 26) % 256) as u8);
        let mut cc75 = Some((u16_at(&fields, 28) % 256) as u8);
        let mut program = Some((u16_at(&fields, 30) % 256) as u8);
        let mut repeat_type = u16_at(&fields, 32);
        let mut repeat_grid = u16_at(&fields, 34);
        let chance_type = u16_at(&fields, 36);
        let chance_action = u16_at(&fields, 38);
        let micro_move = i16_at(&fields, 40);

        if rest.len() > 2 {
            if rest.len() < 8 {
                return Err(ParseError::at(ErrorKind::StructuralViolation, tail_pos));
            }
            let m1 = rest[5];
            let m2 = rest[6];
            let m3 = rest[7];
            if ((m1 >> 5) & 1) == 0 {
                cc12 = None;
            }
            if ((m1 >> 4) & 1) == 0 {
                cc13 = None;
            }
            if ((m1 >> 3) & 1) == 0 {
                cc71 = None;
            }
            if ((m1 >> 2) & 1) == 0 {
                cc74 = None;
            }
            if ((m2 >> 6) & 1) == 0 {
                cc22 = None;
            }
            if ((m2 >> 5) & 1) == 0 {
                pitch_bend = None;
            }
            if ((m2 >> 1) & 1) == 0 {
                cc17 = None;
            }
            if ((m2 >> 0) & 1) == 0 {
                cc19 = None;
            }
            if ((m3 >> 3) & 1) == 0 {
                repeat_grid = 0;
            }
            if ((m3 >> 2) & 1) == 0 {
                repeat_type = 0;
            }
            if ((m3 >> 1) & 1) == 0 {
                program = None;
            }
            if ((m3 >> 0) & 1) == 0 {
                cc75 = None;
            }
        } else {
            cc12 = None;
            cc13 = None;
            cc17 = None;
            cc19 = None;
            cc22 = None;
            cc71 = None;
            cc74 = None;
            cc75 = None;
            program = None;
            pitch_bend = None;
        }

        let s = MidiStep {
            number,
            channel,
            program,
            note,
            velocity,
            note_length,
            micro_move,
            pitch_bend,
            chord,
            cc12,
            cc13,
            cc17,
            cc19,
            cc22,
            cc71,
            cc74,
            cc75,
            repeat_type,
            repeat_grid,
            chance_type,
            chance_action,
            rest,
        };
        proof {
            // Establish the model equality field by field: one equation at a
            // time keeps the solver on the slot arithmetic it needs.
            if let Outcome::Parsed { v, end } = spec_parse_midi_step(
                buf,
                old(reader).cur(),
                number,
            ) {
                assert(s@.velocity == v.velocity);
                assert(s@.note_length == v.note_length);
                assert(s@.cc74 == v.cc74);
                assert(s@.cc71 == v.cc71);
                assert(s@.cc13 == v.cc13);
                assert(s@.cc12 == v.cc12);
                assert(s@.note == v.note);
                assert(s@.cc19 == v.cc19);
                assert(s@.cc17 == v.cc17);
                assert(s@.channel == v.channel);
                assert(s@.chord == v.chord);
                assert(s@.pitch_bend == v.pitch_bend);
                assert(s@.cc22 == v.cc22);
                assert(s@.cc75 == v.cc75);
                assert(s@.program == v.program);
                assert(s@.repeat_type == v.repeat_type);
                assert(s@.repeat_grid == v.repeat_grid);
                assert(s@.chance_type == v.chance_type);
                assert(s@.chance_action == v.chance_action);
                assert(s@.micro_move == v.micro_move);
                assert(s@.rest == v.rest);
            }
        }
        Ok(s)
    }
}

/// The unsigned little-endian 16-bit value at offset `i` of `v`.
fn u16_at(v: &Vec<u8>, i: usize) -> (r: u16)
    requires
        i + 2 <= v@.len(),
    ensures
        r == le16(v@, i as int),
{
    proof {
        let _l: usize = v.len();
    }
    v[i] as u16 + 256 * (v[i + 1] as u16)
}

/// The two's-complement little-endian 16-bit value at offset `i` of `v`.
fn i16_at(v: &Vec<u8>, i: usize) -> (r: i16)
    requires
        i + 2 <= v@.len(),
    ensures
        r == le16_signed(v@, i as int),
{
    let raw = u16_at(v, i);
    if raw < 32768 {
        raw as i16
    } else {
        (raw as i32 - 65536) as i16
    }
}

} // verus!
