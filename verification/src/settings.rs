//! The project header: name, directory, tempo, and the two controller-change
//! maps.
//!
//! A settings file is a sentinel-terminated sequence of tagged fields
//! followed by exactly sixteen `CCMapping` records for the jack MIDI port
//! and sixteen for the usb port.  The byte `0xC2` both ends the tagged body
//! and begins every mapping record.

use vstd::prelude::*;
use vstd::utf8::decode_utf8;
use vstd::utf8::valid_utf8;

use crate::error::err_at;
use crate::error::ErrorKind;
use crate::error::Outcome;
use crate::error::ParseError;
use crate::reader::le32;
use crate::reader::Reader;

verus! {

/// One controller-change map: four opaque header bytes, then the CC numbers
/// assigned to the eight hardware parameters, in wire order.
#[derive(Clone, Debug, PartialEq)]
pub struct CCMapping {
    pub u_first_bytes: [u8; 4],
    pub cutoff: u8,
    pub resonance: u8,
    pub sample_attack: u8,
    pub sample_decay: u8,
    pub reverb_send: u8,
    pub delay_send: u8,
    pub overdrive: u8,
    pub bit_depth: u8,
}

/// The mathematical content of a `CCMapping`.
#[verifier::ext_equal]
pub struct CCMappingModel {
    pub u_first_bytes: Seq<u8>,
    pub cutoff: u8,
    pub resonance: u8,
    pub sample_attack: u8,
    pub sample_decay: u8,
    pub reverb_send: u8,
    pub delay_send: u8,
    pub overdrive: u8,
    pub bit_depth: u8,
}

impl View for CCMapping {
    type V = CCMappingModel;

    open spec fn view(&self) -> CCMappingModel {
        CCMappingModel {
            u_first_bytes: self.u_first_bytes@,
            cutoff: self.cutoff,
            resonance: self.resonance,
            sample_attack: self.sample_attack,
            sample_decay: self.sample_decay,
            reverb_send: self.reverb_send,
            delay_send: self.delay_send,
            overdrive: self.overdrive,
            bit_depth: self.bit_depth,
        }
    }
}

/// What decoding one `CCMapping` record at `pos` amounts to: a thirteen-byte
/// record led by the repeated `0xC2` tag.
pub open spec fn spec_parse_cc(buf: Seq<u8>, pos: int) -> Outcome<CCMappingModel> {
    if pos >= buf.len() {
        Outcome::Failed { err: err_at(ErrorKind::Truncated, pos) }
    } else if buf[pos] != 0xc2 {
        Outcome::Failed { err: err_at(ErrorKind::StructuralViolation, pos) }
    } else if pos + 5 > buf.len() {
        Outcome::Failed { err: err_at(ErrorKind::Truncated, pos + 1) }
    } else if pos + 13 > buf.len() {
        Outcome::Failed { err: err_at(ErrorKind::Truncated, buf.len() as int) }
    } else {
        Outcome::Parsed {
            v: CCMappingModel {
                u_first_bytes: buf.subrange(pos + 1, pos + 5),
                cutoff: buf[pos + 5],
                resonance: buf[pos + 6],
                sample_attack: buf[pos + 7],
                sample_decay: buf[pos + 8],
                reverb_send: buf[pos + 9],
                delay_send: buf[pos + 10],
                overdrive: buf[pos + 11],
                bit_depth: buf[pos + 12],
            },
            end: pos + 13,
        }
    }
}

/// What decoding `n` consecutive `CCMapping` records at `pos` amounts to.
pub open spec fn spec_parse_cc_list(buf: Seq<u8>, pos: int, n: nat) -> Outcome<
    Seq<CCMappingModel>,
>
    decreases n,
{
    if n == 0 {
        Outcome::Parsed { v: Seq::empty(), end: pos }
    } else {
        match spec_parse_cc(buf, pos) {
            Outcome::Failed { err } => Outcome::Failed { err },
            Outcome::Parsed { v, end } => match spec_parse_cc_list(buf, end, (n - 1) as nat) {
                Outcome::Failed { err } => Outcome::Failed { err },
                Outcome::Parsed { v: tail, end: e2 } => Outcome::Parsed {
                    v: seq![v] + tail,
                    end: e2,
                },
            },
        }
    }
}

/// A list of `n` decoded records has `n` entries.
pub proof fn lemma_cc_list_len(buf: Seq<u8>, pos: int, n: nat)
    ensures
        spec_parse_cc_list(buf, pos, n) matches Outcome::Parsed { v, .. } ==> v.len() == n,
    decreases n,
{
    if n > 0 {
        if let Outcome::Parsed { v, end } = spec_parse_cc(buf, pos) {
            lemma_cc_list_len(buf, end, (n - 1) as nat);
        }
    }
}

/// Every successfully decoded settings value carries exactly sixteen
/// controller-change maps for each port.
pub proof fn lemma_settings_cc_lengths(buf: Seq<u8>)
    ensures
        spec_parse_settings(buf) matches Outcome::Parsed { v, .. } ==> v.jack_cc_mapping.len()
            == 16 && v.usb_cc_mapping.len() == 16,
{
    if let Outcome::Parsed { v: _s0, end: p1 } = spec_settings_body(
        buf,
        0,
        SettingsModel::init(),
    ) {
        lemma_cc_list_len(buf, p1, 16);
        if let Outcome::Parsed { v: _jack, end: p2 } = spec_parse_cc_list(buf, p1, 16) {
            lemma_cc_list_len(buf, p2, 16);
        }
    }
}

impl CCMapping {
    /// Decode one record, leaving the cursor on the first byte after it.
    pub fn from_reader(reader: &mut Reader) -> (r: Result<CCMapping, ParseError>)
        ensures
            final(reader).bytes() == old(reader).bytes(),
            match spec_parse_cc(old(reader).bytes(), old(reader).cur()) {
                Outcome::Parsed { v, end } => {
                    &&& r matches Ok(c) && c@ == v
                    &&& final(reader).cur() == end
                },
                Outcome::Failed { err } => r matches Err(e) && e == err,
            },
    {
        let start = reader.pos();
        let tag = reader.read()?;
        if tag != 0xc2 {
            return Err(ParseError::at(ErrorKind::StructuralViolation, start));
        }
        let fb = reader.read_bytes(4)?;
        let cutoff = reader.read()?;
        let resonance = reader.read()?;
        let sample_attack = reader.read()?;
        let sample_decay = reader.read()?;
        let reverb_send = reader.read()?;
        let delay_send = reader.read()?;
        let overdrive = reader.read()?;
        let bit_depth = reader.read()?;
        let c = CCMapping {
            u_first_bytes: [fb[0], fb[1], fb[2], fb[3]],
            cutoff,
            resonance,
            sample_attack,
            sample_decay,
            reverb_send,
            delay_send,
            overdrive,
            bit_depth,
        };
        proof {
            assert(c@.u_first_bytes =~= old(reader).bytes().subrange(
                old(reader).cur() + 1,
                old(reader).cur() + 5,
            ));
        }
        Ok(c)
    }
}

/// The project header and its opaque slices.  The tempo is kept as the raw
/// little-endian bits of the 32-bit float on the wire; the four `x..` fields
/// are unknown tags preserved verbatim.
#[derive(Clone, Debug, PartialEq)]
pub struct Settings {
    pub name: String,
    pub directory: String,
    pub bpm_bits: u32,
    pub jack_cc_mapping: Vec<CCMapping>,
    pub usb_cc_mapping: Vec<CCMapping>,
    pub x20: Vec<u8>,
    pub xa8: Vec<u8>,
    pub xb0: Vec<u8>,
    pub x90: Vec<u8>,
}

/// The mathematical content of a `Settings`.
#[verifier::ext_equal]
pub struct SettingsModel {
    pub name: Seq<char>,
    pub directory: Seq<char>,
    pub bpm_bits: u32,
    pub jack_cc_mapping: Seq<CCMappingModel>,
    pub usb_cc_mapping: Seq<CCMappingModel>,
    pub x20: Seq<u8>,
    pub xa8: Seq<u8>,
    pub xb0: Seq<u8>,
    pub x90: Seq<u8>,
}

impl SettingsModel {
    /// The value every field decoding starts from.
    pub open spec fn init() -> SettingsModel {
        SettingsModel {
            name: Seq::empty(),
            directory: Seq::empty(),
            bpm_bits: 0,
            jack_cc_mapping: Seq::empty(),
            usb_cc_mapping: Seq::empty(),
            x20: Seq::empty(),
            xa8: Seq::empty(),
            xb0: Seq::empty(),
            x90: Seq::empty(),
        }
    }
}

impl View for Settings {
    type V = SettingsModel;

    open spec fn view(&self) -> SettingsModel {
        SettingsModel {
            name: self.name@,
            directory: self.directory@,
            bpm_bits: self.bpm_bits,
            jack_cc_mapping: cc_views(self.jack_cc_mapping@),
            usb_cc_mapping: cc_views(self.usb_cc_mapping@),
            x20: self.x20@,
            xa8: self.xa8@,
            xb0: self.xb0@,
            x90: self.x90@,
        }
    }
}

/// What the sentinel-terminated body loop at `pos` amounts to, with `acc`
/// the fields gathered so far.  The loop stops on the first `0xC2`, leaving
/// `end` on that byte; any other unrecognised tag is fatal.
pub open spec fn spec_settings_body(buf: Seq<u8>, pos: int, acc: SettingsModel) -> Outcome<
    SettingsModel,
>
    decreases buf.len() - pos,
{
    if pos >= buf.len() {
        Outcome::Failed { err: err_at(ErrorKind::Truncated, pos) }
    } else {
        let tag = buf[pos];
        if tag == 0xc2 {
            Outcome::Parsed { v: acc, end: pos }
        } else if tag == 0x12 || tag == 0x62 {
            // a length-prefixed UTF-8 string: the name or the directory
            if pos + 2 > buf.len() {
                Outcome::Failed { err: err_at(ErrorKind::Truncated, pos + 1) }
            } else {
                let n = buf[pos + 1] as int;
                if pos + 2 + n > buf.len() {
                    Outcome::Failed { err: err_at(ErrorKind::Truncated, pos + 2) }
                } else if !valid_utf8(buf.subrange(pos + 2, pos + 2 + n)) {
                    Outcome::Failed { err: err_at(ErrorKind::InvalidUtf8, pos + 2) }
                } else {
                    let s = decode_utf8(buf.subrange(pos + 2, pos + 2 + n));
                    let acc2 = if tag == 0x12 {
                        SettingsModel { name: s, ..acc }
                    } else {
                        SettingsModel { directory: s, ..acc }
                    };
                    spec_settings_body(buf, pos + 2 + n, acc2)
                }
            }
        } else if tag == 0x85 {
            // one unexplained byte, then the tempo as a little-endian f32
            if pos + 2 > buf.len() {
                Outcome::Failed { err: err_at(ErrorKind::Truncated, pos + 1) }
            } else if pos + 6 > buf.len() {
                Outcome::Failed { err: err_at(ErrorKind::Truncated, pos + 2) }
            } else {
                spec_settings_body(
                    buf,
                    pos + 6,
                    SettingsModel { bpm_bits: le32(buf, pos + 2) as u32, ..acc },
                )
            }
        } else if tag == 0x20 || tag == 0x90 || tag == 0xa8 || tag == 0xb0 {
            // opaque slices of empirically inferred fixed widths
            let n: int = if tag == 0x20 {
                5
            } else if tag == 0x90 {
                11
            } else {
                2
            };
            if pos + 1 + n > buf.len() {
                Outcome::Failed { err: err_at(ErrorKind::Truncated, pos + 1) }
            } else {
                let s = buf.subrange(pos + 1, pos + 1 + n);
                let acc2 = if tag == 0x20 {
                    SettingsModel { x20: s, ..acc }
                } else if tag == 0x90 {
                    SettingsModel { x90: s, ..acc }
                } else if tag == 0xa8 {
                    SettingsModel { xa8: s, ..acc }
                } else {
                    SettingsModel { xb0: s, ..acc }
                };
                spec_settings_body(buf, pos + 1 + n, acc2)
            }
        } else {
            Outcome::Failed { err: err_at(ErrorKind::UnknownTag(tag), pos) }
        }
    }
}

/// What decoding a whole settings buffer amounts to: the tagged body, then
/// sixteen jack records, then sixteen usb records.  Trailing bytes are
/// ignored.
pub open spec fn spec_parse_settings(buf: Seq<u8>) -> Outcome<SettingsModel> {
    match spec_settings_body(buf, 0, SettingsModel::init()) {
        Outcome::Failed { err } => Outcome::Failed { err },
        Outcome::Parsed { v: s0, end: p1 } => match spec_parse_cc_list(buf, p1, 16) {
            Outcome::Failed { err } => Outcome::Failed { err },
            Outcome::Parsed { v: jack, end: p2 } => match spec_parse_cc_list(buf, p2, 16) {
                Outcome::Failed { err } => Outcome::Failed { err },
                Outcome::Parsed { v: usb, end: p3 } => Outcome::Parsed {
                    v: SettingsModel { jack_cc_mapping: jack, usb_cc_mapping: usb, ..s0 },
                    end: p3,
                },
            },
        },
    }
}

impl Settings {
    /// Decode a whole settings buffer.
    pub fn read(bytes: Vec<u8>) -> (r: Result<Settings, ParseError>)
        ensures
            match spec_parse_settings(bytes@) {
                Outcome::Parsed { v, .. } => r matches Ok(s) && s@ == v,
                Outcome::Failed { err } => r matches Err(e) && e == err,
            },
            r matches Ok(s) ==> s.jack_cc_mapping@.len() == 16 && s.usb_cc_mapping@.len() == 16,
    {
        let mut reader = Reader::new(bytes);
        let mut settings = Settings {
            name: String::new(),
            directory: String::new(),
            bpm_bits: 0,
            jack_cc_mapping: Vec::new(),
            usb_cc_mapping: Vec::new(),
            x20: Vec::new(),
            xa8: Vec::new(),
            xb0: Vec::new(),
            x90: Vec::new(),
        };
        proof {
            assert(cc_views(Seq::<CCMapping>::empty()) =~= Seq::<CCMappingModel>::empty());
            assert(settings@ =~= SettingsModel::init());
        }
        Self::attrs_from_reader(&mut reader, &mut settings)?;
        let jack = cc_list_from_reader(&mut reader)?;
        let usb = cc_list_from_reader(&mut reader)?;
        settings.jack_cc_mapping = jack;
        settings.usb_cc_mapping = usb;
        Ok(settings)
    }

    /// Run the tagged body loop, filling `settings` field by field, and
    /// leave the cursor on the terminating `0xC2`.
    fn attrs_from_reader(reader: &mut Reader, settings: &mut Settings) -> (r: Result<
        (),
        ParseError,
    >)
        ensures
            final(reader).bytes() == old(reader).bytes(),
            match spec_settings_body(old(reader).bytes(), old(reader).cur(), old(settings)@) {
                Outcome::Parsed { v, end } => {
                    &&& r matches Ok(u)
                    &&& final(settings)@ == v
                    &&& final(reader).cur() == end
                },
                Outcome::Failed { err } => r matches Err(e) && e == err,
            },
    {
        loop
            invariant
                reader.bytes() == old(reader).bytes(),
                spec_settings_body(old(reader).bytes(), old(reader).cur(), old(settings)@)
                    == spec_settings_body(reader.bytes(), reader.cur(), settings@),
            decreases reader.bytes().len() - reader.cur(),
        {
            let tagpos = reader.pos();
            let tag = reader.read()?;
            if tag == 0xc2 {
                reader.step_back();
                return Ok(());
            } else if tag == 0x12 {
                let n = reader.read()?;
                let s = reader.read_string(n as usize)?;
                settings.name = s;
            } else if tag == 0x62 {
                let n = reader.read()?;
                let s = reader.read_string(n as usize)?;
                settings.directory = s;
            } else if tag == 0x85 {
                let _u = reader.read()?;
                let bits = reader.read_u32_le()?;
                settings.bpm_bits = bits;
            } else if tag == 0x20 {
                settings.x20 = reader.read_bytes(5)?;
            } else if tag == 0x90 {
                settings.x90 = reader.read_bytes(11)?;
            } else if tag == 0xa8 {
                settings.xa8 = reader.read_bytes(2)?;
            } else if tag == 0xb0 {
                settings.xb0 = reader.read_bytes(2)?;
            } else {
                return Err(ParseError::at(ErrorKind::UnknownTag(tag), tagpos));
            }
        }
    }
}

/// The models of the records in `list`, in order.
pub open spec fn cc_views(list: Seq<CCMapping>) -> Seq<CCMappingModel> {
    list.map_values(|c: CCMapping| c@)
}

/// A parsed tail with `prefix` already decoded in front of it.
pub open spec fn prepend_outcome(prefix: Seq<CCMappingModel>, o: Outcome<Seq<CCMappingModel>>)
    -> Outcome<Seq<CCMappingModel>> {
    match o {
        Outcome::Parsed { v, end } => Outcome::Parsed { v: prefix + v, end },
        Outcome::Failed { err } => Outcome::Failed { err },
    }
}

/// Decode sixteen consecutive `CCMapping` records.
fn cc_list_from_reader(reader: &mut Reader) -> (r: Result<Vec<CCMapping>, ParseError>)
    ensures
        final(reader).bytes() == old(reader).bytes(),
        match spec_parse_cc_list(old(reader).bytes(), old(reader).cur(), 16) {
            Outcome::Parsed { v, end } => {
                &&& r matches Ok(list) && cc_views(list@) == v && list@.len() == 16
                &&& final(reader).cur() == end
            },
            Outcome::Failed { err } => r matches Err(e) && e == err,
        },
{
    let mut list: Vec<CCMapping> = Vec::new();
    let mut i: usize = 0;
    proof {
        assert(cc_views(Seq::<CCMapping>::empty()) =~= Seq::<CCMappingModel>::empty());
        if let Outcome::Parsed { v, end } = spec_parse_cc_list(reader.bytes(), reader.cur(), 16) {
            assert(Seq::<CCMappingModel>::empty() + v =~= v);
        }
    }
    while i < 16
        invariant
            reader.bytes() == old(reader).bytes(),
            i <= 16,
            list@.len() == i,
            spec_parse_cc_list(old(reader).bytes(), old(reader).cur(), 16) == prepend_outcome(
                cc_views(list@),
                spec_parse_cc_list(reader.bytes(), reader.cur(), (16 - i) as nat),
            ),
        decreases 16 - i,
    {
        let ghost prev: int = reader.cur();
        let c = CCMapping::from_reader(reader)?;
        proof {
            assert(cc_views(list@.push(c)) =~= cc_views(list@) + seq![c@]);
            match spec_parse_cc_list(reader.bytes(), reader.cur(), (15 - i) as nat) {
                Outcome::Parsed { v: t, end: e2 } => {
                    assert((cc_views(list@) + seq![c@]) + t =~= cc_views(list@) + (seq![c@] + t));
                },
                Outcome::Failed { .. } => {},
            }
        }
        list.push(c);
        i = i + 1;
    }
    proof {
        assert(cc_views(list@) + Seq::<CCMappingModel>::empty() =~= cc_views(list@));
    }
    Ok(list)
}

} // verus!
