//! One audio or MIDI lane of a pattern: 64 decoded steps, of which the
//! first `num_steps` are kept, followed by a bounded tag-value attribute
//! tail.
//!
//! A track block announces its length up front; the attribute loop runs
//! until exactly that many bytes have been consumed, and the decoder
//! checks the announced length against the bytes actually read.

use vstd::prelude::*;

use crate::error::err_at;
use crate::error::ErrorKind;
use crate::error::Outcome;
use crate::error::ParseError;
use crate::reader::vq_good;
use crate::reader::vq_size;
use crate::reader::vq_too_long;
use crate::reader::vq_value;
use crate::reader::Reader;
use crate::step::TrackStep;

verus! {

/// How fast a track plays relative to the pattern: a fraction, or paused.
#[derive(Clone, Copy, Debug, PartialEq, Eq, Structural)]
pub enum TrackSpeed {
    /// Numerator, denominator
    Fraction(u8, u8),
    Paused,
}

impl Default for TrackSpeed {
    fn default() -> (r: TrackSpeed)
        ensures
            r == TrackSpeed::Paused,
    {
        TrackSpeed::Paused
    }
}

/// The attributes found in a track's tag-value tail.
#[derive(Clone, Debug, PartialEq)]
pub struct TrackAttrs {
    num_steps: u8,
    // Percentage 25-75
    swing: u8,
    play_mode: u8,
    track_speed: TrackSpeed,
    // The variation that was live when the track was saved
    variation: u8,
    // Which variations existed when the track was saved
    variations: Vec<bool>,
    // Unknown tag 0x18, kept verbatim
    ux18: u8,
}

/// The mathematical content of a `TrackAttrs`.
#[verifier::ext_equal]
pub struct TrackAttrsModel {
    pub num_steps: u8,
    pub swing: u8,
    pub play_mode: u8,
    pub track_speed: TrackSpeed,
    pub variation: u8,
    pub variations: Seq<bool>,
    pub ux18: u8,
}

impl TrackAttrsModel {
    /// The value every attribute decoding starts from.
    pub open spec fn init() -> TrackAttrsModel {
        TrackAttrsModel {
            num_steps: 0,
            swing: 0,
            play_mode: 0,
            track_speed: TrackSpeed::Paused,
            variation: 0,
            variations: Seq::empty(),
            ux18: 0,
        }
    }
}

impl View for TrackAttrs {
    type V = TrackAttrsModel;

    closed spec fn view(&self) -> TrackAttrsModel {
        TrackAttrsModel {
            num_steps: self.num_steps,
            swing: self.swing,
            play_mode: self.play_mode,
            track_speed: self.track_speed,
            variation: self.variation,
            variations: self.variations@,
            ux18: self.ux18,
        }
    }
}

/// The attribute value after one tag-value pair.  A zero numerator or
/// denominator pauses the track; a numerator met while paused starts a
/// fraction over the default denominator 1; a denominator met while paused
/// is discarded; an unrecognised tag leaves the attributes unchanged.
pub open spec fn attrs_apply(tag: u8, v: u8, acc: TrackAttrsModel) -> TrackAttrsModel {
    if tag == 0x10 {
        TrackAttrsModel { num_steps: v, ..acc }
    } else if tag == 0x38 {
        TrackAttrsModel { swing: v, ..acc }
    } else if tag == 0x40 {
        TrackAttrsModel { play_mode: v, ..acc }
    } else if tag == 0x30 {
        TrackAttrsModel { variation: v, ..acc }
    } else if tag == 0x18 {
        TrackAttrsModel { ux18: v, ..acc }
    } else if tag == 0x20 {
        let speed = if v == 0 {
            TrackSpeed::Paused
        } else {
            match acc.track_speed {
                TrackSpeed::Fraction(_n, d) => TrackSpeed::Fraction(v, d),
                TrackSpeed::Paused => TrackSpeed::Fraction(v, 1),
            }
        };
        TrackAttrsModel { track_speed: speed, ..acc }
    } else if tag == 0x28 {
        let speed = match acc.track_speed {
            TrackSpeed::Fraction(n, _d) => if v == 0 {
                TrackSpeed::Paused
            } else {
                TrackSpeed::Fraction(n, v)
            },
            TrackSpeed::Paused => TrackSpeed::Paused,
        };
        TrackAttrsModel { track_speed: speed, ..acc }
    } else {
        acc
    }
}

/// What the bounded attribute loop amounts to, reading tag-value pairs
/// from `pos` until at least `end` is reached.  Tag `0x4A` carries a
/// length-prefixed variation map; every other tag, known or not, carries
/// one payload byte.
pub open spec fn spec_parse_attrs(buf: Seq<u8>, pos: int, end: int, acc: TrackAttrsModel)
    -> Outcome<TrackAttrsModel>
    decreases (if end - pos >= 0 { end - pos } else { 0 }),
{
    if pos >= end {
        Outcome::Parsed { v: acc, end: pos }
    } else if pos >= buf.len() {
        Outcome::Failed { err: err_at(ErrorKind::Truncated, pos) }
    } else {
        let tag = buf[pos];
        if tag == 0x4a {
            if pos + 1 >= buf.len() {
                Outcome::Failed { err: err_at(ErrorKind::Truncated, pos + 1) }
            } else {
                let n = buf[pos + 1] as int;
                if pos + 2 + n > buf.len() {
                    Outcome::Failed { err: err_at(ErrorKind::Truncated, pos + 2) }
                } else {
                    let flags = buf.subrange(pos + 2, pos + 2 + n).map_values(|b: u8| b != 0);
                    spec_parse_attrs(
                        buf,
                        pos + 2 + n,
                        end,
                        TrackAttrsModel { variations: flags, ..acc },
                    )
                }
            }
        } else {
            if pos + 1 >= buf.len() {
                Outcome::Failed { err: err_at(ErrorKind::Truncated, pos + 1) }
            } else {
                spec_parse_attrs(buf, pos + 2, end, attrs_apply(tag, buf[pos + 1], acc))
            }
        }
    }
}

impl TrackAttrs {
    /// Run the attribute loop over the bytes from `start` to
    /// `start + track_len` of the buffer.
    pub fn from_reader(reader: &mut Reader, start: usize, track_len: usize) -> (r: Result<
        TrackAttrs,
        ParseError,
    >)
        requires
            old(reader).cur() >= start,
        ensures
            final(reader).bytes() == old(reader).bytes(),
            match spec_parse_attrs(
                old(reader).bytes(),
                old(reader).cur(),
                start + track_len,
                TrackAttrsModel::init(),
            ) {
                Outcome::Parsed { v, end } => {
                    &&& r matches Ok(a) && a@ == v
                    &&& final(reader).cur() == end
                },
                Outcome::Failed { err } => r matches Err(e) && e == err,
            },
    {
        let mut attrs = TrackAttrs {
            num_steps: 0,
            swing: 0,
            play_mode: 0,
            track_speed: TrackSpeed::Paused,
            variation: 0,
            variations: Vec::new(),
            ux18: 0,
        };
        proof {
            assert(attrs@ =~= TrackAttrsModel::init());
        }
        loop
            invariant
                reader.bytes() == old(reader).bytes(),
                reader.cur() >= start,
                spec_parse_attrs(
                    old(reader).bytes(),
                    old(reader).cur(),
                    start + track_len,
                    TrackAttrsModel::init(),
                ) == spec_parse_attrs(
                    reader.bytes(),
                    reader.cur(),
                    start + track_len,
                    attrs@,
                ),
            decreases (if start + track_len - reader.cur() >= 0 {
                start + track_len - reader.cur()
            } else {
                0
            }),
        {
            if reader.pos() - start >= track_len {
                return Ok(attrs);
            }
            let tag = reader.read()?;
            if tag == 0x4a {
                let n = reader.read()?;
                let raw = reader.read_bytes(n as usize)?;
                let mut flags: Vec<bool> = Vec::new();
                let mut k: usize = 0;
                while k < raw.len()
                    invariant
                        k <= raw@.len(),
                        flags@ =~= raw@.subrange(0, k as int).map_values(|b: u8| b != 0),
                    decreases raw@.len() - k,
                {
                    let b = raw[k];
                    flags.push(b != 0);
                    k = k + 1;
                    proof {
                        assert(raw@.subrange(0, k as int).map_values(|b: u8| b != 0)
                            =~= raw@.subrange(0, k - 1).map_values(|b: u8| b != 0).push(
                            raw@[k - 1] != 0,
                        ));
                    }
                }
                proof {
                    assert(flags@ =~= raw@.map_values(|b: u8| b != 0));
                }
                attrs.variations = flags;
            } else {
                let v = reader.read()?;
                if tag == 0x10 {
                    attrs.num_steps = v;
                } else if tag == 0x38 {
                    attrs.swing = v;
                } else if tag == 0x40 {
                    attrs.play_mode = v;
                } else if tag == 0x30 {
                    attrs.variation = v;
                } else if tag == 0x18 {
                    attrs.ux18 = v;
                } else if tag == 0x20 {
                    attrs.track_speed = if v == 0 {
                        TrackSpeed::Paused
                    } else {
                        match attrs.track_speed {
                            TrackSpeed::Fraction(_n, d) => TrackSpeed::Fraction(v, d),
                            TrackSpeed::Paused => TrackSpeed::Fraction(v, 1),
                        }
                    };
                } else if tag == 0x28 {
                    attrs.track_speed = match attrs.track_speed {
                        TrackSpeed::Fraction(n, _d) => if v == 0 {
                            TrackSpeed::Paused
                        } else {
                            TrackSpeed::Fraction(n, v)
                        },
                        TrackSpeed::Paused => TrackSpeed::Paused,
                    };
                }
                // any other tag: the payload byte is consumed and ignored
            }
        }
    }
}

/// The models of the steps in `steps`, in order.
pub open spec fn step_views<S: TrackStep>(steps: Seq<S>) -> Seq<S::V> {
    steps.map_values(|s: S| s@)
}

/// What decoding `n` consecutive steps at `pos` amounts to, the first one
/// numbered `number`.
pub open spec fn spec_parse_steps<S: TrackStep>(buf: Seq<u8>, pos: int, number: usize, n: nat)
    -> Outcome<Seq<S::V>>
    decreases n,
{
    if n == 0 {
        Outcome::Parsed { v: Seq::empty(), end: pos }
    } else {
        match S::spec_parse(buf, pos, number) {
            Outcome::Failed { err } => Outcome::Failed { err },
            Outcome::Parsed { v, end } => match spec_parse_steps::<S>(
                buf,
                end,
                (number + 1) as usize,
                (n - 1) as nat,
            ) {
                Outcome::Failed { err } => Outcome::Failed { err },
                Outcome::Parsed { v: tail, end: e2 } => Outcome::Parsed {
                    v: seq![v] + tail,
                    end: e2,
                },
            },
        }
    }
}

/// A list of `n` decoded steps has `n` entries.
pub proof fn lemma_steps_len<S: TrackStep>(buf: Seq<u8>, pos: int, number: usize, n: nat)
    ensures
        spec_parse_steps::<S>(buf, pos, number, n) matches Outcome::Parsed { v, .. } ==> v.len()
            == n,
    decreases n,
{
    if n > 0 {
        if let Outcome::Parsed { v: _v, end } = S::spec_parse(buf, pos, number) {
            lemma_steps_len::<S>(buf, end, (number + 1) as usize, (n - 1) as nat);
        }
    }
}

/// A parsed step tail with `prefix` already decoded in front of it.
pub open spec fn prepend_parsed<V>(prefix: Seq<V>, o: Outcome<Seq<V>>) -> Outcome<Seq<V>> {
    match o {
        Outcome::Parsed { v, end } => Outcome::Parsed { v: prefix + v, end },
        Outcome::Failed { err } => Outcome::Failed { err },
    }
}

/// One lane: its number, the variation slot it belongs to, its kept steps
/// and play-time attributes, and whether it was inlined in the pattern
/// file (the live, default variation) rather than loaded from a `.track`
/// file.
#[derive(Clone, Debug, PartialEq)]
pub struct Track<S: TrackStep + Clone> {
    pub number: usize,
    pub variation: usize,
    pub steps: Vec<S>,
    /// Percentage 25-75
    pub swing: u8,
    pub play_mode: u8,
    pub track_speed: TrackSpeed,
    pub is_default: bool,
    pub attrs: TrackAttrs,
}

/// The mathematical content of a `Track`, over the model `V` of its step
/// variant.
#[verifier::ext_equal]
pub struct TrackModel<V> {
    pub number: usize,
    pub variation: usize,
    pub steps: Seq<V>,
    pub swing: u8,
    pub play_mode: u8,
    pub track_speed: TrackSpeed,
    pub is_default: bool,
    pub attrs: TrackAttrsModel,
}

impl<S: TrackStep + Clone> View for Track<S> {
    type V = TrackModel<S::V>;

    open spec fn view(&self) -> TrackModel<S::V> {
        TrackModel {
            number: self.number,
            variation: self.variation,
            steps: step_views(self.steps@),
            swing: self.swing,
            play_mode: self.play_mode,
            track_speed: self.track_speed,
            is_default: self.is_default,
            attrs: self.attrs@,
        }
    }
}

/// What decoding a track body amounts to: 64 steps from `start`, the
/// attribute tail up to `start + len`, the step list cut down to
/// `num_steps`, and the structural checks that `num_steps` lies in 1 to 64
/// and that exactly `len` bytes were consumed.
pub open spec fn spec_track_body<S: TrackStep>(
    buf: Seq<u8>,
    start: int,
    len: int,
    number: usize,
    variation: usize,
    from_file: bool,
) -> Outcome<TrackModel<S::V>> {
    match spec_parse_steps::<S>(buf, start, 0, 64) {
        Outcome::Failed { err } => Outcome::Failed { err },
        Outcome::Parsed { v: steps, end: p } => match spec_parse_attrs(
            buf,
            p,
            start + len,
            TrackAttrsModel::init(),
        ) {
            Outcome::Failed { err } => Outcome::Failed { err },
            Outcome::Parsed { v: attrs, end: q } => {
                if attrs.num_steps == 0 || attrs.num_steps > 64 {
                    Outcome::Failed { err: err_at(ErrorKind::StructuralViolation, start) }
                } else if q != start + len {
                    Outcome::Failed { err: err_at(ErrorKind::StructuralViolation, start) }
                } else {
                    Outcome::Parsed {
                        v: TrackModel {
                            number,
                            variation: if from_file {
                                variation
                            } else {
                                attrs.variation as usize
                            },
                            steps: steps.take(attrs.num_steps as int),
                            swing: attrs.swing,
                            play_mode: attrs.play_mode,
                            track_speed: attrs.track_speed,
                            is_default: !from_file,
                            attrs,
                        },
                        end: q,
                    }
                }
            },
        },
    }
}

/// What decoding a whole track at `pos` amounts to.  Inside a pattern file
/// the block opens with an `0x0A` tag and a varint length; a `.track` file
/// has no such frame and runs to the end of the buffer.
pub open spec fn spec_parse_track<S: TrackStep>(
    buf: Seq<u8>,
    pos: int,
    number: usize,
    variation: usize,
    from_file: bool,
) -> Outcome<TrackModel<S::V>> {
    if from_file {
        spec_track_body::<S>(buf, pos, buf.len() as int - pos, number, variation, from_file)
    } else if pos >= buf.len() {
        Outcome::Failed { err: err_at(ErrorKind::Truncated, pos) }
    } else if buf[pos] != 0x0a {
        Outcome::Failed { err: err_at(ErrorKind::StructuralViolation, pos) }
    } else if vq_too_long(buf, pos + 1) {
        Outcome::Failed { err: err_at(ErrorKind::VarintTooLong, pos + 1) }
    } else if !vq_good(buf, pos + 1) {
        Outcome::Failed { err: err_at(ErrorKind::Truncated, pos + 1) }
    } else {
        spec_track_body::<S>(
            buf,
            pos + 1 + vq_size(buf, pos + 1),
            vq_value(buf, pos + 1),
            number,
            variation,
            from_file,
        )
    }
}

/// Every decoded track keeps between 1 and 64 steps: exactly the
/// `num_steps` its attributes announce.
pub proof fn lemma_track_steps_bound<S: TrackStep>(
    buf: Seq<u8>,
    pos: int,
    number: usize,
    variation: usize,
    from_file: bool,
)
    ensures
        spec_parse_track::<S>(buf, pos, number, variation, from_file) matches Outcome::Parsed {
            v,
            ..
        } ==> {
            &&& 1 <= v.attrs.num_steps <= 64
            &&& v.steps.len() == v.attrs.num_steps
        },
{
    let start: int = if from_file {
        pos
    } else {
        pos + 1 + vq_size(buf, pos + 1)
    };
    if let Outcome::Parsed { v: steps, end: _p } = spec_parse_steps::<S>(buf, start, 0, 64) {
        lemma_steps_len::<S>(buf, start, 0, 64);
    }
}

/// A decoded track carries the lane number it was asked for; one read
/// from a `.track` file carries the given variation slot, and one inlined
/// in a pattern file is marked as the default variation.
pub proof fn lemma_track_fields<S: TrackStep>(
    buf: Seq<u8>,
    pos: int,
    number: usize,
    variation: usize,
    from_file: bool,
)
    ensures
        spec_parse_track::<S>(buf, pos, number, variation, from_file) matches Outcome::Parsed {
            v,
            ..
        } ==> {
            &&& v.number == number
            &&& v.is_default == !from_file
            &&& from_file ==> v.variation == variation
        },
{
}

impl<S: TrackStep + Clone> Track<S> {
    /// Decode one track block, leaving the cursor on the first byte after
    /// it.  With `from_file` the buffer is a whole `.track` file, decoded
    /// from its start; otherwise the block opens with its tag and length
    /// prefix at the current position.
    pub fn from_reader(
        reader: &mut Reader,
        number: usize,
        variation: usize,
        from_file: bool,
    ) -> (r: Result<Track<S>, ParseError>)
        requires
            from_file ==> old(reader).cur() == 0,
        ensures
            final(reader).bytes() == old(reader).bytes(),
            match spec_parse_track::<S>(
                old(reader).bytes(),
                old(reader).cur(),
                number,
                variation,
                from_file,
            ) {
                Outcome::Parsed { v, end } => {
                    &&& r matches Ok(t) && t@ == v
                    &&& final(reader).cur() == end
                },
                Outcome::Failed { err } => r matches Err(e) && e == err,
            },
            r matches Ok(t) ==> 1 <= t@.steps.len() <= 64,
    {
        proof {
            lemma_track_steps_bound::<S>(
                old(reader).bytes(),
                old(reader).cur(),
                number,
                variation,
                from_file,
            );
        }
        let track_len: usize = if from_file {
            reader.buffer_len()
        } else {
            let tag_pos = reader.pos();
            let tag = reader.read()?;
            if tag != 0x0a {
                return Err(ParseError::at(ErrorKind::StructuralViolation, tag_pos));
            }
            reader.read_variable_quantity()?
        };
        let start = reader.pos();

        let mut steps: Vec<S> = Vec::new();
        let mut i: usize = 0;
        proof {
            assert(step_views(Seq::<S>::empty()) =~= Seq::<S::V>::empty());
            if let Outcome::Parsed { v, end } = spec_parse_steps::<S>(
                reader.bytes(),
                reader.cur(),
                0,
                64,
            ) {
                assert(Seq::<S::V>::empty() + v =~= v);
            }
        }
        while i < 64
            invariant
                reader.bytes() == old(reader).bytes(),
                i <= 64,
                steps@.len() == i,
                reader.cur() >= start,
                spec_parse_track::<S>(
                    old(reader).bytes(),
                    old(reader).cur(),
                    number,
                    variation,
                    from_file,
                ) == spec_track_body::<S>(
                    old(reader).bytes(),
                    start as int,
                    track_len as int,
                    number,
                    variation,
                    from_file,
                ),
                spec_parse_steps::<S>(reader.bytes(), start as int, 0, 64) == prepend_parsed(
                    step_views(steps@),
                    spec_parse_steps::<S>(reader.bytes(), reader.cur(), i, (64 - i) as nat),
                ),
            decreases 64 - i,
        {
            proof {
                S::lemma_parse_range(reader.bytes(), reader.cur(), i);
            }
            let ghost prev: int = reader.cur();
            let s = match S::from_reader(reader, i) {
                Ok(s) => s,
                Err(e) => {
                    proof {
                        assert(spec_parse_steps::<S>(
                            reader.bytes(),
                            prev,
                            i,
                            (64 - i) as nat,
                        ) matches Outcome::Failed { err } && err == e);
                        assert(spec_parse_steps::<S>(
                            reader.bytes(),
                            start as int,
                            0,
                            64,
                        ) matches Outcome::Failed { err } && err == e);
                    }
                    return Err(e);
                },
            };
            proof {
                assert(step_views(steps@.push(s)) =~= step_views(steps@) + seq![s@]);
                match spec_parse_steps::<S>(
                    reader.bytes(),
                    reader.cur(),
                    (i + 1) as usize,
                    (63 - i) as nat,
                ) {
                    Outcome::Parsed { v: t, end: e2 } => {
                        assert((step_views(steps@) + seq![s@]) + t =~= step_views(steps@) + (
                        seq![s@] + t));
                    },
                    Outcome::Failed { .. } => {},
                }
            }
            steps.push(s);
            i = i + 1;
        }
        proof {
            assert(step_views(steps@) + Seq::<S::V>::empty() =~= step_views(steps@));
        }

        let attrs = match TrackAttrs::from_reader(reader, start, track_len) {
            Ok(a) => a,
            Err(e) => {
                return Err(e);
            },
        };
        if attrs.num_steps == 0 || attrs.num_steps > 64 {
            return Err(ParseError::at(ErrorKind::StructuralViolation, start));
        }
        let endpos = reader.pos();
        if endpos < start || endpos - start != track_len {
            return Err(ParseError::at(ErrorKind::StructuralViolation, start));
        }
        let num = attrs.num_steps;
        let ghost full = steps@;
        let mut kept = steps;
        kept.truncate(num as usize);
        proof {
            assert(step_views(kept@) =~= step_views(full).take(num as int));
        }
        Ok(
            Track {
                number,
                variation: if from_file {
                    variation
                } else {
                    attrs.variation as usize
                },
                steps: kept,
                swing: attrs.swing,
                play_mode: attrs.play_mode,
                track_speed: attrs.track_speed,
                is_default: !from_file,
                attrs,
            },
        )
    }

    /// Decode the contents of a `.track` file: a bare track body that runs
    /// to the end of the buffer.
    pub fn read(bytes: Vec<u8>, track_number: usize, variation_number: usize) -> (r: Result<
        Track<S>,
        ParseError,
    >)
        ensures
            match spec_parse_track::<S>(bytes@, 0, track_number, variation_number, true) {
                Outcome::Parsed { v, .. } => r matches Ok(t) && t@ == v,
                Outcome::Failed { err } => r matches Err(e) && e == err,
            },
            r matches Ok(t) ==> 1 <= t@.steps.len() <= 64,
    {
        let mut reader = Reader::new(bytes);
        Self::from_reader(&mut reader, track_number, variation_number, true)
    }
}


/// A list of decoded steps advances the position and, when the list is not
/// empty, stays inside the buffer.
pub proof fn lemma_steps_range<S: TrackStep>(buf: Seq<u8>, pos: int, number: usize, n: nat)
    ensures
        spec_parse_steps::<S>(buf, pos, number, n) matches Outcome::Parsed { v, end } ==> {
            &&& pos <= end
            &&& n > 0 ==> pos < end <= buf.len()
        },
    decreases n,
{
    if n > 0 {
        S::lemma_parse_range(buf, pos, number);
        if let Outcome::Parsed { v: _v, end } = S::spec_parse(buf, pos, number) {
            lemma_steps_range::<S>(buf, end, (number + 1) as usize, (n - 1) as nat);
        }
    }
}

/// The attribute loop advances the position and does not leave a buffer it
/// started inside of.
pub proof fn lemma_attrs_range(buf: Seq<u8>, pos: int, end: int, acc: TrackAttrsModel)
    ensures
        spec_parse_attrs(buf, pos, end, acc) matches Outcome::Parsed { v, end: q } ==> {
            &&& pos <= q
            &&& pos <= buf.len() ==> q <= buf.len()
        },
    decreases (if end - pos >= 0 { end - pos } else { 0 }),
{
    if pos >= end {
    } else if pos >= buf.len() {
    } else {
        let tag = buf[pos];
        if tag == 0x4a {
            if pos + 1 < buf.len() {
                let n = buf[pos + 1] as int;
                if pos + 2 + n <= buf.len() {
                    let flags = buf.subrange(pos + 2, pos + 2 + n).map_values(|b: u8| b != 0);
                    lemma_attrs_range(buf, pos + 2 + n, end, TrackAttrsModel { variations: flags, ..acc });
                }
            }
        } else {
            if pos + 1 < buf.len() {
                lemma_attrs_range(buf, pos + 2, end, attrs_apply(tag, buf[pos + 1], acc));
            }
        }
    }
}

/// A decoded track advances the position and stays inside the buffer.
pub proof fn lemma_track_range<S: TrackStep>(
    buf: Seq<u8>,
    pos: int,
    number: usize,
    variation: usize,
    from_file: bool,
)
    ensures
        spec_parse_track::<S>(buf, pos, number, variation, from_file) matches Outcome::Parsed {
            v,
            end,
        } ==> pos < end <= buf.len(),
{
    let start: int = if from_file {
        pos
    } else {
        pos + 1 + vq_size(buf, pos + 1)
    };
    let len: int = if from_file {
        buf.len() as int - pos
    } else {
        vq_value(buf, pos + 1)
    };
    lemma_steps_range::<S>(buf, start, 0, 64);
    if let Outcome::Parsed { v: _steps, end: p } = spec_parse_steps::<S>(buf, start, 0, 64) {
        lemma_attrs_range(buf, p, start + len, TrackAttrsModel::init());
    }
}

} // verus!
