//! One bar of sequencer data: eight audio and eight MIDI lanes, each with
//! up to sixteen stored variations.
//!
//! A pattern file inlines sixteen track blocks back to back — the live
//! variation of each lane — and keeps its remaining bytes opaquely.  The
//! other stored variations come from sibling `.track` files; a slot already
//! filled from the pattern file is never overwritten, because the inlined
//! copy is authoritative for the variation that was live at save time.

use vstd::prelude::*;

use crate::error::err_at;
use crate::error::ErrorKind;
use crate::error::Outcome;
use crate::error::ParseError;
use crate::reader::Reader;
use crate::step::MidiStep;
use crate::step::MidiStepModel;
use crate::step::Step;
use crate::step::StepModel;
use crate::step::TrackStep;
use crate::track::lemma_track_fields;
use crate::track::lemma_track_range;
use crate::track::prepend_parsed;
use crate::track::spec_parse_track;
use crate::track::Track;
use crate::track::TrackModel;

verus! {

/// The decoded bytes of one on-disk `.track` file: which lane and which
/// variation slot it stores, and the file's contents.  Lanes 0 to 7 are
/// audio; 8 to 15 are MIDI lanes 0 to 7.
#[derive(Clone, Debug, PartialEq)]
pub struct TrackFile {
    pub track: u8,
    pub variation: u8,
    pub bytes: Vec<u8>,
}

/// The mathematical content of a `TrackFile`.
#[verifier::ext_equal]
pub struct TrackFileModel {
    pub track: u8,
    pub variation: u8,
    pub bytes: Seq<u8>,
}

impl View for TrackFile {
    type V = TrackFileModel;

    open spec fn view(&self) -> TrackFileModel {
        TrackFileModel { track: self.track, variation: self.variation, bytes: self.bytes@ }
    }
}

/// The models of the files in `fs`, in order.
pub open spec fn file_views(fs: Seq<TrackFile>) -> Seq<TrackFileModel> {
    fs.map_values(|f: TrackFile| f@)
}

/// The model of an optional track.
pub open spec fn opt_track_view<S: TrackStep + Clone>(o: Option<Track<S>>) -> Option<
    TrackModel<S::V>,
> {
    match o {
        Option::Some(t) => Option::Some(t@),
        Option::None => Option::None,
    }
}

/// The models of one variation row.
pub open spec fn row_views<S: TrackStep + Clone>(row: Seq<Option<Track<S>>>) -> Seq<
    Option<TrackModel<S::V>>,
> {
    row.map_values(|o: Option<Track<S>>| opt_track_view(o))
}

/// The models of a whole lane-by-variation matrix.
pub open spec fn matrix_views<S: TrackStep + Clone>(m: Seq<Vec<Option<Track<S>>>>) -> Seq<
    Seq<Option<TrackModel<S::V>>>,
> {
    m.map_values(|row: Vec<Option<Track<S>>>| row_views(row@))
}

/// Eight lanes of sixteen variation slots.
pub open spec fn matrix_wf<V>(m: Seq<Seq<Option<V>>>) -> bool {
    &&& m.len() == 8
    &&& forall|t: int| 0 <= t < 8 ==> (#[trigger] m[t]).len() == 16
}

/// Sixteen empty variation slots.
pub open spec fn empty_row<V>() -> Seq<Option<V>> {
    Seq::new(16, |v: int| Option::<V>::None)
}

/// The all-empty lane-by-variation matrix.
pub open spec fn empty_matrix<V>() -> Seq<Seq<Option<V>>> {
    Seq::new(8, |t: int| empty_row())
}

/// The matrix after placing one track at its own lane and variation slot.
/// With `keep`, a slot that is already filled is left alone; without it,
/// the new track replaces whatever was there.  A track addressing a slot
/// outside the matrix changes nothing.
pub open spec fn place_one<W>(
    mat: Seq<Seq<Option<TrackModel<W>>>>,
    t: TrackModel<W>,
    keep: bool,
) -> Seq<Seq<Option<TrackModel<W>>>> {
    if t.number < 8 && t.variation < 16 && !(keep && mat[t.number as int][t.variation as int]
        is Some) {
        mat.update(
            t.number as int,
            mat[t.number as int].update(t.variation as int, Option::Some(t)),
        )
    } else {
        mat
    }
}

/// The matrix after placing a list of tracks, first to last.
pub open spec fn place_all<W>(
    mat: Seq<Seq<Option<TrackModel<W>>>>,
    ts: Seq<TrackModel<W>>,
    keep: bool,
) -> Seq<Seq<Option<TrackModel<W>>>>
    decreases ts.len(),
{
    if ts.len() == 0 {
        mat
    } else {
        place_one(place_all(mat, ts.drop_last(), keep), ts.last(), keep)
    }
}

/// What decoding `n` inlined track blocks at `pos` amounts to, lane
/// numbers counted from `idx`.  An inlined track whose saved variation
/// index lies outside 0 to 15 is malformed.
pub open spec fn spec_parse_inline<S: TrackStep>(buf: Seq<u8>, pos: int, idx: usize, n: nat)
    -> Outcome<Seq<TrackModel<S::V>>>
    decreases n,
{
    if n == 0 {
        Outcome::Parsed { v: Seq::empty(), end: pos }
    } else {
        match spec_parse_track::<S>(buf, pos, idx, 0, false) {
            Outcome::Failed { err } => Outcome::Failed { err },
            Outcome::Parsed { v, end } => {
                if v.variation >= 16 {
                    Outcome::Failed { err: err_at(ErrorKind::StructuralViolation, pos) }
                } else {
                    match spec_parse_inline::<S>(buf, end, (idx + 1) as usize, (n - 1) as nat) {
                        Outcome::Failed { err } => Outcome::Failed { err },
                        Outcome::Parsed { v: tail, end: e2 } => Outcome::Parsed {
                            v: seq![v] + tail,
                            end: e2,
                        },
                    }
                }
            },
        }
    }
}

/// A list of `n` decoded inline tracks has `n` entries, lane numbers
/// `idx` onward, variations inside 0 to 15, all marked as the default
/// variation; and decoding advances through the buffer.
pub proof fn lemma_inline_props<S: TrackStep>(buf: Seq<u8>, pos: int, idx: usize, n: nat)
    requires
        idx + n <= usize::MAX,
    ensures
        spec_parse_inline::<S>(buf, pos, idx, n) matches Outcome::Parsed { v, end } ==> {
            &&& v.len() == n
            &&& n == 0 ==> end == pos
            &&& n > 0 ==> pos < end <= buf.len()
            &&& forall|k: int|
                0 <= k < n ==> {
                    &&& (#[trigger] v[k]).number == idx + k
                    &&& v[k].variation < 16
                    &&& v[k].is_default
                }
        },
    decreases n,
{
    if n > 0 {
        lemma_track_range::<S>(buf, pos, idx, 0, false);
        if let Outcome::Parsed { v: t0, end } = spec_parse_track::<S>(buf, pos, idx, 0, false) {
            if t0.variation < 16 {
                lemma_inline_props::<S>(buf, end, (idx + 1) as usize, (n - 1) as nat);
            }
        }
    }
}

/// What decoding every `.track` file amounts to: the audio tracks (lanes
/// 0 to 7) and the MIDI tracks (lanes 8 to 15, renumbered 0 to 7), in file
/// order, or the first failure.
pub open spec fn spec_decode_files(files: Seq<TrackFileModel>) -> Result<
    (Seq<TrackModel<StepModel>>, Seq<TrackModel<MidiStepModel>>),
    ParseError,
>
    decreases files.len(),
{
    if files.len() == 0 {
        Result::Ok((Seq::empty(), Seq::empty()))
    } else {
        let f = files[0];
        if f.track < 8 {
            match spec_parse_track::<Step>(f.bytes, 0, f.track as usize, f.variation as usize, true) {
                Outcome::Failed { err } => Result::Err(err),
                Outcome::Parsed { v, .. } => match spec_decode_files(files.skip(1)) {
                    Result::Err(e) => Result::Err(e),
                    Result::Ok((a, m)) => Result::Ok((seq![v] + a, m)),
                },
            }
        } else {
            match spec_parse_track::<MidiStep>(
                f.bytes,
                0,
                (f.track - 8) as usize,
                f.variation as usize,
                true,
            ) {
                Outcome::Failed { err } => Result::Err(err),
                Outcome::Parsed { v, .. } => match spec_decode_files(files.skip(1)) {
                    Result::Err(e) => Result::Err(e),
                    Result::Ok((a, m)) => Result::Ok((a, seq![v] + m)),
                },
            }
        }
    }
}

/// What decoding a whole pattern amounts to: sixteen inlined track blocks
/// — eight audio, then eight MIDI — the remaining bytes kept opaquely,
/// then every `.track` file, each stored track placed at its own slot and
/// never displacing an inlined one.
pub open spec fn spec_parse_pattern(buf: Seq<u8>, number: u8, files: Seq<TrackFileModel>)
    -> Result<PatternModel, ParseError> {
    match spec_parse_inline::<Step>(buf, 0, 0, 8) {
        Outcome::Failed { err } => Result::Err(err),
        Outcome::Parsed { v: ainline, end: p1 } => match spec_parse_inline::<MidiStep>(
            buf,
            p1,
            0,
            8,
        ) {
            Outcome::Failed { err } => Result::Err(err),
            Outcome::Parsed { v: minline, end: p2 } => match spec_decode_files(files) {
                Result::Err(e) => Result::Err(e),
                Result::Ok((afiles, mfiles)) => Result::Ok(
                    PatternModel {
                        number,
                        audio_tracks: place_all(
                            place_all(empty_matrix(), ainline, false),
                            afiles,
                            true,
                        ),
                        midi_tracks: place_all(
                            place_all(empty_matrix(), minline, false),
                            mfiles,
                            true,
                        ),
                        rest: buf.subrange(p2, buf.len() as int),
                    },
                ),
            },
        },
    }
}

/// One decoded pattern.
#[derive(Clone, Debug, PartialEq)]
pub struct Pattern {
    pub number: u8,
    pub audio_tracks: Vec<Vec<Option<Track<Step>>>>,
    pub midi_tracks: Vec<Vec<Option<Track<MidiStep>>>>,
    pub rest: Vec<u8>,
}

/// The mathematical content of a `Pattern`.
#[verifier::ext_equal]
pub struct PatternModel {
    pub number: u8,
    pub audio_tracks: Seq<Seq<Option<TrackModel<StepModel>>>>,
    pub midi_tracks: Seq<Seq<Option<TrackModel<MidiStepModel>>>>,
    pub rest: Seq<u8>,
}

impl PatternModel {
    /// Both matrices hold eight lanes of sixteen variation slots.
    pub open spec fn wf(self) -> bool {
        matrix_wf(self.audio_tracks) && matrix_wf(self.midi_tracks)
    }
}

impl View for Pattern {
    type V = PatternModel;

    open spec fn view(&self) -> PatternModel {
        PatternModel {
            number: self.number,
            audio_tracks: matrix_views(self.audio_tracks@),
            midi_tracks: matrix_views(self.midi_tracks@),
            rest: self.rest@,
        }
    }
}

/// Placing tracks keeps the matrix eight lanes by sixteen slots.
pub proof fn lemma_place_all_wf<W>(
    mat: Seq<Seq<Option<TrackModel<W>>>>,
    ts: Seq<TrackModel<W>>,
    keep: bool,
)
    requires
        matrix_wf(mat),
    ensures
        matrix_wf(place_all(mat, ts, keep)),
    decreases ts.len(),
{
    if ts.len() > 0 {
        lemma_place_all_wf(mat, ts.drop_last(), keep);
    }
}

/// Every successfully decoded pattern is well-formed.
pub proof fn lemma_pattern_wf(buf: Seq<u8>, number: u8, files: Seq<TrackFileModel>)
    ensures
        spec_parse_pattern(buf, number, files) matches Result::Ok(p) ==> p.wf(),
{
    if let Outcome::Parsed { v: ainline, end: p1 } = spec_parse_inline::<Step>(buf, 0, 0, 8) {
        if let Outcome::Parsed { v: minline, end: p2 } = spec_parse_inline::<MidiStep>(
            buf,
            p1,
            0,
            8,
        ) {
            if let Result::Ok((afiles, mfiles)) = spec_decode_files(files) {
                assert(matrix_wf(empty_matrix::<TrackModel<StepModel>>()));
                assert(matrix_wf(empty_matrix::<TrackModel<MidiStepModel>>()));
                lemma_place_all_wf(empty_matrix::<TrackModel<StepModel>>(), ainline, false);
                lemma_place_all_wf(
                    place_all(empty_matrix::<TrackModel<StepModel>>(), ainline, false),
                    afiles,
                    true,
                );
                lemma_place_all_wf(empty_matrix::<TrackModel<MidiStepModel>>(), minline, false);
                lemma_place_all_wf(
                    place_all(empty_matrix::<TrackModel<MidiStepModel>>(), minline, false),
                    mfiles,
                    true,
                );
            }
        }
    }
}


/// The models of the tracks in `ts`, in order.
pub open spec fn track_views<S: TrackStep + Clone>(ts: Seq<Track<S>>) -> Seq<TrackModel<S::V>> {
    ts.map_values(|t: Track<S>| t@)
}

/// Build the all-empty matrix.
fn new_matrix<S: TrackStep + Clone>() -> (r: Vec<Vec<Option<Track<S>>>>)
    ensures
        matrix_views(r@) == empty_matrix::<TrackModel<S::V>>(),
{
    let mut mat: Vec<Vec<Option<Track<S>>>> = Vec::new();
    let mut t: usize = 0;
    while t < 8
        invariant
            t <= 8,
            mat@.len() == t,
            forall|i: int|
                0 <= i < t ==> row_views((#[trigger] mat@[i])@) == empty_row::<TrackModel<S::V>>(),
        decreases 8 - t,
    {
        let mut row: Vec<Option<Track<S>>> = Vec::new();
        let mut v: usize = 0;
        while v < 16
            invariant
                v <= 16,
                row@.len() == v,
                forall|j: int| 0 <= j < v ==> (#[trigger] row@[j]) is None,
            decreases 16 - v,
        {
            row.push(None);
            v = v + 1;
        }
        proof {
            assert(row_views(row@) =~= empty_row::<TrackModel<S::V>>());
        }
        mat.push(row);
        t = t + 1;
    }
    proof {
        assert(matrix_views(mat@) =~~= empty_matrix::<TrackModel<S::V>>());
    }
    mat
}

/// Put one track into its slot; with `keep`, leave a filled slot alone.
fn place_track<S: TrackStep + Clone>(
    mat: &mut Vec<Vec<Option<Track<S>>>>,
    tr: Track<S>,
    keep: bool,
)
    requires
        matrix_wf(matrix_views(old(mat)@)),
    ensures
        matrix_views(final(mat)@) == place_one(matrix_views(old(mat)@), tr@, keep),
{
    let t = tr.number;
    let v = tr.variation;
    if t < 8 && v < 16 {
        let occupied = keep && mat[t][v].is_some();
        if !occupied {
            mat[t][v] = Some(tr);
            proof {
                assert(matrix_views(mat@) =~~= place_one(matrix_views(old(mat)@), tr@, keep));
            }
        } else {
            proof {
                assert(matrix_views(mat@) =~~= place_one(matrix_views(old(mat)@), tr@, keep));
            }
        }
    } else {
        proof {
            assert(matrix_views(mat@) =~~= place_one(matrix_views(old(mat)@), tr@, keep));
        }
    }
}

/// Decode the eight inlined track blocks of one kind, lane numbers 0 to 7.
fn inline_from_reader<S: TrackStep + Clone>(reader: &mut Reader) -> (r: Result<
    Vec<Track<S>>,
    ParseError,
>)
    ensures
        final(reader).bytes() == old(reader).bytes(),
        match spec_parse_inline::<S>(old(reader).bytes(), old(reader).cur(), 0, 8) {
            Outcome::Parsed { v, end } => {
                &&& r matches Ok(list) && track_views(list@) == v && list@.len() == 8
                &&& final(reader).cur() == end
            },
            Outcome::Failed { err } => r matches Err(e) && e == err,
        },
{
    let mut list: Vec<Track<S>> = Vec::new();
    let mut i: usize = 0;
    proof {
        assert(track_views(Seq::<Track<S>>::empty()) =~= Seq::<TrackModel<S::V>>::empty());
        if let Outcome::Parsed { v, end } = spec_parse_inline::<S>(
            reader.bytes(),
            reader.cur(),
            0,
            8,
        ) {
            assert(Seq::<TrackModel<S::V>>::empty() + v =~= v);
        }
    }
    while i < 8
        invariant
            reader.bytes() == old(reader).bytes(),
            i <= 8,
            list@.len() == i,
            spec_parse_inline::<S>(old(reader).bytes(), old(reader).cur(), 0, 8)
                == prepend_parsed(
                track_views(list@),
                spec_parse_inline::<S>(reader.bytes(), reader.cur(), i, (8 - i) as nat),
            ),
        decreases 8 - i,
    {
        let start_pos = reader.pos();
        let tr = match Track::<S>::from_reader(reader, i, 0, false) {
            Ok(tr) => tr,
            Err(e) => {
                return Err(e);
            },
        };
        if tr.variation >= 16 {
            return Err(ParseError::at(ErrorKind::StructuralViolation, start_pos));
        }
        proof {
            assert(track_views(list@.push(tr)) =~= track_views(list@) + seq![tr@]);
            match spec_parse_inline::<S>(
                reader.bytes(),
                reader.cur(),
                (i + 1) as usize,
                (7 - i) as nat,
            ) {
                Outcome::Parsed { v: t2, end: e2 } => {
                    assert((track_views(list@) + seq![tr@]) + t2 =~= track_views(list@) + (
                    seq![tr@] + t2));
                },
                Outcome::Failed { .. } => {},
            }
        }
        list.push(tr);
        i = i + 1;
    }
    proof {
        assert(track_views(list@) + Seq::<TrackModel<S::V>>::empty() =~= track_views(list@));
    }
    Ok(list)
}

/// One decoded pattern with its stored variations.
impl Pattern {
    /// Decode a pattern file together with the decoded contents of its
    /// sibling `.track` files, given in the order the directory walk found
    /// them.
    #[verifier::rlimit(100)]
    pub fn read(bytes: Vec<u8>, number: u8, track_files: Vec<TrackFile>) -> (r: Result<
        Pattern,
        ParseError,
    >)
        ensures
            match spec_parse_pattern(bytes@, number, file_views(track_files@)) {
                Result::Ok(v) => r matches Ok(p) && p@ == v && p@.wf(),
                Result::Err(e) => r matches Err(e2) && e2 == e,
            },
    {
        let ghost buf = bytes@;
        let ghost all_files = file_views(track_files@);
        proof {
            lemma_pattern_wf(buf, number, all_files);
        }
        let mut reader = Reader::new(bytes);

        let ainline = inline_from_reader::<Step>(&mut reader)?;
        let ghost p1: int = reader.cur();
        let minline = inline_from_reader::<MidiStep>(&mut reader)?;
        proof {
            lemma_inline_props::<Step>(buf, 0, 0, 8);
            lemma_inline_props::<MidiStep>(buf, p1, 0, 8);
        }
        let rest = reader.rest();

        let pair = decode_track_files(track_files)?;
        let (afiles, mfiles) = pair;

        let amat = place_list(new_matrix::<Step>(), ainline, false);
        let amat = place_list(amat, afiles, true);
        let mmat = place_list(new_matrix::<MidiStep>(), minline, false);
        let mmat = place_list(mmat, mfiles, true);

        Ok(Pattern { number, audio_tracks: amat, midi_tracks: mmat, rest })
    }

    /// The default variation of audio lane `n`.
    pub fn audio_track(&self, n: usize) -> (r: &Track<Step>)
        requires
            self@.wf(),
            n < 8,
            self@.audio_tracks[n as int][0] is Some,
        ensures
            Option::Some(r@) == self@.audio_tracks[n as int][0],
    {
        match &self.audio_tracks[n][0] {
            Some(t) => t,
            None => vstd::pervasive::unreached(),
        }
    }

    /// The default variation of MIDI lane `n`.
    pub fn midi_track(&self, n: usize) -> (r: &Track<MidiStep>)
        requires
            self@.wf(),
            n < 8,
            self@.midi_tracks[n as int][0] is Some,
        ensures
            Option::Some(r@) == self@.midi_tracks[n as int][0],
    {
        match &self.midi_tracks[n][0] {
            Some(t) => t,
            None => vstd::pervasive::unreached(),
        }
    }
}

/// Decode every `.track` file, in the order given.
#[verifier::rlimit(100)]
fn decode_track_files(files: Vec<TrackFile>) -> (r: Result<
    (Vec<Track<Step>>, Vec<Track<MidiStep>>),
    ParseError,
>)
    ensures
        match spec_decode_files(file_views(files@)) {
            Result::Ok((a, m)) => r matches Ok(pair) && track_views(pair.0@) == a && track_views(
                pair.1@,
            ) == m,
            Result::Err(e) => r matches Err(e2) && e2 == e,
        },
    decreases files@.len(),
{
    let ghost all = file_views(files@);
    let mut files = files;
    if files.len() == 0 {
        let a: Vec<Track<Step>> = Vec::new();
        let m: Vec<Track<MidiStep>> = Vec::new();
        proof {
            assert(track_views(a@) =~= Seq::<TrackModel<StepModel>>::empty());
            assert(track_views(m@) =~= Seq::<TrackModel<MidiStepModel>>::empty());
        }
        return Ok((a, m));
    }
    let f = files.remove(0);
    proof {
        assert(file_views(files@) =~= all.skip(1));
        assert(all[0] == f@);
    }
    if f.track < 8 {
        let tr = Track::<Step>::read(f.bytes, f.track as usize, f.variation as usize)?;
        let pair = decode_track_files(files)?;
        let (mut a, m) = pair;
        let ghost a0 = a@;
        a.insert(0, tr);
        proof {
            assert(track_views(a@) =~= seq![tr@] + track_views(a0));
        }
        Ok((a, m))
    } else {
        let tr = Track::<MidiStep>::read(f.bytes, (f.track - 8) as usize, f.variation as usize)?;
        let pair = decode_track_files(files)?;
        let (a, mut m) = pair;
        let ghost m0 = m@;
        m.insert(0, tr);
        proof {
            assert(track_views(m@) =~= seq![tr@] + track_views(m0));
        }
        Ok((a, m))
    }
}

/// Place a list of tracks into the matrix, first to last.
fn place_list<S: TrackStep + Clone>(
    mat: Vec<Vec<Option<Track<S>>>>,
    tracks: Vec<Track<S>>,
    keep: bool,
) -> (r: Vec<Vec<Option<Track<S>>>>)
    requires
        matrix_wf(matrix_views(mat@)),
    ensures
        matrix_views(r@) == place_all(matrix_views(mat@), track_views(tracks@), keep),
        matrix_wf(matrix_views(r@)),
{
    let ghost m0 = matrix_views(mat@);
    let ghost full = tracks@;
    proof {
        let _l: usize = tracks.len();
    }
    let mut mat = mat;
    let mut remaining = tracks;
    let mut i: usize = 0;
    proof {
        assert(track_views(full).take(0) =~= Seq::<TrackModel<S::V>>::empty());
        assert(remaining@ =~= full.skip(0));
    }
    while remaining.len() > 0
        invariant
            full.len() <= usize::MAX,
            i + remaining@.len() == full.len(),
            remaining@ =~= full.skip(i as int),
            matrix_wf(matrix_views(mat@)),
            matrix_views(mat@) == place_all(m0, track_views(full).take(i as int), keep),
        decreases remaining@.len(),
    {
        let ghost before = remaining@;
        let tr = remaining.remove(0);
        proof {
            assert(remaining@ =~= full.skip(i + 1));
            assert(tr == full[i as int]);
        }
        let ghost mv = matrix_views(mat@);
        place_track(&mut mat, tr, keep);
        proof {
            let tv = track_views(full);
            assert(tv.take(i + 1).drop_last() =~= tv.take(i as int));
            assert(tv.take(i + 1).last() == tr@);
            assert(matrix_views(mat@) == place_one(mv, tr@, keep));
            assert(matrix_views(mat@) == place_all(m0, tv.take(i + 1), keep));
            assert forall|t2: int| 0 <= t2 < 8 implies (#[trigger] matrix_views(mat@)[t2]).len()
                == 16 by {
                assert(mv[t2].len() == 16);
            }
        }
        i = i + 1;
    }
    proof {
        assert(track_views(full).take(i as int) =~= track_views(full));
    }
    mat
}


/// Whether some track in the list addresses lane `t`, variation `v`.
pub open spec fn has_slot<W>(ts: Seq<TrackModel<W>>, t: int, v: int) -> bool {
    exists|k: int| 0 <= k < ts.len() && (#[trigger] ts[k]).number == t && ts[k].variation == v
}

/// Whether some file in the list addresses lane `t`, variation `v`.
pub open spec fn has_file(files: Seq<TrackFileModel>, t: int, v: int) -> bool {
    exists|k: int| 0 <= k < files.len() && (#[trigger] files[k]).track == t && files[k].variation
        == v
}

/// Prepending one track to a list adds exactly its own slot.
proof fn lemma_has_slot_cons<W>(x: TrackModel<W>, s: Seq<TrackModel<W>>, t: int, v: int)
    ensures
        has_slot(seq![x] + s, t, v) <==> ((x.number == t && x.variation == v) || has_slot(
            s,
            t,
            v,
        )),
{
    let c = seq![x] + s;
    if has_slot(c, t, v) {
        let k = choose|k: int| 0 <= k < c.len() && (#[trigger] c[k]).number == t && c[k].variation
            == v;
        if k == 0 {
            assert(c[0] == x);
        } else {
            assert(c[k] == s[k - 1]);
            assert(0 <= k - 1 < s.len() && s[k - 1].number == t && s[k - 1].variation == v);
        }
    }
    if x.number == t && x.variation == v {
        assert(c[0] == x);
        assert(0 <= 0 < c.len() && c[0].number == t && c[0].variation == v);
    }
    if has_slot(s, t, v) {
        let k = choose|k: int| 0 <= k < s.len() && (#[trigger] s[k]).number == t && s[k].variation
            == v;
        assert(c[k + 1] == s[k]);
        assert(0 <= k + 1 < c.len() && c[k + 1].number == t && c[k + 1].variation == v);
    }
}

/// Dropping the first file drops exactly its own slot.
proof fn lemma_has_file_cons(files: Seq<TrackFileModel>, t: int, v: int)
    requires
        files.len() > 0,
    ensures
        has_file(files, t, v) <==> ((files[0].track == t && files[0].variation == v) || has_file(
            files.skip(1),
            t,
            v,
        )),
{
    let s = files.skip(1);
    if has_file(files, t, v) {
        let k = choose|k: int|
            0 <= k < files.len() && (#[trigger] files[k]).track == t && files[k].variation == v;
        if k > 0 {
            assert(s[k - 1] == files[k]);
            assert(0 <= k - 1 < s.len() && s[k - 1].track == t && s[k - 1].variation == v);
        }
    }
    if has_file(s, t, v) {
        let k = choose|k: int| 0 <= k < s.len() && (#[trigger] s[k]).track == t && s[k].variation
            == v;
        assert(files[k + 1] == s[k]);
        assert(0 <= k + 1 < files.len() && files[k + 1].track == t && files[k + 1].variation == v);
    }
}

/// The decoded file lists hold a slot exactly when some file addresses it:
/// audio slots under lane numbers 0 to 7, MIDI slots under 8 to 15.
pub proof fn lemma_decode_pairs(files: Seq<TrackFileModel>, t: int, v: int)
    requires
        0 <= t < 8,
    ensures
        spec_decode_files(files) matches Result::Ok(pair) ==> {
            &&& (has_slot(pair.0, t, v) <==> has_file(files, t, v))
            &&& (has_slot(pair.1, t, v) <==> has_file(files, t + 8, v))
        },
    decreases files.len(),
{
    if files.len() == 0 {
        assert(!has_slot(Seq::<TrackModel<StepModel>>::empty(), t, v));
        assert(!has_slot(Seq::<TrackModel<MidiStepModel>>::empty(), t, v));
        assert(!has_file(files, t, v));
        assert(!has_file(files, t + 8, v));
    } else {
        lemma_decode_pairs(files.skip(1), t, v);
        lemma_has_file_cons(files, t, v);
        lemma_has_file_cons(files, t + 8, v);
        let f = files[0];
        if f.track < 8 {
            lemma_track_fields::<Step>(f.bytes, 0, f.track as usize, f.variation as usize, true);
            if let Outcome::Parsed { v: v0, .. } = spec_parse_track::<Step>(
                f.bytes,
                0,
                f.track as usize,
                f.variation as usize,
                true,
            ) {
                if let Result::Ok((a2, m2)) = spec_decode_files(files.skip(1)) {
                    lemma_has_slot_cons(v0, a2, t, v);
                }
            }
        } else {
            lemma_track_fields::<MidiStep>(
                f.bytes,
                0,
                (f.track - 8) as usize,
                f.variation as usize,
                true,
            );
            if let Outcome::Parsed { v: v0, .. } = spec_parse_track::<MidiStep>(
                f.bytes,
                0,
                (f.track - 8) as usize,
                f.variation as usize,
                true,
            ) {
                if let Result::Ok((a2, m2)) = spec_decode_files(files.skip(1)) {
                    lemma_has_slot_cons(v0, m2, t, v);
                }
            }
        }
    }
}

/// Placing tracks fills a slot exactly when it was already filled or some
/// placed track addresses it, whether or not filled slots are kept.
pub proof fn lemma_place_occupancy<W>(
    mat: Seq<Seq<Option<TrackModel<W>>>>,
    ts: Seq<TrackModel<W>>,
    keep: bool,
    t: int,
    v: int,
)
    requires
        matrix_wf(mat),
        0 <= t < 8,
        0 <= v < 16,
    ensures
        place_all(mat, ts, keep)[t][v] is Some <==> (mat[t][v] is Some || has_slot(ts, t, v)),
    decreases ts.len(),
{
    if ts.len() == 0 {
        assert(!has_slot(ts, t, v));
    } else {
        let init = ts.drop_last();
        let last = ts.last();
        lemma_place_occupancy(mat, init, keep, t, v);
        lemma_place_all_wf(mat, init, keep);
        if last.number == t && last.variation == v {
            assert(place_all(mat, ts, keep)[t][v] is Some);
            assert(0 <= ts.len() - 1 < ts.len() && ts[ts.len() - 1].number == t && ts[ts.len()
                - 1].variation == v);
        } else {
            assert(place_all(mat, ts, keep)[t][v] == place_all(mat, init, keep)[t][v]);
            if has_slot(ts, t, v) {
                let k = choose|k: int|
                    0 <= k < ts.len() && (#[trigger] ts[k]).number == t && ts[k].variation == v;
                assert(init[k] == ts[k]);
                assert(has_slot(init, t, v));
            }
            if has_slot(init, t, v) {
                let k = choose|k: int|
                    0 <= k < init.len() && (#[trigger] init[k]).number == t && init[k].variation
                        == v;
                assert(ts[k] == init[k]);
                assert(has_slot(ts, t, v));
            }
        }
    }
}

/// Placing tracks over filled slots, keeping them, changes nothing there.
pub proof fn lemma_place_keep_value<W>(
    mat: Seq<Seq<Option<TrackModel<W>>>>,
    ts: Seq<TrackModel<W>>,
    t: int,
    v: int,
)
    requires
        matrix_wf(mat),
        0 <= t < 8,
        0 <= v < 16,
        mat[t][v] is Some,
    ensures
        place_all(mat, ts, true)[t][v] == mat[t][v],
    decreases ts.len(),
{
    if ts.len() > 0 {
        lemma_place_keep_value(mat, ts.drop_last(), t, v);
        lemma_place_all_wf(mat, ts.drop_last(), true);
    }
}

/// Placing the inlined lanes over the empty matrix puts lane `k`'s track
/// at its own saved variation and leaves every other slot empty.
pub proof fn lemma_place_inline_value<W>(ts: Seq<TrackModel<W>>, t: int, v: int)
    requires
        ts.len() <= 8,
        forall|k: int| 0 <= k < ts.len() ==> (#[trigger] ts[k]).number == k,
        forall|k: int| 0 <= k < ts.len() ==> (#[trigger] ts[k]).variation < 16,
        0 <= t < 8,
        0 <= v < 16,
    ensures
        place_all(empty_matrix(), ts, false)[t][v] == (if t < ts.len() && ts[t].variation == v {
            Option::Some(ts[t])
        } else {
            Option::<TrackModel<W>>::None
        }),
    decreases ts.len(),
{
    assert(matrix_wf(empty_matrix::<TrackModel<W>>()));
    if ts.len() == 0 {
        assert(empty_matrix::<TrackModel<W>>()[t][v] is None);
    } else {
        let init = ts.drop_last();
        let last = ts.last();
        lemma_place_inline_value(init, t, v);
        lemma_place_all_wf(empty_matrix::<TrackModel<W>>(), init, false);
        assert(last.number == ts.len() - 1);
    }
}

/// The parsed inlined audio lanes of a pattern file.
pub open spec fn inline_audio(buf: Seq<u8>) -> Seq<TrackModel<StepModel>> {
    spec_parse_inline::<Step>(buf, 0, 0, 8)->v
}

/// The parsed inlined MIDI lanes of a pattern file.
pub open spec fn inline_midi(buf: Seq<u8>) -> Seq<TrackModel<MidiStepModel>> {
    spec_parse_inline::<MidiStep>(buf, spec_parse_inline::<Step>(buf, 0, 0, 8)->end, 0, 8)->v
}

/// In a decoded pattern a slot is occupied exactly when the pattern file
/// inlined that variation or some `.track` file stores it.  MIDI files use
/// lane numbers 8 to 15.
pub proof fn lemma_pattern_occupancy(
    buf: Seq<u8>,
    number: u8,
    files: Seq<TrackFileModel>,
    t: int,
    v: int,
)
    requires
        0 <= t < 8,
        0 <= v < 16,
    ensures
        spec_parse_pattern(buf, number, files) matches Result::Ok(p) ==> {
            &&& (p.audio_tracks[t][v] is Some <==> (inline_audio(buf)[t].variation == v
                || has_file(files, t, v)))
            &&& (p.midi_tracks[t][v] is Some <==> (inline_midi(buf)[t].variation == v || has_file(
                files,
                t + 8,
                v,
            )))
        },
{
    if let Result::Ok(p) = spec_parse_pattern(buf, number, files) {
        let ainline = inline_audio(buf);
        let minline = inline_midi(buf);
        lemma_inline_props::<Step>(buf, 0, 0, 8);
        let ghost p1: int = spec_parse_inline::<Step>(buf, 0, 0, 8)->end;
        lemma_inline_props::<MidiStep>(buf, p1, 0, 8);
        lemma_decode_pairs(files, t, v);
        if let Result::Ok((afiles, mfiles)) = spec_decode_files(files) {
            let abase = place_all(empty_matrix::<TrackModel<StepModel>>(), ainline, false);
            lemma_place_inline_value(ainline, t, v);
            assert(matrix_wf(empty_matrix::<TrackModel<StepModel>>()));
            lemma_place_all_wf(empty_matrix::<TrackModel<StepModel>>(), ainline, false);
            lemma_place_occupancy(abase, afiles, true, t, v);
            assert(abase[t][v] is Some <==> ainline[t].variation == v);

            let mbase = place_all(empty_matrix::<TrackModel<MidiStepModel>>(), minline, false);
            lemma_place_inline_value(minline, t, v);
            assert(matrix_wf(empty_matrix::<TrackModel<MidiStepModel>>()));
            lemma_place_all_wf(empty_matrix::<TrackModel<MidiStepModel>>(), minline, false);
            lemma_place_occupancy(mbase, mfiles, true, t, v);
            assert(mbase[t][v] is Some <==> minline[t].variation == v);
        }
    }
}

/// The inlined copy of each lane keeps its slot — a `.track` file never
/// displaces it — and is marked as the default variation.
pub proof fn lemma_inline_wins(buf: Seq<u8>, number: u8, files: Seq<TrackFileModel>, t: int)
    requires
        0 <= t < 8,
    ensures
        spec_parse_pattern(buf, number, files) matches Result::Ok(p) ==> {
            &&& p.audio_tracks[t][inline_audio(buf)[t].variation as int] == Option::Some(
                inline_audio(buf)[t],
            )
            &&& inline_audio(buf)[t].is_default
            &&& p.midi_tracks[t][inline_midi(buf)[t].variation as int] == Option::Some(
                inline_midi(buf)[t],
            )
            &&& inline_midi(buf)[t].is_default
        },
{
    if let Result::Ok(p) = spec_parse_pattern(buf, number, files) {
        let ainline = inline_audio(buf);
        let minline = inline_midi(buf);
        lemma_inline_props::<Step>(buf, 0, 0, 8);
        let ghost p1: int = spec_parse_inline::<Step>(buf, 0, 0, 8)->end;
        lemma_inline_props::<MidiStep>(buf, p1, 0, 8);
        if let Result::Ok((afiles, mfiles)) = spec_decode_files(files) {
            let av = ainline[t].variation as int;
            let abase = place_all(empty_matrix::<TrackModel<StepModel>>(), ainline, false);
            lemma_place_inline_value(ainline, t, av);
            assert(matrix_wf(empty_matrix::<TrackModel<StepModel>>()));
            lemma_place_all_wf(empty_matrix::<TrackModel<StepModel>>(), ainline, false);
            lemma_place_keep_value(abase, afiles, t, av);

            let mv = minline[t].variation as int;
            let mbase = place_all(empty_matrix::<TrackModel<MidiStepModel>>(), minline, false);
            lemma_place_inline_value(minline, t, mv);
            assert(matrix_wf(empty_matrix::<TrackModel<MidiStepModel>>()));
            lemma_place_all_wf(empty_matrix::<TrackModel<MidiStepModel>>(), minline, false);
            lemma_place_keep_value(mbase, mfiles, t, mv);
        }
    }
}

/// Every lane's default variation slot is populated whenever the inlined
/// track was saved at variation 0 or a `.track` file stores variation 0:
/// the slots that `audio_track` and `midi_track` read.
pub proof fn lemma_default_slots_populated(buf: Seq<u8>, number: u8, files: Seq<TrackFileModel>)
    requires
        forall|t: int|
            0 <= t < 8 ==> ((#[trigger] inline_audio(buf)[t]).variation == 0 || has_file(
                files,
                t,
                0,
            )),
        forall|t: int|
            0 <= t < 8 ==> ((#[trigger] inline_midi(buf)[t]).variation == 0 || has_file(
                files,
                t + 8,
                0,
            )),
    ensures
        spec_parse_pattern(buf, number, files) matches Result::Ok(p) ==> forall|t: int|
            0 <= t < 8 ==> ((#[trigger] p.audio_tracks[t])[0] is Some && p.midi_tracks[t][0]
                is Some),
{
    if let Result::Ok(p) = spec_parse_pattern(buf, number, files) {
        assert forall|t: int| 0 <= t < 8 implies ((#[trigger] p.audio_tracks[t])[0] is Some
            && p.midi_tracks[t][0] is Some) by {
            lemma_pattern_occupancy(buf, number, files, t, 0);
        }
    }
}

} // verus!
