//! The whole project: settings, the opaque samples blob, and the patterns.
//!
//! The decoders here work on fully materialised inputs: the caller reads
//! the directory tree and hands over each file's name and bytes.  The
//! pattern file names carry the pattern numbers: a name must end in at
//! least one decimal digit followed by `.pattern`, and the digits must
//! name a number below 256.

use vstd::prelude::*;

use crate::error::err_at;
use crate::error::ErrorKind;
use crate::error::Outcome;
use crate::error::ParseError;
use crate::pattern::file_views;
use crate::pattern::lemma_pattern_wf;
use crate::pattern::spec_parse_pattern;
use crate::pattern::Pattern;
use crate::pattern::PatternModel;
use crate::pattern::TrackFile;
use crate::pattern::TrackFileModel;
use crate::settings::spec_parse_settings;
use crate::settings::Settings;
use crate::settings::SettingsModel;

verus! {

/// The sample metadata blob, kept verbatim: its format is not yet
/// reverse-engineered.
#[derive(Clone, Debug, PartialEq)]
pub struct Samples {
    pub rest: Vec<u8>,
}

impl View for Samples {
    type V = Seq<u8>;

    open spec fn view(&self) -> Seq<u8> {
        self.rest@
    }
}

impl Samples {
    /// Keep the bytes of the samples metadata file.
    pub fn read(bytes: Vec<u8>) -> (s: Samples)
        ensures
            s@ == bytes@,
    {
        Samples { rest: bytes }
    }
}

/// A decimal digit.
pub open spec fn is_digit(c: char) -> bool {
    '0' <= c && c <= '9'
}

/// The value of a decimal digit.
pub open spec fn digit_val(c: char) -> int {
    c as int - '0' as int
}

/// Whether the name ends in `.pattern`.
pub open spec fn has_pattern_suffix(name: Seq<char>) -> bool {
    let n = name.len() as int;
    &&& n >= 8
    &&& name[n - 8] == '.'
    &&& name[n - 7] == 'p'
    &&& name[n - 6] == 'a'
    &&& name[n - 5] == 't'
    &&& name[n - 4] == 't'
    &&& name[n - 3] == 'e'
    &&& name[n - 2] == 'r'
    &&& name[n - 1] == 'n'
}

/// The start of the maximal digit run ending just before position `i`.
pub open spec fn digit_run_start(name: Seq<char>, i: int) -> int
    decreases i,
{
    if 0 < i <= name.len() && is_digit(name[i - 1]) {
        digit_run_start(name, i - 1)
    } else {
        i
    }
}

/// The decimal value of the digits from `j` up to `i`.
pub open spec fn digits_value(name: Seq<char>, j: int, i: int) -> int
    decreases i - j,
{
    if i <= j {
        0
    } else {
        digits_value(name, j, i - 1) * 10 + digit_val(name[i - 1])
    }
}

/// The pattern number a file name denotes: the value of the maximal digit
/// run just before its `.pattern` suffix, when there is one and the value
/// fits in a byte.
pub open spec fn spec_pattern_number(name: Seq<char>) -> Option<int> {
    if !has_pattern_suffix(name) {
        Option::None
    } else {
        let m = name.len() as int - 8;
        let j = digit_run_start(name, m);
        if j == m {
            Option::None
        } else if digits_value(name, j, m) > 255 {
            Option::None
        } else {
            Option::Some(digits_value(name, j, m))
        }
    }
}

/// A longer digit run never has a smaller value.
proof fn lemma_digits_value_mono(name: Seq<char>, j: int, i1: int, i2: int)
    requires
        j <= i1 <= i2,
        forall|k: int| j <= k < i2 ==> is_digit(#[trigger] name[k]),
    ensures
        0 <= digits_value(name, j, i1) <= digits_value(name, j, i2),
    decreases i2 - j,
{
    if i2 <= j {
    } else if i1 == i2 {
        lemma_digits_value_mono(name, j, i1 - 1, i2 - 1);
    } else {
        lemma_digits_value_mono(name, j, i1, i2 - 1);
    }
}

/// Whether the character at `i` is a decimal digit.
fn digit_at(name: &str, i: usize) -> (r: bool)
    requires
        i < name@.len(),
    ensures
        r == is_digit(name@[i as int]),
{
    let c = name.get_char(i);
    '0' <= c && c <= '9'
}

/// The pattern number denoted by a file name, if any.
pub fn pattern_file_number(name: &str) -> (r: Option<u8>)
    ensures
        match spec_pattern_number(name@) {
            Option::Some(v) => r matches Some(b) && b == v,
            Option::None => r is None,
        },
{
    let n = name.unicode_len();
    if n < 8 {
        return None;
    }
    if name.get_char(n - 8) != '.' || name.get_char(n - 7) != 'p' || name.get_char(n - 6) != 'a'
        || name.get_char(n - 5) != 't' || name.get_char(n - 4) != 't' || name.get_char(n - 3)
        != 'e' || name.get_char(n - 2) != 'r' || name.get_char(n - 1) != 'n' {
        return None;
    }
    let m = n - 8;
    let mut j = m;
    while j > 0 && digit_at(name, j - 1)
        invariant
            j <= m <= name@.len(),
            digit_run_start(name@, m as int) == digit_run_start(name@, j as int),
            forall|k: int| j <= k < m ==> is_digit(#[trigger] name@[k]),
        decreases j,
    {
        j = j - 1;
    }
    proof {
        assert(digit_run_start(name@, j as int) == j);
    }
    if j == m {
        return None;
    }
    let ghost jj: int = j as int;
    let mut val: u32 = 0;
    let mut k = j;
    while k < m
        invariant
            jj == j,
            j <= k <= m <= name@.len(),
            has_pattern_suffix(name@),
            m + 8 == name@.len(),
            digit_run_start(name@, m as int) == jj,
            jj < m,
            forall|k2: int| jj <= k2 < m ==> is_digit(#[trigger] name@[k2]),
            val <= 255,
            val == digits_value(name@, jj, k as int),
        decreases m - k,
    {
        let c = name.get_char(k);
        proof {
            assert(is_digit(name@[k as int]));
        }
        let d = c as u32 - 48;
        val = val * 10 + d;
        k = k + 1;
        if val > 255 {
            proof {
                lemma_digits_value_mono(name@, jj, k as int, m as int);
            }
            return None;
        }
    }
    Some(val as u8)
}

/// One pattern file as found on disk: its file name, its bytes, and the
/// decoded bytes of its sibling `.track` files, in the order the
/// directory walk found them.
#[derive(Clone, Debug, PartialEq)]
pub struct PatternFile {
    pub name: String,
    pub bytes: Vec<u8>,
    pub track_files: Vec<TrackFile>,
}

/// The mathematical content of a `PatternFile`.
#[verifier::ext_equal]
pub struct PatternFileModel {
    pub name: Seq<char>,
    pub bytes: Seq<u8>,
    pub track_files: Seq<TrackFileModel>,
}

impl View for PatternFile {
    type V = PatternFileModel;

    open spec fn view(&self) -> PatternFileModel {
        PatternFileModel {
            name: self.name@,
            bytes: self.bytes@,
            track_files: file_views(self.track_files@),
        }
    }
}

/// The models of the pattern files in `fs`, in order.
pub open spec fn pattern_file_views(fs: Seq<PatternFile>) -> Seq<PatternFileModel> {
    fs.map_values(|f: PatternFile| f@)
}

/// The models of the patterns in `ps`, in order.
pub open spec fn pattern_views(ps: Seq<Pattern>) -> Seq<PatternModel> {
    ps.map_values(|p: Pattern| p@)
}

/// What decoding a list of pattern files amounts to: each file's number
/// is parsed from its name, then its contents and track files are
/// decoded, in order; the first failure wins.  A file-name failure is
/// reported at offset 0.
pub open spec fn spec_read_patterns(files: Seq<PatternFileModel>) -> Result<
    Seq<PatternModel>,
    ParseError,
>
    decreases files.len(),
{
    if files.len() == 0 {
        Result::Ok(Seq::empty())
    } else {
        let f = files[0];
        match spec_pattern_number(f.name) {
            Option::None => Result::Err(err_at(ErrorKind::BadPatternName, 0)),
            Option::Some(num) => match spec_parse_pattern(f.bytes, num as u8, f.track_files) {
                Result::Err(e) => Result::Err(e),
                Result::Ok(p) => match spec_read_patterns(files.skip(1)) {
                    Result::Err(e) => Result::Err(e),
                    Result::Ok(ps) => Result::Ok(seq![p] + ps),
                },
            },
        }
    }
}

/// A whole decoded project.
#[derive(Clone, Debug, PartialEq)]
pub struct Project {
    pub settings: Settings,
    pub samples: Samples,
    pub patterns: Vec<Pattern>,
}

/// The mathematical content of a `Project`.
#[verifier::ext_equal]
pub struct ProjectModel {
    pub settings: SettingsModel,
    pub samples: Seq<u8>,
    pub patterns: Seq<PatternModel>,
}

impl View for Project {
    type V = ProjectModel;

    open spec fn view(&self) -> ProjectModel {
        ProjectModel {
            settings: self.settings@,
            samples: self.samples@,
            patterns: pattern_views(self.patterns@),
        }
    }
}

/// What decoding a whole project amounts to: the settings buffer, the
/// samples blob kept verbatim, and the pattern files in order.
pub open spec fn spec_read_project(
    settings: Seq<u8>,
    samples: Seq<u8>,
    pfiles: Seq<PatternFileModel>,
) -> Result<ProjectModel, ParseError> {
    match spec_parse_settings(settings) {
        Outcome::Failed { err } => Result::Err(err),
        Outcome::Parsed { v: s, .. } => match spec_read_patterns(pfiles) {
            Result::Err(e) => Result::Err(e),
            Result::Ok(ps) => Result::Ok(ProjectModel { settings: s, samples, patterns: ps }),
        },
    }
}

/// Every pattern of a successfully decoded list is well-formed: eight
/// audio and eight MIDI lanes of sixteen variation slots each.
pub proof fn lemma_patterns_wf(files: Seq<PatternFileModel>)
    ensures
        spec_read_patterns(files) matches Result::Ok(ps) ==> forall|i: int|
            0 <= i < ps.len() ==> (#[trigger] ps[i]).wf(),
    decreases files.len(),
{
    if files.len() > 0 {
        lemma_patterns_wf(files.skip(1));
        if let Option::Some(num) = spec_pattern_number(files[0].name) {
            lemma_pattern_wf(files[0].bytes, num as u8, files[0].track_files);
            if let Result::Ok(p) = spec_parse_pattern(files[0].bytes, num as u8, files[0].track_files) {
                if let Result::Ok(tail) = spec_read_patterns(files.skip(1)) {
                    let ps = seq![p] + tail;
                    assert forall|i: int| 0 <= i < ps.len() implies (#[trigger] ps[i]).wf() by {
                        if i > 0 {
                            assert(ps[i] == tail[i - 1]);
                        }
                    }
                }
            }
        }
    }
}

/// Decoding is deterministic: equal inputs always decode to the same
/// project, so reading the same directory twice yields equal values.
pub proof fn lemma_read_deterministic(
    settings1: Seq<u8>,
    samples1: Seq<u8>,
    pfiles1: Seq<PatternFileModel>,
    settings2: Seq<u8>,
    samples2: Seq<u8>,
    pfiles2: Seq<PatternFileModel>,
)
    requires
        settings1 == settings2,
        samples1 == samples2,
        pfiles1 == pfiles2,
    ensures
        spec_read_project(settings1, samples1, pfiles1) == spec_read_project(
            settings2,
            samples2,
            pfiles2,
        ),
{
}

impl Pattern {
    /// Decode a list of pattern files, numbers taken from their names.
    pub fn read_patterns(files: Vec<PatternFile>) -> (r: Result<Vec<Pattern>, ParseError>)
        ensures
            match spec_read_patterns(pattern_file_views(files@)) {
                Result::Ok(ps) => r matches Ok(list) && pattern_views(list@) == ps,
                Result::Err(e) => r matches Err(e2) && e2 == e,
            },
        decreases files@.len(),
    {
        let ghost all = pattern_file_views(files@);
        let mut files = files;
        if files.len() == 0 {
            let out: Vec<Pattern> = Vec::new();
            proof {
                assert(pattern_views(out@) =~= Seq::<PatternModel>::empty());
            }
            return Ok(out);
        }
        let f = files.remove(0);
        proof {
            assert(pattern_file_views(files@) =~= all.skip(1));
            assert(all[0] == f@);
        }
        let num = match pattern_file_number(f.name.as_str()) {
            Some(num) => num,
            None => {
                return Err(ParseError::at(ErrorKind::BadPatternName, 0));
            },
        };
        let p = Pattern::read(f.bytes, num, f.track_files)?;
        let tail = Pattern::read_patterns(files)?;
        let ghost t0 = tail@;
        let mut out = tail;
        out.insert(0, p);
        proof {
            assert(pattern_views(out@) =~= seq![p@] + pattern_views(t0));
        }
        Ok(out)
    }
}

impl Project {
    /// Decode a whole project from the contents of its directory tree.
    pub fn read(settings_bytes: Vec<u8>, samples_bytes: Vec<u8>, pattern_files: Vec<PatternFile>)
        -> (r: Result<Project, ParseError>)
        ensures
            match spec_read_project(
                settings_bytes@,
                samples_bytes@,
                pattern_file_views(pattern_files@),
            ) {
                Result::Ok(v) => r matches Ok(p) && p@ == v,
                Result::Err(e) => r matches Err(e2) && e2 == e,
            },
            r matches Ok(p) ==> forall|i: int|
                0 <= i < p@.patterns.len() ==> (#[trigger] p@.patterns[i]).wf(),
    {
        proof {
            lemma_patterns_wf(pattern_file_views(pattern_files@));
        }
        let settings = Settings::read(settings_bytes)?;
        let samples = Samples::read(samples_bytes);
        let patterns = Pattern::read_patterns(pattern_files)?;
        Ok(Project { settings, samples, patterns })
    }
}

} // verus!
