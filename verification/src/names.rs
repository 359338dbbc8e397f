//! Names used on the command line and in file names: crop kinds, report
//! formats, station numbers, elections, and the file-name conventions of the
//! polling-station PDFs and their crops.
use vstd::prelude::*;
use crate::error::{error_from_chars, PvError};
use crate::paths::{file_stem_of, path_file_stem};
use crate::text::{all_digits, contains, ends_with, is_digit, split, trim};
use crate::textops::{
    append_chars, contains_str, debug_chars, ends_with_str, eq_str, from_chars, is_ascii_digit,
    push_str, split_chars, to_chars, trim_str,
};

verus! {

broadcast use vstd::string::group_string_axioms;

/// Which table of the polling-station report is cropped.
#[derive(Clone, Copy, Debug, PartialEq, Eq, Structural)]
pub enum CropKind {
    Votes,
    Corrections,
    CandidateLists,
}

/// The crop kind a command-line value names.
pub open spec fn crop_kind_of(v: Seq<char>) -> Option<CropKind> {
    if v == "votes"@ || v == "2.2"@ {
        Some(CropKind::Votes)
    } else if v == "corrections"@ || v == "b1-2.4"@ || v == "2.4"@ {
        Some(CropKind::Corrections)
    } else if v == "candidate-votes"@ || v == "candidates"@ || v == "b1-3.5"@ || v == "3.5"@ {
        Some(CropKind::CandidateLists)
    } else {
        None
    }
}

/// The part of a crop's file name, and the directory name, for a kind.
pub open spec fn crop_kind_part(k: CropKind) -> Seq<char> {
    match k {
        CropKind::Votes => "2.2"@,
        CropKind::Corrections => "corrections"@,
        CropKind::CandidateLists => "b1-3.5"@,
    }
}

/// Text lowered as `str::to_lowercase` does it.
pub uninterp spec fn lowercase_of(s: Seq<char>) -> Seq<char>;

/// `str::to_lowercase`.
#[verifier::external_body]
pub(crate) fn to_lowercase(s: &str) -> (r: String)
    ensures
        r@ == lowercase_of(s@),
{
    s.to_lowercase()
}

/// Whether the lowered text of a page holds the headings of a kind's table.
pub open spec fn anchors_in(k: CropKind, lower: Seq<char>) -> bool {
    match k {
        CropKind::Votes => contains(lower, "2.2"@) && contains(lower, "uitgebrachte stemmen"@)
            && contains(lower, "totaal lijst"@),
        CropKind::Corrections => contains(lower, "b1 - 2.4"@) && contains(
            lower,
            "lijsten met verschil"@,
        ) && contains(lower, "lijsttotaal"@),
        CropKind::CandidateLists => contains(lower, "b1 - 3.5"@) && contains(
            lower,
            "stemmen per lijst en per kandidaat"@,
        ),
    }
}

impl CropKind {
    /// The crop kind named by `value`: `votes` or `2.2`; `corrections`,
    /// `b1-2.4` or `2.4`; `candidate-votes`, `candidates`, `b1-3.5` or
    /// `3.5`.
    pub fn parse(value: &str) -> (r: Result<CropKind, PvError>)
        ensures
            match crop_kind_of(value@) {
                Some(k) => r == Ok::<CropKind, PvError>(k),
                None => r is Err && r->Err_0.message@ == "unknown crop kind "@
                    + crate::text::debug_quoted(value@)
                    + "; expected votes / 2.2, corrections / b1-2.4, or candidates / b1-3.5"@,
            },
    {
        let v = to_chars(value);
        if eq_str(&v, "votes") || eq_str(&v, "2.2") {
            Ok(CropKind::Votes)
        } else if eq_str(&v, "corrections") || eq_str(&v, "b1-2.4") || eq_str(&v, "2.4") {
            Ok(CropKind::Corrections)
        } else if eq_str(&v, "candidate-votes") || eq_str(&v, "candidates") || eq_str(&v, "b1-3.5")
            || eq_str(&v, "3.5") {
            Ok(CropKind::CandidateLists)
        } else {
            let mut m = to_chars("unknown crop kind ");
            let q = debug_chars(&v);
            append_chars(&mut m, &q);
            push_str(&mut m, "; expected votes / 2.2, corrections / b1-2.4, or candidates / b1-3.5");
            Err(error_from_chars(&m))
        }
    }

    /// The part of a crop's file name that names its kind.
    pub fn filename_part(self) -> (r: &'static str)
        ensures
            r@ == crop_kind_part(self),
    {
        match self {
            CropKind::Votes => "2.2",
            CropKind::Corrections => "corrections",
            CropKind::CandidateLists => "b1-3.5",
        }
    }

    /// The directory that crops of this kind go to.
    pub fn directory_name(self) -> (r: &'static str)
        ensures
            r@ == crop_kind_part(self),
    {
        match self {
            CropKind::Votes => "2.2",
            CropKind::Corrections => "corrections",
            CropKind::CandidateLists => "b1-3.5",
        }
    }

    /// Whether the text of a page holds the headings of this kind's table,
    /// ignoring case.
    pub fn anchor_matches(self, page_text: &str) -> (r: bool)
        ensures
            r == anchors_in(self, lowercase_of(page_text@)),
    {
        let lower = to_lowercase(page_text);
        let l = to_chars(lower.as_str());
        match self {
            CropKind::Votes => contains_str(&l, "2.2") && contains_str(&l, "uitgebrachte stemmen")
                && contains_str(&l, "totaal lijst"),
            CropKind::Corrections => contains_str(&l, "b1 - 2.4") && contains_str(
                &l,
                "lijsten met verschil",
            ) && contains_str(&l, "lijsttotaal"),
            CropKind::CandidateLists => contains_str(&l, "b1 - 3.5") && contains_str(
                &l,
                "stemmen per lijst en per kandidaat",
            ),
        }
    }
}

/// How the comparison report is printed.
#[derive(Clone, Copy, Debug, PartialEq, Eq, Structural)]
pub enum ReportFormat {
    Terminal,
    Markdown,
}

impl ReportFormat {
    /// `terminal` or `markdown`.
    pub fn parse(value: &str) -> (r: Result<ReportFormat, PvError>)
        ensures
            if value@ == "terminal"@ {
                r == Ok::<ReportFormat, PvError>(ReportFormat::Terminal)
            } else if value@ == "markdown"@ {
                r == Ok::<ReportFormat, PvError>(ReportFormat::Markdown)
            } else {
                r is Err && r->Err_0.message@ == "unknown report format "@
                    + crate::text::debug_quoted(value@) + "; expected terminal or markdown"@
            },
    {
        let v = to_chars(value);
        if eq_str(&v, "terminal") {
            Ok(ReportFormat::Terminal)
        } else if eq_str(&v, "markdown") {
            Ok(ReportFormat::Markdown)
        } else {
            let mut m = to_chars("unknown report format ");
            let q = debug_chars(&v);
            append_chars(&mut m, &q);
            push_str(&mut m, "; expected terminal or markdown");
            Err(error_from_chars(&m))
        }
    }
}

/// An OCR image whose file stem ends in `_GR26`, or is not a first count,
/// is not read.
pub fn should_skip_ocr_stem(stem: &str) -> (r: bool)
    ensures
        r == (ends_with(stem@, "_GR26"@) || !contains(stem@, "_eerste_telling"@)),
{
    let v = to_chars(stem);
    ends_with_str(&v, "_GR26") || !contains_str(&v, "_eerste_telling")
}

/// The Markdown written for an OCR image that is deliberately skipped.
pub fn skip_markdown(reason: &str) -> (r: String)
    ensures
        r@ == "<!-- pv-ocr-votes: skip -->"@ + "\n\nSkipped: "@ + reason@ + ".\n"@,
{
    let mut m = to_chars("<!-- pv-ocr-votes: skip -->");
    push_str(&mut m, "\n\nSkipped: ");
    push_str(&mut m, reason);
    push_str(&mut m, ".\n");
    from_chars(&m)
}

/// The first `_`-separated part at or after `i` that is a non-empty run of
/// digits.
pub open spec fn digit_part_from(parts: Seq<Seq<char>>, i: int) -> Option<Seq<char>>
    decreases parts.len() - i,
{
    if i < 0 || i >= parts.len() {
        None
    } else if parts[i].len() > 0 && all_digits(parts[i]) {
        Some(parts[i])
    } else {
        digit_part_from(parts, i + 1)
    }
}

/// The station code in a file name: its first `_`-separated part made of
/// digits only.
pub open spec fn station_code_in(name: Seq<char>) -> Option<Seq<char>> {
    digit_part_from(split(name, '_'), 0)
}

/// The station code in a file name.
pub fn station_code_from_file_name(file_name: &str) -> (r: Option<String>)
    ensures
        match station_code_in(file_name@) {
            Some(c) => r is Some && r->0@ == c,
            None => r is None,
        },
{
    let v = to_chars(file_name);
    let parts = split_chars(&v, '_');
    let ghost ps = crate::text::seqs(parts@);
    let mut i: usize = 0;
    while i < parts.len()
        invariant
            ps == crate::text::seqs(parts@),
            ps == split(file_name@, '_'),
            i <= parts.len(),
            station_code_in(file_name@) == digit_part_from(ps, i as int),
        decreases parts.len() - i,
    {
        assert(ps[i as int] == parts@[i as int]@);
        if parts[i].len() > 0 && crate::validate::all_digits_chars(&parts[i]) {
            return Some(from_chars(&parts[i]));
        }
        i = i + 1;
    }
    None
}

/// The station code of an OCR Markdown file, read from its file stem.
pub fn station_code_from_markdown_path(path: &str) -> (r: Option<String>)
    ensures
        match file_stem_of(path@) {
            Some(stem) => match station_code_in(stem) {
                Some(c) => r is Some && r->0@ == c,
                None => r is None,
            },
            None => r is None,
        },
{
    match path_file_stem(path) {
        Some(stem) => station_code_from_file_name(stem.as_str()),
        None => None,
    }
}

/// Whether a PDF file name is a default input for a crop kind: a PDF, and a
/// first count for vote tables, or a recount with a station code and `_GR`
/// for the other kinds.
pub open spec fn pdf_matches(name: Seq<char>, k: CropKind) -> bool {
    ends_with(name, ".pdf"@) && match k {
        CropKind::Votes => contains(name, "_eerste_telling"@),
        _ => !contains(name, "_eerste_telling"@) && station_code_in(name) is Some && contains(
            name,
            "_GR"@,
        ),
    }
}

/// Whether the PDF named `file_name` is a default input for `kind`.
pub fn default_pdf_matches_kind(file_name: &str, kind: CropKind) -> (r: bool)
    ensures
        r == pdf_matches(file_name@, kind),
{
    let v = to_chars(file_name);
    if !ends_with_str(&v, ".pdf") {
        return false;
    }
    match kind {
        CropKind::Votes => contains_str(&v, "_eerste_telling"),
        _ => !contains_str(&v, "_eerste_telling") && station_code_from_file_name(file_name).is_some()
            && contains_str(&v, "_GR"),
    }
}

/// An election given as digits only gets the suffix `-GR`.
pub open spec fn normalized_election(v: Seq<char>) -> Seq<char> {
    if all_digits(v) {
        v + "-GR"@
    } else {
        v
    }
}

/// The election name, with `-GR` added to a year given alone.
pub fn normalize_election(value: &str) -> (r: String)
    ensures
        r@ == normalized_election(value@),
{
    let v = to_chars(value);
    if crate::validate::all_digits_chars(&v) {
        let mut m = v;
        push_str(&mut m, "-GR");
        from_chars(&m)
    } else {
        value.to_owned()
    }
}

/// `s` without leading zeros.
pub open spec fn strip_zeros(s: Seq<char>) -> Seq<char>
    decreases s.len(),
{
    if s.len() > 0 && s[0] == '0' {
        strip_zeros(s.drop_first())
    } else {
        s
    }
}

/// A station number without surrounding whitespace and leading zeros; `0`
/// when nothing is left.
pub open spec fn normalized_station(v: Seq<char>) -> Seq<char> {
    let n = strip_zeros(trim(v));
    if n.len() == 0 {
        "0"@
    } else {
        n
    }
}

/// The station number without leading zeros.
pub fn normalize_station_number(value: &str) -> (r: String)
    ensures
        r@ == normalized_station(value@),
{
    let t = trim_str(value);
    let mut i: usize = 0;
    assert(t@.skip(0) =~= t@);
    while i < t.len() && t[i] == '0'
        invariant
            i <= t.len(),
            strip_zeros(t@) == strip_zeros(t@.skip(i as int)),
        decreases t.len() - i,
    {
        assert(t@.skip(i as int).drop_first() =~= t@.skip(i + 1));
        i = i + 1;
    }
    let rest = crate::textops::subrange_chars(&t, i, t.len());
    assert(rest@ =~= t@.skip(i as int));
    if rest.len() == 0 {
        "0".to_owned()
    } else {
        from_chars(&rest)
    }
}

/// A station number: digits only, at least one.
pub fn is_station_number(value: &str) -> (r: bool)
    ensures
        r == (value@.len() > 0 && all_digits(value@)),
{
    let v = to_chars(value);
    v.len() > 0 && crate::validate::all_digits_chars(&v)
}

/// An ASCII letter or digit.
pub open spec fn is_alnum(c: char) -> bool {
    ('0' <= c <= '9') || ('A' <= c <= 'Z') || ('a' <= c <= 'z')
}

fn is_alnum_exec(c: char) -> (r: bool)
    ensures
        r == is_alnum(c),
{
    ('0' <= c && c <= '9') || ('A' <= c && c <= 'Z') || ('a' <= c && c <= 'z')
}

/// A character that may stand in a file name as it is.
pub open spec fn file_safe(c: char) -> char {
    if is_alnum(c) || c == '.' || c == '_' || c == '-' {
        c
    } else {
        '_'
    }
}

/// `value` with every character other than ASCII letters, digits, `.`,
/// `_` and `-` replaced by `_`.
pub fn safe_file_part(value: &str) -> (r: String)
    ensures
        r@ == value@.map_values(|c: char| file_safe(c)),
{
    let v = to_chars(value);
    let mut out: Vec<char> = Vec::new();
    let mut i: usize = 0;
    while i < v.len()
        invariant
            i <= v.len(),
            out@ == v@.take(i as int).map_values(|c: char| file_safe(c)),
        decreases v.len() - i,
    {
        let c = v[i];
        let d = if is_alnum_exec(c) || c == '.' || c == '_' || c == '-' {
            c
        } else {
            '_'
        };
        out.push(d);
        assert(v@.take(i + 1).map_values(|c: char| file_safe(c)) =~= v@.take(i as int).map_values(
            |c: char| file_safe(c),
        ).push(file_safe(c)));
        i = i + 1;
    }
    assert(v@.take(v.len() as int) =~= v@);
    from_chars(&out)
}

/// Building a slug from the first `k` characters: the slug so far and
/// whether it ends in a separator (or is empty).
pub open spec fn slug_fold(s: Seq<char>, k: int) -> (Seq<char>, bool)
    decreases k,
{
    if k <= 0 {
        (Seq::empty(), true)
    } else {
        let prev = slug_fold(s, k - 1);
        let c = s[k - 1];
        if is_alnum(c) {
            (prev.0.push(c), false)
        } else if !prev.1 {
            (prev.0.push('_'), true)
        } else {
            prev
        }
    }
}

/// The slug of a text: its ASCII letters and digits, each run of other
/// characters between them becoming one `_`.
pub open spec fn slug(s: Seq<char>) -> Seq<char> {
    let sl = slug_fold(s, s.len() as int).0;
    if sl.len() > 0 && sl.last() == '_' {
        sl.drop_last()
    } else {
        sl
    }
}

/// The slug of `value`: ASCII letters and digits kept, runs of anything
/// else between them turned into one `_`.
pub fn safe_file_slug(value: &str) -> (r: String)
    ensures
        r@ == slug(value@),
{
    let v = to_chars(value);
    let mut out: Vec<char> = Vec::new();
    let mut previous_separator = true;
    let mut i: usize = 0;
    while i < v.len()
        invariant
            i <= v.len(),
            (out@, previous_separator) == slug_fold(v@, i as int),
        decreases v.len() - i,
    {
        let c = v[i];
        if is_alnum_exec(c) {
            out.push(c);
            previous_separator = false;
        } else if !previous_separator {
            out.push('_');
            previous_separator = true;
        }
        i = i + 1;
    }
    if out.len() > 0 && out[out.len() - 1] == '_' {
        out.pop();
        assert(out@ =~= slug_fold(v@, v@.len() as int).0.drop_last());
    }
    from_chars(&out)
}

/// The shape of a slug: letters and digits in groups joined by single
/// underscores, with none at either end.
pub open spec fn is_slug(s: Seq<char>) -> bool {
    &&& forall|i: int| 0 <= i < s.len() ==> is_alnum(#[trigger] s[i]) || s[i] == '_'
    &&& s.len() > 0 ==> s[0] != '_' && s.last() != '_'
    &&& forall|i: int| 0 <= i < s.len() - 1 ==> !(#[trigger] s[i] == '_' && s[i + 1] == '_')
}

proof fn lemma_slug_fold(s: Seq<char>, k: int)
    requires
        0 <= k <= s.len(),
    ensures
        ({
            let (sl, p) = slug_fold(s, k);
            &&& forall|i: int| 0 <= i < sl.len() ==> is_alnum(#[trigger] sl[i]) || sl[i] == '_'
            &&& sl.len() > 0 ==> sl[0] != '_'
            &&& forall|i: int| 0 <= i < sl.len() - 1 ==> !(#[trigger] sl[i] == '_' && sl[i + 1] == '_')
            &&& p <==> (sl.len() == 0 || sl.last() == '_')
        }),
    decreases k,
{
    if k > 0 {
        lemma_slug_fold(s, k - 1);
        let (sl, p) = slug_fold(s, k - 1);
        let (nl, np) = slug_fold(s, k);
        assert forall|i: int| 0 <= i < nl.len() - 1 implies !(#[trigger] nl[i] == '_' && nl[i + 1] == '_') by {
            if i < sl.len() - 1 {
                assert(nl[i] == sl[i] && nl[i + 1] == sl[i + 1]);
            }
        }
        assert forall|i: int| 0 <= i < nl.len() implies is_alnum(#[trigger] nl[i]) || nl[i] == '_' by {
            if i < sl.len() {
                assert(nl[i] == sl[i]);
            }
        }
    }
}

/// A slug is made of ASCII letters and digits joined by single underscores,
/// with no underscore at either end.
pub proof fn law_slug_shape(s: Seq<char>)
    ensures
        is_slug(slug(s)),
{
    lemma_slug_fold(s, s.len() as int);
    let sl = slug_fold(s, s.len() as int).0;
    let r = slug(s);
    if sl.len() > 0 && sl.last() == '_' {
        assert forall|i: int| 0 <= i < r.len() implies is_alnum(#[trigger] r[i]) || r[i] == '_' by {
            assert(r[i] == sl[i]);
        }
        assert forall|i: int| 0 <= i < r.len() - 1 implies !(#[trigger] r[i] == '_' && r[i + 1] == '_') by {
            assert(r[i] == sl[i] && r[i + 1] == sl[i + 1]);
        }
        if r.len() > 0 {
            assert(r[0] == sl[0]);
            assert(r.last() == sl[sl.len() - 2]);
            assert(sl[sl.len() - 2] != '_');
        }
    }
}

} // verus!
