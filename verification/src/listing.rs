//! Choosing files from directory listings: the order of paths (the order
//! of their text, character by character), grouping the OCR outputs of a
//! directory by station, and picking the one file of a station.
use vstd::prelude::*;
use crate::compare::CorrectionDocument;
use crate::corrections::{corrections_fit, corrections_of};
use crate::error::{error_from_chars, PvError};
use crate::validate::{corrections_errors, is_skipped};
use crate::names::{pdf_matches, station_code_in, CropKind};
use crate::paths::{extension_of, file_name_of, file_stem_of, path_extension, path_file_name};
use crate::text::{join, seqs, strs};
use crate::textops::{
    append_chars, chars_eq, copy_chars, eq_str, from_chars, join_chars, push_str, strings_to_chars,
    to_chars, to_strings,
};

verus! {

broadcast use vstd::string::group_string_axioms;

/// `a` comes before `b` in text order: at the first character where they
/// differ, `a`'s is smaller, or `a` is a proper prefix of `b`. This is the
/// order of `String`s, and of paths in one directory.
pub open spec fn text_lt(a: Seq<char>, b: Seq<char>) -> bool
    decreases a.len(),
{
    if a.len() == 0 {
        b.len() > 0
    } else if b.len() == 0 {
        false
    } else if a[0] != b[0] {
        (a[0] as int) < (b[0] as int)
    } else {
        text_lt(a.drop_first(), b.drop_first())
    }
}

/// Text order, with equality.
pub open spec fn text_le() -> spec_fn(Seq<char>, Seq<char>) -> bool {
    |a: Seq<char>, b: Seq<char>| a == b || text_lt(a, b)
}

proof fn lemma_heads(a: Seq<char>, b: Seq<char>)
    requires
        a.len() > 0,
        b.len() > 0,
        a[0] == b[0],
        a.drop_first() == b.drop_first(),
    ensures
        a == b,
{
    assert(a.drop_first().len() == a.len() - 1);
    assert(b.drop_first().len() == b.len() - 1);
    assert(a.len() == b.len());
    assert(a =~= b) by {
        assert forall|i: int| 0 <= i < a.len() implies a[i] == b[i] by {
            if i > 0 {
                assert(a[i] == a.drop_first()[i - 1]);
                assert(b[i] == b.drop_first()[i - 1]);
            }
        }
    }
}

proof fn lemma_text_lt_irreflexive(a: Seq<char>)
    ensures
        !text_lt(a, a),
    decreases a.len(),
{
    if a.len() > 0 {
        lemma_text_lt_irreflexive(a.drop_first());
    }
}

proof fn lemma_text_lt_asymmetric(a: Seq<char>, b: Seq<char>)
    requires
        text_lt(a, b),
    ensures
        !text_lt(b, a),
    decreases a.len(),
{
    if a.len() > 0 && b.len() > 0 && a[0] == b[0] {
        lemma_text_lt_asymmetric(a.drop_first(), b.drop_first());
    }
}

proof fn lemma_text_lt_transitive(a: Seq<char>, b: Seq<char>, c: Seq<char>)
    requires
        text_lt(a, b),
        text_lt(b, c),
    ensures
        text_lt(a, c),
    decreases a.len(),
{
    if a.len() > 0 && b.len() > 0 && c.len() > 0 && a[0] == b[0] && b[0] == c[0] {
        lemma_text_lt_transitive(a.drop_first(), b.drop_first(), c.drop_first());
    }
}

proof fn lemma_text_lt_total(a: Seq<char>, b: Seq<char>)
    ensures
        a == b || text_lt(a, b) || text_lt(b, a),
    decreases a.len(),
{
    if a.len() == 0 {
        if b.len() == 0 {
            assert(a =~= b);
        }
    } else if b.len() == 0 {
        assert(text_lt(b, a));
    } else if a[0] == b[0] {
        lemma_text_lt_total(a.drop_first(), b.drop_first());
        if a.drop_first() == b.drop_first() {
            lemma_heads(a, b);
        } else if text_lt(a.drop_first(), b.drop_first()) {
            assert(text_lt(a, b));
        } else {
            assert(text_lt(b, a));
        }
    } else {
        assert((a[0] as int) != (b[0] as int));
        if (a[0] as int) < (b[0] as int) {
            assert(text_lt(a, b));
        } else {
            assert(text_lt(b, a));
        }
    }
}

/// Text order is a total order.
pub proof fn lemma_text_le_total_ordering()
    ensures
        vstd::relations::total_ordering(text_le()),
{
    let f = text_le();
    assert(vstd::relations::reflexive(f));
    assert(vstd::relations::antisymmetric(f)) by {
        assert forall|a: Seq<char>, b: Seq<char>| #[trigger] f(a, b) && #[trigger] f(b, a) implies a
            == b by {
            if a != b {
                lemma_text_lt_asymmetric(a, b);
            }
        }
    }
    assert(vstd::relations::transitive(f)) by {
        assert forall|a: Seq<char>, b: Seq<char>, c: Seq<char>|
            #[trigger] f(a, b) && #[trigger] f(b, c) implies f(a, c) by {
            if a != b && b != c {
                lemma_text_lt_transitive(a, b, c);
            }
        }
    }
    assert(vstd::relations::strongly_connected(f)) by {
        assert forall|a: Seq<char>, b: Seq<char>| #[trigger] f(a, b) || #[trigger] f(b, a) by {
            lemma_text_lt_total(a, b);
        }
    }
}

/// Whether `a` comes before `b` in text order.
pub fn text_lt_exec(a: &Vec<char>, b: &Vec<char>) -> (r: bool)
    ensures
        r == text_lt(a@, b@),
{
    let mut i: usize = 0;
    assert(a@.skip(0) =~= a@);
    assert(b@.skip(0) =~= b@);
    while i < a.len() && i < b.len() && a[i] == b[i]
        invariant
            i <= a@.len(),
            i <= b@.len(),
            text_lt(a@, b@) == text_lt(a@.skip(i as int), b@.skip(i as int)),
        decreases a@.len() - i,
    {
        assert(a@.skip(i as int).drop_first() =~= a@.skip(i + 1));
        assert(b@.skip(i as int).drop_first() =~= b@.skip(i + 1));
        i = i + 1;
    }
    if i == a.len() {
        i < b.len()
    } else if i == b.len() {
        false
    } else {
        a[i] < b[i]
    }
}

/// `v` sorted in text order.
pub fn sort_texts(v: &Vec<Vec<char>>) -> (r: Vec<Vec<char>>)
    ensures
        seqs(r@) == seqs(v@).sort_by(text_le()),
{
    broadcast use vstd::seq_lib::group_to_multiset_ensures;

    let ghost sv = seqs(v@);
    let mut out: Vec<Vec<char>> = Vec::new();
    let mut i: usize = 0;
    while i < v.len()
        invariant
            i <= v@.len(),
            sv == seqs(v@),
            vstd::relations::sorted_by(seqs(out@), text_le()),
            seqs(out@).to_multiset() == sv.take(i as int).to_multiset(),
        decreases v@.len() - i,
    {
        let x = copy_chars(&v[i]);
        let mut p: usize = 0;
        while p < out.len() && !text_lt_exec(&x, &out[p])
            invariant
                p <= out@.len(),
                forall|j: int| 0 <= j < p ==> !text_lt(x@, #[trigger] seqs(out@)[j]),
            decreases out@.len() - p,
        {
            p = p + 1;
        }
        let ghost o = seqs(out@);
        out.insert(p, x);
        proof {
            lemma_text_le_total_ordering();
            let f = text_le();
            assert(seqs(out@) =~= o.insert(p as int, x@));
            vstd::seq_lib::to_multiset_insert(o, p as int, x@);
            assert(sv.take(i + 1) =~= sv.take(i as int).push(x@));
            vstd::seq_lib::to_multiset_build(sv.take(i as int), x@);
            assert forall|j: int| 0 <= j < p implies f(o[j], x@) by {
                lemma_text_lt_total(o[j], x@);
            }
            assert forall|j: int| p <= j < o.len() implies f(x@, o[j]) by {
                assert(text_lt(x@, o[p as int]));
                if j > p {
                    assert(f(o[p as int], o[j]));
                    if o[p as int] != o[j] {
                        lemma_text_lt_transitive(x@, o[p as int], o[j]);
                    }
                }
            }
            assert(vstd::relations::sorted_by(seqs(out@), f)) by {
                let n = seqs(out@);
                assert forall|a: int, b: int| 0 <= a < b < n.len() implies #[trigger] f(n[a], n[b]) by {
                    if b < p {
                        assert(f(o[a], o[b]));
                    } else if b == p {
                        assert(n[a] == o[a]);
                    } else if a < p {
                        assert(n[b] == o[b - 1]);
                        assert(f(o[a], x@));
                        assert(f(x@, o[b - 1]));
                    } else if a == p {
                        assert(n[b] == o[b - 1]);
                    } else {
                        assert(f(o[a - 1], o[b - 1]));
                    }
                }
            }
        }
        i = i + 1;
    }
    proof {
        assert(sv.take(v@.len() as int) =~= sv);
        lemma_text_le_total_ordering();
        sv.lemma_sort_by_ensures(text_le());
        vstd::seq_lib::lemma_sorted_unique(seqs(out@), sv.sort_by(text_le()), text_le());
    }
    out
}

/// The station a listed file belongs to when its extension is `ext`: the
/// station code in its file stem.
pub open spec fn listed_station(p: Seq<char>, ext: Seq<char>) -> Option<Seq<char>> {
    if extension_of(p) == Some(ext) {
        match file_stem_of(p) {
            Some(stem) => station_code_in(stem),
            None => None,
        }
    } else {
        None
    }
}

/// The station of a listed file with extension `ext`.
fn listed_station_exec(p: &str, ext: &str) -> (r: Option<Vec<char>>)
    ensures
        match listed_station(p@, ext@) {
            Some(s) => r is Some && r->0@ == s,
            None => r is None,
        },
{
    match path_extension(p) {
        Some(e) => {
            let ev = to_chars(e.as_str());
            if !eq_str(&ev, ext) {
                return None;
            }
        },
        None => {
            return None;
        },
    }
    match crate::names::station_code_from_markdown_path(p) {
        Some(c) => Some(to_chars(c.as_str())),
        None => None,
    }
}

/// The files among the first `k` of `paths` with extension `ext` whose
/// station is `s`, in listing order.
pub open spec fn station_paths(paths: Seq<Seq<char>>, ext: Seq<char>, s: Seq<char>, k: int) -> Seq<
    Seq<char>,
>
    decreases k,
{
    if k <= 0 {
        Seq::empty()
    } else if listed_station(paths[k - 1], ext) == Some(s) {
        station_paths(paths, ext, s, k - 1).push(paths[k - 1])
    } else {
        station_paths(paths, ext, s, k - 1)
    }
}

/// The stations of the first `k` files with extension `ext`, each once, in
/// listing order.
pub open spec fn listed_stations(paths: Seq<Seq<char>>, ext: Seq<char>, k: int) -> Seq<Seq<char>>
    decreases k,
{
    if k <= 0 {
        Seq::empty()
    } else {
        let prev = listed_stations(paths, ext, k - 1);
        match listed_station(paths[k - 1], ext) {
            Some(s) => if prev.contains(s) {
                prev
            } else {
                prev.push(s)
            },
            None => prev,
        }
    }
}

/// The files of station `s` with extension `ext` in a directory listing,
/// in text order.
pub open spec fn files_of_station(paths: Seq<Seq<char>>, ext: Seq<char>, s: Seq<char>) -> Seq<
    Seq<char>,
> {
    station_paths(paths, ext, s, paths.len() as int).sort_by(text_le())
}

/// The files with extension `ext` in a directory listing grouped by
/// station: the stations in text order, each with its files in text order.
pub open spec fn files_by_station_of(paths: Seq<Seq<char>>, ext: Seq<char>) -> Seq<
    (Seq<char>, Seq<Seq<char>>),
> {
    listed_stations(paths, ext, paths.len() as int).sort_by(text_le()).map_values(
        |s: Seq<char>| (s, files_of_station(paths, ext, s)),
    )
}

/// The files of station `station` with extension `ext` among the listed
/// `paths`, in text order.
pub fn station_files(paths: &Vec<String>, ext: &str, station: &Vec<char>) -> (r: Vec<Vec<char>>)
    ensures
        seqs(r@) == files_of_station(strs(paths@), ext@, station@),
{
    let ghost ps = strs(paths@);
    let mut found: Vec<Vec<char>> = Vec::new();
    let mut k: usize = 0;
    while k < paths.len()
        invariant
            k <= paths@.len(),
            ps == strs(paths@),
            seqs(found@) == station_paths(ps, ext@, station@, k as int),
        decreases paths@.len() - k,
    {
        let code = listed_station_exec(paths[k].as_str(), ext);
        let matched = match &code {
            Some(c) => chars_eq(c, station),
            None => false,
        };
        if matched {
            let ghost prev = seqs(found@);
            found.push(to_chars(paths[k].as_str()));
            assert(seqs(found@) =~= prev.push(ps[k as int]));
        }
        k = k + 1;
    }
    sort_texts(&found)
}

/// The files with extension `ext` among the listed `paths`, grouped by the
/// station code in their file stem: the stations in text order, each with
/// its files in text order. Files without a station code are left out.
pub fn files_by_station(paths: &Vec<String>, ext: &str) -> (r: Vec<(String, Vec<String>)>)
    ensures
        r@.map_values(|e: (String, Vec<String>)| (e.0@, strs(e.1@))) == files_by_station_of(
            strs(paths@),
            ext@,
        ),
{
    let ghost ps = strs(paths@);
    let mut stations: Vec<Vec<char>> = Vec::new();
    let mut k: usize = 0;
    while k < paths.len()
        invariant
            k <= paths@.len(),
            ps == strs(paths@),
            seqs(stations@) == listed_stations(ps, ext@, k as int),
        decreases paths@.len() - k,
    {
        match listed_station_exec(paths[k].as_str(), ext) {
            Some(c) => {
                if !holds_text(&stations, &c) {
                    let ghost prev = seqs(stations@);
                    stations.push(c);
                    assert(seqs(stations@) =~= prev.push(listed_station(ps[k as int], ext@)->0));
                }
            },
            None => {},
        }
        k = k + 1;
    }
    let sorted = sort_texts(&stations);
    let ghost order = seqs(sorted@);
    let mut out: Vec<(String, Vec<String>)> = Vec::new();
    let mut j: usize = 0;
    while j < sorted.len()
        invariant
            j <= sorted@.len(),
            ps == strs(paths@),
            order == seqs(sorted@),
            order == listed_stations(ps, ext@, ps.len() as int).sort_by(text_le()),
            out@.map_values(|e: (String, Vec<String>)| (e.0@, strs(e.1@))) == order.take(
                j as int,
            ).map_values(|s: Seq<char>| (s, files_of_station(ps, ext@, s))),
        decreases sorted@.len() - j,
    {
        let files = station_files(paths, ext, &sorted[j]);
        let names = to_strings(&files);
        let ghost prev = out@.map_values(|e: (String, Vec<String>)| (e.0@, strs(e.1@)));
        out.push((from_chars(&sorted[j]), names));
        assert(order.take(j + 1) =~= order.take(j as int).push(order[j as int]));
        assert(out@.map_values(|e: (String, Vec<String>)| (e.0@, strs(e.1@))) =~= prev.push(
            (order[j as int], files_of_station(ps, ext@, order[j as int])),
        ));
        j = j + 1;
    }
    assert(order.take(order.len() as int) =~= order);
    out
}

/// Whether `v` is one of `items`.
fn holds_text(items: &Vec<Vec<char>>, v: &Vec<char>) -> (r: bool)
    ensures
        r == seqs(items@).contains(v@),
{
    let mut i: usize = 0;
    while i < items.len()
        invariant
            i <= items@.len(),
            forall|j: int| 0 <= j < i ==> seqs(items@)[j] != v@,
        decreases items@.len() - i,
    {
        if chars_eq(&items[i], v) {
            assert(seqs(items@)[i as int] == v@);
            return true;
        }
        i = i + 1;
    }
    false
}

/// The one crop of a station among those found, or the error when there
/// is none or more than one (naming them, joined by `, `).
pub fn resolve_station_ocr_image(input_dir: &str, station: &str, matches: &Vec<String>) -> (r: Result<
    String,
    PvError,
>)
    ensures
        matches@.len() == 1 ==> r is Ok && r->Ok_0@ == matches@[0]@,
        matches@.len() == 0 ==> r is Err && r->Err_0.message@ == "could not find crop for station "@
            + station@ + " in "@ + input_dir@,
        matches@.len() > 1 ==> r is Err && r->Err_0.message@ == "multiple crops found for station "@
            + station@ + " in "@ + input_dir@ + ": "@ + join(strs(matches@), ", "@),
{
    if matches.len() == 1 {
        return Ok(matches[0].clone());
    }
    if matches.len() == 0 {
        let mut m = to_chars("could not find crop for station ");
        push_str(&mut m, station);
        push_str(&mut m, " in ");
        push_str(&mut m, input_dir);
        return Err(error_from_chars(&m));
    }
    let mut m = to_chars("multiple crops found for station ");
    push_str(&mut m, station);
    push_str(&mut m, " in ");
    push_str(&mut m, input_dir);
    push_str(&mut m, ": ");
    let parts = strings_to_chars(matches);
    let joined = join_chars(&parts, ", ");
    append_chars(&mut m, &joined);
    Err(error_from_chars(&m))
}

/// The listed reports of `kind` for `station`: file names that match the
/// kind and carry the station code, in text order.
pub open spec fn station_pdfs(paths: Seq<Seq<char>>, station: Seq<char>, kind: CropKind, k: int) -> Seq<
    Seq<char>,
>
    decreases k,
{
    if k <= 0 {
        Seq::empty()
    } else {
        let prev = station_pdfs(paths, station, kind, k - 1);
        match file_name_of(paths[k - 1]) {
            Some(n) => if pdf_matches(n, kind) && station_code_in(n) == Some(station) {
                prev.push(paths[k - 1])
            } else {
                prev
            },
            None => prev,
        }
    }
}

/// The report of `kind` for `station` among the listed `paths` of the
/// municipality directory: the one whose file name matches the kind and
/// carries the station code, or the error when there is none or more than
/// one (naming them in text order).
pub fn resolve_station_pdf(
    municipality_dir: &str,
    station: &str,
    kind: CropKind,
    paths: &Vec<String>,
) -> (r: Result<String, PvError>)
    ensures
        ({
            let found = station_pdfs(strs(paths@), station@, kind, paths@.len() as int).sort_by(
                text_le(),
            );
            &&& found.len() == 1 ==> r is Ok && r->Ok_0@ == found[0]
            &&& found.len() == 0 ==> r is Err && r->Err_0.message@ == "could not find "@
                + crate::names::crop_kind_part(kind) + " PDF for station "@ + station@ + " in "@
                + municipality_dir@
            &&& found.len() > 1 ==> r is Err && r->Err_0.message@ == "multiple "@
                + crate::names::crop_kind_part(kind) + " PDFs found for station "@ + station@
                + " in "@ + municipality_dir@ + ": "@ + join(found, ", "@)
        }),
{
    let ghost ps = strs(paths@);
    let sv = to_chars(station);
    let mut found: Vec<Vec<char>> = Vec::new();
    let mut k: usize = 0;
    while k < paths.len()
        invariant
            k <= paths@.len(),
            ps == strs(paths@),
            sv@ == station@,
            seqs(found@) == station_pdfs(ps, station@, kind, k as int),
        decreases paths@.len() - k,
    {
        match path_file_name(paths[k].as_str()) {
            Some(n) => {
                let code = crate::names::station_code_from_file_name(n.as_str());
                let same = match &code {
                    Some(c) => {
                        let cv = to_chars(c.as_str());
                        chars_eq(&cv, &sv)
                    },
                    None => false,
                };
                if crate::names::default_pdf_matches_kind(n.as_str(), kind) && same {
                    let ghost prev = seqs(found@);
                    found.push(to_chars(paths[k].as_str()));
                    assert(seqs(found@) =~= prev.push(ps[k as int]));
                }
            },
            None => {},
        }
        k = k + 1;
    }
    let sorted = sort_texts(&found);
    if sorted.len() == 1 {
        return Ok(from_chars(&sorted[0]));
    }
    let part = kind.filename_part();
    if sorted.len() == 0 {
        let mut m = to_chars("could not find ");
        push_str(&mut m, part);
        push_str(&mut m, " PDF for station ");
        push_str(&mut m, station);
        push_str(&mut m, " in ");
        push_str(&mut m, municipality_dir);
        return Err(error_from_chars(&m));
    }
    let mut m = to_chars("multiple ");
    push_str(&mut m, part);
    push_str(&mut m, " PDFs found for station ");
    push_str(&mut m, station);
    push_str(&mut m, " in ");
    push_str(&mut m, municipality_dir);
    push_str(&mut m, ": ");
    let joined = join_chars(&sorted, ", ");
    append_chars(&mut m, &joined);
    Err(error_from_chars(&m))
}

/// The listed reports whose file name matches `kind`, among the first `k`.
pub open spec fn kind_pdfs(paths: Seq<Seq<char>>, kind: CropKind, k: int) -> Seq<Seq<char>>
    decreases k,
{
    if k <= 0 {
        Seq::empty()
    } else {
        let prev = kind_pdfs(paths, kind, k - 1);
        match file_name_of(paths[k - 1]) {
            Some(n) => if pdf_matches(n, kind) {
                prev.push(paths[k - 1])
            } else {
                prev
            },
            None => prev,
        }
    }
}

/// The reports of `kind` among the listed `paths` of the municipality
/// directory, in text order; an error when there is none.
pub fn default_pdfs(municipality_dir: &str, kind: CropKind, paths: &Vec<String>) -> (r: Result<
    Vec<String>,
    PvError,
>)
    ensures
        ({
            let found = kind_pdfs(strs(paths@), kind, paths@.len() as int).sort_by(text_le());
            &&& found.len() > 0 ==> r is Ok && strs(r->Ok_0@) == found
            &&& found.len() == 0 ==> r is Err && r->Err_0.message@ == "no default "@
                + crate::names::crop_kind_part(kind) + " PDFs found in "@ + municipality_dir@
        }),
{
    let ghost ps = strs(paths@);
    let mut found: Vec<Vec<char>> = Vec::new();
    let mut k: usize = 0;
    while k < paths.len()
        invariant
            k <= paths@.len(),
            ps == strs(paths@),
            seqs(found@) == kind_pdfs(ps, kind, k as int),
        decreases paths@.len() - k,
    {
        match path_file_name(paths[k].as_str()) {
            Some(n) => {
                if crate::names::default_pdf_matches_kind(n.as_str(), kind) {
                    let ghost prev = seqs(found@);
                    found.push(to_chars(paths[k].as_str()));
                    assert(seqs(found@) =~= prev.push(ps[k as int]));
                }
            },
            None => {},
        }
        k = k + 1;
    }
    let sorted = sort_texts(&found);
    if sorted.len() == 0 {
        let mut m = to_chars("no default ");
        push_str(&mut m, kind.filename_part());
        push_str(&mut m, " PDFs found in ");
        push_str(&mut m, municipality_dir);
        return Err(error_from_chars(&m));
    }
    Ok(to_strings(&sorted))
}

/// A file whose extension names a raster image format the crops can be
/// extracted as: PNG, JPEG, PPM or PBM.
pub open spec fn is_raster_image(p: Seq<char>) -> bool {
    match extension_of(p) {
        Some(e) => e == "png"@ || e == "jpg"@ || e == "jpeg"@ || e == "ppm"@ || e == "pbm"@,
        None => false,
    }
}

/// Whether the file `p` is a raster image by its extension.
pub fn raster_image_path(p: &str) -> (r: bool)
    ensures
        r == is_raster_image(p@),
{
    match path_extension(p) {
        Some(e) => {
            let v = to_chars(e.as_str());
            eq_str(&v, "png") || eq_str(&v, "jpg") || eq_str(&v, "jpeg") || eq_str(&v, "ppm")
                || eq_str(&v, "pbm")
        },
        None => false,
    }
}

/// Among the first `k` images (path, width, height), the position of the
/// first of largest area and that area; an image is taken only when its
/// area is larger than every earlier one and than zero.
pub open spec fn largest_upto(images: Seq<(String, u32, u32)>, k: int) -> (Option<int>, nat)
    decreases k,
{
    if k <= 0 {
        (None, 0)
    } else {
        let (best, area) = largest_upto(images, k - 1);
        let a = (images[k - 1].1 as nat) * (images[k - 1].2 as nat);
        if a > area {
            (Some(k - 1), a)
        } else {
            (best, area)
        }
    }
}

/// The path of the first image of largest area among `images` (path,
/// width, height), if any has an area.
pub fn largest_image(images: &Vec<(String, u32, u32)>) -> (r: Option<String>)
    ensures
        match largest_upto(images@, images@.len() as int).0 {
            Some(i) => r is Some && r->0@ == images@[i].0@,
            None => r is None,
        },
{
    let mut best: Option<usize> = None;
    let mut area: u64 = 0;
    let mut k: usize = 0;
    while k < images.len()
        invariant
            k <= images@.len(),
            largest_upto(images@, k as int).1 == area,
            match largest_upto(images@, k as int).0 {
                Some(i) => best == Some(i as usize) && 0 <= i < k,
                None => best is None,
            },
        decreases images@.len() - k,
    {
        let (_, w, h) = &images[k];
        let wv: u64 = *w as u64;
        let hv: u64 = *h as u64;
        assert(wv * hv <= 0xffff_ffff * 0xffff_ffff) by (nonlinear_arith)
            requires
                wv <= 0xffff_ffff,
                hv <= 0xffff_ffff,
        ;
        let a = wv * hv;
        if a > area {
            best = Some(k);
            area = a;
        }
        k = k + 1;
    }
    match best {
        Some(i) => Some(images[i].0.clone()),
        None => None,
    }
}

/// Where to look for a requested OCR image: the crop of a station, when
/// the request is a station number, or else the candidate paths in order.
pub enum ImageRequest {
    Station(String),
    Candidates(Vec<String>),
}

/// Where to look for the OCR image `request` names in `input_dir`: a
/// station number asks for that station's crop; an existing path
/// (`requested_exists`) is itself the image; a name with an extension is
/// looked up in `input_dir`; a bare name as `{name}.png`, then as given,
/// in `input_dir`.
pub fn resolve_ocr_image(input_dir: &str, request: &str, requested_exists: bool) -> (r: ImageRequest)
    ensures
        match r {
            ImageRequest::Station(s) => request@.len() > 0 && crate::text::all_digits(request@)
                && s@ == crate::names::normalized_station(request@),
            ImageRequest::Candidates(c) => !(request@.len() > 0 && crate::text::all_digits(
                request@,
            )) && strs(c@) == if requested_exists {
                seq![request@]
            } else if extension_of(request@) is Some {
                seq![crate::paths::joined_path(input_dir@, request@)]
            } else {
                seq![
                    crate::paths::joined_path(input_dir@, request@ + ".png"@),
                    crate::paths::joined_path(input_dir@, request@),
                ]
            },
        },
{
    if crate::names::is_station_number(request) {
        return ImageRequest::Station(crate::names::normalize_station_number(request));
    }
    let mut out: Vec<String> = Vec::new();
    if requested_exists {
        out.push(request.to_owned());
    } else if path_extension(request).is_some() {
        out.push(crate::paths::path_join(input_dir, request));
    } else {
        let mut name = to_chars(request);
        push_str(&mut name, ".png");
        let n = from_chars(&name);
        out.push(crate::paths::path_join(input_dir, n.as_str()));
        out.push(crate::paths::path_join(input_dir, request));
    }
    assert(strs(out@) =~= if requested_exists {
        seq![request@]
    } else if extension_of(request@) is Some {
        seq![crate::paths::joined_path(input_dir@, request@)]
    } else {
        seq![
            crate::paths::joined_path(input_dir@, request@ + ".png"@),
            crate::paths::joined_path(input_dir@, request@),
        ]
    });
    ImageRequest::Candidates(out)
}

/// The error for a requested OCR image found nowhere.
pub fn requested_image_not_found(input_dir: &str, request: &str) -> (r: PvError)
    ensures
        r.message@ == "could not find requested narrow crop "@ + crate::text::debug_quoted(request@)
            + " in "@ + input_dir@,
{
    let q = crate::textops::debug_format(request);
    let mut m = to_chars("could not find requested narrow crop ");
    push_str(&mut m, q.as_str());
    push_str(&mut m, " in ");
    push_str(&mut m, input_dir);
    error_from_chars(&m)
}

/// The station a correction OCR file is filed under: the station code in
/// its file stem, or `?`.
pub open spec fn correction_file_key(path: Seq<char>) -> Seq<char> {
    match file_stem_of(path) {
        Some(stem) => match station_code_in(stem) {
            Some(c) => c,
            None => "?"@,
        },
        None => "?"@,
    }
}

/// The keys of the first `k` correction files.
pub open spec fn file_keys(files: Seq<(String, String)>, k: int) -> Seq<Seq<char>>
    decreases k,
{
    if k <= 0 {
        Seq::empty()
    } else {
        file_keys(files, k - 1).push(correction_file_key(files[k - 1].0@))
    }
}

/// The last of the first `k` files filed under `s`.
pub open spec fn last_file_of(files: Seq<(String, String)>, s: Seq<char>, k: int) -> Option<int>
    decreases k,
{
    if k <= 0 {
        None
    } else if correction_file_key(files[k - 1].0@) == s {
        Some(k - 1)
    } else {
        last_file_of(files, s, k - 1)
    }
}

/// The message added to a correction document read after another for the
/// same station.
pub open spec fn duplicate_message(s: Seq<char>, path: Seq<char>) -> Seq<char> {
    "duplicate correction OCR for station "@ + s + ": "@ + path
}

/// The document kept for station `s` from the first `k` files: the last
/// file filed under it, read as a correction document; when an earlier
/// file was filed under the same station too, it fails validation with a
/// message on the duplicate.
pub open spec fn kept_document(d: CorrectionDocument, files: Seq<(String, String)>, s: Seq<char>, k: int) -> bool {
    match last_file_of(files, s, k) {
        Some(j) => {
            let md = files[j].1@;
            let dup = last_file_of(files, s, j) is Some;
            let errors = if is_skipped(md) {
                Seq::empty()
            } else {
                corrections_errors(md)
            };
            &&& d.wf()
            &&& d.path@ == files[j].0@
            &&& d.corrections@ == corrections_of(md)
            &&& d.validation.skipped == is_skipped(md)
            &&& if dup {
                &&& !d.validation.passed
                &&& strs(d.validation.errors@) == errors.push(duplicate_message(s, files[j].0@))
            } else {
                &&& d.validation.passed == (is_skipped(md) || errors.len() == 0)
                &&& strs(d.validation.errors@) == errors
            }
        },
        None => false,
    }
}

/// The document of station `s`'s last file among `files`, as
/// `kept_document` describes it.
fn kept_for_station(files: &Vec<(String, String)>, keys: &Vec<Vec<char>>, s: &Vec<char>) -> (r: Option<
    CorrectionDocument,
>)
    requires
        forall|i: int| 0 <= i < files@.len() ==> corrections_fit((#[trigger] files@[i]).1@),
        keys@.len() == files@.len(),
        forall|i: int| 0 <= i < files@.len() ==> (#[trigger] keys@[i])@ == correction_file_key(files@[i].0@),
    ensures
        match last_file_of(files@, s@, files@.len() as int) {
            Some(_) => r matches Some(d) && kept_document(d, files@, s@, files@.len() as int),
            None => r is None,
        },
{
    let mut last: Option<usize> = None;
    let mut dup = false;
    let mut k: usize = 0;
    while k < keys.len()
        invariant
            k <= keys@.len(),
            keys@.len() == files@.len(),
            forall|i: int| 0 <= i < files@.len() ==> (#[trigger] keys@[i])@ == correction_file_key(files@[i].0@),
            match last_file_of(files@, s@, k as int) {
                Some(j) => last == Some(j as usize) && 0 <= j < k && dup == (last_file_of(
                    files@,
                    s@,
                    j,
                ) is Some),
                None => last is None,
            },
        decreases keys@.len() - k,
    {
        if chars_eq(&keys[k], s) {
            proof {
                assert(correction_file_key(files@[k as int].0@) == s@);
                assert(last_file_of(files@, s@, k + 1) == Some(k as int));
            }
            dup = last.is_some();
            last = Some(k);
        } else {
            assert(last_file_of(files@, s@, k + 1) == last_file_of(files@, s@, k as int));
        }
        k = k + 1;
    }
    match last {
        Some(j) => {
            let mut doc = crate::compare::parse_correction_document(
                files[j].0.as_str(),
                files[j].1.as_str(),
            );
            proof {
                let md = files@[j as int].1@;
                assert(strs(doc.validation.errors@) =~= if is_skipped(md) {
                    Seq::<Seq<char>>::empty()
                } else {
                    corrections_errors(md)
                });
            }
            if dup {
                doc.validation.passed = false;
                let mut m = to_chars("duplicate correction OCR for station ");
                append_chars(&mut m, s);
                push_str(&mut m, ": ");
                push_str(&mut m, files[j].0.as_str());
                let ghost before = strs(doc.validation.errors@);
                doc.validation.errors.push(from_chars(&m));
                assert(strs(doc.validation.errors@) =~= before.push(
                    duplicate_message(s@, files@[j as int].0@),
                ));
            }
            Some(doc)
        },
        None => None,
    }
}

/// The correction OCR files of a directory, read as documents and filed by
/// station: `files` holds each file's path and text in listing order. The
/// stations come once each in text order, each with the document of its
/// last file; a document read after another for the same station fails
/// validation with a message naming the station and the file.
pub fn corrections_by_station(files: &Vec<(String, String)>) -> (r: Vec<(String, CorrectionDocument)>)
    requires
        forall|i: int| 0 <= i < files@.len() ==> corrections_fit((#[trigger] files@[i]).1@),
    ensures
        strs(r@.map_values(|e: (String, CorrectionDocument)| e.0)) == crate::selection::key_order(
            file_keys(files@, files@.len() as int),
            files@.len() as int,
        ).sort_by(text_le()),
        forall|i: int|
            0 <= i < r@.len() ==> kept_document(
                (#[trigger] r@[i]).1,
                files@,
                r@[i].0@,
                files@.len() as int,
            ),
{
    let ghost fs = files@;
    // The station of each file.
    let mut keys: Vec<Vec<char>> = Vec::new();
    let mut k: usize = 0;
    while k < files.len()
        invariant
            k <= fs.len(),
            fs == files@,
            keys@.len() == k,
            seqs(keys@) == file_keys(fs, k as int),
            forall|i: int| 0 <= i < k ==> (#[trigger] keys@[i])@ == correction_file_key(fs[i].0@),
        decreases fs.len() - k,
    {
        let key: Vec<char> = match crate::names::station_code_from_markdown_path(files[k].0.as_str()) {
            Some(c) => to_chars(c.as_str()),
            None => to_chars("?"),
        };
        proof {
            reveal_strlit("?");
        }
        let ghost before = seqs(keys@);
        keys.push(key);
        assert(seqs(keys@) =~= before.push(correction_file_key(fs[k as int].0@)));
        k = k + 1;
    }
    let ghost all_keys = seqs(keys@);
    // The stations, each once, in text order.
    let mut distinct: Vec<Vec<char>> = Vec::new();
    let mut k: usize = 0;
    while k < keys.len()
        invariant
            k <= keys@.len(),
            all_keys == seqs(keys@),
            seqs(distinct@) == crate::selection::key_order(all_keys, k as int),
        decreases keys@.len() - k,
    {
        if !holds_text(&distinct, &keys[k]) {
            let ghost before = seqs(distinct@);
            distinct.push(copy_chars(&keys[k]));
            assert(seqs(distinct@) =~= before.push(all_keys[k as int]));
        }
        k = k + 1;
    }
    let sorted = sort_texts(&distinct);
    let mut out: Vec<(String, CorrectionDocument)> = Vec::new();
    let mut j: usize = 0;
    while j < sorted.len()
        invariant
            j <= sorted@.len(),
            fs == files@,
            forall|i: int| 0 <= i < fs.len() ==> corrections_fit((#[trigger] fs[i]).1@),
            keys@.len() == fs.len(),
            forall|i: int| 0 <= i < fs.len() ==> (#[trigger] keys@[i])@ == correction_file_key(fs[i].0@),
            seqs(sorted@) == crate::selection::key_order(all_keys, all_keys.len() as int).sort_by(
                text_le(),
            ),
            all_keys == file_keys(fs, fs.len() as int),
            strs(out@.map_values(|e: (String, CorrectionDocument)| e.0)) == seqs(sorted@).take(
                j as int,
            ),
            forall|i: int|
                0 <= i < out@.len() ==> kept_document(
                    (#[trigger] out@[i]).1,
                    fs,
                    out@[i].0@,
                    fs.len() as int,
                ),
        decreases sorted@.len() - j,
    {
        proof {
            lemma_sorted_key_present(fs, all_keys, seqs(sorted@), j as int);
        }
        match kept_for_station(files, &keys, &sorted[j]) {
            Some(doc) => {
                let ghost before = strs(out@.map_values(|e: (String, CorrectionDocument)| e.0));
                out.push((from_chars(&sorted[j]), doc));
                assert(strs(out@.map_values(|e: (String, CorrectionDocument)| e.0)) =~= before.push(
                    sorted@[j as int]@,
                ));
                assert(seqs(sorted@).take(j + 1) =~= seqs(sorted@).take(j as int).push(
                    seqs(sorted@)[j as int],
                ));
            },
            None => {
                proof {
                    assert(false);
                }
            },
        }
        j = j + 1;
    }
    assert(seqs(sorted@).take(sorted@.len() as int) =~= seqs(sorted@));
    out
}

/// Every station in the sorted list has a file.
proof fn lemma_sorted_key_present(
    fs: Seq<(String, String)>,
    all_keys: Seq<Seq<char>>,
    sorted: Seq<Seq<char>>,
    j: int,
)
    requires
        all_keys == file_keys(fs, fs.len() as int),
        sorted == crate::selection::key_order(all_keys, all_keys.len() as int).sort_by(text_le()),
        0 <= j < sorted.len(),
    ensures
        last_file_of(fs, sorted[j], fs.len() as int) is Some,
{
    broadcast use vstd::seq_lib::group_to_multiset_ensures;

    let order = crate::selection::key_order(all_keys, all_keys.len() as int);
    lemma_text_le_total_ordering();
    order.lemma_sort_by_ensures(text_le());
    assert(sorted.to_multiset().count(sorted[j]) > 0);
    assert(order.to_multiset().count(sorted[j]) > 0);
    assert(order.contains(sorted[j]));
    lemma_file_keys_len(fs, fs.len() as int);
    lemma_key_order_from(all_keys, all_keys.len() as int, sorted[j]);
    lemma_last_file_present(fs, sorted[j], fs.len() as int);
}

/// A key in the first-appearance order is one of the keys.
proof fn lemma_key_order_from(keys: Seq<Seq<char>>, k: int, x: Seq<char>)
    requires
        0 <= k <= keys.len(),
        crate::selection::key_order(keys, k).contains(x),
    ensures
        keys.take(k).contains(x),
    decreases k,
{
    if k > 0 {
        let prev = crate::selection::key_order(keys, k - 1);
        if prev.contains(x) {
            lemma_key_order_from(keys, k - 1, x);
            let w = choose|w: int| 0 <= w < keys.take(k - 1).len() && #[trigger] keys.take(k - 1)[w] == x;
            assert(keys.take(k)[w] == x);
        } else {
            assert(keys.take(k)[k - 1] == x);
        }
    }
}

proof fn lemma_file_keys_len(files: Seq<(String, String)>, k: int)
    requires
        0 <= k <= files.len(),
    ensures
        file_keys(files, k).len() == k,
        forall|i: int| 0 <= i < k ==> #[trigger] file_keys(files, k)[i] == correction_file_key(files[i].0@),
    decreases k,
{
    if k > 0 {
        lemma_file_keys_len(files, k - 1);
    }
}

proof fn lemma_last_file_present(files: Seq<(String, String)>, s: Seq<char>, k: int)
    requires
        0 <= k <= files.len(),
        file_keys(files, files.len() as int).take(k).contains(s),
    ensures
        last_file_of(files, s, k) is Some,
    decreases k,
{
    lemma_file_keys_len(files, files.len() as int);
    if k > 0 {
        if correction_file_key(files[k - 1].0@) != s {
            let fk = file_keys(files, files.len() as int);
            let w = choose|w: int| 0 <= w < fk.take(k).len() && #[trigger] fk.take(k)[w] == s;
            assert(w != k - 1);
            assert(fk.take(k - 1)[w] == s);
            lemma_last_file_present(files, s, k - 1);
        }
    }
}

} // verus!
