//! File names of paths, as `std::path::Path` reads them.
use vstd::prelude::*;
use crate::error::{error_from_chars, PvError};
use crate::names::{crop_kind_part, CropKind};
use crate::textops::{eq_str, from_chars, push_str, to_chars};

verus! {

broadcast use vstd::string::group_string_axioms;

/// What `Path::file_name` gives for the path text `p`: its last normal
/// component, if any. It follows the path rules of the platform the
/// library is built for (its separators and prefixes), which are fixed
/// within one build.
pub uninterp spec fn file_name_of(p: Seq<char>) -> Option<Seq<char>>;

/// What `Path::file_stem` gives for the path text `p`: the file name
/// without its extension, if there is a file name. It follows the path rules of the platform the
/// library is built for (its separators and prefixes), which are fixed
/// within one build.
pub uninterp spec fn file_stem_of(p: Seq<char>) -> Option<Seq<char>>;

/// `Path::new(p).file_name()`, as text. A file name taken from a `&str` is
/// valid UTF-8, so nothing is lost converting it.
#[verifier::external_body]
pub(crate) fn path_file_name(p: &str) -> (r: Option<String>)
    ensures
        match r {
            Some(s) => file_name_of(p@) == Some(s@),
            None => file_name_of(p@) is None,
        },
{
    match std::path::Path::new(p).file_name() {
        Some(n) => n.to_str().map(str::to_owned),
        None => None,
    }
}

/// `Path::new(p).file_stem()`, as text.
#[verifier::external_body]
pub(crate) fn path_file_stem(p: &str) -> (r: Option<String>)
    ensures
        match r {
            Some(s) => file_stem_of(p@) == Some(s@),
            None => file_stem_of(p@) is None,
        },
{
    match std::path::Path::new(p).file_stem() {
        Some(n) => n.to_str().map(str::to_owned),
        None => None,
    }
}

/// The name a report gives a file: its file name, or the whole path when
/// it has none.
pub open spec fn display_name(p: Seq<char>) -> Seq<char> {
    match file_name_of(p) {
        Some(n) => n,
        None => p,
    }
}

/// The file name of `path`, or the path itself when it has none.
pub fn display_file_name(path: &str) -> (r: String)
    ensures
        r@ == display_name(path@),
{
    match path_file_name(path) {
        Some(n) => n,
        None => path.to_owned(),
    }
}

/// What `Path::join` gives for a base path and a relative name. It follows the path rules of the platform the
/// library is built for (its separators and prefixes), which are fixed
/// within one build.
pub uninterp spec fn joined_path(base: Seq<char>, name: Seq<char>) -> Seq<char>;

/// `Path::new(base).join(name)`, as text; joining text paths gives valid
/// UTF-8, so nothing is lost converting it.
#[verifier::external_body]
pub(crate) fn path_join(base: &str, name: &str) -> (r: String)
    ensures
        r@ == joined_path(base@, name@),
{
    std::path::Path::new(base).join(name).to_string_lossy().into_owned()
}

/// `base` joined with each name in turn.
pub open spec fn join_all(base: Seq<char>, names: Seq<Seq<char>>) -> Seq<char>
    decreases names.len(),
{
    if names.len() == 0 {
        base
    } else {
        joined_path(join_all(base, names.drop_last()), names.last())
    }
}

/// The file stem of `path`, or the error `message` (followed by the path
/// when `with_path` is set).
fn stem_or(path: &str, message: &str, with_path: bool) -> (r: Result<String, PvError>)
    ensures
        match file_stem_of(path@) {
            Some(stem) => r is Ok && r->Ok_0@ == stem,
            None => r is Err && r->Err_0.message@ == message@ + if with_path {
                path@
            } else {
                Seq::empty()
            },
        },
{
    match path_file_stem(path) {
        Some(stem) => Ok(stem),
        None => {
            let mut m = to_chars(message);
            if with_path {
                push_str(&mut m, path);
            }
            assert(m@ =~= message@ + if with_path {
                path@
            } else {
                Seq::empty()
            });
            Err(error_from_chars(&m))
        },
    }
}

/// `{stem}.png`.
fn png_name(stem: &str) -> (r: String)
    ensures
        r@ == stem@ + ".png"@,
{
    let mut m = to_chars(stem);
    push_str(&mut m, ".png");
    from_chars(&m)
}

/// The full table crop that the OCR table `markdown_path` was read from:
/// `crops/2.2/{stem}.png` in the municipality directory.
pub fn full_crop_path_for_markdown(municipality_dir: &str, markdown_path: &str) -> (r: Result<
    String,
    PvError,
>)
    ensures
        match file_stem_of(markdown_path@) {
            Some(stem) => r is Ok && r->Ok_0@ == join_all(
                municipality_dir@,
                seq!["crops"@, "2.2"@, stem + ".png"@],
            ),
            None => r is Err && r->Err_0.message@ == "Markdown path has no valid file stem: "@
                + markdown_path@,
        },
{
    let stem = match stem_or(markdown_path, "Markdown path has no valid file stem: ", true) {
        Ok(s) => s,
        Err(e) => {
            return Err(e);
        },
    };
    let a = path_join(municipality_dir, "crops");
    let b = path_join(a.as_str(), "2.2");
    let name = png_name(stem.as_str());
    let r = path_join(b.as_str(), name.as_str());
    proof {
        reveal_with_fuel(join_all, 4);
        let names = seq!["crops"@, "2.2"@, stem@ + ".png"@];
        assert(names.drop_last() =~= seq!["crops"@, "2.2"@]);
        assert(names.drop_last().drop_last() =~= seq!["crops"@]);
        assert(names.drop_last().drop_last().drop_last() =~= Seq::<Seq<char>>::empty());
    }
    Ok(r)
}

/// The crop of the correction table that the correction OCR file
/// `correction_path` was read from: `crops/corrections/{stem}.png` in the
/// municipality directory.
pub fn correction_crop_path(municipality_dir: &str, correction_path: &str) -> (r: Result<
    String,
    PvError,
>)
    ensures
        match file_stem_of(correction_path@) {
            Some(stem) => r is Ok && r->Ok_0@ == join_all(
                municipality_dir@,
                seq!["crops"@, "corrections"@, stem + ".png"@],
            ),
            None => r is Err && r->Err_0.message@ == "Correction Markdown path has no valid file stem: "@
                + correction_path@,
        },
{
    let stem = match stem_or(
        correction_path,
        "Correction Markdown path has no valid file stem: ",
        true,
    ) {
        Ok(s) => s,
        Err(e) => {
            return Err(e);
        },
    };
    let a = path_join(municipality_dir, "crops");
    let b = path_join(a.as_str(), "corrections");
    let name = png_name(stem.as_str());
    let r = path_join(b.as_str(), name.as_str());
    proof {
        reveal_with_fuel(join_all, 4);
        let names = seq!["crops"@, "corrections"@, stem@ + ".png"@];
        assert(names.drop_last() =~= seq!["crops"@, "corrections"@]);
        assert(names.drop_last().drop_last() =~= seq!["crops"@]);
        assert(names.drop_last().drop_last().drop_last() =~= Seq::<Seq<char>>::empty());
    }
    Ok(r)
}

/// Where the full table crop of `kind` from the report `pdf` goes:
/// `{kind directory}/{stem}.png` in `out_dir`.
pub fn full_table_output_path_for(pdf: &str, out_dir: &str, kind: CropKind) -> (r: Result<
    String,
    PvError,
>)
    ensures
        match file_stem_of(pdf@) {
            Some(stem) => r is Ok && r->Ok_0@ == join_all(
                out_dir@,
                seq![crop_kind_part(kind), stem + ".png"@],
            ),
            None => r is Err && r->Err_0.message@ == "PDF path has no valid file stem"@,
        },
{
    let stem = match stem_or(pdf, "PDF path has no valid file stem", false) {
        Ok(s) => s,
        Err(e) => {
            assert("PDF path has no valid file stem"@ + Seq::<char>::empty() =~= "PDF path has no valid file stem"@);
            return Err(e);
        },
    };
    let a = path_join(out_dir, kind.directory_name());
    let name = png_name(stem.as_str());
    let r = path_join(a.as_str(), name.as_str());
    proof {
        reveal_with_fuel(join_all, 4);
        let names = seq![crop_kind_part(kind), stem@ + ".png"@];
        assert(names.drop_last() =~= seq![crop_kind_part(kind)]);
        assert(names.drop_last().drop_last() =~= Seq::<Seq<char>>::empty());
    }
    Ok(r)
}

/// Where the narrow crop (the identifier column) of `kind` from the report
/// `pdf` goes: `{kind directory}/narrow/{stem}.png` in `out_dir`.
pub fn narrow_output_path_for(pdf: &str, out_dir: &str, kind: CropKind) -> (r: Result<
    String,
    PvError,
>)
    ensures
        match file_stem_of(pdf@) {
            Some(stem) => r is Ok && r->Ok_0@ == join_all(
                out_dir@,
                seq![crop_kind_part(kind), "narrow"@, stem + ".png"@],
            ),
            None => r is Err && r->Err_0.message@ == "PDF path has no valid file stem"@,
        },
{
    let stem = match stem_or(pdf, "PDF path has no valid file stem", false) {
        Ok(s) => s,
        Err(e) => {
            assert("PDF path has no valid file stem"@ + Seq::<char>::empty() =~= "PDF path has no valid file stem"@);
            return Err(e);
        },
    };
    let a = path_join(out_dir, kind.directory_name());
    let b = path_join(a.as_str(), "narrow");
    let name = png_name(stem.as_str());
    let r = path_join(b.as_str(), name.as_str());
    proof {
        reveal_with_fuel(join_all, 4);
        let names = seq![crop_kind_part(kind), "narrow"@, stem@ + ".png"@];
        assert(names.drop_last() =~= seq![crop_kind_part(kind), "narrow"@]);
        assert(names.drop_last().drop_last() =~= seq![crop_kind_part(kind)]);
        assert(names.drop_last().drop_last().drop_last() =~= Seq::<Seq<char>>::empty());
    }
    Ok(r)
}

/// The official CSV to compare with: `results/official/` in the
/// municipality directory, the first-count file when it exists, otherwise
/// the recount file.
pub fn compare_official_csv_path(municipality_dir: &str, first_count_exists: bool) -> (r: String)
    ensures
        r@ == join_all(
            municipality_dir@,
            seq![
                "results"@,
                "official"@,
                if first_count_exists {
                    "first-count-tellingsbestand.csv"@
                } else {
                    "gsb-tellingsbestand.csv"@
                },
            ],
        ),
{
    let a = path_join(municipality_dir, "results");
    let b = path_join(a.as_str(), "official");
    let name = if first_count_exists {
        "first-count-tellingsbestand.csv"
    } else {
        "gsb-tellingsbestand.csv"
    };
    let r = path_join(b.as_str(), name);
    proof {
        reveal_with_fuel(join_all, 4);
        let names = seq!["results"@, "official"@, name@];
        assert(names.drop_last() =~= seq!["results"@, "official"@]);
        assert(names.drop_last().drop_last() =~= seq!["results"@]);
        assert(names.drop_last().drop_last().drop_last() =~= Seq::<Seq<char>>::empty());
    }
    r
}

/// The recount file (`gsb-tellingsbestand.csv`) holds corrected values, so
/// comparing a first count with it needs the corrections undone.
pub fn official_csv_needs_correction_reversal(official_csv: &str) -> (r: bool)
    ensures
        r == (file_name_of(official_csv@) == Some("gsb-tellingsbestand.csv"@)),
{
    match path_file_name(official_csv) {
        Some(n) => {
            let v = to_chars(n.as_str());
            eq_str(&v, "gsb-tellingsbestand.csv")
        },
        None => false,
    }
}

/// Refuses to overwrite the crop `path` when it already `exists`.
pub fn ensure_output_absent(path: &str, exists: bool) -> (r: Result<(), PvError>)
    ensures
        exists ==> r is Err && r->Err_0.message@ == "output already exists: "@ + path@
            + ". Remove existing crops before rerunning."@,
        !exists ==> r is Ok,
{
    if exists {
        let mut m = to_chars("output already exists: ");
        push_str(&mut m, path);
        push_str(&mut m, ". Remove existing crops before rerunning.");
        return Err(error_from_chars(&m));
    }
    Ok(())
}

/// Whether an OCR image still needs work: when forced, when it has no
/// Markdown output yet (`output_valid` is `None`), or when that output
/// does not pass validation.
pub fn ocr_image_needs_work(force: bool, output_valid: Option<bool>) -> (r: bool)
    ensures
        r == (force || output_valid != Some(true)),
{
    if force {
        return true;
    }
    match output_valid {
        Some(v) => !v,
        None => true,
    }
}

/// What `Path::extension` gives for the path text `p`: the part of its
/// file name after the last dot, if any. It follows the path rules of the platform the
/// library is built for (its separators and prefixes), which are fixed
/// within one build.
pub uninterp spec fn extension_of(p: Seq<char>) -> Option<Seq<char>>;

/// `Path::new(p).extension()`, as text.
#[verifier::external_body]
pub(crate) fn path_extension(p: &str) -> (r: Option<String>)
    ensures
        match r {
            Some(s) => extension_of(p@) == Some(s@),
            None => extension_of(p@) is None,
        },
{
    match std::path::Path::new(p).extension() {
        Some(e) => e.to_str().map(str::to_owned),
        None => None,
    }
}

} // verus!
