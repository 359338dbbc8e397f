//! Command-line arguments of the tool's commands.
use vstd::prelude::*;
use crate::error::{error_from_chars, PvError};
use crate::help::{
    COMPARE_RESULTS_HELP_TEXT, CROP_HELP_TEXT, OFFICIAL_CSVS_HELP_TEXT,
    compare_results_help_text, crop_help_text, official_csvs_help_text,
};
use crate::names::{crop_kind_of, normalize_election, normalized_election, normalized_station, CropKind, ReportFormat};
use crate::text::{debug_quoted, is_digit, digit_value, starts_with};
use crate::textops::{append_chars, debug_chars, eq_str, from_chars, push_str, starts_with_str, to_chars};

verus! {

broadcast use vstd::string::group_string_axioms;

/// Why a decimal integer could not be read, as `str::parse` reports it.
#[derive(Clone, Copy, Debug, PartialEq, Eq, Structural)]
pub enum IntError {
    Empty,
    InvalidDigit,
    PosOverflow,
}

/// The message of an integer parse error.
pub open spec fn int_error_text(e: IntError) -> Seq<char> {
    match e {
        IntError::Empty => "cannot parse integer from empty string"@,
        IntError::InvalidDigit => "invalid digit found in string"@,
        IntError::PosOverflow => "number too large to fit in target type"@,
    }
}

/// Reading the digits `d[i..]` after the value `acc` so far, left to right:
/// the first character that is not a digit, or the first digit that takes
/// the value above `max`, is the error.
pub open spec fn uint_digits_from(d: Seq<char>, max: nat, i: int, acc: nat) -> Result<nat, IntError>
    decreases d.len() - i,
{
    if i < 0 || i >= d.len() {
        Ok(acc)
    } else if !is_digit(d[i]) {
        Err(IntError::InvalidDigit)
    } else if acc * 10 + digit_value(d[i]) > max {
        Err(IntError::PosOverflow)
    } else {
        uint_digits_from(d, max, i + 1, acc * 10 + digit_value(d[i]))
    }
}

/// `str::parse` of an unsigned integer type whose largest value is `max`.
pub open spec fn uint_parse(s: Seq<char>, max: nat) -> Result<nat, IntError> {
    if s.len() == 0 {
        Err(IntError::Empty)
    } else if s.len() == 1 && (s[0] == '+' || s[0] == '-') {
        Err(IntError::InvalidDigit)
    } else if s[0] == '+' {
        uint_digits_from(s.drop_first(), max, 0, 0)
    } else {
        uint_digits_from(s, max, 0, 0)
    }
}

proof fn lemma_uint_digits_bound(d: Seq<char>, max: nat, i: int, acc: nat)
    requires
        acc <= max,
    ensures
        match uint_digits_from(d, max, i, acc) {
            Ok(n) => n <= max,
            Err(_) => true,
        },
    decreases d.len() - i,
{
    if 0 <= i < d.len() && is_digit(d[i]) && acc * 10 + digit_value(d[i]) <= max {
        lemma_uint_digits_bound(d, max, i + 1, acc * 10 + digit_value(d[i]));
    }
}

/// A value read by `uint_parse` is at most the largest value allowed.
pub proof fn lemma_uint_parse_bound(s: Seq<char>, max: nat)
    ensures
        match uint_parse(s, max) {
            Ok(n) => n <= max,
            Err(_) => true,
        },
{
    if s.len() > 0 {
        lemma_uint_digits_bound(s.drop_first(), max, 0, 0);
        lemma_uint_digits_bound(s, max, 0, 0);
    }
}

/// `s` read as an unsigned decimal integer of at most `max`, as `str::parse`
/// reads it.
pub fn parse_uint(s: &str, max: u64) -> (r: Result<u64, IntError>)
    ensures
        match uint_parse(s@, max as nat) {
            Ok(n) => r == Ok::<u64, IntError>(n as u64),
            Err(e) => r == Err::<u64, IntError>(e),
        },
{
    let v = to_chars(s);
    if v.len() == 0 {
        return Err(IntError::Empty);
    }
    if v.len() == 1 && (v[0] == '+' || v[0] == '-') {
        return Err(IntError::InvalidDigit);
    }
    let start: usize = if v[0] == '+' {
        1
    } else {
        0
    };
    let ghost d = v@.skip(start as int);
    assert(d =~= if v@[0] == '+' {
        v@.drop_first()
    } else {
        v@
    });
    let mut acc: u64 = 0;
    let mut i: usize = start;
    while i < v.len()
        invariant
            start <= i <= v.len(),
            d == v@.skip(start as int),
            acc <= max,
            uint_parse(s@, max as nat) == uint_digits_from(d, max as nat, i - start, acc as nat),
        decreases v.len() - i,
    {
        assert(d[i - start] == v@[i as int]);
        let c = v[i];
        if !crate::textops::is_ascii_digit(c) {
            return Err(IntError::InvalidDigit);
        }
        let x = (c as u32 - 48) as u64;
        assert(x == digit_value(c));
        let next: u128 = acc as u128 * 10 + x as u128;
        if next > max as u128 {
            return Err(IntError::PosOverflow);
        }
        acc = next as u64;
        i = i + 1;
    }
    proof {
        lemma_uint_digits_bound(d, max as nat, i - start, acc as nat);
    }
    Ok(acc)
}

/// An integer parse error as the tool reports it.
fn int_error(e: IntError) -> (r: PvError)
    ensures
        r.message@ == int_error_text(e),
{
    let m = match e {
        IntError::Empty => "cannot parse integer from empty string",
        IntError::InvalidDigit => "invalid digit found in string",
        IntError::PosOverflow => "number too large to fit in target type",
    };
    PvError { message: m.to_owned() }
}

/// The value following an option: `args[index]`, or the error that the
/// option needs one.
pub fn require_arg<'a>(args: &'a [String], index: usize, option: &str) -> (r: Result<&'a str, PvError>)
    ensures
        index < args@.len() ==> r is Ok && r->Ok_0@ == args@[index as int]@,
        index >= args@.len() ==> r is Err && r->Err_0.message@ == option@ + " needs a value"@,
{
    if index < args.len() {
        Ok(args[index].as_str())
    } else {
        let mut m = to_chars(option);
        push_str(&mut m, " needs a value");
        Err(error_from_chars(&m))
    }
}

/// The error for an option the command does not know.
fn unknown_option(arg: &str) -> (r: PvError)
    ensures
        r.message@ == "unknown option "@ + debug_quoted(arg@),
{
    let mut m = to_chars("unknown option ");
    let v = to_chars(arg);
    let q = debug_chars(&v);
    append_chars(&mut m, &q);
    error_from_chars(&m)
}

/// The error for a command given other than two positional arguments.
fn usage_error(command: &str, help: &str) -> (r: PvError)
    ensures
        r.message@ == command@ + " expects <election> <municipality>\n\n"@ + help@,
{
    let mut m = to_chars(command);
    push_str(&mut m, " expects <election> <municipality>\n\n");
    push_str(&mut m, help);
    error_from_chars(&m)
}

/// `s` with `x` added unless it is already there.
pub open spec fn set_insert(s: Seq<Seq<char>>, x: Seq<char>) -> Seq<Seq<char>> {
    if s.contains(x) {
        s
    } else {
        s.push(x)
    }
}

/// Adds `x` to the set of strings `v` unless it is already there.
fn insert_unique(v: &mut Vec<String>, x: String)
    ensures
        crate::text::strs(final(v)@) == set_insert(crate::text::strs(old(v)@), x@),
{
    let ghost s = crate::text::strs(v@);
    let xc = to_chars(x.as_str());
    let mut i: usize = 0;
    while i < v.len()
        invariant
            s == crate::text::strs(v@),
            xc@ == x@,
            i <= v.len(),
            forall|j: int| 0 <= j < i ==> s[j] != x@,
        decreases v.len() - i,
    {
        let c = to_chars(v[i].as_str());
        assert(s[i as int] == c@);
        if crate::textops::chars_eq(&c, &xc) {
            assert(s.contains(x@));
            return;
        }
        i = i + 1;
    }
    assert(!s.contains(x@));
    v.push(x);
    assert(crate::text::strs(v@) =~= s.push(x@));
}

/// What the arguments of `official-csvs` set.
pub struct CsvArgs {
    pub positionals: Seq<Seq<char>>,
    pub out_dir: Option<Seq<char>>,
    pub gsb_url: Option<Seq<char>>,
    pub csb_url: Option<Seq<char>>,
    pub force: bool,
}

/// Reading the arguments of `official-csvs` from `a[i..]`.
pub open spec fn csvs_args_from(a: Seq<Seq<char>>, i: int, st: CsvArgs) -> Result<CsvArgs, Seq<char>>
    decreases a.len() - i,
{
    if i < 0 || i >= a.len() {
        Ok(st)
    } else {
        let arg = a[i];
        if arg == "--out-dir"@ {
            if i + 1 < a.len() {
                csvs_args_from(a, i + 2, CsvArgs { out_dir: Some(a[i + 1]), ..st })
            } else {
                Err("--out-dir"@ + " needs a value"@)
            }
        } else if arg == "--gsb-url"@ {
            if i + 1 < a.len() {
                csvs_args_from(a, i + 2, CsvArgs { gsb_url: Some(a[i + 1]), ..st })
            } else {
                Err("--gsb-url"@ + " needs a value"@)
            }
        } else if arg == "--csb-url"@ {
            if i + 1 < a.len() {
                csvs_args_from(a, i + 2, CsvArgs { csb_url: Some(a[i + 1]), ..st })
            } else {
                Err("--csb-url"@ + " needs a value"@)
            }
        } else if arg == "--force"@ {
            csvs_args_from(a, i + 1, CsvArgs { force: true, ..st })
        } else if starts_with(arg, "--"@) {
            Err("unknown option "@ + debug_quoted(arg))
        } else {
            csvs_args_from(a, i + 1, CsvArgs { positionals: st.positionals.push(arg), ..st })
        }
    }
}

/// What the arguments of `official-csvs` give, or the error they cause.
pub open spec fn csvs_args_outcome(a: Seq<Seq<char>>) -> Result<CsvArgs, Seq<char>> {
    let init = CsvArgs {
        positionals: Seq::empty(),
        out_dir: None,
        gsb_url: None,
        csb_url: None,
        force: false,
    };
    match csvs_args_from(a, 0, init) {
        Err(e) => Err(e),
        Ok(st) => if st.positionals.len() != 2 {
            Err(
                "official-csvs"@ + " expects <election> <municipality>\n\n"@
                    + OFFICIAL_CSVS_HELP_TEXT@,
            )
        } else {
            Ok(st)
        },
    }
}

/// The options of `official-csvs`.
#[derive(Debug)]
pub struct OfficialCsvOptions {
    pub election: String,
    pub municipality: String,
    pub out_dir: Option<String>,
    pub gsb_url: Option<String>,
    pub csb_url: Option<String>,
    pub force: bool,
}

/// The text of an optional string.
pub open spec fn opt_text(o: Option<String>) -> Option<Seq<char>> {
    match o {
        Some(s) => Some(s@),
        None => None,
    }
}

/// The options of `official-csvs`: `<election> <municipality>`,
/// `--out-dir`, `--gsb-url`, `--csb-url` and `--force`.
pub fn parse_official_csvs_args(args: &[String]) -> (r: Result<OfficialCsvOptions, PvError>)
    ensures
        match csvs_args_outcome(crate::text::strs(args@)) {
            Ok(st) => r is Ok && {
                let o = r->Ok_0;
                &&& o.election@ == normalized_election(st.positionals[0])
                &&& o.municipality@ == st.positionals[1]
                &&& opt_text(o.out_dir) == st.out_dir
                &&& opt_text(o.gsb_url) == st.gsb_url
                &&& opt_text(o.csb_url) == st.csb_url
                &&& o.force == st.force
            },
            Err(m) => r is Err && r->Err_0.message@ == m,
        },
{
    let ghost a = crate::text::strs(args@);
    let ghost init = CsvArgs {
        positionals: Seq::empty(),
        out_dir: None,
        gsb_url: None,
        csb_url: None,
        force: false,
    };
    let mut positionals: Vec<String> = Vec::new();
    let mut out_dir: Option<String> = None;
    let mut gsb_url: Option<String> = None;
    let mut csb_url: Option<String> = None;
    let mut force = false;
    let mut index: usize = 0;
    assert(crate::text::strs(positionals@) =~= Seq::<Seq<char>>::empty());
    while index < args.len()
        invariant
            a == crate::text::strs(args@),
            index <= args.len(),
            init == (CsvArgs {
                positionals: Seq::empty(),
                out_dir: None,
                gsb_url: None,
                csb_url: None,
                force: false,
            }),
            csvs_args_from(a, 0, init) == csvs_args_from(
                a,
                index as int,
                CsvArgs {
                    positionals: crate::text::strs(positionals@),
                    out_dir: opt_text(out_dir),
                    gsb_url: opt_text(gsb_url),
                    csb_url: opt_text(csb_url),
                    force,
                },
            ),
        decreases args.len() - index,
    {
        let arg = args[index].as_str();
        assert(a[index as int] == arg@);
        let v = to_chars(arg);
        if eq_str(&v, "--out-dir") {
            match require_arg(args, index + 1, "--out-dir") {
                Ok(x) => {
                    out_dir = Some(x.to_owned());
                    index = index + 1;
                },
                Err(e) => {
                    return Err(e);
                },
            }
        } else if eq_str(&v, "--gsb-url") {
            match require_arg(args, index + 1, "--gsb-url") {
                Ok(x) => {
                    gsb_url = Some(x.to_owned());
                    index = index + 1;
                },
                Err(e) => {
                    return Err(e);
                },
            }
        } else if eq_str(&v, "--csb-url") {
            match require_arg(args, index + 1, "--csb-url") {
                Ok(x) => {
                    csb_url = Some(x.to_owned());
                    index = index + 1;
                },
                Err(e) => {
                    return Err(e);
                },
            }
        } else if eq_str(&v, "--force") {
            force = true;
        } else if starts_with_str(&v, "--") {
            return Err(unknown_option(arg));
        } else {
            let ghost p0 = crate::text::strs(positionals@);
            positionals.push(arg.to_owned());
            assert(crate::text::strs(positionals@) =~= p0.push(arg@));
        }
        index = index + 1;
    }
    if positionals.len() != 2 {
        return Err(usage_error("official-csvs", official_csvs_help_text()));
    }
    assert(crate::text::strs(positionals@)[0] == positionals@[0]@);
    assert(crate::text::strs(positionals@)[1] == positionals@[1]@);
    Ok(
        OfficialCsvOptions {
            election: normalize_election(positionals[0].as_str()),
            municipality: positionals[1].clone(),
            out_dir,
            gsb_url,
            csb_url,
            force,
        },
    )
}

/// The URL of Utrecht's station-level result CSV (GSB).
pub const UTRECHT_GSB_CSV_URL: &'static str = "https://open.utrecht.nl/sites/default/files/open-data/osv4-3-telling-gr2026-utrecht.csv";

/// The URL of Utrecht's final result CSV (CSB).
pub const UTRECHT_CSB_CSV_URL: &'static str = "https://open.utrecht.nl/sites/default/files/open-data/osv4-3-telling-gr2026-utrecht_0.csv";

/// An official CSV to download: what it is, the file it goes to, and where
/// it comes from.
#[derive(Debug)]
pub struct OfficialCsvSource {
    pub label: &'static str,
    pub file_name: &'static str,
    pub url: String,
}

/// The two sources with the given URLs.
fn csv_sources(gsb_url: String, csb_url: String) -> (r: Vec<OfficialCsvSource>)
    ensures
        r@.len() == 2,
        r@[0].label@ == "GSB tellingsbestand"@,
        r@[0].file_name@ == "gsb-tellingsbestand.csv"@,
        r@[0].url@ == gsb_url@,
        r@[1].label@ == "CSB tellingsbestand"@,
        r@[1].file_name@ == "csb-tellingsbestand.csv"@,
        r@[1].url@ == csb_url@,
{
    let mut v: Vec<OfficialCsvSource> = Vec::new();
    v.push(
        OfficialCsvSource {
            label: "GSB tellingsbestand",
            file_name: "gsb-tellingsbestand.csv",
            url: gsb_url,
        },
    );
    v.push(
        OfficialCsvSource {
            label: "CSB tellingsbestand",
            file_name: "csb-tellingsbestand.csv",
            url: csb_url,
        },
    );
    v
}

/// Whether built-in URLs exist for the election and municipality: only for
/// Utrecht (`2026-GR 0344`).
pub open spec fn has_default_sources(election: Seq<char>, municipality: Seq<char>) -> bool {
    election == "2026-GR"@ && municipality == "0344"@
}

/// The built-in official CSV sources for an election and municipality, if
/// there are any.
pub fn default_official_csv_sources(election: &str, municipality: &str) -> (r: Option<
    Vec<OfficialCsvSource>,
>)
    ensures
        has_default_sources(election@, municipality@) ==> r is Some && {
            let v = r->0@;
            &&& v.len() == 2
            &&& v[0].label@ == "GSB tellingsbestand"@
            &&& v[0].file_name@ == "gsb-tellingsbestand.csv"@
            &&& v[0].url@ == UTRECHT_GSB_CSV_URL@
            &&& v[1].label@ == "CSB tellingsbestand"@
            &&& v[1].file_name@ == "csb-tellingsbestand.csv"@
            &&& v[1].url@ == UTRECHT_CSB_CSV_URL@
        },
        !has_default_sources(election@, municipality@) ==> r is None,
{
    let e = to_chars(election);
    let m = to_chars(municipality);
    if eq_str(&e, "2026-GR") && eq_str(&m, "0344") {
        Some(csv_sources(UTRECHT_GSB_CSV_URL.to_owned(), UTRECHT_CSB_CSV_URL.to_owned()))
    } else {
        None
    }
}

/// The official CSVs to download: the URLs given as options, or else the
/// built-in ones; both are needed.
pub fn official_csv_sources(options: &OfficialCsvOptions) -> (r: Result<Vec<OfficialCsvSource>, PvError>)
    ensures
        ({
            let d = has_default_sources(options.election@, options.municipality@);
            let gsb = match options.gsb_url {
                Some(u) => Some(u@),
                None => if d {
                    Some(UTRECHT_GSB_CSV_URL@)
                } else {
                    None
                },
            };
            let csb = match options.csb_url {
                Some(u) => Some(u@),
                None => if d {
                    Some(UTRECHT_CSB_CSV_URL@)
                } else {
                    None
                },
            };
            if gsb is Some && csb is Some {
                r is Ok && {
                    let v = r->Ok_0@;
                    &&& v.len() == 2
                    &&& v[0].label@ == "GSB tellingsbestand"@
                    &&& v[0].file_name@ == "gsb-tellingsbestand.csv"@
                    &&& v[0].url@ == gsb->0
                    &&& v[1].label@ == "CSB tellingsbestand"@
                    &&& v[1].file_name@ == "csb-tellingsbestand.csv"@
                    &&& v[1].url@ == csb->0
                }
            } else {
                r is Err && r->Err_0.message@ == "no built-in official CSV URLs for "@
                    + options.election@ + "/"@ + options.municipality@
                    + "; pass both --gsb-url and --csb-url"@
            }
        }),
{
    let defaults = default_official_csv_sources(options.election.as_str(), options.municipality.as_str());
    let gsb_url: Option<String> = match &options.gsb_url {
        Some(u) => Some(u.clone()),
        None => match &defaults {
            Some(d) => Some(d[0].url.clone()),
            None => None,
        },
    };
    let csb_url: Option<String> = match &options.csb_url {
        Some(u) => Some(u.clone()),
        None => match &defaults {
            Some(d) => Some(d[1].url.clone()),
            None => None,
        },
    };
    match (gsb_url, csb_url) {
        (Some(g), Some(c)) => Ok(csv_sources(g, c)),
        _ => {
            let mut m = to_chars("no built-in official CSV URLs for ");
            push_str(&mut m, options.election.as_str());
            push_str(&mut m, "/");
            push_str(&mut m, options.municipality.as_str());
            push_str(&mut m, "; pass both --gsb-url and --csb-url");
            Err(error_from_chars(&m))
        },
    }
}

/// The report format a command-line value names.
pub open spec fn report_format_of(v: Seq<char>) -> Option<ReportFormat> {
    if v == "terminal"@ {
        Some(ReportFormat::Terminal)
    } else if v == "markdown"@ {
        Some(ReportFormat::Markdown)
    } else {
        None
    }
}

/// What the arguments of `compare-results` set.
pub struct CompareArgs {
    pub positionals: Seq<Seq<char>>,
    pub results_dir: Option<Seq<char>>,
    pub corrections_dir: Option<Seq<char>>,
    pub candidates_dir: Option<Seq<char>>,
    pub output_path: Option<Seq<char>>,
    pub stations: Seq<Seq<char>>,
    pub format: ReportFormat,
    pub debug: bool,
}

/// Reading the arguments of `compare-results` from `a[i..]`.
pub open spec fn compare_args_from(a: Seq<Seq<char>>, i: int, st: CompareArgs) -> Result<
    CompareArgs,
    Seq<char>,
>
    decreases a.len() - i,
{
    if i < 0 || i >= a.len() {
        Ok(st)
    } else {
        let arg = a[i];
        let has_value = i + 1 < a.len();
        if arg == "--results-dir"@ {
            if has_value {
                compare_args_from(a, i + 2, CompareArgs { results_dir: Some(a[i + 1]), ..st })
            } else {
                Err("--results-dir"@ + " needs a value"@)
            }
        } else if arg == "--corrections-dir"@ {
            if has_value {
                compare_args_from(a, i + 2, CompareArgs { corrections_dir: Some(a[i + 1]), ..st })
            } else {
                Err("--corrections-dir"@ + " needs a value"@)
            }
        } else if arg == "--candidates-dir"@ {
            if has_value {
                compare_args_from(a, i + 2, CompareArgs { candidates_dir: Some(a[i + 1]), ..st })
            } else {
                Err("--candidates-dir"@ + " needs a value"@)
            }
        } else if arg == "--output"@ {
            if has_value {
                compare_args_from(a, i + 2, CompareArgs { output_path: Some(a[i + 1]), ..st })
            } else {
                Err("--output"@ + " needs a value"@)
            }
        } else if arg == "--station"@ {
            if has_value {
                compare_args_from(
                    a,
                    i + 2,
                    CompareArgs {
                        stations: set_insert(st.stations, normalized_station(a[i + 1])),
                        ..st
                    },
                )
            } else {
                Err("--station"@ + " needs a value"@)
            }
        } else if arg == "--format"@ {
            if has_value {
                match report_format_of(a[i + 1]) {
                    Some(f) => compare_args_from(a, i + 2, CompareArgs { format: f, ..st }),
                    None => Err(
                        "unknown report format "@ + debug_quoted(a[i + 1])
                            + "; expected terminal or markdown"@,
                    ),
                }
            } else {
                Err("--format"@ + " needs a value"@)
            }
        } else if arg == "--debug"@ {
            compare_args_from(a, i + 1, CompareArgs { debug: true, ..st })
        } else if starts_with(arg, "--"@) {
            Err("unknown option "@ + debug_quoted(arg))
        } else {
            compare_args_from(a, i + 1, CompareArgs { positionals: st.positionals.push(arg), ..st })
        }
    }
}

/// The state before any argument of `compare-results` is read.
pub open spec fn compare_args_init() -> CompareArgs {
    CompareArgs {
        positionals: Seq::empty(),
        results_dir: None,
        corrections_dir: None,
        candidates_dir: None,
        output_path: None,
        stations: Seq::empty(),
        format: ReportFormat::Terminal,
        debug: false,
    }
}

/// What the arguments of `compare-results` give, or the error they cause.
pub open spec fn compare_args_outcome(a: Seq<Seq<char>>) -> Result<CompareArgs, Seq<char>> {
    match compare_args_from(a, 0, compare_args_init()) {
        Err(e) => Err(e),
        Ok(st) => if st.positionals.len() != 2 {
            Err(
                "compare-results"@ + " expects <election> <municipality>\n\n"@
                    + COMPARE_RESULTS_HELP_TEXT@,
            )
        } else {
            Ok(st)
        },
    }
}

/// The options of `compare-results`.
#[derive(Debug)]
pub struct CompareResultsOptions {
    pub election: String,
    pub municipality: String,
    pub results_dir: Option<String>,
    pub corrections_dir: Option<String>,
    pub candidates_dir: Option<String>,
    pub output_path: Option<String>,
    pub stations: Vec<String>,
    pub format: ReportFormat,
    pub debug: bool,
}

/// Reads an option's value into `slot`, or gives the error that it has none.
fn take_value(args: &[String], index: usize, option: &str, slot: &mut Option<String>) -> (r: Result<(), PvError>)
    requires
        index < args.len(),
    ensures
        index + 1 < args@.len() ==> r is Ok && opt_text(*final(slot)) == Some(args@[index + 1]@),
        index + 1 >= args@.len() ==> r is Err && r->Err_0.message@ == option@ + " needs a value"@
            && *final(slot) == *old(slot),
{
    if index + 1 < args.len() {
        *slot = Some(args[index + 1].clone());
        Ok(())
    } else {
        match require_arg(args, index + 1, option) {
            Ok(_) => Ok(()),
            Err(e) => Err(e),
        }
    }
}

/// The options of `compare-results`: `<election> <municipality>`,
/// `--results-dir`, `--corrections-dir`, `--candidates-dir`, `--output`,
/// `--station` (repeatable), `--format` and `--debug`.
pub fn parse_compare_results_args(args: &[String]) -> (r: Result<CompareResultsOptions, PvError>)
    ensures
        match compare_args_outcome(crate::text::strs(args@)) {
            Ok(st) => r is Ok && {
                let o = r->Ok_0;
                &&& o.election@ == normalized_election(st.positionals[0])
                &&& o.municipality@ == st.positionals[1]
                &&& opt_text(o.results_dir) == st.results_dir
                &&& opt_text(o.corrections_dir) == st.corrections_dir
                &&& opt_text(o.candidates_dir) == st.candidates_dir
                &&& opt_text(o.output_path) == st.output_path
                &&& crate::text::strs(o.stations@) == st.stations
                &&& o.format == st.format
                &&& o.debug == st.debug
            },
            Err(m) => r is Err && r->Err_0.message@ == m,
        },
{
    let ghost a = crate::text::strs(args@);
    let mut positionals: Vec<String> = Vec::new();
    let mut results_dir: Option<String> = None;
    let mut corrections_dir: Option<String> = None;
    let mut candidates_dir: Option<String> = None;
    let mut output_path: Option<String> = None;
    let mut stations: Vec<String> = Vec::new();
    let mut format = ReportFormat::Terminal;
    let mut debug = false;
    let mut index: usize = 0;
    assert(crate::text::strs(positionals@) =~= Seq::<Seq<char>>::empty());
    assert(crate::text::strs(stations@) =~= Seq::<Seq<char>>::empty());
    while index < args.len()
        invariant
            a == crate::text::strs(args@),
            index <= args.len(),
            compare_args_from(a, 0, compare_args_init()) == compare_args_from(
                a,
                index as int,
                CompareArgs {
                    positionals: crate::text::strs(positionals@),
                    results_dir: opt_text(results_dir),
                    corrections_dir: opt_text(corrections_dir),
                    candidates_dir: opt_text(candidates_dir),
                    output_path: opt_text(output_path),
                    stations: crate::text::strs(stations@),
                    format,
                    debug,
                },
            ),
        decreases args.len() - index,
    {
        let arg = args[index].as_str();
        assert(a[index as int] == arg@);
        let v = to_chars(arg);
        if eq_str(&v, "--results-dir") {
            match take_value(args, index, "--results-dir", &mut results_dir) {
                Ok(()) => {
                    index = index + 1;
                },
                Err(e) => {
                    return Err(e);
                },
            }
        } else if eq_str(&v, "--corrections-dir") {
            match take_value(args, index, "--corrections-dir", &mut corrections_dir) {
                Ok(()) => {
                    index = index + 1;
                },
                Err(e) => {
                    return Err(e);
                },
            }
        } else if eq_str(&v, "--candidates-dir") {
            match take_value(args, index, "--candidates-dir", &mut candidates_dir) {
                Ok(()) => {
                    index = index + 1;
                },
                Err(e) => {
                    return Err(e);
                },
            }
        } else if eq_str(&v, "--output") {
            match take_value(args, index, "--output", &mut output_path) {
                Ok(()) => {
                    index = index + 1;
                },
                Err(e) => {
                    return Err(e);
                },
            }
        } else if eq_str(&v, "--station") {
            match require_arg(args, index + 1, "--station") {
                Ok(x) => {
                    insert_unique(&mut stations, crate::names::normalize_station_number(x));
                    index = index + 1;
                },
                Err(e) => {
                    return Err(e);
                },
            }
        } else if eq_str(&v, "--format") {
            match require_arg(args, index + 1, "--format") {
                Ok(x) => {
                    match ReportFormat::parse(x) {
                        Ok(f) => {
                            format = f;
                        },
                        Err(e) => {
                            return Err(e);
                        },
                    }
                    index = index + 1;
                },
                Err(e) => {
                    return Err(e);
                },
            }
        } else if eq_str(&v, "--debug") {
            debug = true;
        } else if starts_with_str(&v, "--") {
            return Err(unknown_option(arg));
        } else {
            let ghost p0 = crate::text::strs(positionals@);
            positionals.push(arg.to_owned());
            assert(crate::text::strs(positionals@) =~= p0.push(arg@));
        }
        index = index + 1;
    }
    if positionals.len() != 2 {
        return Err(usage_error("compare-results", compare_results_help_text()));
    }
    assert(crate::text::strs(positionals@)[0] == positionals@[0]@);
    assert(crate::text::strs(positionals@)[1] == positionals@[1]@);
    Ok(
        CompareResultsOptions {
            election: normalize_election(positionals[0].as_str()),
            municipality: positionals[1].clone(),
            results_dir,
            corrections_dir,
            candidates_dir,
            output_path,
            stations,
            format,
            debug,
        },
    )
}

/// What the arguments of `crop` set.
pub struct CropArgs {
    pub positionals: Seq<Seq<char>>,
    pub pdf: Option<Seq<char>>,
    pub stations: Seq<Seq<char>>,
    pub out_dir: Option<Seq<char>>,
    pub kind: CropKind,
    pub page_override: Option<u32>,
    pub keep_page_images: bool,
    pub force: bool,
}

/// Reading the arguments of `crop` from `a[i..]`.
pub open spec fn crop_args_from(a: Seq<Seq<char>>, i: int, st: CropArgs) -> Result<CropArgs, Seq<char>>
    decreases a.len() - i,
{
    if i < 0 || i >= a.len() {
        Ok(st)
    } else {
        let arg = a[i];
        let has_value = i + 1 < a.len();
        if arg == "--pdf"@ {
            if has_value {
                crop_args_from(a, i + 2, CropArgs { pdf: Some(a[i + 1]), ..st })
            } else {
                Err("--pdf"@ + " needs a value"@)
            }
        } else if arg == "--station"@ {
            if has_value {
                crop_args_from(
                    a,
                    i + 2,
                    CropArgs { stations: set_insert(st.stations, normalized_station(a[i + 1])), ..st },
                )
            } else {
                Err("--station"@ + " needs a value"@)
            }
        } else if arg == "--out-dir"@ {
            if has_value {
                crop_args_from(a, i + 2, CropArgs { out_dir: Some(a[i + 1]), ..st })
            } else {
                Err("--out-dir"@ + " needs a value"@)
            }
        } else if arg == "--kind"@ {
            if has_value {
                match crop_kind_of(a[i + 1]) {
                    Some(k) => crop_args_from(a, i + 2, CropArgs { kind: k, ..st }),
                    None => Err(
                        "unknown crop kind "@ + debug_quoted(a[i + 1])
                            + "; expected votes / 2.2, corrections / b1-2.4, or candidates / b1-3.5"@,
                    ),
                }
            } else {
                Err("--kind"@ + " needs a value"@)
            }
        } else if arg == "--page"@ {
            if has_value {
                match uint_parse(a[i + 1], u32::MAX as nat) {
                    Ok(n) => crop_args_from(a, i + 2, CropArgs { page_override: Some(n as u32), ..st }),
                    Err(e) => Err(int_error_text(e)),
                }
            } else {
                Err("--page"@ + " needs a value"@)
            }
        } else if arg == "--keep-page-images"@ {
            crop_args_from(a, i + 1, CropArgs { keep_page_images: true, ..st })
        } else if arg == "--force"@ {
            crop_args_from(a, i + 1, CropArgs { force: true, ..st })
        } else if starts_with(arg, "--"@) {
            Err("unknown option "@ + debug_quoted(arg))
        } else {
            crop_args_from(a, i + 1, CropArgs { positionals: st.positionals.push(arg), ..st })
        }
    }
}

/// The state before any argument of `crop` is read.
pub open spec fn crop_args_init() -> CropArgs {
    CropArgs {
        positionals: Seq::empty(),
        pdf: None,
        stations: Seq::empty(),
        out_dir: None,
        kind: CropKind::Votes,
        page_override: None,
        keep_page_images: false,
        force: false,
    }
}

/// What the arguments of `crop` give, or the error they cause.
pub open spec fn crop_args_outcome(a: Seq<Seq<char>>) -> Result<CropArgs, Seq<char>> {
    match crop_args_from(a, 0, crop_args_init()) {
        Err(e) => Err(e),
        Ok(st) => if st.positionals.len() != 2 {
            Err("crop"@ + " expects <election> <municipality>\n\n"@ + CROP_HELP_TEXT@)
        } else {
            Ok(st)
        },
    }
}

/// The options of `crop`.
#[derive(Debug)]
pub struct CropOptions {
    pub election: String,
    pub municipality: String,
    pub pdf: Option<String>,
    pub stations: Vec<String>,
    pub out_dir: Option<String>,
    pub kind: CropKind,
    pub page_override: Option<u32>,
    pub keep_page_images: bool,
    pub force: bool,
}

/// The options of `crop`: `<election> <municipality>`, `--pdf`,
/// `--station` (repeatable), `--out-dir`, `--kind`, `--page`,
/// `--keep-page-images` and `--force`.
pub fn parse_crop_args(args: &[String]) -> (r: Result<CropOptions, PvError>)
    ensures
        match crop_args_outcome(crate::text::strs(args@)) {
            Ok(st) => r is Ok && {
                let o = r->Ok_0;
                &&& o.election@ == normalized_election(st.positionals[0])
                &&& o.municipality@ == st.positionals[1]
                &&& opt_text(o.pdf) == st.pdf
                &&& crate::text::strs(o.stations@) == st.stations
                &&& opt_text(o.out_dir) == st.out_dir
                &&& o.kind == st.kind
                &&& o.page_override == st.page_override
                &&& o.keep_page_images == st.keep_page_images
                &&& o.force == st.force
            },
            Err(m) => r is Err && r->Err_0.message@ == m,
        },
{
    let ghost a = crate::text::strs(args@);
    let mut positionals: Vec<String> = Vec::new();
    let mut pdf: Option<String> = None;
    let mut stations: Vec<String> = Vec::new();
    let mut out_dir: Option<String> = None;
    let mut kind = CropKind::Votes;
    let mut page_override: Option<u32> = None;
    let mut keep_page_images = false;
    let mut force = false;
    let mut index: usize = 0;
    assert(crate::text::strs(positionals@) =~= Seq::<Seq<char>>::empty());
    assert(crate::text::strs(stations@) =~= Seq::<Seq<char>>::empty());
    while index < args.len()
        invariant
            a == crate::text::strs(args@),
            index <= args.len(),
            crop_args_from(a, 0, crop_args_init()) == crop_args_from(
                a,
                index as int,
                CropArgs {
                    positionals: crate::text::strs(positionals@),
                    pdf: opt_text(pdf),
                    stations: crate::text::strs(stations@),
                    out_dir: opt_text(out_dir),
                    kind,
                    page_override,
                    keep_page_images,
                    force,
                },
            ),
        decreases args.len() - index,
    {
        let arg = args[index].as_str();
        assert(a[index as int] == arg@);
        let v = to_chars(arg);
        if eq_str(&v, "--pdf") {
            match take_value(args, index, "--pdf", &mut pdf) {
                Ok(()) => {
                    index = index + 1;
                },
                Err(e) => {
                    return Err(e);
                },
            }
        } else if eq_str(&v, "--station") {
            match require_arg(args, index + 1, "--station") {
                Ok(x) => {
                    insert_unique(&mut stations, crate::names::normalize_station_number(x));
                    index = index + 1;
                },
                Err(e) => {
                    return Err(e);
                },
            }
        } else if eq_str(&v, "--out-dir") {
            match take_value(args, index, "--out-dir", &mut out_dir) {
                Ok(()) => {
                    index = index + 1;
                },
                Err(e) => {
                    return Err(e);
                },
            }
        } else if eq_str(&v, "--kind") {
            match require_arg(args, index + 1, "--kind") {
                Ok(x) => {
                    match CropKind::parse(x) {
                        Ok(k) => {
                            kind = k;
                        },
                        Err(e) => {
                            return Err(e);
                        },
                    }
                    index = index + 1;
                },
                Err(e) => {
                    return Err(e);
                },
            }
        } else if eq_str(&v, "--page") {
            match require_arg(args, index + 1, "--page") {
                Ok(x) => {
                    proof {
                        lemma_uint_parse_bound(x@, u32::MAX as nat);
                    }
                    match parse_uint(x, 0xFFFF_FFFF) {
                        Ok(n) => {
                            page_override = Some(n as u32);
                        },
                        Err(e) => {
                            return Err(int_error(e));
                        },
                    }
                    index = index + 1;
                },
                Err(e) => {
                    return Err(e);
                },
            }
        } else if eq_str(&v, "--keep-page-images") {
            keep_page_images = true;
        } else if eq_str(&v, "--force") {
            force = true;
        } else if starts_with_str(&v, "--") {
            return Err(unknown_option(arg));
        } else {
            let ghost p0 = crate::text::strs(positionals@);
            positionals.push(arg.to_owned());
            assert(crate::text::strs(positionals@) =~= p0.push(arg@));
        }
        index = index + 1;
    }
    if positionals.len() != 2 {
        return Err(usage_error("crop", crop_help_text()));
    }
    assert(crate::text::strs(positionals@)[0] == positionals@[0]@);
    assert(crate::text::strs(positionals@)[1] == positionals@[1]@);
    Ok(
        CropOptions {
            election: normalize_election(positionals[0].as_str()),
            municipality: positionals[1].clone(),
            pdf,
            stations,
            out_dir,
            kind,
            page_override,
            keep_page_images,
            force,
        },
    )
}

/// What the arguments of an OCR command set.
pub struct OcrArgs {
    pub positionals: Seq<Seq<char>>,
    pub input_dir: Option<Seq<char>>,
    pub out_dir: Option<Seq<char>>,
    pub prompt: Seq<char>,
    pub endpoint: Option<Seq<char>>,
    pub model: Option<Seq<char>>,
    pub images: Seq<Seq<char>>,
    pub stations: Seq<Seq<char>>,
    pub force: bool,
    pub max_new_stations: Option<nat>,
    pub max_tokens: nat,
    pub timeout_seconds: nat,
}

/// Reading the arguments of an OCR command from `a[i..]`.
pub open spec fn ocr_args_from(a: Seq<Seq<char>>, i: int, st: OcrArgs) -> Result<OcrArgs, Seq<char>>
    decreases a.len() - i,
{
    if i < 0 || i >= a.len() {
        Ok(st)
    } else {
        let arg = a[i];
        let has_value = i + 1 < a.len();
        if arg == "--input-dir"@ {
            if has_value {
                ocr_args_from(a, i + 2, OcrArgs { input_dir: Some(a[i + 1]), ..st })
            } else {
                Err("--input-dir"@ + " needs a value"@)
            }
        } else if arg == "--out-dir"@ {
            if has_value {
                ocr_args_from(a, i + 2, OcrArgs { out_dir: Some(a[i + 1]), ..st })
            } else {
                Err("--out-dir"@ + " needs a value"@)
            }
        } else if arg == "--prompt"@ {
            if has_value {
                ocr_args_from(a, i + 2, OcrArgs { prompt: a[i + 1], ..st })
            } else {
                Err("--prompt"@ + " needs a value"@)
            }
        } else if arg == "--endpoint"@ {
            if has_value {
                ocr_args_from(a, i + 2, OcrArgs { endpoint: Some(a[i + 1]), ..st })
            } else {
                Err("--endpoint"@ + " needs a value"@)
            }
        } else if arg == "--model"@ {
            if has_value {
                ocr_args_from(a, i + 2, OcrArgs { model: Some(a[i + 1]), ..st })
            } else {
                Err("--model"@ + " needs a value"@)
            }
        } else if arg == "--image"@ {
            if has_value {
                ocr_args_from(a, i + 2, OcrArgs { images: st.images.push(a[i + 1]), ..st })
            } else {
                Err("--image"@ + " needs a value"@)
            }
        } else if arg == "--station"@ {
            if has_value {
                ocr_args_from(
                    a,
                    i + 2,
                    OcrArgs { stations: set_insert(st.stations, normalized_station(a[i + 1])), ..st },
                )
            } else {
                Err("--station"@ + " needs a value"@)
            }
        } else if arg == "--force"@ {
            ocr_args_from(a, i + 1, OcrArgs { force: true, ..st })
        } else if arg == "--max-new-stations"@ || arg == "--max-stations"@ {
            if has_value {
                match uint_parse(a[i + 1], usize::MAX as nat) {
                    Ok(n) => if n == 0 {
                        Err(arg + " must be greater than zero"@)
                    } else {
                        ocr_args_from(a, i + 2, OcrArgs { max_new_stations: Some(n), ..st })
                    },
                    Err(e) => Err(int_error_text(e)),
                }
            } else {
                Err(arg + " needs a value"@)
            }
        } else if arg == "--max-tokens"@ {
            if has_value {
                match uint_parse(a[i + 1], u32::MAX as nat) {
                    Ok(n) => ocr_args_from(a, i + 2, OcrArgs { max_tokens: n, ..st }),
                    Err(e) => Err(int_error_text(e)),
                }
            } else {
                Err("--max-tokens"@ + " needs a value"@)
            }
        } else if arg == "--timeout-seconds"@ {
            if has_value {
                match uint_parse(a[i + 1], u64::MAX as nat) {
                    Ok(n) => ocr_args_from(a, i + 2, OcrArgs { timeout_seconds: n, ..st }),
                    Err(e) => Err(int_error_text(e)),
                }
            } else {
                Err("--timeout-seconds"@ + " needs a value"@)
            }
        } else if starts_with(arg, "--"@) {
            Err("unknown option "@ + debug_quoted(arg))
        } else {
            ocr_args_from(a, i + 1, OcrArgs { positionals: st.positionals.push(arg), ..st })
        }
    }
}

/// The state before any argument of an OCR command is read.
pub open spec fn ocr_args_init(default_prompt: Seq<char>) -> OcrArgs {
    OcrArgs {
        positionals: Seq::empty(),
        input_dir: None,
        out_dir: None,
        prompt: default_prompt,
        endpoint: None,
        model: None,
        images: Seq::empty(),
        stations: Seq::empty(),
        force: false,
        max_new_stations: None,
        max_tokens: 4096,
        timeout_seconds: 300,
    }
}

/// What the arguments of an OCR command give, or the error they cause.
pub open spec fn ocr_args_outcome(
    a: Seq<Seq<char>>,
    default_prompt: Seq<char>,
    command_name: Seq<char>,
    help_text: Seq<char>,
) -> Result<OcrArgs, Seq<char>> {
    match ocr_args_from(a, 0, ocr_args_init(default_prompt)) {
        Err(e) => Err(e),
        Ok(st) => if st.positionals.len() != 2 {
            Err(command_name + " expects <election> <municipality>\n\n"@ + help_text)
        } else if st.max_tokens == 0 {
            Err("--max-tokens must be greater than zero"@)
        } else {
            Ok(st)
        },
    }
}

/// The options of an OCR command. Without `--endpoint` or `--model`, the
/// endpoint and model come from the environment or the defaults.
#[derive(Debug)]
pub struct OcrVotesOptions {
    pub election: String,
    pub municipality: String,
    pub input_dir: Option<String>,
    pub out_dir: Option<String>,
    pub prompt: String,
    pub endpoint: Option<String>,
    pub model: Option<String>,
    pub images: Vec<String>,
    pub stations: Vec<String>,
    pub force: bool,
    pub max_new_stations: Option<usize>,
    pub max_tokens: u32,
    pub timeout_seconds: u64,
}

/// The options match what reading the arguments gave.
pub open spec fn ocr_options_match(o: OcrVotesOptions, st: OcrArgs) -> bool {
    &&& o.election@ == normalized_election(st.positionals[0])
    &&& o.municipality@ == st.positionals[1]
    &&& opt_text(o.input_dir) == st.input_dir
    &&& opt_text(o.out_dir) == st.out_dir
    &&& o.prompt@ == st.prompt
    &&& opt_text(o.endpoint) == st.endpoint
    &&& opt_text(o.model) == st.model
    &&& crate::text::strs(o.images@) == st.images
    &&& crate::text::strs(o.stations@) == st.stations
    &&& o.force == st.force
    &&& match o.max_new_stations {
        Some(n) => st.max_new_stations == Some(n as nat),
        None => st.max_new_stations is None,
    }
    &&& o.max_tokens == st.max_tokens
    &&& o.timeout_seconds == st.timeout_seconds
}

/// The options of an OCR command: `<election> <municipality>`,
/// `--input-dir`, `--out-dir`, `--prompt`, `--endpoint`, `--model`,
/// `--image` and `--station` (both repeatable), `--force`,
/// `--max-new-stations` (or `--max-stations`, above zero), `--max-tokens`
/// (above zero) and `--timeout-seconds`.
pub fn parse_ocr_args(args: &[String], default_prompt: &str, command_name: &str, help_text: &str) -> (r:
    Result<OcrVotesOptions, PvError>)
    ensures
        match ocr_args_outcome(crate::text::strs(args@), default_prompt@, command_name@, help_text@) {
            Ok(st) => r is Ok && ocr_options_match(r->Ok_0, st),
            Err(m) => r is Err && r->Err_0.message@ == m,
        },
{
    let ghost a = crate::text::strs(args@);
    let mut positionals: Vec<String> = Vec::new();
    let mut input_dir: Option<String> = None;
    let mut out_dir: Option<String> = None;
    let mut prompt: String = default_prompt.to_owned();
    let mut endpoint: Option<String> = None;
    let mut model: Option<String> = None;
    let mut images: Vec<String> = Vec::new();
    let mut stations: Vec<String> = Vec::new();
    let mut force = false;
    let mut max_new_stations: Option<usize> = None;
    let mut max_tokens: u32 = 4096;
    let mut timeout_seconds: u64 = 300;
    let mut index: usize = 0;
    assert(crate::text::strs(positionals@) =~= Seq::<Seq<char>>::empty());
    assert(crate::text::strs(images@) =~= Seq::<Seq<char>>::empty());
    assert(crate::text::strs(stations@) =~= Seq::<Seq<char>>::empty());
    while index < args.len()
        invariant
            a == crate::text::strs(args@),
            index <= args.len(),
            ocr_args_from(a, 0, ocr_args_init(default_prompt@)) == ocr_args_from(
                a,
                index as int,
                OcrArgs {
                    positionals: crate::text::strs(positionals@),
                    input_dir: opt_text(input_dir),
                    out_dir: opt_text(out_dir),
                    prompt: prompt@,
                    endpoint: opt_text(endpoint),
                    model: opt_text(model),
                    images: crate::text::strs(images@),
                    stations: crate::text::strs(stations@),
                    force,
                    max_new_stations: match max_new_stations {
                        Some(n) => Some(n as nat),
                        None => None,
                    },
                    max_tokens: max_tokens as nat,
                    timeout_seconds: timeout_seconds as nat,
                },
            ),
        decreases args.len() - index,
    {
        let arg = args[index].as_str();
        assert(a[index as int] == arg@);
        let v = to_chars(arg);
        if eq_str(&v, "--input-dir") {
            match take_value(args, index, "--input-dir", &mut input_dir) {
                Ok(()) => {
                    index = index + 1;
                },
                Err(e) => {
                    return Err(e);
                },
            }
        } else if eq_str(&v, "--out-dir") {
            match take_value(args, index, "--out-dir", &mut out_dir) {
                Ok(()) => {
                    index = index + 1;
                },
                Err(e) => {
                    return Err(e);
                },
            }
        } else if eq_str(&v, "--prompt") {
            match require_arg(args, index + 1, "--prompt") {
                Ok(x) => {
                    prompt = x.to_owned();
                    index = index + 1;
                },
                Err(e) => {
                    return Err(e);
                },
            }
        } else if eq_str(&v, "--endpoint") {
            match take_value(args, index, "--endpoint", &mut endpoint) {
                Ok(()) => {
                    index = index + 1;
                },
                Err(e) => {
                    return Err(e);
                },
            }
        } else if eq_str(&v, "--model") {
            match take_value(args, index, "--model", &mut model) {
                Ok(()) => {
                    index = index + 1;
                },
                Err(e) => {
                    return Err(e);
                },
            }
        } else if eq_str(&v, "--image") {
            match require_arg(args, index + 1, "--image") {
                Ok(x) => {
                    let ghost i0 = crate::text::strs(images@);
                    images.push(x.to_owned());
                    assert(crate::text::strs(images@) =~= i0.push(x@));
                    index = index + 1;
                },
                Err(e) => {
                    return Err(e);
                },
            }
        } else if eq_str(&v, "--station") {
            match require_arg(args, index + 1, "--station") {
                Ok(x) => {
                    insert_unique(&mut stations, crate::names::normalize_station_number(x));
                    index = index + 1;
                },
                Err(e) => {
                    return Err(e);
                },
            }
        } else if eq_str(&v, "--force") {
            force = true;
        } else if eq_str(&v, "--max-new-stations") || eq_str(&v, "--max-stations") {
            match require_arg(args, index + 1, arg) {
                Ok(x) => {
                    proof {
                        lemma_uint_parse_bound(x@, usize::MAX as nat);
                    }
                    match parse_uint(x, usize::MAX as u64) {
                        Ok(n) => {
                            if n == 0 {
                                let mut m = to_chars(arg);
                                push_str(&mut m, " must be greater than zero");
                                return Err(error_from_chars(&m));
                            }
                            max_new_stations = Some(n as usize);
                        },
                        Err(e) => {
                            return Err(int_error(e));
                        },
                    }
                    index = index + 1;
                },
                Err(e) => {
                    return Err(e);
                },
            }
        } else if eq_str(&v, "--max-tokens") {
            match require_arg(args, index + 1, "--max-tokens") {
                Ok(x) => {
                    proof {
                        lemma_uint_parse_bound(x@, u32::MAX as nat);
                    }
                    match parse_uint(x, 0xFFFF_FFFF) {
                        Ok(n) => {
                            max_tokens = n as u32;
                        },
                        Err(e) => {
                            return Err(int_error(e));
                        },
                    }
                    index = index + 1;
                },
                Err(e) => {
                    return Err(e);
                },
            }
        } else if eq_str(&v, "--timeout-seconds") {
            match require_arg(args, index + 1, "--timeout-seconds") {
                Ok(x) => {
                    proof {
                        lemma_uint_parse_bound(x@, u64::MAX as nat);
                    }
                    match parse_uint(x, 0xFFFF_FFFF_FFFF_FFFF) {
                        Ok(n) => {
                            timeout_seconds = n;
                        },
                        Err(e) => {
                            return Err(int_error(e));
                        },
                    }
                    index = index + 1;
                },
                Err(e) => {
                    return Err(e);
                },
            }
        } else if starts_with_str(&v, "--") {
            return Err(unknown_option(arg));
        } else {
            let ghost p0 = crate::text::strs(positionals@);
            positionals.push(arg.to_owned());
            assert(crate::text::strs(positionals@) =~= p0.push(arg@));
        }
        index = index + 1;
    }
    if positionals.len() != 2 {
        return Err(usage_error(command_name, help_text));
    }
    if max_tokens == 0 {
        return Err(error_from_chars(&to_chars("--max-tokens must be greater than zero")));
    }
    assert(crate::text::strs(positionals@)[0] == positionals@[0]@);
    assert(crate::text::strs(positionals@)[1] == positionals@[1]@);
    Ok(
        OcrVotesOptions {
            election: normalize_election(positionals[0].as_str()),
            municipality: positionals[1].clone(),
            input_dir,
            out_dir,
            prompt,
            endpoint,
            model,
            images,
            stations,
            force,
            max_new_stations,
            max_tokens,
            timeout_seconds,
        },
    )
}

/// The prompt `ocr-votes` uses unless told otherwise.
pub const DEFAULT_OCR_PROMPT_PATH: &'static str = "prompts/ocr-votes.md";

/// The prompt `ocr-corrections` uses unless told otherwise.
pub const DEFAULT_CORRECTIONS_OCR_PROMPT_PATH: &'static str = "prompts/ocr-corrections.md";

/// The prompt `ocr-candidates` uses unless told otherwise.
pub const DEFAULT_CANDIDATES_OCR_PROMPT_PATH: &'static str = "prompts/ocr-candidates.md";

/// The options of `ocr-votes`.
pub fn parse_ocr_votes_args(args: &[String]) -> (r: Result<OcrVotesOptions, PvError>)
    ensures
        match ocr_args_outcome(
            crate::text::strs(args@),
            DEFAULT_OCR_PROMPT_PATH@,
            "ocr-votes"@,
            crate::help::OCR_VOTES_HELP_TEXT@,
        ) {
            Ok(st) => r is Ok && ocr_options_match(r->Ok_0, st),
            Err(m) => r is Err && r->Err_0.message@ == m,
        },
{
    parse_ocr_args(args, DEFAULT_OCR_PROMPT_PATH, "ocr-votes", crate::help::ocr_votes_help_text())
}

/// The options of `ocr-corrections`.
pub fn parse_ocr_corrections_args(args: &[String]) -> (r: Result<OcrVotesOptions, PvError>)
    ensures
        match ocr_args_outcome(
            crate::text::strs(args@),
            DEFAULT_CORRECTIONS_OCR_PROMPT_PATH@,
            "ocr-corrections"@,
            crate::help::OCR_CORRECTIONS_HELP_TEXT@,
        ) {
            Ok(st) => r is Ok && ocr_options_match(r->Ok_0, st),
            Err(m) => r is Err && r->Err_0.message@ == m,
        },
{
    parse_ocr_args(
        args,
        DEFAULT_CORRECTIONS_OCR_PROMPT_PATH,
        "ocr-corrections",
        crate::help::ocr_corrections_help_text(),
    )
}

/// The options of `ocr-candidates`.
pub fn parse_ocr_candidates_args(args: &[String]) -> (r: Result<OcrVotesOptions, PvError>)
    ensures
        match ocr_args_outcome(
            crate::text::strs(args@),
            DEFAULT_CANDIDATES_OCR_PROMPT_PATH@,
            "ocr-candidates"@,
            crate::help::OCR_CANDIDATES_HELP_TEXT@,
        ) {
            Ok(st) => r is Ok && ocr_options_match(r->Ok_0, st),
            Err(m) => r is Err && r->Err_0.message@ == m,
        },
{
    parse_ocr_args(
        args,
        DEFAULT_CANDIDATES_OCR_PROMPT_PATH,
        "ocr-candidates",
        crate::help::ocr_candidates_help_text(),
    )
}

} // verus!
