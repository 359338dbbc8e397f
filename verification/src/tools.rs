//! The external tools the crop commands need, what their output says, the
//! LLM endpoint address, durations, and the paths of OCR outputs.
use vstd::prelude::*;
use crate::args::{int_error_text, parse_uint, uint_parse, CropOptions};
use crate::candidate_lists::file_stem_string;
use crate::error::{error_from_chars, PvError};
use crate::names::{station_code_from_file_name, station_code_in, CropKind};
use crate::paths::{file_stem_of, joined_path, path_join};
use crate::text::{dec, debug_quoted, drop_empty, seqs, split_once, strip_prefix, trimmed_lines};
use crate::textops::{
    append_chars, dec_chars, debug_chars, from_chars, push_str, split_once_str, strip_prefix_str,
    subrange_chars, to_chars, trimmed_lines_chars,
};

verus! {

broadcast use vstd::string::group_string_axioms;

/// An external program the tool runs, and what it is run for.
#[derive(Clone, Copy, Debug)]
pub struct ExternalTool {
    pub name: &'static str,
    pub purpose: &'static str,
}

/// `pdfimages`, which extracts embedded page images.
pub fn pdfimages_tool() -> (r: ExternalTool)
    ensures
        r.name@ == "pdfimages"@,
        r.purpose@ == "extract embedded PDF page images at native resolution"@,
{
    ExternalTool { name: "pdfimages", purpose: "extract embedded PDF page images at native resolution" }
}

/// `pdftotext`, which finds table pages by their text.
pub fn pdftotext_tool() -> (r: ExternalTool)
    ensures
        r.name@ == "pdftotext"@,
        r.purpose@ == "locate table pages by text anchors"@,
{
    ExternalTool { name: "pdftotext", purpose: "locate table pages by text anchors" }
}

/// `mutool`, which renders candidate-list pages.
pub fn mutool_tool() -> (r: ExternalTool)
    ensures
        r.name@ == "mutool"@,
        r.purpose@ == "render B1 candidate-list pages at scan resolution"@,
{
    ExternalTool { name: "mutool", purpose: "render B1 candidate-list pages at scan resolution" }
}

/// The names of the tools a crop needs: `mutool` and `pdftotext` for
/// candidate lists; `pdfimages` alone when the page is given; otherwise
/// `pdfimages` and `pdftotext`.
pub open spec fn crop_tool_names(kind: CropKind, page_given: bool) -> Seq<Seq<char>> {
    if kind == CropKind::CandidateLists {
        seq!["mutool"@, "pdftotext"@]
    } else if page_given {
        seq!["pdfimages"@]
    } else {
        seq!["pdfimages"@, "pdftotext"@]
    }
}

/// What each tool of `crop_tool_names` is run for, in the same order.
pub open spec fn crop_tool_purposes(kind: CropKind, page_given: bool) -> Seq<Seq<char>> {
    let images = "extract embedded PDF page images at native resolution"@;
    let text = "locate table pages by text anchors"@;
    let render = "render B1 candidate-list pages at scan resolution"@;
    if kind == CropKind::CandidateLists {
        seq![render, text]
    } else if page_given {
        seq![images]
    } else {
        seq![images, text]
    }
}

/// The external tools a crop with these options needs.
pub fn required_crop_tools(options: &CropOptions) -> (r: Vec<ExternalTool>)
    ensures
        r@.len() == crop_tool_names(options.kind, options.page_override is Some).len(),
        forall|i: int|
            0 <= i < r@.len() ==> (#[trigger] r@[i]).name@ == crop_tool_names(
                options.kind,
                options.page_override is Some,
            )[i] && r@[i].purpose@ == crop_tool_purposes(options.kind, options.page_override is Some)[i],
{
    let mut v: Vec<ExternalTool> = Vec::new();
    if options.kind == CropKind::CandidateLists {
        v.push(mutool_tool());
        v.push(pdftotext_tool());
    } else if options.page_override.is_some() {
        v.push(pdfimages_tool());
    } else {
        v.push(pdfimages_tool());
        v.push(pdftotext_tool());
    }
    v
}

/// Whether a tool could be run, and what it reported.
#[derive(Debug)]
pub enum ToolStatus {
    Usable { version: Option<String> },
    Missing { error: String },
    Broken { error: String },
}

impl ToolStatus {
    /// Whether the tool can be used.
    pub fn is_usable(&self) -> (r: bool)
        ensures
            r == (*self is Usable),
    {
        match self {
            ToolStatus::Usable { .. } => true,
            _ => false,
        }
    }
}

/// A tool and how checking it went.
#[derive(Debug)]
pub struct ToolReport {
    pub tool: ExternalTool,
    pub status: ToolStatus,
}

/// The names of the tools among the first `k` reports that cannot be used.
pub open spec fn unusable_upto(reports: Seq<ToolReport>, k: int) -> Seq<Seq<char>>
    decreases k,
{
    if k <= 0 {
        Seq::empty()
    } else {
        let prev = unusable_upto(reports, k - 1);
        if reports[k - 1].status is Usable {
            prev
        } else {
            prev.push(reports[k - 1].tool.name@)
        }
    }
}

/// Succeeds when every checked tool can be used; otherwise names those that
/// cannot.
pub fn ensure_tools(reports: &Vec<ToolReport>) -> (r: Result<(), PvError>)
    ensures
        unusable_upto(reports@, reports@.len() as int).len() == 0 ==> r is Ok,
        unusable_upto(reports@, reports@.len() as int).len() > 0 ==> r is Err
            && r->Err_0.message@ == "missing or unusable external tool(s): "@ + crate::text::join(
            unusable_upto(reports@, reports@.len() as int),
            ", "@,
        ) + ". Run `cargo run -- doctor` for details."@,
{
    let mut failures: Vec<Vec<char>> = Vec::new();
    let mut i: usize = 0;
    assert(seqs(failures@) =~= Seq::<Seq<char>>::empty());
    while i < reports.len()
        invariant
            i <= reports.len(),
            seqs(failures@) == unusable_upto(reports@, i as int),
        decreases reports.len() - i,
    {
        if !reports[i].status.is_usable() {
            let n = to_chars(reports[i].tool.name);
            let ghost f0 = seqs(failures@);
            failures.push(n);
            assert(seqs(failures@) =~= f0.push(reports@[i as int].tool.name@));
        }
        i = i + 1;
    }
    if failures.len() == 0 {
        Ok(())
    } else {
        let mut m = to_chars("missing or unusable external tool(s): ");
        let j = crate::textops::join_chars(&failures, ", ");
        append_chars(&mut m, &j);
        push_str(&mut m, ". Run `cargo run -- doctor` for details.");
        Err(error_from_chars(&m))
    }
}

/// Bytes read as UTF-8 text, each invalid sequence replaced by U+FFFD, as
/// `String::from_utf8_lossy` reads them.
pub uninterp spec fn lossy_text(b: Seq<u8>) -> Seq<char>;

/// `String::from_utf8_lossy`.
#[verifier::external_body]
fn utf8_lossy(b: &[u8]) -> (r: String)
    ensures
        r@ == lossy_text(b@),
{
    String::from_utf8_lossy(b).into_owned()
}

/// The first non-empty trimmed line of the output of a command: its
/// standard output, then its standard error.
pub open spec fn output_summary(out: Seq<u8>, err: Seq<u8>) -> Option<Seq<char>> {
    let ls = drop_empty(trimmed_lines(lossy_text(out)) + trimmed_lines(lossy_text(err)));
    if ls.len() > 0 {
        Some(ls[0])
    } else {
        None
    }
}

/// The first non-empty lines of `s` after index `i`.
fn first_nonempty(ls: &Vec<Vec<char>>) -> (r: Option<Vec<char>>)
    ensures
        match r {
            Some(l) => drop_empty(seqs(ls@)).len() > 0 && l@ == drop_empty(seqs(ls@))[0],
            None => drop_empty(seqs(ls@)).len() == 0,
        },
{
    let d = crate::textops::drop_empty_chars(ls);
    if d.len() > 0 {
        assert(seqs(d@)[0] == d@[0]@);
        Some(crate::textops::copy_chars(&d[0]))
    } else {
        None
    }
}

/// The first non-empty line that a command wrote, on standard output or
/// else on standard error.
pub fn command_output_summary(stdout: &[u8], stderr: &[u8]) -> (r: Option<String>)
    ensures
        match output_summary(stdout@, stderr@) {
            Some(l) => r is Some && r->0@ == l,
            None => r is None,
        },
{
    let a = utf8_lossy(stdout);
    let b = utf8_lossy(stderr);
    let av = to_chars(a.as_str());
    let bv = to_chars(b.as_str());
    let mut ls = trimmed_lines_chars(&av);
    let mut more = trimmed_lines_chars(&bv);
    let ghost l0 = seqs(ls@);
    let ghost l1 = seqs(more@);
    ls.append(&mut more);
    assert(seqs(ls@) =~= l0 + l1);
    match first_nonempty(&ls) {
        Some(l) => Some(from_chars(&l)),
        None => None,
    }
}

/// The version a tool reports: its first output line, without a leading
/// `pdfimages ` or `pdftotext `.
pub open spec fn version_of(line: Seq<char>) -> Seq<char> {
    match strip_prefix(line, "pdfimages "@) {
        Some(rest) => rest,
        None => match strip_prefix(line, "pdftotext "@) {
            Some(rest) => rest,
            None => line,
        },
    }
}

/// The version a tool printed, if it printed anything.
pub fn command_version(stdout: &[u8], stderr: &[u8]) -> (r: Option<String>)
    ensures
        match output_summary(stdout@, stderr@) {
            Some(l) => r is Some && r->0@ == version_of(l),
            None => r is None,
        },
{
    match command_output_summary(stdout, stderr) {
        Some(line) => {
            let v = to_chars(line.as_str());
            match strip_prefix_str(&v, "pdfimages ") {
                Some(rest) => Some(from_chars(&rest)),
                None => match strip_prefix_str(&v, "pdftotext ") {
                    Some(rest) => Some(from_chars(&rest)),
                    None => Some(line),
                },
            }
        },
        None => None,
    }
}

/// A number written with at least two digits.
pub open spec fn pad2(n: nat) -> Seq<char> {
    if n < 10 {
        "0"@ + dec(n)
    } else {
        dec(n)
    }
}

/// A duration of `s` seconds as `{h}h {mm}m {ss}s`, `{m}m {ss}s` or `{s}s`.
pub open spec fn duration_text(s: nat) -> Seq<char> {
    let h = s / 3600;
    let m = (s % 3600) / 60;
    let sec = s % 60;
    if h > 0 {
        dec(h) + "h "@ + pad2(m) + "m "@ + pad2(sec) + "s"@
    } else if m > 0 {
        dec(m) + "m "@ + pad2(sec) + "s"@
    } else {
        dec(sec) + "s"@
    }
}

/// Appends `n` with at least two digits.
fn push_pad2(m: &mut Vec<char>, n: u64)
    ensures
        final(m)@ == old(m)@ + pad2(n as nat),
{
    let ghost m0 = m@;
    if n < 10 {
        push_str(m, "0");
    }
    let d = dec_chars(n);
    append_chars(m, &d);
    assert(m@ =~= m0 + pad2(n as nat));
}

/// A duration given in whole seconds, as hours, minutes and seconds.
pub fn format_duration(total_seconds: u64) -> (r: String)
    ensures
        r@ == duration_text(total_seconds as nat),
{
    let hours = total_seconds / 3600;
    let minutes = (total_seconds % 3600) / 60;
    let seconds = total_seconds % 60;
    let mut m: Vec<char> = Vec::new();
    if hours > 0 {
        let d = dec_chars(hours);
        append_chars(&mut m, &d);
        push_str(&mut m, "h ");
        push_pad2(&mut m, minutes);
        push_str(&mut m, "m ");
        push_pad2(&mut m, seconds);
        push_str(&mut m, "s");
    } else if minutes > 0 {
        let d = dec_chars(minutes);
        append_chars(&mut m, &d);
        push_str(&mut m, "m ");
        push_pad2(&mut m, seconds);
        push_str(&mut m, "s");
    } else {
        let d = dec_chars(seconds);
        append_chars(&mut m, &d);
        push_str(&mut m, "s");
    }
    assert(m@ =~= duration_text(total_seconds as nat));
    from_chars(&m)
}

/// Where an LLM endpoint is: the host to connect to, the `Host` header, the
/// port and the request path.
#[derive(Debug)]
pub struct HttpEndpoint {
    pub host: String,
    pub host_header: String,
    pub port: u16,
    pub path: String,
}

/// The index of the last `c` in `s` before index `k`.
pub open spec fn last_index_of(s: Seq<char>, c: char, k: int) -> Option<int>
    decreases k,
{
    if k <= 0 {
        None
    } else if s[k - 1] == c {
        Some(k - 1)
    } else {
        last_index_of(s, c, k - 1)
    }
}

proof fn lemma_last_index_of(s: Seq<char>, c: char, k: int)
    requires
        k <= s.len(),
    ensures
        match last_index_of(s, c, k) {
            Some(i) => 0 <= i < k,
            None => true,
        },
    decreases k,
{
    if k > 0 {
        lemma_last_index_of(s, c, k - 1);
    }
}

/// The endpoint for host `host`, port `port` and path `path`, or the error
/// that the host is empty.
pub open spec fn endpoint_of(e: Seq<char>, host: Seq<char>, port: u16, path: Seq<char>) -> Result<
    (Seq<char>, Seq<char>, u16, Seq<char>),
    Seq<char>,
> {
    if host.len() == 0 {
        Err("invalid LLM endpoint "@ + debug_quoted(e))
    } else {
        Ok(
            (
                host,
                if port == 80 {
                    host
                } else {
                    host + ":"@ + dec(port as nat)
                },
                port,
                path,
            ),
        )
    }
}

/// The host, `Host` header, port and path of an `http://` endpoint, or the
/// error it causes.
pub open spec fn endpoint_outcome(e: Seq<char>) -> Result<
    (Seq<char>, Seq<char>, u16, Seq<char>),
    Seq<char>,
> {
    match strip_prefix(e, "http://"@) {
        None => Err("only http:// LLM endpoints are supported"@),
        Some(rest) => {
            let (authority, path) = match split_once(rest, "/"@) {
                Some((a, p)) => (a, "/"@ + p),
                None => (rest, "/"@),
            };
            match last_index_of(authority, ':', authority.len() as int) {
                Some(i) => match uint_parse(authority.skip(i + 1), 65535) {
                    Err(err) => Err(int_error_text(err)),
                    Ok(port) => endpoint_of(e, authority.take(i), port as u16, path),
                },
                None => endpoint_of(e, authority, 80, path),
            }
        },
    }
}

/// Reads an `http://host[:port][/path]` LLM endpoint: the port defaults to
/// 80 and the path to `/`.
pub fn parse_http_endpoint(endpoint: &str) -> (r: Result<HttpEndpoint, PvError>)
    ensures
        match endpoint_outcome(endpoint@) {
            Ok((host, header, port, path)) => r is Ok && r->Ok_0.host@ == host
                && r->Ok_0.host_header@ == header && r->Ok_0.port == port && r->Ok_0.path@ == path,
            Err(m) => r is Err && r->Err_0.message@ == m,
        },
{
    let v = to_chars(endpoint);
    let rest = match strip_prefix_str(&v, "http://") {
        Some(r) => r,
        None => {
            return Err(error_from_chars(&to_chars("only http:// LLM endpoints are supported")));
        },
    };
    let (authority, path) = match split_once_str(&rest, "/") {
        Some((a, p)) => {
            let mut q = to_chars("/");
            append_chars(&mut q, &p);
            (a, q)
        },
        None => (rest, to_chars("/")),
    };
    let mut k: usize = authority.len();
    while k > 0 && authority[k - 1] != ':'
        invariant
            k <= authority.len(),
            last_index_of(authority@, ':', authority@.len() as int) == last_index_of(
                authority@,
                ':',
                k as int,
            ),
        decreases k,
    {
        k = k - 1;
    }
    let (host, port): (Vec<char>, u16) = if k > 0 {
        let i = k - 1;
        let host = subrange_chars(&authority, 0, i);
        let port_text = subrange_chars(&authority, i + 1, authority.len());
        assert(host@ =~= authority@.take(i as int));
        assert(port_text@ =~= authority@.skip(i + 1));
        let ps = from_chars(&port_text);
        proof {
            crate::args::lemma_uint_parse_bound(ps@, 65535);
        }
        match parse_uint(ps.as_str(), 65535) {
            Ok(p) => (host, p as u16),
            Err(e) => {
                return Err(error_from_chars(&to_chars(match e {
                    crate::args::IntError::Empty => "cannot parse integer from empty string",
                    crate::args::IntError::InvalidDigit => "invalid digit found in string",
                    crate::args::IntError::PosOverflow => "number too large to fit in target type",
                })));
            },
        }
    } else {
        (authority, 80)
    };
    if host.len() == 0 {
        let mut m = to_chars("invalid LLM endpoint ");
        let q = debug_chars(&v);
        append_chars(&mut m, &q);
        return Err(error_from_chars(&m));
    }
    let header = if port == 80 {
        crate::textops::copy_chars(&host)
    } else {
        let mut h = crate::textops::copy_chars(&host);
        push_str(&mut h, ":");
        let d = dec_chars(port as u64);
        append_chars(&mut h, &d);
        h
    };
    Ok(
        HttpEndpoint {
            host: from_chars(&host),
            host_header: from_chars(&header),
            port,
            path: from_chars(&path),
        },
    )
}

/// The Markdown output of an OCR image: `{stem}.md` in `out_dir`.
pub fn ocr_output_path(out_dir: &str, image_path: &str) -> (r: Result<String, PvError>)
    ensures
        match file_stem_of(image_path@) {
            Some(stem) => r is Ok && r->Ok_0@ == joined_path(out_dir@, stem + ".md"@),
            None => r is Err && r->Err_0.message@ == "path has no valid file stem: "@ + image_path@,
        },
{
    let stem = match file_stem_string(image_path) {
        Ok(s) => s,
        Err(e) => {
            return Err(e);
        },
    };
    let mut name = to_chars(stem.as_str());
    push_str(&mut name, ".md");
    let n = from_chars(&name);
    Ok(path_join(out_dir, n.as_str()))
}

/// The key under which an OCR image is counted: its station code, or else
/// its file stem.
pub fn ocr_image_station_key(image_path: &str) -> (r: Result<String, PvError>)
    ensures
        match file_stem_of(image_path@) {
            Some(stem) => r is Ok && r->Ok_0@ == match station_code_in(stem) {
                Some(c) => c,
                None => stem,
            },
            None => r is Err && r->Err_0.message@ == "path has no valid file stem: "@ + image_path@,
        },
{
    let stem = match file_stem_string(image_path) {
        Ok(s) => s,
        Err(e) => {
            return Err(e);
        },
    };
    match station_code_from_file_name(stem.as_str()) {
        Some(c) => Ok(c),
        None => Ok(stem),
    }
}

} // verus!
