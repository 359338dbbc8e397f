//! The terminal form of the comparison report: a summary of the statuses
//! and a table with one aligned line per row.
use vstd::prelude::*;
use crate::comparison::{
    candidate_status_text, status_label, CandidateComparisonStatus, ComparisonRow,
    ComparisonStatus,
};
use crate::official::OfficialResults;
use crate::names::ReportFormat;
use crate::render::markdown_report;
use crate::render::{
    candidate_comparison_counts, candidate_status_index, cell_text, comparison_counts,
    count_candidate_status, count_status, count_unchecked, format_status, pad_left, pad_right,
    padded_left, padded_right, status_index, status_text, term_reason, terminal_cell,
    terminal_reason,
};
use crate::text::dec;
use crate::args::{lemma_uint_parse_bound, parse_uint, uint_parse};
use crate::textops::{append_chars, dec_chars, from_chars, push_str, to_chars};

verus! {

broadcast use vstd::string::group_string_axioms;

/// The table width to lay the terminal report out in, from the `COLUMNS`
/// setting `columns`: its value when it reads as a `usize` of at least 80
/// that a table line can be built in, 120 otherwise.
pub open spec fn terminal_width_of(columns: Option<Seq<char>>) -> nat {
    match columns {
        Some(c) => match uint_parse(c, usize::MAX as nat) {
            Ok(n) => if 80 <= n <= usize::MAX / 45 {
                n
            } else {
                120
            },
            Err(_) => 120,
        },
        None => 120,
    }
}

/// The table width of the terminal report for the `COLUMNS` setting
/// `columns`, as `terminal_width_of` states it.
pub fn terminal_width_from(columns: Option<&str>) -> (r: usize)
    ensures
        r == terminal_width_of(
            match columns {
                Some(c) => Some(c@),
                None => None,
            },
        ),
        r <= usize::MAX / 45,
{
    match columns {
        Some(c) => match parse_uint(c, usize::MAX as u64) {
            Ok(n) => {
                proof {
                    lemma_uint_parse_bound(c@, usize::MAX as nat);
                }
                if 80 <= n && n <= (usize::MAX / 45) as u64 {
                    n as usize
                } else {
                    120
                }
            },
            Err(_) => 120,
        },
        None => 120,
    }
}

/// The width of the status column: that of the longest status label.
pub fn status_column_width() -> (r: usize)
    ensures
        r == 23,
{
    proof {
        reveal_strlit("Status");
        reveal_strlit("missing");
        reveal_strlit("incomplete");
        reveal_strlit("correction inconsistent");
        reveal_strlit("internally inconsistent");
        reveal_strlit("mismatch");
        reveal_strlit("fully matches");
    }
    let mut w = crate::render::char_width("Status");
    let labels = [
        ComparisonStatus::Missing.label(),
        ComparisonStatus::Incomplete.label(),
        ComparisonStatus::CorrectionInconsistent.label(),
        ComparisonStatus::InternallyInconsistent.label(),
        ComparisonStatus::Mismatch.label(),
        ComparisonStatus::FullyMatches.label(),
    ];
    let n0 = crate::render::char_width(labels[0]);
    if n0 > w {
        w = n0;
    }
    let n1 = crate::render::char_width(labels[1]);
    if n1 > w {
        w = n1;
    }
    let n2 = crate::render::char_width(labels[2]);
    if n2 > w {
        w = n2;
    }
    let n3 = crate::render::char_width(labels[3]);
    if n3 > w {
        w = n3;
    }
    let n4 = crate::render::char_width(labels[4]);
    if n4 > w {
        w = n4;
    }
    let n5 = crate::render::char_width(labels[5]);
    if n5 > w {
        w = n5;
    }
    w
}

/// The widest station code of the first `k` rows, and at least that of the
/// word `Station`.
pub open spec fn station_column_width(rows: Seq<ComparisonRow>, k: int) -> nat
    decreases k,
{
    if k <= 0 {
        7
    } else {
        let prev = station_column_width(rows, k - 1);
        let w = rows[k - 1].station@.len();
        if w > prev {
            w
        } else {
            prev
        }
    }
}

/// The column widths of the terminal table, given the terminal width:
/// station, location, status and reason.
pub open spec fn column_widths(rows: Seq<ComparisonRow>, width: nat) -> (nat, nat, nat, nat) {
    let sw = station_column_width(rows, rows.len() as int);
    let fixed = 23 + sw + 6;
    let rest = if width > fixed {
        (width - fixed) as nat
    } else {
        0nat
    };
    let flexible = if rest > 64 {
        rest
    } else {
        64nat
    };
    let l0 = flexible * 45 / 100;
    let lw = if l0 < 24 {
        24nat
    } else if l0 > 48 {
        48nat
    } else {
        l0
    };
    let r0 = if flexible > lw {
        (flexible - lw) as nat
    } else {
        0nat
    };
    let rw = if r0 > 28 {
        r0
    } else {
        28nat
    };
    (sw, lw, 23, rw)
}

/// `n` copies of `-`.
pub open spec fn dashes(n: nat) -> Seq<char> {
    Seq::new(n, |i: int| '-')
}

/// A summary line: two spaces, the label padded to 23, a space and the
/// count.
pub open spec fn term_count_line(label: Seq<char>, n: nat) -> Seq<char> {
    "  "@ + padded_right(label, 23) + " "@ + dec(n) + "\n"@
}

/// The table line of one row.
pub open spec fn term_row_line(row: ComparisonRow, w: (nat, nat, nat, nat), use_color: bool) -> Seq<
    char,
> {
    padded_left(row.station@, w.0) + "  "@ + cell_text(row.location@, w.1) + "  "@ + status_text(
        row.status,
        w.2,
        use_color,
    ) + "  "@ + cell_text(term_reason(row), w.3) + "\n"@
}

/// The table lines of the first `k` rows.
pub open spec fn term_rows(
    rows: Seq<ComparisonRow>,
    w: (nat, nat, nat, nat),
    use_color: bool,
    k: int,
) -> Seq<char>
    decreases k,
{
    if k <= 0 {
        Seq::empty()
    } else {
        term_rows(rows, w, use_color, k - 1) + term_row_line(rows[k - 1], w, use_color)
    }
}

/// The terminal summary of the station statuses.
pub open spec fn term_status_summary(rows: Seq<ComparisonRow>) -> Seq<char> {
    let n = rows.len() as int;
    term_count_line(status_label(ComparisonStatus::Missing), count_status(rows, ComparisonStatus::Missing, n))
        + term_count_line(
        status_label(ComparisonStatus::Incomplete),
        count_status(rows, ComparisonStatus::Incomplete, n),
    ) + term_count_line(
        status_label(ComparisonStatus::CorrectionInconsistent),
        count_status(rows, ComparisonStatus::CorrectionInconsistent, n),
    ) + term_count_line(
        status_label(ComparisonStatus::InternallyInconsistent),
        count_status(rows, ComparisonStatus::InternallyInconsistent, n),
    ) + term_count_line(
        status_label(ComparisonStatus::Mismatch),
        count_status(rows, ComparisonStatus::Mismatch, n),
    ) + term_count_line(
        status_label(ComparisonStatus::FullyMatches),
        count_status(rows, ComparisonStatus::FullyMatches, n),
    )
}

/// The terminal summary of the candidate statuses, shown when some row was
/// checked.
pub open spec fn term_candidate_summary(rows: Seq<ComparisonRow>) -> Seq<char> {
    let n = rows.len() as int;
    if count_unchecked(rows, n) < rows.len() {
        "\n"@ + "Candidate summary\n"@ + term_count_line(
            candidate_status_text(CandidateComparisonStatus::Incomplete),
            count_candidate_status(rows, CandidateComparisonStatus::Incomplete, n),
        ) + term_count_line(
            candidate_status_text(CandidateComparisonStatus::InternallyInconsistent),
            count_candidate_status(rows, CandidateComparisonStatus::InternallyInconsistent, n),
        ) + term_count_line(
            candidate_status_text(CandidateComparisonStatus::Mismatch),
            count_candidate_status(rows, CandidateComparisonStatus::Mismatch, n),
        ) + term_count_line(
            candidate_status_text(CandidateComparisonStatus::FullyMatches),
            count_candidate_status(rows, CandidateComparisonStatus::FullyMatches, n),
        ) + term_count_line("not checked"@, count_unchecked(rows, n))
    } else {
        Seq::empty()
    }
}

/// Appends `n` dashes.
fn push_dashes(m: &mut Vec<char>, n: usize)
    ensures
        final(m)@ == old(m)@ + dashes(n as nat),
{
    let ghost m0 = m@;
    let mut i: usize = 0;
    while i < n
        invariant
            i <= n,
            m@ == m0 + dashes(i as nat),
        decreases n - i,
    {
        m.push('-');
        assert(m0 + dashes((i + 1) as nat) =~= (m0 + dashes(i as nat)).push('-'));
        i = i + 1;
    }
}

/// Appends a summary line.
fn push_term_count(m: &mut Vec<char>, label: &str, n: usize)
    ensures
        final(m)@ == old(m)@ + term_count_line(label@, n as nat),
{
    let ghost m0 = m@;
    push_str(m, "  ");
    let p = pad_right(label, 23);
    push_str(m, p.as_str());
    push_str(m, " ");
    let d = dec_chars(n as u64);
    append_chars(m, &d);
    push_str(m, "\n");
    assert(m@ =~= m0 + term_count_line(label@, n as nat));
}

/// Appends the table line of one row.
fn push_term_row(m: &mut Vec<char>, row: &ComparisonRow, sw: usize, lw: usize, stw: usize, rw: usize, use_color: bool)
    ensures
        final(m)@ == old(m)@ + term_row_line(
            *row,
            (sw as nat, lw as nat, stw as nat, rw as nat),
            use_color,
        ),
{
    let ghost m0 = m@;
    let a = pad_left(row.station.as_str(), sw);
    push_str(m, a.as_str());
    push_str(m, "  ");
    let b = terminal_cell(row.location.as_str(), lw);
    push_str(m, b.as_str());
    push_str(m, "  ");
    let c = format_status(row.status, stw, use_color);
    push_str(m, c.as_str());
    push_str(m, "  ");
    let reason = terminal_reason(row);
    let d = terminal_cell(reason.as_str(), rw);
    push_str(m, d.as_str());
    push_str(m, "\n");
    assert(m@ =~= m0 + term_row_line(*row, (sw as nat, lw as nat, stw as nat, rw as nat), use_color));
}

/// The station codes fit the widths the table computes.
pub open spec fn stations_fit(rows: Seq<ComparisonRow>) -> bool {
    forall|i: int| 0 <= i < rows.len() ==> (#[trigger] rows[i]).station@.len() < usize::MAX - 64
}

proof fn lemma_station_width_bound(rows: Seq<ComparisonRow>, k: int)
    requires
        stations_fit(rows),
        k <= rows.len(),
    ensures
        station_column_width(rows, k) < usize::MAX - 64,
    decreases k,
{
    if k > 0 {
        lemma_station_width_bound(rows, k - 1);
    }
}

/// The column widths of the terminal table.
fn terminal_column_widths(rows: &Vec<ComparisonRow>, width: usize) -> (r: (usize, usize, usize, usize))
    requires
        stations_fit(rows@),
        width <= usize::MAX / 45,
    ensures
        (r.0 as nat, r.1 as nat, r.2 as nat, r.3 as nat) == column_widths(rows@, width as nat),
{
    let status_width = status_column_width();
    let mut station_width: usize = 7;
    let mut k: usize = 0;
    proof {
        lemma_station_width_bound(rows@, rows@.len() as int);
    }
    while k < rows.len()
        invariant
            k <= rows.len(),
            stations_fit(rows@),
            station_width == station_column_width(rows@, k as int),
        decreases rows.len() - k,
    {
        proof {
            lemma_station_width_bound(rows@, k + 1);
        }
        let w = crate::render::char_width(rows[k].station.as_str());
        if w > station_width {
            station_width = w;
        }
        k = k + 1;
    }
    let fixed_width = status_width + station_width + 6;
    let rest = if width > fixed_width {
        width - fixed_width
    } else {
        0
    };
    let flexible_width = if rest > 64 {
        rest
    } else {
        64
    };
    let l0 = flexible_width * 45 / 100;
    let location_width = if l0 < 24 {
        24
    } else if l0 > 48 {
        48
    } else {
        l0
    };
    let r0 = if flexible_width > location_width {
        flexible_width - location_width
    } else {
        0
    };
    let reason_width = if r0 > 28 {
        r0
    } else {
        28
    };
    (station_width, location_width, status_width, reason_width)
}

/// Appends the summary of the station statuses.
fn push_term_status_summary(m: &mut Vec<char>, rows: &Vec<ComparisonRow>)
    ensures
        final(m)@ == old(m)@ + term_status_summary(rows@),
{
    let ghost m1 = m@;
    let counts = comparison_counts(rows);
    assert(counts@[status_index(ComparisonStatus::Missing)] == counts@[0]);
    assert(counts@[status_index(ComparisonStatus::Incomplete)] == counts@[1]);
    assert(counts@[status_index(ComparisonStatus::CorrectionInconsistent)] == counts@[2]);
    assert(counts@[status_index(ComparisonStatus::InternallyInconsistent)] == counts@[3]);
    assert(counts@[status_index(ComparisonStatus::FullyMatches)] == counts@[4]);
    assert(counts@[status_index(ComparisonStatus::Mismatch)] == counts@[5]);
    push_term_count(m, ComparisonStatus::Missing.label(), counts[0]);
    push_term_count(m, ComparisonStatus::Incomplete.label(), counts[1]);
    push_term_count(m, ComparisonStatus::CorrectionInconsistent.label(), counts[2]);
    push_term_count(m, ComparisonStatus::InternallyInconsistent.label(), counts[3]);
    push_term_count(m, ComparisonStatus::Mismatch.label(), counts[5]);
    push_term_count(m, ComparisonStatus::FullyMatches.label(), counts[4]);
    assert(m@ =~= m1 + term_status_summary(rows@));
}

/// Appends the summary of the candidate statuses, when some row was
/// checked.
fn push_term_candidate_summary(m: &mut Vec<char>, rows: &Vec<ComparisonRow>)
    ensures
        final(m)@ == old(m)@ + term_candidate_summary(rows@),
{
    let ghost m2 = m@;
    let mut unchecked: usize = 0;
    let mut i: usize = 0;
    while i < rows.len()
        invariant
            i <= rows.len(),
            unchecked == count_unchecked(rows@, i as int),
            unchecked <= i,
        decreases rows.len() - i,
    {
        if rows[i].candidates.is_none() {
            unchecked = unchecked + 1;
        }
        i = i + 1;
    }
    if unchecked < rows.len() {
        let cc = candidate_comparison_counts(rows);
        assert(cc@[candidate_status_index(CandidateComparisonStatus::Incomplete)] == cc@[0]);
        assert(cc@[candidate_status_index(CandidateComparisonStatus::InternallyInconsistent)]
            == cc@[1]);
        assert(cc@[candidate_status_index(CandidateComparisonStatus::FullyMatches)] == cc@[2]);
        assert(cc@[candidate_status_index(CandidateComparisonStatus::Mismatch)] == cc@[3]);
        push_str(m, "\n");
        push_str(m, "Candidate summary\n");
        push_term_count(m, CandidateComparisonStatus::Incomplete.label(), cc[0]);
        push_term_count(m, CandidateComparisonStatus::InternallyInconsistent.label(), cc[1]);
        push_term_count(m, CandidateComparisonStatus::Mismatch.label(), cc[3]);
        push_term_count(m, CandidateComparisonStatus::FullyMatches.label(), cc[2]);
        push_term_count(m, "not checked", unchecked);
        assert(m@ =~= m2 + term_candidate_summary(rows@));
    } else {
        assert(m@ =~= m2 + term_candidate_summary(rows@));
    }
}

/// The header line of the terminal table.
pub open spec fn term_header_line(w: (nat, nat, nat, nat)) -> Seq<char> {
    padded_left("Station"@, w.0) + "  "@ + padded_right("Location"@, w.1) + "  "@ + padded_right(
        "Status"@,
        w.2,
    ) + "  "@ + padded_right("Reason"@, w.3) + "\n"@
}

/// The rule line under the header of the terminal table.
pub open spec fn term_rule_line(w: (nat, nat, nat, nat)) -> Seq<char> {
    dashes(w.0) + "  "@ + dashes(w.1) + "  "@ + dashes(w.2) + "  "@ + dashes(w.3) + "\n"@
}

/// The header and rule lines of the terminal table.
pub open spec fn term_table_head(w: (nat, nat, nat, nat)) -> Seq<char> {
    "\n"@ + term_header_line(w) + term_rule_line(w)
}

/// Appends the header line of the terminal table.
fn push_term_header_line(m: &mut Vec<char>, sw: usize, lw: usize, stw: usize, rw: usize)
    ensures
        final(m)@ == old(m)@ + term_header_line((sw as nat, lw as nat, stw as nat, rw as nat)),
{
    let ghost m3 = m@;
    let h1 = pad_left("Station", sw);
    push_str(m, h1.as_str());
    push_str(m, "  ");
    let h2 = pad_right("Location", lw);
    push_str(m, h2.as_str());
    push_str(m, "  ");
    let h3 = pad_right("Status", stw);
    push_str(m, h3.as_str());
    push_str(m, "  ");
    let h4 = pad_right("Reason", rw);
    push_str(m, h4.as_str());
    push_str(m, "\n");
    assert(m@ =~= m3 + term_header_line((sw as nat, lw as nat, stw as nat, rw as nat)));
}

/// Appends the rule line of the terminal table.
fn push_term_rule_line(m: &mut Vec<char>, sw: usize, lw: usize, stw: usize, rw: usize)
    ensures
        final(m)@ == old(m)@ + term_rule_line((sw as nat, lw as nat, stw as nat, rw as nat)),
{
    let ghost m3 = m@;
    push_dashes(m, sw);
    push_str(m, "  ");
    push_dashes(m, lw);
    push_str(m, "  ");
    push_dashes(m, stw);
    push_str(m, "  ");
    push_dashes(m, rw);
    push_str(m, "\n");
    assert(m@ =~= m3 + term_rule_line((sw as nat, lw as nat, stw as nat, rw as nat)));
}

/// Appends the header and rule lines of the terminal table.
fn push_term_table_head(m: &mut Vec<char>, sw: usize, lw: usize, stw: usize, rw: usize)
    ensures
        final(m)@ == old(m)@ + term_table_head((sw as nat, lw as nat, stw as nat, rw as nat)),
{
    let ghost m3 = m@;
    push_str(m, "\n");
    push_term_header_line(m, sw, lw, stw, rw);
    push_term_rule_line(m, sw, lw, stw, rw);
    assert(m@ =~= m3 + term_table_head((sw as nat, lw as nat, stw as nat, rw as nat)));
}

/// The lines at the top of the terminal report, naming the inputs.
pub open spec fn term_head(
    source: Seq<char>,
    results_dir: Seq<char>,
    corrections_dir: Seq<char>,
    candidates_dir: Seq<char>,
    dir: Option<Seq<char>>,
) -> Seq<char> {
    let head = "Official CSV        "@ + source + "\n"@ + "Markdown directory  "@ + results_dir
        + "\n"@ + "Corrections dir     "@ + corrections_dir + "\n"@ + "Candidates dir      "@
        + candidates_dir + "\n"@;
    match dir {
        Some(d) => head + ("Mismatch reports   "@ + d + "\n"@),
        None => head,
    }
}

/// The lines naming the inputs of the report.
fn term_head_exec(
    source: &str,
    results_dir: &str,
    corrections_dir: &str,
    candidates_dir: &str,
    mismatch_report_dir: Option<&str>,
) -> (r: Vec<char>)
    ensures
        r@ == term_head(
            source@,
            results_dir@,
            corrections_dir@,
            candidates_dir@,
            match mismatch_report_dir {
                Some(d) => Some(d@),
                None => None,
            },
        ),
{
    let mut m = to_chars("Official CSV        ");
    push_str(&mut m, source);
    push_str(&mut m, "\n");
    push_str(&mut m, "Markdown directory  ");
    push_str(&mut m, results_dir);
    push_str(&mut m, "\n");
    push_str(&mut m, "Corrections dir     ");
    push_str(&mut m, corrections_dir);
    push_str(&mut m, "\n");
    push_str(&mut m, "Candidates dir      ");
    push_str(&mut m, candidates_dir);
    push_str(&mut m, "\n");
    let ghost head = m@;
    match mismatch_report_dir {
        Some(d) => {
            push_str(&mut m, "Mismatch reports   ");
            push_str(&mut m, d);
            push_str(&mut m, "\n");
            assert(m@ =~= head + ("Mismatch reports   "@ + d@ + "\n"@));
        },
        None => {},
    }
    m
}

/// The terminal report of a comparison for a terminal `width` columns wide:
/// the inputs, the number of rows of each status (and of each candidate
/// status, when candidates were checked), then a table with one aligned
/// line per row giving its station, location, status (coloured when
/// `use_color` is set) and shortened reason.
pub fn render_terminal_comparison_report(
    official_results: &OfficialResults,
    results_dir: &str,
    corrections_dir: &str,
    candidates_dir: &str,
    mismatch_report_dir: Option<&str>,
    rows: &Vec<ComparisonRow>,
    width: usize,
    use_color: bool,
) -> (r: String)
    requires
        stations_fit(rows@),
        width <= usize::MAX / 45,
    ensures
        r@ == term_head(
            official_results.source_path@,
            results_dir@,
            corrections_dir@,
            candidates_dir@,
            match mismatch_report_dir {
                Some(d) => Some(d@),
                None => None,
            },
        ) + "\n"@ + "Summary\n"@ + term_status_summary(rows@) + term_candidate_summary(rows@)
            + term_table_head(column_widths(rows@, width as nat)) + term_rows(
            rows@,
            column_widths(rows@, width as nat),
            use_color,
            rows@.len() as int,
        ),
{
    let (sw, lw, stw, rw) = terminal_column_widths(rows, width);
    let ghost w = (sw as nat, lw as nat, stw as nat, rw as nat);
    let mut m = term_head_exec(
        official_results.source_path.as_str(),
        results_dir,
        corrections_dir,
        candidates_dir,
        mismatch_report_dir,
    );
    push_str(&mut m, "\n");
    push_str(&mut m, "Summary\n");
    push_term_status_summary(&mut m, rows);
    push_term_candidate_summary(&mut m, rows);
    push_term_table_head(&mut m, sw, lw, stw, rw);
    let ghost m4 = m@;
    let mut j: usize = 0;
    assert(m4 =~= m4 + term_rows(rows@, w, use_color, 0));
    while j < rows.len()
        invariant
            j <= rows.len(),
            w == (sw as nat, lw as nat, stw as nat, rw as nat),
            m@ == m4 + term_rows(rows@, w, use_color, j as int),
        decreases rows.len() - j,
    {
        push_term_row(&mut m, &rows[j], sw, lw, stw, rw, use_color);
        assert(m4 + term_rows(rows@, w, use_color, j + 1) =~= (m4 + term_rows(
            rows@,
            w,
            use_color,
            j as int,
        )) + term_row_line(rows@[j as int], w, use_color));
        j = j + 1;
    }
    from_chars(&m)
}

/// The terminal report, as `render_terminal_comparison_report` writes it.
pub open spec fn terminal_report_text(
    source: Seq<char>,
    results_dir: Seq<char>,
    corrections_dir: Seq<char>,
    candidates_dir: Seq<char>,
    dir: Option<Seq<char>>,
    rows: Seq<ComparisonRow>,
    width: nat,
    use_color: bool,
) -> Seq<char> {
    term_head(source, results_dir, corrections_dir, candidates_dir, dir) + "\n"@ + "Summary\n"@
        + term_status_summary(rows) + term_candidate_summary(rows) + term_table_head(
        column_widths(rows, width),
    ) + term_rows(rows, column_widths(rows, width), use_color, rows.len() as int)
}

/// The comparison report in the chosen format: the terminal table for a
/// terminal `width` columns wide (coloured when `use_color` is set), or the
/// Markdown report.
pub fn print_comparison_report(
    official_results: &OfficialResults,
    results_dir: &str,
    corrections_dir: &str,
    candidates_dir: &str,
    mismatch_report_dir: Option<&str>,
    rows: &Vec<ComparisonRow>,
    format: ReportFormat,
    width: usize,
    use_color: bool,
) -> (r: String)
    requires
        format == ReportFormat::Terminal ==> stations_fit(rows@) && width <= usize::MAX / 45,
    ensures
        r@ == match format {
            ReportFormat::Terminal => terminal_report_text(
                official_results.source_path@,
                results_dir@,
                corrections_dir@,
                candidates_dir@,
                match mismatch_report_dir {
                    Some(d) => Some(d@),
                    None => None,
                },
                rows@,
                width as nat,
                use_color,
            ),
            ReportFormat::Markdown => markdown_report(
                official_results.source_path@,
                results_dir@,
                corrections_dir@,
                candidates_dir@,
                match mismatch_report_dir {
                    Some(d) => Some(d@),
                    None => None,
                },
                rows@,
            ),
        },
{
    match format {
        ReportFormat::Terminal => render_terminal_comparison_report(
            official_results,
            results_dir,
            corrections_dir,
            candidates_dir,
            mismatch_report_dir,
            rows,
            width,
            use_color,
        ),
        ReportFormat::Markdown => crate::render::render_markdown_comparison_report(
            official_results,
            results_dir,
            corrections_dir,
            candidates_dir,
            mismatch_report_dir,
            rows,
        ),
    }
}

} // verus!
