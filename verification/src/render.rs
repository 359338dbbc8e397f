//! Text of the comparison reports: reasons, status badges, counts, table
//! cells and the Markdown summary report.
use vstd::prelude::*;
use crate::comparison::{
    candidate_status_text, row_needs_mismatch_report, row_needs_report, status_label,
    CandidateComparisonStatus, ComparisonRow, ComparisonStatus,
};
use crate::official::OfficialResults;
use crate::paths::{file_name_of, path_file_name};
use crate::report::{short_reason, shorten_reason};
use crate::text::{dec, is_ws, trim};
use crate::textops::{
    append_chars, dec_chars, eq_str, from_chars, is_whitespace, push_str, to_chars, trim_chars,
};

verus! {

broadcast use vstd::string::group_string_axioms;

/// The reason a report gives for the station-level result of a row: its
/// details, unless it has none, fully matches, or simply has no Markdown.
pub open spec fn station_reason(row: ComparisonRow) -> Seq<char> {
    if row.details@.len() == 0 || row.status == ComparisonStatus::FullyMatches || (row.status
        == ComparisonStatus::Missing && row.details@ == "no Markdown result"@) {
        Seq::empty()
    } else {
        row.details@
    }
}

/// The station-level reason of a row.
pub fn station_report_reason(row: &ComparisonRow) -> (r: String)
    ensures
        r@ == station_reason(*row),
{
    let d = to_chars(row.details.as_str());
    if d.len() == 0 || row.status == ComparisonStatus::FullyMatches || (row.status
        == ComparisonStatus::Missing && eq_str(&d, "no Markdown result")) {
        String::new()
    } else {
        row.details.clone()
    }
}

/// The reason a report gives for the candidate comparison of a row.
pub open spec fn candidate_reason(row: ComparisonRow) -> Seq<char> {
    match row.candidates {
        None => Seq::empty(),
        Some(c) => if c.status == CandidateComparisonStatus::FullyMatches {
            Seq::empty()
        } else if c.details@.len() == 0 {
            "candidate votes "@ + candidate_status_text(c.status)
        } else {
            "candidate votes "@ + candidate_status_text(c.status) + ": "@ + c.details@
        },
    }
}

/// The candidate-comparison reason of a row: `candidate votes {status}`,
/// with its details, unless it was not checked or fully matches.
pub fn candidate_report_reason(row: &ComparisonRow) -> (r: String)
    ensures
        r@ == candidate_reason(*row),
{
    match &row.candidates {
        None => String::new(),
        Some(c) => {
            if c.status == CandidateComparisonStatus::FullyMatches {
                return String::new();
            }
            let mut m = to_chars("candidate votes ");
            push_str(&mut m, c.status.label());
            let d = to_chars(c.details.as_str());
            if d.len() > 0 {
                push_str(&mut m, ": ");
                append_chars(&mut m, &d);
            }
            from_chars(&m)
        },
    }
}

/// Both reasons of a row, joined by `; ` when both are present.
pub open spec fn full_reason(row: ComparisonRow) -> Seq<char> {
    let p = station_reason(row);
    let c = candidate_reason(row);
    if p.len() == 0 {
        c
    } else if c.len() == 0 {
        p
    } else {
        p + "; "@ + c
    }
}

/// The station and candidate reasons of a row, joined by `; `.
pub fn report_reason(row: &ComparisonRow) -> (r: String)
    ensures
        r@ == full_reason(*row),
{
    let p = station_report_reason(row);
    let c = candidate_report_reason(row);
    let pv = to_chars(p.as_str());
    let cv = to_chars(c.as_str());
    if pv.len() == 0 {
        c
    } else if cv.len() == 0 {
        p
    } else {
        let mut m = pv;
        push_str(&mut m, "; ");
        append_chars(&mut m, &cv);
        from_chars(&m)
    }
}

/// The reason the terminal report shows: the row's reasons, shortened.
pub open spec fn term_reason(row: ComparisonRow) -> Seq<char> {
    if full_reason(row).len() == 0 {
        Seq::empty()
    } else {
        short_reason(full_reason(row))
    }
}

/// The reason the terminal report shows for a row.
pub fn terminal_reason(row: &ComparisonRow) -> (r: String)
    ensures
        r@ == term_reason(*row),
{
    let reason = report_reason(row);
    let v = to_chars(reason.as_str());
    if v.len() == 0 {
        return reason;
    }
    shorten_reason(reason.as_str())
}

/// A shortened reason, empty when there is none.
pub open spec fn short_md_reason(reason: Seq<char>) -> Seq<char> {
    if reason.len() == 0 {
        Seq::empty()
    } else {
        short_reason(reason)
    }
}

/// The shortened form of `reason`, or nothing when it is empty.
pub fn short_markdown_reason(reason: &str) -> (r: String)
    ensures
        r@ == short_md_reason(reason@),
{
    let v = to_chars(reason);
    if v.len() == 0 {
        String::new()
    } else {
        shorten_reason(reason)
    }
}

/// The words for a row's candidate comparison status.
pub open spec fn candidate_label(row: ComparisonRow) -> Seq<char> {
    match row.candidates {
        Some(c) => candidate_status_text(c.status),
        None => "not checked"@,
    }
}

/// The status of a row's candidate comparison, or `not checked`.
pub fn candidate_status_label(row: &ComparisonRow) -> (r: &'static str)
    ensures
        r@ == candidate_label(*row),
{
    match &row.candidates {
        Some(c) => c.status.label(),
        None => "not checked",
    }
}

/// The colour of a status badge.
pub open spec fn badge_color(label: Seq<char>) -> Seq<char> {
    if label == "fully matches"@ {
        "#22863a"@
    } else if label == "mismatch"@ {
        "#d73a49"@
    } else if label == "internally inconsistent"@ {
        "#b08800"@
    } else if label == "correction inconsistent"@ {
        "#6f42c1"@
    } else if label == "incomplete"@ {
        "#e36209"@
    } else if label == "missing"@ {
        "#d73a49"@
    } else if label == "not checked"@ {
        "#6a737d"@
    } else {
        "#24292e"@
    }
}

/// A status shown in bold in its colour.
pub open spec fn badge(label: Seq<char>) -> Seq<char> {
    "<span style=\"color:"@ + badge_color(label) + "\"><strong>"@ + label
        + "</strong></span>"@
}

/// `label` in bold, in the colour of that status.
pub fn status_badge(label: &str) -> (r: String)
    ensures
        r@ == badge(label@),
{
    let v = to_chars(label);
    let color = if eq_str(&v, "fully matches") {
        "#22863a"
    } else if eq_str(&v, "mismatch") {
        "#d73a49"
    } else if eq_str(&v, "internally inconsistent") {
        "#b08800"
    } else if eq_str(&v, "correction inconsistent") {
        "#6f42c1"
    } else if eq_str(&v, "incomplete") {
        "#e36209"
    } else if eq_str(&v, "missing") {
        "#d73a49"
    } else if eq_str(&v, "not checked") {
        "#6a737d"
    } else {
        "#24292e"
    };
    let mut m = to_chars("<span style=\"color:");
    push_str(&mut m, color);
    push_str(&mut m, "\"><strong>");
    append_chars(&mut m, &v);
    push_str(&mut m, "</strong></span>");
    from_chars(&m)
}

/// The badge of a row's candidate comparison status.
pub fn candidate_status_badge(row: &ComparisonRow) -> (r: String)
    ensures
        r@ == badge(candidate_label(*row)),
{
    status_badge(candidate_status_label(row))
}

/// The number of characters of a text.
pub fn char_width(value: &str) -> (r: usize)
    ensures
        r == value@.len(),
{
    to_chars(value).len()
}

/// `n` spaces.
pub open spec fn spaces(n: nat) -> Seq<char> {
    Seq::new(n, |i: int| ' ')
}

fn push_spaces(m: &mut Vec<char>, n: usize)
    ensures
        final(m)@ == old(m)@ + spaces(n as nat),
{
    let ghost m0 = m@;
    let mut i: usize = 0;
    while i < n
        invariant
            i <= n,
            m@ == m0 + spaces(i as nat),
        decreases n - i,
    {
        m.push(' ');
        assert(m0 + spaces((i + 1) as nat) =~= (m0 + spaces(i as nat)).push(' '));
        i = i + 1;
    }
}

/// `value` followed by spaces up to `width` characters.
pub open spec fn padded_right(value: Seq<char>, width: nat) -> Seq<char> {
    value + spaces(if width > value.len() {
        (width - value.len()) as nat
    } else {
        0
    })
}

/// `value` followed by spaces up to `width` characters.
pub fn pad_right(value: &str, width: usize) -> (r: String)
    ensures
        r@ == padded_right(value@, width as nat),
{
    let mut m = to_chars(value);
    let n = if width > m.len() {
        width - m.len()
    } else {
        0
    };
    push_spaces(&mut m, n);
    from_chars(&m)
}

/// Spaces up to `width` characters, then `value`.
pub open spec fn padded_left(value: Seq<char>, width: nat) -> Seq<char> {
    spaces(if width > value.len() {
        (width - value.len()) as nat
    } else {
        0
    }) + value
}

/// Spaces up to `width` characters, followed by `value`.
pub fn pad_left(value: &str, width: usize) -> (r: String)
    ensures
        r@ == padded_left(value@, width as nat),
{
    let v = to_chars(value);
    let n = if width > v.len() {
        width - v.len()
    } else {
        0
    };
    let mut m: Vec<char> = Vec::new();
    push_spaces(&mut m, n);
    append_chars(&mut m, &v);
    assert(m@ =~= spaces(n as nat) + v@);
    from_chars(&m)
}

/// Padding never leaves a text shorter than the width asked for, and keeps
/// the text itself at the start.
pub proof fn law_pad_right_width(value: Seq<char>, width: nat)
    ensures
        padded_right(value, width).len() >= width,
        padded_right(value, width).len() >= value.len(),
        padded_right(value, width).take(value.len() as int) == value,
{
    assert(padded_right(value, width).take(value.len() as int) =~= value);
}

/// `value` cut to `width` characters, ending in `...` when it was cut and
/// the width leaves room for it.
pub open spec fn truncated(value: Seq<char>, width: nat) -> Seq<char> {
    if value.len() <= width {
        value
    } else if width <= 3 {
        value.take(width as int)
    } else {
        value.take(width - 3) + "..."@
    }
}

/// `value`, cut to `width` characters with `...` at the end when too long.
pub fn truncate_text(value: &str, width: usize) -> (r: String)
    ensures
        r@ == truncated(value@, width as nat),
{
    let v = to_chars(value);
    if v.len() <= width {
        return value.to_owned();
    }
    if width <= 3 {
        let t = crate::textops::subrange_chars(&v, 0, width);
        assert(t@ =~= v@.take(width as int));
        return from_chars(&t);
    }
    let mut t = crate::textops::subrange_chars(&v, 0, width - 3);
    assert(t@ =~= v@.take(width - 3));
    push_str(&mut t, "...");
    from_chars(&t)
}

/// A truncated text is never wider than asked for.
pub proof fn law_truncate_fits(value: Seq<char>, width: nat)
    ensures
        truncated(value, width).len() <= width,
        value.len() <= width ==> truncated(value, width) == value,
{
    reveal_strlit("...");
}

/// The whitespace-separated words of `s`, joined by single spaces: each
/// run of whitespace becomes one space, and none is left at either end.
pub open spec fn collapsed(s: Seq<char>) -> Seq<char>
    decreases s.len(),
{
    if s.len() == 0 {
        Seq::empty()
    } else if is_ws(s[0]) {
        collapsed(s.drop_first())
    } else {
        let w = word_len(s, 0);
        proof {
            lemma_word_len(s, 0);
        }
        let rest = collapsed(s.skip(w));
        if rest.len() == 0 {
            s.take(w)
        } else {
            s.take(w) + seq![' '] + rest
        }
    }
}

/// The index of the first whitespace character of `s` at or after `i` (or
/// its length).
pub open spec fn word_len(s: Seq<char>, i: int) -> int
    decreases s.len() - i,
{
    if i < 0 {
        0
    } else if i >= s.len() || is_ws(s[i]) {
        i
    } else {
        word_len(s, i + 1)
    }
}

pub proof fn lemma_word_len(s: Seq<char>, i: int)
    requires
        0 <= i <= s.len(),
    ensures
        i <= word_len(s, i) <= s.len(),
        forall|k: int| i <= k < word_len(s, i) ==> !is_ws(s[k]),
        word_len(s, i) < s.len() ==> is_ws(s[word_len(s, i)]),
        i < s.len() && !is_ws(s[i]) ==> word_len(s, i) > i,
    decreases s.len() - i,
{
    if i < s.len() && !is_ws(s[i]) {
        lemma_word_len(s, i + 1);
    }
}

/// The words of `value` separated by single spaces.
pub fn collapse_whitespace(value: &str) -> (r: String)
    ensures
        r@ == collapsed(value@),
{
    let v = to_chars(value);
    let mut words: Vec<Vec<char>> = Vec::new();
    let mut pos: usize = 0;
    let mut out: Vec<char> = Vec::new();
    let ghost s = v@;
    assert(s.skip(0) =~= s);
    // The text still to read is `s.skip(pos)`; `out` followed by a space
    // and the collapse of the rest (when not empty) gives the result.
    while pos < v.len()
        invariant
            s == v@,
            pos <= v.len(),
            collapsed(s) == if out@.len() == 0 {
                collapsed(s.skip(pos as int))
            } else if collapsed(s.skip(pos as int)).len() == 0 {
                out@
            } else {
                out@ + seq![' '] + collapsed(s.skip(pos as int))
            },
        decreases v.len() - pos,
    {
        let ghost t = s.skip(pos as int);
        if is_whitespace(v[pos]) {
            assert(t.drop_first() =~= s.skip(pos + 1));
            pos = pos + 1;
        } else {
            let mut end = pos;
            while end < v.len() && !is_whitespace(v[end])
                invariant
                    pos <= end <= v.len(),
                    s == v@,
                    t == s.skip(pos as int),
                    word_len(t, 0) == word_len(t, end - pos),
                decreases v.len() - end,
            {
                end = end + 1;
            }
            proof {
                lemma_word_len(t, 0);
            }
            let w = crate::textops::subrange_chars(&v, pos, end);
            assert(w@ =~= t.take(end - pos));
            assert(t.skip(end - pos) =~= s.skip(end as int));
            if out.len() > 0 {
                out.push(' ');
            }
            append_chars(&mut out, &w);
            pos = end;
            assert(collapsed(s) == if out@.len() == 0 {
                collapsed(s.skip(pos as int))
            } else if collapsed(s.skip(pos as int)).len() == 0 {
                out@
            } else {
                out@ + seq![' '] + collapsed(s.skip(pos as int))
            }) by {
                assert(out@.len() > 0);
            }
        }
    }
    assert(s.skip(v.len() as int) =~= Seq::<char>::empty());
    from_chars(&out)
}

/// A table cell with `|` escaped as `\|` and line breaks turned into spaces.
pub open spec fn escaped_cell(s: Seq<char>) -> Seq<char>
    decreases s.len(),
{
    if s.len() == 0 {
        Seq::empty()
    } else {
        let c = s.last();
        escaped_cell(s.drop_last()) + if c == '|' {
            seq!['\\', '|']
        } else if c == '\n' {
            seq![' ']
        } else {
            seq![c]
        }
    }
}

/// `value` made safe for a Markdown table cell.
pub fn escape_markdown_table_cell(value: &str) -> (r: String)
    ensures
        r@ == escaped_cell(value@),
{
    let v = to_chars(value);
    let mut out: Vec<char> = Vec::new();
    let mut i: usize = 0;
    while i < v.len()
        invariant
            i <= v.len(),
            out@ == escaped_cell(v@.take(i as int)),
        decreases v.len() - i,
    {
        assert(v@.take(i + 1).drop_last() =~= v@.take(i as int));
        let c = v[i];
        if c == '|' {
            out.push('\\');
            out.push('|');
            assert(out@ =~= escaped_cell(v@.take(i as int)) + seq!['\\', '|']);
        } else if c == '\n' {
            out.push(' ');
            assert(out@ =~= escaped_cell(v@.take(i as int)) + seq![' ']);
        } else {
            out.push(c);
            assert(out@ =~= escaped_cell(v@.take(i as int)) + seq![c]);
        }
        i = i + 1;
    }
    assert(v@.take(v.len() as int) =~= v@);
    from_chars(&out)
}

/// A terminal table cell: the trimmed value (or `-` when blank) with its
/// whitespace collapsed, cut and padded to `width`.
pub open spec fn cell_text(value: Seq<char>, width: nat) -> Seq<char> {
    let v = if trim(value).len() == 0 {
        "-"@
    } else {
        trim(value)
    };
    padded_right(truncated(collapsed(v), width), width)
}

/// `value` as a terminal table cell of `width` characters.
pub fn terminal_cell(value: &str, width: usize) -> (r: String)
    ensures
        r@ == cell_text(value@, width as nat),
{
    let t = crate::textops::trim_str(value);
    let v = if t.len() == 0 {
        "-".to_owned()
    } else {
        from_chars(&t)
    };
    let c = collapse_whitespace(v.as_str());
    let tr = truncate_text(c.as_str(), width);
    pad_right(tr.as_str(), width)
}

/// The terminal colour code of a status.
pub open spec fn status_color(s: ComparisonStatus) -> Seq<char> {
    match s {
        ComparisonStatus::Missing => "\x1b[33m"@,
        ComparisonStatus::Incomplete => "\x1b[36m"@,
        ComparisonStatus::CorrectionInconsistent => "\x1b[95m"@,
        ComparisonStatus::InternallyInconsistent => "\x1b[35m"@,
        ComparisonStatus::Mismatch => "\x1b[31m"@,
        ComparisonStatus::FullyMatches => "\x1b[32m"@,
    }
}

/// A status padded to `width`, in its colour when `use_color` is set.
pub open spec fn status_text(s: ComparisonStatus, width: nat, use_color: bool) -> Seq<char> {
    let padded = padded_right(status_label(s), width);
    if use_color {
        status_color(s) + padded + "\x1b[0m"@
    } else {
        padded
    }
}

/// The status padded to `width`, coloured for a terminal when asked.
pub fn format_status(status: ComparisonStatus, width: usize, use_color: bool) -> (r: String)
    ensures
        r@ == status_text(status, width as nat, use_color),
{
    let padded = pad_right(status.label(), width);
    if !use_color {
        return padded;
    }
    let color = match status {
        ComparisonStatus::Missing => "\x1b[33m",
        ComparisonStatus::Incomplete => "\x1b[36m",
        ComparisonStatus::CorrectionInconsistent => "\x1b[95m",
        ComparisonStatus::InternallyInconsistent => "\x1b[35m",
        ComparisonStatus::Mismatch => "\x1b[31m",
        ComparisonStatus::FullyMatches => "\x1b[32m",
    };
    let mut m = to_chars(color);
    let pc = to_chars(padded.as_str());
    append_chars(&mut m, &pc);
    push_str(&mut m, "\x1b[0m");
    from_chars(&m)
}

/// The position of a status in the summary counts: in declaration order.
pub open spec fn status_index(s: ComparisonStatus) -> int {
    match s {
        ComparisonStatus::Missing => 0,
        ComparisonStatus::Incomplete => 1,
        ComparisonStatus::CorrectionInconsistent => 2,
        ComparisonStatus::InternallyInconsistent => 3,
        ComparisonStatus::FullyMatches => 4,
        ComparisonStatus::Mismatch => 5,
    }
}

fn status_index_exec(s: ComparisonStatus) -> (r: usize)
    ensures
        r == status_index(s),
{
    match s {
        ComparisonStatus::Missing => 0,
        ComparisonStatus::Incomplete => 1,
        ComparisonStatus::CorrectionInconsistent => 2,
        ComparisonStatus::InternallyInconsistent => 3,
        ComparisonStatus::FullyMatches => 4,
        ComparisonStatus::Mismatch => 5,
    }
}

/// How many of the first `k` rows have status `s`.
pub open spec fn count_status(rows: Seq<ComparisonRow>, s: ComparisonStatus, k: int) -> nat
    decreases k,
{
    if k <= 0 {
        0
    } else {
        count_status(rows, s, k - 1) + if rows[k - 1].status == s {
            1nat
        } else {
            0nat
        }
    }
}

/// How many rows have each status; the count of status `s` is at
/// `status_index(s)`.
pub fn comparison_counts(rows: &Vec<ComparisonRow>) -> (r: Vec<usize>)
    ensures
        r@.len() == 6,
        forall|s: ComparisonStatus| #[trigger] r@[status_index(s)] == count_status(rows@, s, rows@.len() as int),
{
    let mut counts: Vec<usize> = vec![0, 0, 0, 0, 0, 0];
    let mut i: usize = 0;
    while i < rows.len()
        invariant
            i <= rows.len(),
            counts@.len() == 6,
            forall|s: ComparisonStatus| #[trigger] counts@[status_index(s)] == count_status(rows@, s, i as int),
            forall|s: ComparisonStatus| #[trigger] count_status(rows@, s, i as int) <= i,
        decreases rows.len() - i,
    {
        let k = status_index_exec(rows[i].status);
        assert(counts@[status_index(rows@[i as int].status)] <= i);
        counts.set(k, counts[k] + 1);
        assert forall|s: ComparisonStatus| #[trigger] counts@[status_index(s)] == count_status(rows@, s, i + 1) by {
            if s == rows@[i as int].status {
            } else {
                assert(status_index(s) != status_index(rows@[i as int].status));
            }
        }
        assert forall|s: ComparisonStatus| #[trigger] count_status(rows@, s, i + 1) <= i + 1 by {
            assert(count_status(rows@, s, i as int) <= i);
        }
        i = i + 1;
    }
    counts
}

/// The position of a candidate status in the candidate summary counts.
pub open spec fn candidate_status_index(s: CandidateComparisonStatus) -> int {
    match s {
        CandidateComparisonStatus::Incomplete => 0,
        CandidateComparisonStatus::InternallyInconsistent => 1,
        CandidateComparisonStatus::FullyMatches => 2,
        CandidateComparisonStatus::Mismatch => 3,
    }
}

fn candidate_status_index_exec(s: CandidateComparisonStatus) -> (r: usize)
    ensures
        r == candidate_status_index(s),
{
    match s {
        CandidateComparisonStatus::Incomplete => 0,
        CandidateComparisonStatus::InternallyInconsistent => 1,
        CandidateComparisonStatus::FullyMatches => 2,
        CandidateComparisonStatus::Mismatch => 3,
    }
}

/// How many of the first `k` rows have a candidate comparison with status
/// `s`.
pub open spec fn count_candidate_status(
    rows: Seq<ComparisonRow>,
    s: CandidateComparisonStatus,
    k: int,
) -> nat
    decreases k,
{
    if k <= 0 {
        0
    } else {
        count_candidate_status(rows, s, k - 1) + match rows[k - 1].candidates {
            Some(c) => if c.status == s {
                1nat
            } else {
                0nat
            },
            None => 0nat,
        }
    }
}

/// How many rows have a candidate comparison of each status; the count of
/// status `s` is at `candidate_status_index(s)`.
pub fn candidate_comparison_counts(rows: &Vec<ComparisonRow>) -> (r: Vec<usize>)
    ensures
        r@.len() == 4,
        forall|s: CandidateComparisonStatus|
            #[trigger] r@[candidate_status_index(s)] == count_candidate_status(
                rows@,
                s,
                rows@.len() as int,
            ),
{
    let mut counts: Vec<usize> = vec![0, 0, 0, 0];
    let mut i: usize = 0;
    while i < rows.len()
        invariant
            i <= rows.len(),
            counts@.len() == 4,
            forall|s: CandidateComparisonStatus|
                #[trigger] counts@[candidate_status_index(s)] == count_candidate_status(
                    rows@,
                    s,
                    i as int,
                ),
            forall|s: CandidateComparisonStatus| #[trigger] count_candidate_status(rows@, s, i as int) <= i,
        decreases rows.len() - i,
    {
        match &rows[i].candidates {
            Some(c) => {
                let k = candidate_status_index_exec(c.status);
                assert(counts@[candidate_status_index(c.status)] <= i);
                counts.set(k, counts[k] + 1);
                assert forall|s: CandidateComparisonStatus|
                    #[trigger] counts@[candidate_status_index(s)] == count_candidate_status(
                        rows@,
                        s,
                        i + 1,
                    ) by {
                    if s == c.status {
                    } else {
                        assert(candidate_status_index(s) != candidate_status_index(c.status));
                    }
                }
            },
            None => {},
        }
        assert forall|s: CandidateComparisonStatus| #[trigger] count_candidate_status(rows@, s, i + 1) <= i + 1 by {
            assert(count_candidate_status(rows@, s, i as int) <= i);
        }
        i = i + 1;
    }
    counts
}

/// The lines `- {detail}` for the non-empty details among the first `k`.
pub open spec fn detail_lines(ds: Seq<Seq<char>>, k: int) -> Seq<char>
    decreases k,
{
    if k <= 0 {
        Seq::empty()
    } else if ds[k - 1].len() == 0 {
        detail_lines(ds, k - 1)
    } else {
        detail_lines(ds, k - 1) + "- "@ + ds[k - 1] + "\n"@
    }
}

/// The lines ``- `{path}` `` for the first `k` paths.
pub open spec fn path_lines(ps: Seq<Seq<char>>, k: int) -> Seq<char>
    decreases k,
{
    if k <= 0 {
        Seq::empty()
    } else {
        path_lines(ps, k - 1) + "- `"@ + ps[k - 1] + "`\n"@
    }
}

/// The candidate section of a mismatch report.
pub open spec fn candidate_note(row: ComparisonRow) -> Seq<char> {
    match row.candidates {
        None => Seq::empty(),
        Some(c) => {
            let ds = crate::text::split_str(c.details@, "; "@);
            let ps = crate::text::strs(c.paths@);
            "\n## Candidate Votes\n\n"@ + "- Status: `"@ + candidate_status_text(c.status) + "`\n"@
                + "- Compared candidate cells: "@ + dec(c.compared_values as nat) + "/"@ + dec(
                c.expected_values as nat,
            ) + "\n"@ + "- Candidate OCR files: "@ + dec(ps.len()) + "\n"@ + detail_lines(
                ds,
                ds.len() as int,
            ) + if ps.len() > 0 {
                "\n<details>\n<summary>Candidate OCR Markdown files</summary>\n\n"@ + path_lines(
                    ps,
                    ps.len() as int,
                ) + "\n</details>\n"@
            } else {
                Seq::empty()
            }
        },
    }
}

/// The candidate section of a row's mismatch report: its status, how many
/// cells were compared, its details and its OCR files.
pub fn candidate_note_for_report(row: &ComparisonRow) -> (r: String)
    ensures
        r@ == candidate_note(*row),
{
    proof {
        reveal_strlit("; ");
    }
    let c = match &row.candidates {
        None => {
            return String::new();
        },
        Some(c) => c,
    };
    let mut m = to_chars("\n## Candidate Votes\n\n");
    push_str(&mut m, "- Status: `");
    push_str(&mut m, c.status.label());
    push_str(&mut m, "`\n");
    push_str(&mut m, "- Compared candidate cells: ");
    let a = dec_chars(c.compared_values as u64);
    append_chars(&mut m, &a);
    push_str(&mut m, "/");
    let b = dec_chars(c.expected_values as u64);
    append_chars(&mut m, &b);
    push_str(&mut m, "\n");
    push_str(&mut m, "- Candidate OCR files: ");
    let n = dec_chars(c.paths.len() as u64);
    append_chars(&mut m, &n);
    push_str(&mut m, "\n");
    let dv = to_chars(c.details.as_str());
    let ds = crate::textops::split_str_chars(&dv, "; ");
    let ghost dss = crate::text::seqs(ds@);
    let ghost m0 = m@;
    let mut k: usize = 0;
    while k < ds.len()
        invariant
            dss == crate::text::seqs(ds@),
            k <= ds.len(),
            m@ == m0 + detail_lines(dss, k as int),
        decreases ds.len() - k,
    {
        assert(dss[k as int] == ds@[k as int]@);
        if ds[k].len() > 0 {
            push_str(&mut m, "- ");
            append_chars(&mut m, &ds[k]);
            push_str(&mut m, "\n");
            assert(m@ =~= m0 + detail_lines(dss, k + 1));
        }
        k = k + 1;
    }
    let ghost ps = crate::text::strs(c.paths@);
    if c.paths.len() > 0 {
        push_str(&mut m, "\n<details>\n<summary>Candidate OCR Markdown files</summary>\n\n");
        let ghost m1 = m@;
        let mut j: usize = 0;
        while j < c.paths.len()
            invariant
                ps == crate::text::strs(c.paths@),
                j <= c.paths.len(),
                m@ == m1 + path_lines(ps, j as int),
            decreases c.paths.len() - j,
        {
            assert(ps[j as int] == c.paths@[j as int]@);
            push_str(&mut m, "- `");
            push_str(&mut m, c.paths[j].as_str());
            push_str(&mut m, "`\n");
            assert(m@ =~= m1 + path_lines(ps, j + 1));
            j = j + 1;
        }
        push_str(&mut m, "\n</details>\n");
    } else {
        assert(m@ =~= m@ + Seq::<char>::empty());
    }
    from_chars(&m)
}

/// The link from the summary report to a row's mismatch report, when it
/// has one.
pub open spec fn report_link(dir: Option<Seq<char>>, row: ComparisonRow) -> Seq<char> {
    if !row_needs_report(row) {
        Seq::empty()
    } else {
        match dir {
            None => Seq::empty(),
            Some(d) => {
                let dir_name = match file_name_of(d) {
                    Some(n) => n,
                    None => "mismatches"@,
                };
                "[details]("@ + dir_name + "/"@ + "station-"@ + row.station@.map_values(
                    |c: char| crate::names::file_safe(c),
                ) + ".md"@ + ")"@
            },
        }
    }
}

/// The Markdown link to a row's mismatch report in `mismatch_report_dir`,
/// or nothing when the row has none.
pub fn mismatch_report_markdown_link(mismatch_report_dir: Option<&str>, row: &ComparisonRow) -> (r:
    String)
    ensures
        r@ == report_link(
            match mismatch_report_dir {
                Some(d) => Some(d@),
                None => None,
            },
            *row,
        ),
{
    if !row_needs_mismatch_report(row) {
        return String::new();
    }
    let dir = match mismatch_report_dir {
        Some(d) => d,
        None => {
            return String::new();
        },
    };
    let dir_name = match path_file_name(dir) {
        Some(n) => n,
        None => "mismatches".to_owned(),
    };
    let mut m = to_chars("[details](");
    push_str(&mut m, dir_name.as_str());
    push_str(&mut m, "/");
    push_str(&mut m, "station-");
    let safe = crate::names::safe_file_part(row.station.as_str());
    push_str(&mut m, safe.as_str());
    push_str(&mut m, ".md");
    push_str(&mut m, ")");
    from_chars(&m)
}

/// The line of the summary table for one comparison row.
pub open spec fn summary_row_line(row: ComparisonRow, dir: Option<Seq<char>>) -> Seq<char> {
    "| "@ + escaped_cell(row.station@) + " | "@ + escaped_cell(row.location@) + " | "@ + badge(
        status_label(row.status),
    ) + " | "@ + escaped_cell(short_md_reason(station_reason(row))) + " | "@ + badge(
        candidate_label(row),
    ) + " | "@ + escaped_cell(short_md_reason(candidate_reason(row))) + " | "@ + report_link(
        dir,
        row,
    ) + " |"@ + "\n"@
}

/// The summary table lines of the first `k` rows.
pub open spec fn summary_rows(rows: Seq<ComparisonRow>, dir: Option<Seq<char>>, k: int) -> Seq<char>
    decreases k,
{
    if k <= 0 {
        Seq::empty()
    } else {
        summary_rows(rows, dir, k - 1) + summary_row_line(rows[k - 1], dir)
    }
}

/// How many of the first `k` rows have no candidate comparison.
pub open spec fn count_unchecked(rows: Seq<ComparisonRow>, k: int) -> nat
    decreases k,
{
    if k <= 0 {
        0
    } else {
        count_unchecked(rows, k - 1) + if rows[k - 1].candidates is None {
            1nat
        } else {
            0nat
        }
    }
}

/// The summary line `- {label}: {count}`.
pub open spec fn count_line(label: Seq<char>, n: nat) -> Seq<char> {
    "- "@ + label + ": "@ + dec(n) + "\n"@
}

/// The count lines of the station statuses, in report order.
pub open spec fn status_summary(rows: Seq<ComparisonRow>) -> Seq<char> {
    let n = rows.len() as int;
    count_line(status_label(ComparisonStatus::Missing), count_status(rows, ComparisonStatus::Missing, n))
        + count_line(
        status_label(ComparisonStatus::Incomplete),
        count_status(rows, ComparisonStatus::Incomplete, n),
    ) + count_line(
        status_label(ComparisonStatus::CorrectionInconsistent),
        count_status(rows, ComparisonStatus::CorrectionInconsistent, n),
    ) + count_line(
        status_label(ComparisonStatus::InternallyInconsistent),
        count_status(rows, ComparisonStatus::InternallyInconsistent, n),
    ) + count_line(
        status_label(ComparisonStatus::Mismatch),
        count_status(rows, ComparisonStatus::Mismatch, n),
    ) + count_line(
        status_label(ComparisonStatus::FullyMatches),
        count_status(rows, ComparisonStatus::FullyMatches, n),
    )
}

/// The count lines of the candidate statuses, in report order, and of the
/// rows not checked.
pub open spec fn candidate_summary(rows: Seq<ComparisonRow>) -> Seq<char> {
    let n = rows.len() as int;
    count_line(
        candidate_status_text(CandidateComparisonStatus::Incomplete),
        count_candidate_status(rows, CandidateComparisonStatus::Incomplete, n),
    ) + count_line(
        candidate_status_text(CandidateComparisonStatus::InternallyInconsistent),
        count_candidate_status(rows, CandidateComparisonStatus::InternallyInconsistent, n),
    ) + count_line(
        candidate_status_text(CandidateComparisonStatus::Mismatch),
        count_candidate_status(rows, CandidateComparisonStatus::Mismatch, n),
    ) + count_line(
        candidate_status_text(CandidateComparisonStatus::FullyMatches),
        count_candidate_status(rows, CandidateComparisonStatus::FullyMatches, n),
    ) + count_line("not checked"@, count_unchecked(rows, n))
}

/// The Markdown comparison report.
pub open spec fn markdown_report(
    source: Seq<char>,
    results_dir: Seq<char>,
    corrections_dir: Seq<char>,
    candidates_dir: Seq<char>,
    dir: Option<Seq<char>>,
    rows: Seq<ComparisonRow>,
) -> Seq<char> {
    let head = "Official CSV: "@ + source + "\n"@ + "Markdown directory: "@ + results_dir + "\n"@
        + "Corrections directory: "@ + corrections_dir + "\n"@ + "Candidates directory: "@
        + candidates_dir + "\n"@;
    let head2 = match dir {
        Some(d) => head + ("Mismatch reports: "@ + d + "\n"@),
        None => head,
    };
    head2 + "\n"@
        + "| Station | Location | Status | Reason | Candidate Status | Candidate Reason | Report |\n"@
        + "|---:|---|---|---|---|---|---|\n"@ + summary_rows(rows, dir, rows.len() as int) + "\n"@
        + "Summary:\n"@ + status_summary(rows) + "\n"@ + "Candidate summary:\n"@
        + candidate_summary(rows)
}

proof fn lemma_status_counts(rows: Seq<ComparisonRow>, k: int)
    requires
        0 <= k <= rows.len(),
    ensures
        count_status(rows, ComparisonStatus::Missing, k) + count_status(
            rows,
            ComparisonStatus::Incomplete,
            k,
        ) + count_status(rows, ComparisonStatus::CorrectionInconsistent, k) + count_status(
            rows,
            ComparisonStatus::InternallyInconsistent,
            k,
        ) + count_status(rows, ComparisonStatus::Mismatch, k) + count_status(
            rows,
            ComparisonStatus::FullyMatches,
            k,
        ) == k,
        count_candidate_status(rows, CandidateComparisonStatus::Incomplete, k)
            + count_candidate_status(rows, CandidateComparisonStatus::InternallyInconsistent, k)
            + count_candidate_status(rows, CandidateComparisonStatus::Mismatch, k)
            + count_candidate_status(rows, CandidateComparisonStatus::FullyMatches, k)
            + count_unchecked(rows, k) == k,
    decreases k,
{
    if k > 0 {
        lemma_status_counts(rows, k - 1);
    }
}

proof fn lemma_report_head(
    source: Seq<char>,
    results_dir: Seq<char>,
    corrections_dir: Seq<char>,
    candidates_dir: Seq<char>,
    dir: Option<Seq<char>>,
    rows: Seq<ComparisonRow>,
)
    ensures
        exists|head: Seq<char>|
            markdown_report(source, results_dir, corrections_dir, candidates_dir, dir, rows) == head
                + "| Station | Location | Status | Reason | Candidate Status | Candidate Reason | Report |\n"@
                + "|---:|---|---|---|---|---|---|\n"@ + summary_rows(rows, dir, rows.len() as int)
                + "\n"@ + "Summary:\n"@ + status_summary(rows) + "\n"@ + "Candidate summary:\n"@
                + candidate_summary(rows),
{
    let head = "Official CSV: "@ + source + "\n"@ + "Markdown directory: "@ + results_dir + "\n"@
        + "Corrections directory: "@ + corrections_dir + "\n"@ + "Candidates directory: "@
        + candidates_dir + "\n"@;
    let head2 = match dir {
        Some(d) => head + ("Mismatch reports: "@ + d + "\n"@),
        None => head,
    };
    let h = head2 + "\n"@;
    assert(markdown_report(source, results_dir, corrections_dir, candidates_dir, dir, rows) == h
        + "| Station | Location | Status | Reason | Candidate Status | Candidate Reason | Report |\n"@
        + "|---:|---|---|---|---|---|---|\n"@ + summary_rows(rows, dir, rows.len() as int) + "\n"@
        + "Summary:\n"@ + status_summary(rows) + "\n"@ + "Candidate summary:\n"@
        + candidate_summary(rows));
}

proof fn lemma_row_line_start(row: ComparisonRow, dir: Option<Seq<char>>)
    ensures
        summary_row_line(row, dir).take(2 + escaped_cell(row.station@).len() as int) == "| "@
            + escaped_cell(row.station@),
{
    reveal_strlit("| ");
    let p = "| "@ + escaped_cell(row.station@);
    let line = summary_row_line(row, dir);
    let rest = " | "@ + escaped_cell(row.location@) + " | "@ + badge(status_label(row.status))
        + " | "@ + escaped_cell(short_md_reason(station_reason(row))) + " | "@ + badge(
        candidate_label(row),
    ) + " | "@ + escaped_cell(short_md_reason(candidate_reason(row))) + " | "@ + report_link(
        dir,
        row,
    ) + " |"@ + "\n"@;
    assert(line =~= p + rest);
    assert((p + rest).take(p.len() as int) =~= p);
}

/// The Markdown comparison report: the lines naming its inputs, a blank
/// line, the table header and separator, then one table line per row in
/// row order, each starting with `| ` and the row's escaped station code;
/// then the summary of the six statuses, whose counts add up to the number
/// of rows, and the candidate summary, whose four status counts and
/// `not checked` count add up to the number of rows.
pub proof fn law_markdown_report_layout(
    source: Seq<char>,
    results_dir: Seq<char>,
    corrections_dir: Seq<char>,
    candidates_dir: Seq<char>,
    dir: Option<Seq<char>>,
    rows: Seq<ComparisonRow>,
)
    ensures
        exists|head: Seq<char>|
            markdown_report(source, results_dir, corrections_dir, candidates_dir, dir, rows) == head
                + "| Station | Location | Status | Reason | Candidate Status | Candidate Reason | Report |\n"@
                + "|---:|---|---|---|---|---|---|\n"@ + summary_rows(rows, dir, rows.len() as int)
                + "\n"@ + "Summary:\n"@ + status_summary(rows) + "\n"@ + "Candidate summary:\n"@
                + candidate_summary(rows),
        forall|k: int|
            0 <= k < rows.len() ==> #[trigger] summary_rows(rows, dir, k + 1) == summary_rows(
                rows,
                dir,
                k,
            ) + summary_row_line(rows[k], dir),
        forall|k: int|
            0 <= k < rows.len() ==> (#[trigger] summary_row_line(rows[k], dir)).take(
                2 + escaped_cell(rows[k].station@).len() as int,
            ) == "| "@ + escaped_cell(rows[k].station@),
        count_status(rows, ComparisonStatus::Missing, rows.len() as int) + count_status(
            rows,
            ComparisonStatus::Incomplete,
            rows.len() as int,
        ) + count_status(rows, ComparisonStatus::CorrectionInconsistent, rows.len() as int)
            + count_status(rows, ComparisonStatus::InternallyInconsistent, rows.len() as int)
            + count_status(rows, ComparisonStatus::Mismatch, rows.len() as int) + count_status(
            rows,
            ComparisonStatus::FullyMatches,
            rows.len() as int,
        ) == rows.len(),
        count_candidate_status(rows, CandidateComparisonStatus::Incomplete, rows.len() as int)
            + count_candidate_status(
            rows,
            CandidateComparisonStatus::InternallyInconsistent,
            rows.len() as int,
        ) + count_candidate_status(rows, CandidateComparisonStatus::Mismatch, rows.len() as int)
            + count_candidate_status(
            rows,
            CandidateComparisonStatus::FullyMatches,
            rows.len() as int,
        ) + count_unchecked(rows, rows.len() as int) == rows.len(),
{
    lemma_report_head(source, results_dir, corrections_dir, candidates_dir, dir, rows);
    assert forall|k: int| 0 <= k < rows.len() implies (#[trigger] summary_row_line(
        rows[k],
        dir,
    )).take(2 + escaped_cell(rows[k].station@).len() as int) == "| "@ + escaped_cell(rows[k].station@) by {
        lemma_row_line_start(rows[k], dir);
    }
    lemma_status_counts(rows, rows.len() as int);
}

/// Appends `- {label}: {n}` and a line break.
fn push_count_line(m: &mut Vec<char>, label: &str, n: usize)
    ensures
        final(m)@ == old(m)@ + count_line(label@, n as nat),
{
    let ghost m0 = m@;
    push_str(m, "- ");
    push_str(m, label);
    push_str(m, ": ");
    let d = dec_chars(n as u64);
    append_chars(m, &d);
    push_str(m, "\n");
    assert(m@ =~= m0 + count_line(label@, n as nat));
}

/// Appends the text of `s`.
fn push_string(m: &mut Vec<char>, s: &String)
    ensures
        final(m)@ == old(m)@ + s@,
{
    push_str(m, s.as_str());
}

/// Appends the summary table line of `row`.
fn push_summary_row(m: &mut Vec<char>, row: &ComparisonRow, mismatch_report_dir: Option<&str>)
    ensures
        final(m)@ == old(m)@ + summary_row_line(
            *row,
            match mismatch_report_dir {
                Some(d) => Some(d@),
                None => None,
            },
        ),
{
    let ghost before = m@;
    push_str(m, "| ");
    let a = escape_markdown_table_cell(row.station.as_str());
    push_string(m, &a);
    push_str(m, " | ");
    let b = escape_markdown_table_cell(row.location.as_str());
    push_string(m, &b);
    push_str(m, " | ");
    let c = status_badge(row.status.label());
    push_string(m, &c);
    push_str(m, " | ");
    let sr = station_report_reason(row);
    let ssr = short_markdown_reason(sr.as_str());
    let d = escape_markdown_table_cell(ssr.as_str());
    push_string(m, &d);
    push_str(m, " | ");
    let e = candidate_status_badge(row);
    push_string(m, &e);
    push_str(m, " | ");
    let cr = candidate_report_reason(row);
    let scr = short_markdown_reason(cr.as_str());
    let f = escape_markdown_table_cell(scr.as_str());
    push_string(m, &f);
    push_str(m, " | ");
    let g = mismatch_report_markdown_link(mismatch_report_dir, row);
    push_string(m, &g);
    push_str(m, " |");
    push_str(m, "\n");
}

/// Appends the count lines of the station statuses.
fn push_status_summary(m: &mut Vec<char>, rows: &Vec<ComparisonRow>)
    ensures
        final(m)@ == old(m)@ + status_summary(rows@),
{
    let ghost m1 = m@;
    let counts = comparison_counts(rows);
    assert(counts@[status_index(ComparisonStatus::Missing)] == counts@[0]);
    assert(counts@[status_index(ComparisonStatus::Incomplete)] == counts@[1]);
    assert(counts@[status_index(ComparisonStatus::CorrectionInconsistent)] == counts@[2]);
    assert(counts@[status_index(ComparisonStatus::InternallyInconsistent)] == counts@[3]);
    assert(counts@[status_index(ComparisonStatus::FullyMatches)] == counts@[4]);
    assert(counts@[status_index(ComparisonStatus::Mismatch)] == counts@[5]);
    push_count_line(m, ComparisonStatus::Missing.label(), counts[0]);
    push_count_line(m, ComparisonStatus::Incomplete.label(), counts[1]);
    push_count_line(m, ComparisonStatus::CorrectionInconsistent.label(), counts[2]);
    push_count_line(m, ComparisonStatus::InternallyInconsistent.label(), counts[3]);
    push_count_line(m, ComparisonStatus::Mismatch.label(), counts[5]);
    push_count_line(m, ComparisonStatus::FullyMatches.label(), counts[4]);
    assert(m@ =~= m1 + status_summary(rows@));
}

/// Appends the count lines of the candidate statuses and of the rows not
/// checked.
fn push_candidate_summary(m: &mut Vec<char>, rows: &Vec<ComparisonRow>)
    ensures
        final(m)@ == old(m)@ + candidate_summary(rows@),
{
    let ghost m2 = m@;
    let candidate_counts = candidate_comparison_counts(rows);
    assert(candidate_counts@[candidate_status_index(CandidateComparisonStatus::Incomplete)]
        == candidate_counts@[0]);
    assert(candidate_counts@[candidate_status_index(
        CandidateComparisonStatus::InternallyInconsistent,
    )] == candidate_counts@[1]);
    assert(candidate_counts@[candidate_status_index(CandidateComparisonStatus::FullyMatches)]
        == candidate_counts@[2]);
    assert(candidate_counts@[candidate_status_index(CandidateComparisonStatus::Mismatch)]
        == candidate_counts@[3]);
    push_count_line(m, CandidateComparisonStatus::Incomplete.label(), candidate_counts[0]);
    push_count_line(m, CandidateComparisonStatus::InternallyInconsistent.label(), candidate_counts[1]);
    push_count_line(m, CandidateComparisonStatus::Mismatch.label(), candidate_counts[3]);
    push_count_line(m, CandidateComparisonStatus::FullyMatches.label(), candidate_counts[2]);
    let mut unchecked: usize = 0;
    let mut i: usize = 0;
    while i < rows.len()
        invariant
            i <= rows.len(),
            unchecked == count_unchecked(rows@, i as int),
            unchecked <= i,
        decreases rows.len() - i,
    {
        if rows[i].candidates.is_none() {
            unchecked = unchecked + 1;
        }
        i = i + 1;
    }
    push_count_line(m, "not checked", unchecked);
    assert(m@ =~= m2 + candidate_summary(rows@));
}

/// The Markdown report of a comparison: the inputs, one table line per row
/// (station, location, status, shortened reason, candidate status and
/// reason, and a link to the mismatch report), then the number of rows of
/// each station status and of each candidate status.
pub fn render_markdown_comparison_report(
    official_results: &OfficialResults,
    results_dir: &str,
    corrections_dir: &str,
    candidates_dir: &str,
    mismatch_report_dir: Option<&str>,
    rows: &Vec<ComparisonRow>,
) -> (r: String)
    ensures
        r@ == markdown_report(
            official_results.source_path@,
            results_dir@,
            corrections_dir@,
            candidates_dir@,
            match mismatch_report_dir {
                Some(d) => Some(d@),
                None => None,
            },
            rows@,
        ),
{
    let ghost dir = match mismatch_report_dir {
        Some(d) => Some(d@),
        None => None,
    };
    let mut m = to_chars("Official CSV: ");
    push_string(&mut m, &official_results.source_path);
    push_str(&mut m, "\n");
    push_str(&mut m, "Markdown directory: ");
    push_str(&mut m, results_dir);
    push_str(&mut m, "\n");
    push_str(&mut m, "Corrections directory: ");
    push_str(&mut m, corrections_dir);
    push_str(&mut m, "\n");
    push_str(&mut m, "Candidates directory: ");
    push_str(&mut m, candidates_dir);
    push_str(&mut m, "\n");
    let ghost head = m@;
    match mismatch_report_dir {
        Some(d) => {
            push_str(&mut m, "Mismatch reports: ");
            push_str(&mut m, d);
            push_str(&mut m, "\n");
            assert(m@ =~= head + ("Mismatch reports: "@ + d@ + "\n"@));
        },
        None => {},
    }
    push_str(&mut m, "\n");
    push_str(
        &mut m,
        "| Station | Location | Status | Reason | Candidate Status | Candidate Reason | Report |\n",
    );
    push_str(&mut m, "|---:|---|---|---|---|---|---|\n");
    let ghost m0 = m@;
    let mut k: usize = 0;
    while k < rows.len()
        invariant
            k <= rows.len(),
            dir == match mismatch_report_dir {
                Some(d) => Some(d@),
                None => None,
            },
            m@ == m0 + summary_rows(rows@, dir, k as int),
        decreases rows.len() - k,
    {
        let ghost before = m@;
        push_summary_row(&mut m, &rows[k], mismatch_report_dir);
        assert(m0 + summary_rows(rows@, dir, k + 1) =~= (m0 + summary_rows(rows@, dir, k as int))
            + summary_row_line(rows@[k as int], dir));
        k = k + 1;
    }
    let ghost m1 = m@;
    push_str(&mut m, "\n");
    push_str(&mut m, "Summary:\n");
    push_status_summary(&mut m, rows);
    push_str(&mut m, "\n");
    push_str(&mut m, "Candidate summary:\n");
    push_candidate_summary(&mut m, rows);
    from_chars(&m)
}

} // verus!
