//! Comparison of a station's candidate vote tables (one per list) with the
//! official candidate values.
use vstd::prelude::*;
use crate::candidates::{
    has_key, key_label, lemma_number_insert, lemma_number_lookup_at, lemma_sorted_insert, lookup,
    number_insert, number_lookup, numbers_sorted, sorted_entries, sorted_insert, CandidateKey,
    CandidateValues, NumberedValues,
};
use crate::comparison::{CandidateComparison, CandidateComparisonStatus, OfficialStationResult};
use crate::corrections::{body_lines, body_lines_exec};
use crate::markdown::{md_cells, md_cells_chars};
use crate::paths::{display_file_name, display_name, file_stem_of, path_file_stem};
use crate::text::{
    contains, dec, find_from, is_digit, join, occurs_at, parse_u32, seqs, split_once, strs,
};
use crate::textops::{
    append_chars, dec_chars, from_chars, is_ascii_digit, join_chars, lemma_find_from, parse_u32_chars, push_str,
    split_once_str, subrange_chars, to_chars, to_strings,
};
use crate::validate::{candidates_errors, candidates_fit, is_skipped, validate_candidates_markdown};

verus! {

broadcast use vstd::string::group_string_axioms;

/// The candidate number and vote count a body line of a candidate table
/// gives: two cells that are both unsigned numbers.
pub open spec fn candidate_line_value(line: Seq<char>) -> Option<(u32, u32)> {
    let cells = md_cells(line);
    if cells.len() == 2 {
        match parse_u32(cells[0]) {
            Some(c) => match parse_u32(cells[1]) {
                Some(v) => Some((c, v)),
                None => None,
            },
            None => None,
        }
    } else {
        None
    }
}

/// The counts given by the first `k` lines, by candidate number; a later
/// line for the same number replaces an earlier one.
pub open spec fn numbered_fold(lines: Seq<Seq<char>>, k: int) -> Seq<(u32, u32)>
    decreases k,
{
    if k <= 0 {
        Seq::empty()
    } else {
        let prev = numbered_fold(lines, k - 1);
        match candidate_line_value(lines[k - 1]) {
            Some((c, v)) => number_insert(prev, c, v),
            None => prev,
        }
    }
}

/// The vote counts of a candidate table, by candidate number in order.
pub open spec fn candidate_votes_of(md: Seq<char>) -> Seq<(u32, u32)> {
    numbered_fold(body_lines(md), body_lines(md).len() as int)
}

/// The vote count of every candidate that a body row of the candidate table
/// gives as two numbers; other rows are ignored.
pub fn parse_candidates_markdown_values(markdown: &str) -> (r: NumberedValues)
    ensures
        r.wf(),
        r@ == candidate_votes_of(markdown@),
{
    let rows = body_lines_exec(markdown);
    let ghost rs = seqs(rows@);
    let mut values = NumberedValues::new();
    let mut k: usize = 0;
    while k < rows.len()
        invariant
            k <= rows.len(),
            rs == seqs(rows@),
            rs == body_lines(markdown@),
            values.wf(),
            values@ == numbered_fold(rs, k as int),
        decreases rows.len() - k,
    {
        assert(rs[k as int] == rows@[k as int]@);
        let cells = md_cells_chars(&rows[k]);
        let ghost cs = seqs(cells@);
        if cells.len() == 2 {
            assert(cs[0] == cells@[0]@ && cs[1] == cells@[1]@);
            match parse_u32_chars(&cells[0]) {
                Some(c) => match parse_u32_chars(&cells[1]) {
                    Some(v) => {
                        values.insert(c, v);
                    },
                    None => {},
                },
                None => {},
            }
        }
        k = k + 1;
    }
    values
}

/// The candidate number a body line gives, if it gives one.
spec fn line_candidate(line: Seq<char>) -> u32 {
    match candidate_line_value(line) {
        Some((c, _)) => c,
        None => 0,
    }
}

/// The count a body line gives, if it gives one.
spec fn line_count(line: Seq<char>) -> u32 {
    match candidate_line_value(line) {
        Some((_, v)) => v,
        None => 0,
    }
}

/// Body line `line` gives candidate number `c` with some count.
spec fn line_gives_number(line: Seq<char>, c: u32) -> bool {
    md_cells(line).len() == 2 && parse_u32(md_cells(line)[0]) == Some(c) && parse_u32(
        md_cells(line)[1],
    ) is Some
}

proof fn lemma_numbered_fold(lines: Seq<Seq<char>>, k: int)
    requires
        0 <= k <= lines.len(),
    ensures
        numbers_sorted(numbered_fold(lines, k)),
        forall|i: int|
            #![trigger lines[i]]
            0 <= i < k && candidate_line_value(lines[i]) is Some && (forall|j: int|
                i < j < k ==> !line_gives_number(lines[j], line_candidate(lines[i])))
                ==> number_lookup(numbered_fold(lines, k), line_candidate(lines[i]))
                == Some(line_count(lines[i])),
        forall|c: u32|
            #[trigger] number_lookup(numbered_fold(lines, k), c) is Some ==> exists|i: int|
                0 <= i < k && candidate_line_value(lines[i]) == Some(
                    (c, number_lookup(numbered_fold(lines, k), c)->0),
                ),
    decreases k,
{
    if k > 0 {
        lemma_numbered_fold(lines, k - 1);
        let prev = numbered_fold(lines, k - 1);
        let cur = numbered_fold(lines, k);
        match candidate_line_value(lines[k - 1]) {
            Some((c0, v0)) => {
                lemma_number_insert(prev, c0, v0);
                assert(cur == number_insert(prev, c0, v0));
                assert forall|i: int|
                    #![trigger lines[i]]
                    0 <= i < k && candidate_line_value(lines[i]) is Some && (forall|j: int|
                        i < j < k ==> !line_gives_number(lines[j], line_candidate(lines[i])))
                        implies number_lookup(cur, line_candidate(lines[i])) == Some(
                        line_count(lines[i]),
                    ) by {
                    let c = line_candidate(lines[i]);
                    if i < k - 1 {
                        assert(!line_gives_number(lines[k - 1], c));
                        assert(c != c0);
                        assert(forall|j: int| i < j < k - 1 ==> !line_gives_number(lines[j], c));
                    }
                }
                assert forall|c: u32| #[trigger] number_lookup(cur, c) is Some implies exists|i: int|
                    0 <= i < k && candidate_line_value(lines[i]) == Some(
                        (c, number_lookup(cur, c)->0),
                    ) by {
                    if c == c0 {
                        assert(candidate_line_value(lines[k - 1]) == Some((c, number_lookup(cur, c)->0)));
                    } else {
                        assert(number_lookup(prev, c) is Some);
                        let i = choose|i: int|
                            0 <= i < k - 1 && candidate_line_value(lines[i]) == Some(
                                (c, number_lookup(prev, c)->0),
                            );
                        assert(candidate_line_value(lines[i]) == Some((c, number_lookup(cur, c)->0)));
                    }
                }
            },
            None => {
                assert(cur == prev);
                assert forall|i: int|
                    #![trigger lines[i]]
                    0 <= i < k && candidate_line_value(lines[i]) is Some && (forall|j: int|
                        i < j < k ==> !line_gives_number(lines[j], line_candidate(lines[i])))
                        implies number_lookup(cur, line_candidate(lines[i])) == Some(
                        line_count(lines[i]),
                    ) by {
                    let c = line_candidate(lines[i]);
                    if i < k - 1 {
                        assert(forall|j: int| i < j < k - 1 ==> !line_gives_number(lines[j], c));
                    }
                }
                assert forall|c: u32| #[trigger] number_lookup(cur, c) is Some implies exists|i: int|
                    0 <= i < k && candidate_line_value(lines[i]) == Some(
                        (c, number_lookup(cur, c)->0),
                    ) by {
                    let i = choose|i: int|
                        0 <= i < k - 1 && candidate_line_value(lines[i]) == Some(
                            (c, number_lookup(prev, c)->0),
                        );
                }
            },
        }
    }
}

/// Reading a candidate table: every body line of two cells that are both
/// unsigned numbers, candidate `c` and count `v` (zero included), gives `c`
/// the count `v`, unless a later such line gives `c` another count; and
/// every candidate read has the count of such a line. The candidates come
/// in increasing number order, each once.
pub proof fn law_candidate_table_values(md: Seq<char>)
    ensures
        numbers_sorted(candidate_votes_of(md)),
        forall|i: int|
            #![trigger body_lines(md)[i]]
            0 <= i < body_lines(md).len() && md_cells(body_lines(md)[i]).len() == 2 && parse_u32(
                md_cells(body_lines(md)[i])[0],
            ) is Some && parse_u32(md_cells(body_lines(md)[i])[1]) is Some && (forall|j: int|
                #![trigger body_lines(md)[j]]
                i < j < body_lines(md).len() ==> !(md_cells(body_lines(md)[j]).len() == 2
                    && parse_u32(md_cells(body_lines(md)[j])[0]) == parse_u32(
                    md_cells(body_lines(md)[i])[0],
                ) && parse_u32(md_cells(body_lines(md)[j])[1]) is Some)) ==> number_lookup(
                candidate_votes_of(md),
                parse_u32(md_cells(body_lines(md)[i])[0])->0,
            ) == parse_u32(md_cells(body_lines(md)[i])[1]),
        forall|c: u32|
            #[trigger] number_lookup(candidate_votes_of(md), c) is Some ==> exists|i: int|
                #![trigger body_lines(md)[i]]
                0 <= i < body_lines(md).len() && md_cells(body_lines(md)[i]).len() == 2 && parse_u32(
                    md_cells(body_lines(md)[i])[0],
                ) == Some(c) && parse_u32(md_cells(body_lines(md)[i])[1]) == number_lookup(
                    candidate_votes_of(md),
                    c,
                ),
{
    let lines = body_lines(md);
    lemma_numbered_fold(lines, lines.len() as int);
    assert forall|i: int|
        #![trigger body_lines(md)[i]]
        0 <= i < body_lines(md).len() && md_cells(body_lines(md)[i]).len() == 2 && parse_u32(
            md_cells(body_lines(md)[i])[0],
        ) is Some && parse_u32(md_cells(body_lines(md)[i])[1]) is Some && (forall|j: int|
            #![trigger body_lines(md)[j]]
            i < j < body_lines(md).len() ==> !(md_cells(body_lines(md)[j]).len() == 2 && parse_u32(
                md_cells(body_lines(md)[j])[0],
            ) == parse_u32(md_cells(body_lines(md)[i])[0]) && parse_u32(
                md_cells(body_lines(md)[j])[1],
            ) is Some)) implies number_lookup(
        candidate_votes_of(md),
        parse_u32(md_cells(body_lines(md)[i])[0])->0,
    ) == parse_u32(md_cells(body_lines(md)[i])[1]) by {
        assert(candidate_line_value(lines[i]) is Some);
        let c = line_candidate(lines[i]);
        assert forall|j: int| i < j < lines.len() implies !line_gives_number(lines[j], c) by {
            assert(lines[j] == body_lines(md)[j]);
        }
    }
    assert forall|c: u32| #[trigger] number_lookup(candidate_votes_of(md), c) is Some implies exists|i: int|
        #![trigger body_lines(md)[i]]
        0 <= i < body_lines(md).len() && md_cells(body_lines(md)[i]).len() == 2 && parse_u32(
            md_cells(body_lines(md)[i])[0],
        ) == Some(c) && parse_u32(md_cells(body_lines(md)[i])[1]) == number_lookup(
            candidate_votes_of(md),
            c,
        ) by {
        let i = choose|i: int|
            0 <= i < lines.len() && candidate_line_value(lines[i]) == Some(
                (c, number_lookup(candidate_votes_of(md), c)->0),
            );
        assert(body_lines(md)[i] == lines[i]);
    }
}

/// The length of the run of ASCII digits at the start of `s[i..]`, plus `i`.
pub open spec fn digit_run_end(s: Seq<char>, i: int) -> int
    decreases s.len() - i,
{
    if i < 0 || i >= s.len() || !is_digit(s[i]) {
        i
    } else {
        digit_run_end(s, i + 1)
    }
}

/// The list number in a candidate file stem: the digits right after the
/// first `_lijst-`.
pub open spec fn list_number_in_stem(stem: Seq<char>) -> Option<u32> {
    match split_once(stem, "_lijst-"@) {
        None => None,
        Some((_, rest)) => {
            let d = rest.take(digit_run_end(rest, 0));
            if d.len() == 0 {
                None
            } else {
                parse_u32(d)
            }
        },
    }
}

proof fn lemma_digit_run_end(s: Seq<char>, i: int)
    requires
        0 <= i <= s.len(),
    ensures
        i <= digit_run_end(s, i) <= s.len(),
    decreases s.len() - i,
{
    if i < s.len() && is_digit(s[i]) {
        lemma_digit_run_end(s, i + 1);
    }
}

/// The list number in the file stem `stem` (`…_lijst-{n}…`), if there is one
/// that fits in `u32`.
pub fn list_number_from_stem(stem: &str) -> (r: Option<u32>)
    ensures
        r == list_number_in_stem(stem@),
{
    let v = to_chars(stem);
    match split_once_str(&v, "_lijst-") {
        None => None,
        Some((_, rest)) => {
            let mut i: usize = 0;
            while i < rest.len() && is_ascii_digit(rest[i])
                invariant
                    i <= rest.len(),
                    digit_run_end(rest@, 0) == digit_run_end(rest@, i as int),
                decreases rest.len() - i,
            {
                i = i + 1;
            }
            let d = subrange_chars(&rest, 0, i);
            assert(d@ =~= rest@.take(digit_run_end(rest@, 0)));
            if i == 0 {
                None
            } else {
                parse_u32_chars(&d)
            }
        },
    }
}

/// The list number of a candidate OCR file, read from its file stem.
pub fn candidate_list_number_from_path(path: &str) -> (r: Option<u32>)
    ensures
        r == match file_stem_of(path@) {
            Some(stem) => list_number_in_stem(stem),
            None => None,
        },
{
    match path_file_stem(path) {
        Some(stem) => list_number_from_stem(stem.as_str()),
        None => None,
    }
}

/// How many official candidate keys belong to list `list`.
pub open spec fn count_list(s: Seq<(CandidateKey, u32)>, list: u32) -> nat
    decreases s.len(),
{
    if s.len() == 0 {
        0
    } else {
        count_list(s.drop_last(), list) + if s.last().0.list == list {
            1nat
        } else {
            0nat
        }
    }
}

/// Candidate numbers in decimal, separated by `, `.
pub open spec fn numbers_text(c: Seq<u32>) -> Seq<char> {
    join(c.map_values(|x: u32| dec(x as nat)), ", "@)
}

/// The report line for list `list` whose candidates `cands` have no OCR
/// value, given the official entries `oe`.
pub open spec fn missing_detail(oe: Seq<(CandidateKey, u32)>, list: u32, cands: Seq<u32>) -> Seq<char> {
    let expected = count_list(oe, list);
    if cands.len() == expected && expected > 0 {
        "list "@ + dec(list as nat) + " missing all "@ + dec(expected) + " candidates"@
    } else if cands.len() <= 8 {
        "list "@ + dec(list as nat) + " missing candidate(s) "@ + numbers_text(cands)
    } else {
        "list "@ + dec(list as nat) + " missing "@ + dec(cands.len()) + " candidates, starting with "@
            + numbers_text(cands.take(5))
    }
}

/// The view of missing candidates grouped by list.
pub open spec fn groups_view(g: Seq<(u32, Vec<u32>)>) -> Seq<(u32, Seq<u32>)> {
    g.map_values(|x: (u32, Vec<u32>)| (x.0, x.1@))
}

/// The report lines for the first `k` groups.
pub open spec fn missing_details_upto(oe: Seq<(CandidateKey, u32)>, g: Seq<(u32, Seq<u32>)>, k: int) -> Seq<
    Seq<char>,
>
    decreases k,
{
    if k <= 0 {
        Seq::empty()
    } else {
        missing_details_upto(oe, g, k - 1).push(missing_detail(oe, g[k - 1].0, g[k - 1].1))
    }
}

/// `dec(x)` for each of the first `n` numbers of `c`, separated by `, `.
fn numbers_text_exec(c: &Vec<u32>, n: usize) -> (r: Vec<char>)
    requires
        n <= c.len(),
    ensures
        r@ == numbers_text(c@.take(n as int)),
{
    let ghost parts = c@.take(n as int).map_values(|x: u32| dec(x as nat));
    let mut out: Vec<char> = Vec::new();
    let mut i: usize = 0;
    while i < n
        invariant
            n <= c.len(),
            i <= n,
            parts == c@.take(n as int).map_values(|x: u32| dec(x as nat)),
            out@ == join(parts.take(i as int), ", "@),
        decreases n - i,
    {
        assert(parts.take(i + 1).drop_last() =~= parts.take(i as int));
        if i > 0 {
            push_str(&mut out, ", ");
        } else {
            assert(out@ =~= Seq::<char>::empty());
        }
        let d = dec_chars(c[i] as u64);
        append_chars(&mut out, &d);
        i = i + 1;
    }
    assert(parts.take(n as int) =~= parts);
    out
}

/// How many entries of `official_values` belong to list `list`.
fn count_list_exec(official_values: &CandidateValues, list: u32) -> (r: usize)
    ensures
        r == count_list(official_values@, list),
{
    let ghost s = official_values@;
    let mut n: usize = 0;
    let mut i: usize = 0;
    while i < official_values.entries.len()
        invariant
            s == official_values@,
            i <= s.len(),
            n == count_list(s.take(i as int), list),
            n <= i,
        decreases s.len() - i,
    {
        assert(s.take(i + 1).drop_last() =~= s.take(i as int));
        if official_values.entries[i].0.list == list {
            n = n + 1;
        }
        i = i + 1;
    }
    assert(s.take(s.len() as int) =~= s);
    n
}

/// One line per list with candidates that have no OCR value: `list {n}
/// missing all {k} candidates` when the whole list is missing, the missing
/// candidate numbers when there are at most eight, else their count and the
/// first five.
pub fn candidate_missing_details(
    official_values: &CandidateValues,
    missing_by_list: &Vec<(u32, Vec<u32>)>,
) -> (r: Vec<String>)
    ensures
        strs(r@) == missing_details_upto(
            official_values@,
            groups_view(missing_by_list@),
            missing_by_list@.len() as int,
        ),
{
    let ghost g = groups_view(missing_by_list@);
    let ghost oe = official_values@;
    let mut out: Vec<Vec<char>> = Vec::new();
    let mut k: usize = 0;
    while k < missing_by_list.len()
        invariant
            g == groups_view(missing_by_list@),
            oe == official_values@,
            k <= missing_by_list.len(),
            seqs(out@) == missing_details_upto(oe, g, k as int),
        decreases missing_by_list.len() - k,
    {
        let list = missing_by_list[k].0;
        let cands = &missing_by_list[k].1;
        assert(g[k as int] == (list, cands@));
        let expected = count_list_exec(official_values, list);
        let mut m = to_chars("list ");
        let ld = dec_chars(list as u64);
        append_chars(&mut m, &ld);
        if cands.len() == expected && expected > 0 {
            push_str(&mut m, " missing all ");
            let e = dec_chars(expected as u64);
            append_chars(&mut m, &e);
            push_str(&mut m, " candidates");
        } else if cands.len() <= 8 {
            push_str(&mut m, " missing candidate(s) ");
            let t = numbers_text_exec(cands, cands.len());
            assert(cands@.take(cands.len() as int) =~= cands@);
            append_chars(&mut m, &t);
        } else {
            push_str(&mut m, " missing ");
            let e = dec_chars(cands.len() as u64);
            append_chars(&mut m, &e);
            push_str(&mut m, " candidates, starting with ");
            let t = numbers_text_exec(cands, 5);
            append_chars(&mut m, &t);
        }
        let ghost old_out = seqs(out@);
        out.push(m);
        assert(seqs(out@) =~= old_out.push(m@));
        k = k + 1;
    }
    to_strings(&out)
}

/// The errors of validating the candidate table `md` (none when skipped).
pub open spec fn candidate_table_errors(md: Seq<char>) -> Seq<Seq<char>> {
    if is_skipped(md) {
        Seq::empty()
    } else {
        candidates_errors(md)
    }
}

/// The list number that the file at `p` is for, read from its file stem.
pub open spec fn path_list_number(p: Seq<char>) -> Option<u32> {
    match file_stem_of(p) {
        Some(stem) => list_number_in_stem(stem),
        None => None,
    }
}

/// The state of reading candidate files: the details so far, the values so
/// far (by candidate key, in key order) and whether an internal error was
/// seen.
pub type ReadState = (Seq<Seq<char>>, Seq<(CandidateKey, u32)>, bool);

/// Adding the first `k` counts `nv` of list `list` to the state; a count for
/// a key already present replaces it and is reported as a duplicate.
pub open spec fn insert_numbered(st: ReadState, list: u32, nv: Seq<(u32, u32)>, k: int) -> ReadState
    decreases k,
{
    if k <= 0 {
        st
    } else {
        let prev = insert_numbered(st, list, nv, k - 1);
        let key = CandidateKey { list, candidate: nv[k - 1].0 };
        let dup = has_key(prev.1, key);
        (
            if dup {
                prev.0.push("duplicate candidate OCR row for "@ + key_label(key))
            } else {
                prev.0
            },
            sorted_insert(prev.1, key, nv[k - 1].1),
            prev.2 || dup,
        )
    }
}

/// Reading one candidate file: the file at `p`, with its text or the reason
/// it could not be read.
pub open spec fn candidate_file_step(st: ReadState, p: Seq<char>, c: Result<Seq<char>, Seq<char>>) -> ReadState {
    match path_list_number(p) {
        None => (
            st.0.push(display_name(p) + ": could not parse list number from file name"@),
            st.1,
            true,
        ),
        Some(list) => match c {
            Err(e) => (st.0.push(p + ": could not read Markdown: "@ + e), st.1, true),
            Ok(md) => {
                let errs = candidate_table_errors(md);
                let st1 = if errs.len() > 0 {
                    (st.0.push(display_name(p) + ": "@ + join(errs, "; "@)), st.1, true)
                } else {
                    st
                };
                let nv = candidate_votes_of(md);
                insert_numbered(st1, list, nv, nv.len() as int)
            },
        },
    }
}

/// Reading the first `k` candidate files.
pub open spec fn candidate_files_fold(
    paths: Seq<Seq<char>>,
    contents: Seq<Result<Seq<char>, Seq<char>>>,
    k: int,
) -> ReadState
    decreases k,
{
    if k <= 0 {
        (Seq::empty(), Seq::empty(), false)
    } else {
        candidate_file_step(candidate_files_fold(paths, contents, k - 1), paths[k - 1], contents[k - 1])
    }
}

proof fn lemma_insert_numbered(st: ReadState, l: u32, nv: Seq<(u32, u32)>, k: int)
    requires
        sorted_entries(st.1),
        numbers_sorted(nv),
        0 <= k <= nv.len(),
    ensures
        sorted_entries(insert_numbered(st, l, nv, k).1),
        forall|i: int|
            #![trigger nv[i]]
            0 <= i < k ==> lookup(
                insert_numbered(st, l, nv, k).1,
                (CandidateKey { list: l, candidate: nv[i].0 }),
            ) == Some(nv[i].1),
        forall|key: CandidateKey|
            (key.list != l || forall|i: int| 0 <= i < k ==> nv[i].0 != key.candidate) ==> #[trigger] lookup(
                insert_numbered(st, l, nv, k).1,
                key,
            ) == lookup(st.1, key),
    decreases k,
{
    if k > 0 {
        lemma_insert_numbered(st, l, nv, k - 1);
        let prev = insert_numbered(st, l, nv, k - 1);
        let key0 = CandidateKey { list: l, candidate: nv[k - 1].0 };
        lemma_sorted_insert(prev.1, key0, nv[k - 1].1);
        assert forall|i: int| #![trigger nv[i]] 0 <= i < k implies lookup(
            insert_numbered(st, l, nv, k).1,
            (CandidateKey { list: l, candidate: nv[i].0 }),
        ) == Some(nv[i].1) by {
            if i < k - 1 {
                assert(nv[i].0 < nv[k - 1].0);
            }
        }
        assert forall|key: CandidateKey|
            (key.list != l || forall|i: int| 0 <= i < k ==> nv[i].0 != key.candidate) implies #[trigger] lookup(
                insert_numbered(st, l, nv, k).1,
                key,
            ) == lookup(st.1, key) by {
            assert(key != key0);
        }
    }
}

proof fn lemma_candidate_files_fold(
    paths: Seq<Seq<char>>,
    contents: Seq<Result<Seq<char>, Seq<char>>>,
    k: int,
)
    requires
        0 <= k <= paths.len(),
        paths.len() == contents.len(),
    ensures
        sorted_entries(candidate_files_fold(paths, contents, k).1),
        forall|f: int, c: u32|
            #![trigger paths[f], number_lookup(candidate_votes_of(contents[f]->Ok_0), c)]
            0 <= f < k && path_list_number(paths[f]) is Some && contents[f] is Ok && number_lookup(
                candidate_votes_of(contents[f]->Ok_0),
                c,
            ) is Some && (forall|f2: int|
                #![trigger paths[f2]]
                f < f2 < k ==> !(path_list_number(paths[f2]) == path_list_number(paths[f])
                    && contents[f2] is Ok && number_lookup(candidate_votes_of(contents[f2]->Ok_0), c)
                    is Some)) ==> lookup(
                candidate_files_fold(paths, contents, k).1,
                (CandidateKey { list: path_list_number(paths[f])->0, candidate: c }),
            ) == number_lookup(candidate_votes_of(contents[f]->Ok_0), c),
        forall|key: CandidateKey|
            #[trigger] lookup(candidate_files_fold(paths, contents, k).1, key) is Some ==> exists|f: int|
                #![trigger paths[f]]
                0 <= f < k && path_list_number(paths[f]) == Some(key.list) && contents[f] is Ok
                    && number_lookup(candidate_votes_of(contents[f]->Ok_0), key.candidate) == lookup(
                    candidate_files_fold(paths, contents, k).1,
                    key,
                ),
    decreases k,
{
    if k > 0 {
        lemma_candidate_files_fold(paths, contents, k - 1);
        let st = candidate_files_fold(paths, contents, k - 1);
        let cur = candidate_files_fold(paths, contents, k);
        let p = paths[k - 1];
        let same = path_list_number(p) is None || contents[k - 1] is Err;
        if same {
            assert(cur.1 == st.1);
            assert forall|f: int, c: u32|
                #![trigger paths[f], number_lookup(candidate_votes_of(contents[f]->Ok_0), c)]
                0 <= f < k && path_list_number(paths[f]) is Some && contents[f] is Ok && number_lookup(
                    candidate_votes_of(contents[f]->Ok_0),
                    c,
                ) is Some && (forall|f2: int|
                    #![trigger paths[f2]]
                    f < f2 < k ==> !(path_list_number(paths[f2]) == path_list_number(paths[f])
                        && contents[f2] is Ok && number_lookup(candidate_votes_of(contents[f2]->Ok_0), c)
                        is Some)) implies lookup(
                    cur.1,
                    (CandidateKey { list: path_list_number(paths[f])->0, candidate: c }),
                ) == number_lookup(candidate_votes_of(contents[f]->Ok_0), c) by {
                assert(f < k - 1);
            }
            assert forall|key: CandidateKey| #[trigger] lookup(cur.1, key) is Some implies exists|f: int|
                #![trigger paths[f]]
                0 <= f < k && path_list_number(paths[f]) == Some(key.list) && contents[f] is Ok
                    && number_lookup(candidate_votes_of(contents[f]->Ok_0), key.candidate) == lookup(
                    cur.1,
                    key,
                ) by {
                let f = choose|f: int|
                    #![trigger paths[f]]
                    0 <= f < k - 1 && path_list_number(paths[f]) == Some(key.list) && contents[f] is Ok
                        && number_lookup(candidate_votes_of(contents[f]->Ok_0), key.candidate) == lookup(
                        st.1,
                        key,
                    );
                assert(paths[f] == paths[f]);
            }
        } else {
            let l = path_list_number(p)->0;
            let md = contents[k - 1]->Ok_0;
            let nv = candidate_votes_of(md);
            let errs = candidate_table_errors(md);
            let st1 = if errs.len() > 0 {
                (st.0.push(display_name(p) + ": "@ + join(errs, "; "@)), st.1, true)
            } else {
                st
            };
            assert(cur == insert_numbered(st1, l, nv, nv.len() as int));
            law_candidate_table_values(md);
            lemma_insert_numbered(st1, l, nv, nv.len() as int);
            assert forall|f: int, c: u32|
                #![trigger paths[f], number_lookup(candidate_votes_of(contents[f]->Ok_0), c)]
                0 <= f < k && path_list_number(paths[f]) is Some && contents[f] is Ok && number_lookup(
                    candidate_votes_of(contents[f]->Ok_0),
                    c,
                ) is Some && (forall|f2: int|
                    #![trigger paths[f2]]
                    f < f2 < k ==> !(path_list_number(paths[f2]) == path_list_number(paths[f])
                        && contents[f2] is Ok && number_lookup(candidate_votes_of(contents[f2]->Ok_0), c)
                        is Some)) implies lookup(
                    cur.1,
                    (CandidateKey { list: path_list_number(paths[f])->0, candidate: c }),
                ) == number_lookup(candidate_votes_of(contents[f]->Ok_0), c) by {
                let key = CandidateKey { list: path_list_number(paths[f])->0, candidate: c };
                if f == k - 1 {
                    let i = choose|i: int| 0 <= i < nv.len() && nv[i].0 == c;
                    assert(0 <= i < nv.len() && nv[i].0 == c);
                    lemma_number_lookup_at(nv, i);
                    assert(lookup(cur.1, (CandidateKey { list: l, candidate: nv[i].0 })) == Some(nv[i].1));
                } else {
                    assert(!(path_list_number(paths[k - 1]) == path_list_number(paths[f])
                        && contents[k - 1] is Ok && number_lookup(
                        candidate_votes_of(contents[k - 1]->Ok_0),
                        c,
                    ) is Some));
                    if key.list == l {
                        assert(number_lookup(nv, c) is None);
                        assert forall|i: int| 0 <= i < nv.len() implies nv[i].0 != key.candidate by {
                            if nv[i].0 == c {
                                assert(0 <= i < nv.len() && nv[i].0 == c);
                            }
                        }
                    }
                    assert(lookup(cur.1, key) == lookup(st.1, key));
                }
            }
            assert forall|key: CandidateKey| #[trigger] lookup(cur.1, key) is Some implies exists|f: int|
                #![trigger paths[f]]
                0 <= f < k && path_list_number(paths[f]) == Some(key.list) && contents[f] is Ok
                    && number_lookup(candidate_votes_of(contents[f]->Ok_0), key.candidate) == lookup(
                    cur.1,
                    key,
                ) by {
                if key.list == l && exists|i: int| 0 <= i < nv.len() && nv[i].0 == key.candidate {
                    let i = choose|i: int| 0 <= i < nv.len() && nv[i].0 == key.candidate;
                    lemma_number_lookup_at(nv, i);
                    assert(lookup(cur.1, (CandidateKey { list: l, candidate: nv[i].0 })) == Some(nv[i].1));
                    assert(paths[k - 1] == p);
                } else {
                    assert(lookup(cur.1, key) == lookup(st.1, key));
                    let f = choose|f: int|
                        #![trigger paths[f]]
                        0 <= f < k - 1 && path_list_number(paths[f]) == Some(key.list) && contents[f]
                            is Ok && number_lookup(candidate_votes_of(contents[f]->Ok_0), key.candidate)
                            == lookup(st.1, key);
                    assert(paths[f] == paths[f]);
                }
            }
        }
    }
}

/// Reading the candidate files of a station: for every file whose list
/// number can be read from its name and whose text was read, each candidate
/// the file's table gives a count gets that count under its list, unless a
/// later such file for the same list gives the candidate again; and every
/// candidate read has the count some such file gives it. The candidates
/// come in key order, each once.
pub proof fn law_candidate_files_values(
    paths: Seq<Seq<char>>,
    contents: Seq<Result<Seq<char>, Seq<char>>>,
)
    requires
        paths.len() == contents.len(),
    ensures
        sorted_entries(candidate_files_fold(paths, contents, paths.len() as int).1),
        forall|f: int, c: u32|
            #![trigger paths[f], number_lookup(candidate_votes_of(contents[f]->Ok_0), c)]
            0 <= f < paths.len() && path_list_number(paths[f]) is Some && contents[f] is Ok
                && number_lookup(candidate_votes_of(contents[f]->Ok_0), c) is Some && (forall|f2: int|
                #![trigger paths[f2]]
                f < f2 < paths.len() ==> !(path_list_number(paths[f2]) == path_list_number(paths[f])
                    && contents[f2] is Ok && number_lookup(candidate_votes_of(contents[f2]->Ok_0), c)
                    is Some)) ==> lookup(
                candidate_files_fold(paths, contents, paths.len() as int).1,
                (CandidateKey { list: path_list_number(paths[f])->0, candidate: c }),
            ) == number_lookup(candidate_votes_of(contents[f]->Ok_0), c),
        forall|key: CandidateKey|
            #[trigger] lookup(candidate_files_fold(paths, contents, paths.len() as int).1, key) is Some
                ==> exists|f: int|
                #![trigger paths[f]]
                0 <= f < paths.len() && path_list_number(paths[f]) == Some(key.list) && contents[f]
                    is Ok && number_lookup(candidate_votes_of(contents[f]->Ok_0), key.candidate)
                    == lookup(candidate_files_fold(paths, contents, paths.len() as int).1, key),
{
    lemma_candidate_files_fold(paths, contents, paths.len() as int);
}

/// The texts of file contents, or of the reasons they could not be read.
pub open spec fn contents_view(c: Seq<Result<String, String>>) -> Seq<Result<Seq<char>, Seq<char>>> {
    c.map_values(
        |r: Result<String, String>|
            match r {
                Ok(s) => Ok(s@),
                Err(e) => Err(e@),
            },
    )
}

/// The official keys among the first `k` entries of `oe` that have no OCR
/// value in `vals`.
pub open spec fn missing_keys_upto(oe: Seq<(CandidateKey, u32)>, vals: Seq<(CandidateKey, u32)>, k: int) -> Seq<
    CandidateKey,
>
    decreases k,
{
    if k <= 0 {
        Seq::empty()
    } else {
        let prev = missing_keys_upto(oe, vals, k - 1);
        if has_key(vals, oe[k - 1].0) {
            prev
        } else {
            prev.push(oe[k - 1].0)
        }
    }
}

/// Keys grouped by list, in order: consecutive keys of one list form one
/// group of candidate numbers.
pub open spec fn group_keys(ks: Seq<CandidateKey>) -> Seq<(u32, Seq<u32>)>
    decreases ks.len(),
{
    if ks.len() == 0 {
        Seq::empty()
    } else {
        let g = group_keys(ks.drop_last());
        let k = ks.last();
        if g.len() > 0 && g.last().0 == k.list {
            g.update(g.len() - 1, (k.list, g.last().1.push(k.candidate)))
        } else {
            g.push((k.list, seq![k.candidate]))
        }
    }
}

/// The report lines for the first `k` official entries whose OCR value
/// differs.
pub open spec fn value_mismatches_upto(
    oe: Seq<(CandidateKey, u32)>,
    vals: Seq<(CandidateKey, u32)>,
    k: int,
) -> Seq<Seq<char>>
    decreases k,
{
    if k <= 0 {
        Seq::empty()
    } else {
        let prev = value_mismatches_upto(oe, vals, k - 1);
        let e = oe[k - 1];
        match lookup(vals, e.0) {
            Some(mv) => if mv == e.1 {
                prev
            } else {
                prev.push(
                    key_label(e.0) + ": md="@ + dec(mv as nat) + ", official="@ + dec(e.1 as nat),
                )
            },
            None => prev,
        }
    }
}

/// The report lines for the first `k` OCR entries whose key is not an
/// official candidate.
pub open spec fn extra_details_upto(
    vals: Seq<(CandidateKey, u32)>,
    oe: Seq<(CandidateKey, u32)>,
    k: int,
) -> Seq<Seq<char>>
    decreases k,
{
    if k <= 0 {
        Seq::empty()
    } else {
        let prev = extra_details_upto(vals, oe, k - 1);
        if has_key(oe, vals[k - 1].0) {
            prev
        } else {
            prev.push(key_label(vals[k - 1].0) + " is not present in the official candidate list"@)
        }
    }
}

/// The status, details, compared count and expected count of comparing the
/// candidate files `paths` (with their contents) against the official
/// entries `oe`.
pub open spec fn candidate_outcome(
    oe: Seq<(CandidateKey, u32)>,
    paths: Seq<Seq<char>>,
    contents: Seq<Result<Seq<char>, Seq<char>>>,
) -> (CandidateComparisonStatus, Seq<char>, nat, nat) {
    let st = candidate_files_fold(paths, contents, paths.len() as int);
    let vals = st.1;
    if oe.len() == 0 {
        (
            CandidateComparisonStatus::Incomplete,
            join(st.0.push("official CSV has no candidate rows"@), "; "@),
            vals.len(),
            0,
        )
    } else {
        let missing = missing_keys_upto(oe, vals, oe.len() as int);
        let mm = value_mismatches_upto(oe, vals, oe.len() as int);
        let extra = extra_details_upto(vals, oe, vals.len() as int);
        let g = group_keys(missing);
        let details = st.0 + extra + missing_details_upto(oe, g, g.len() as int) + mm;
        let status = if st.2 || extra.len() > 0 {
            CandidateComparisonStatus::InternallyInconsistent
        } else if g.len() > 0 {
            CandidateComparisonStatus::Incomplete
        } else if details.len() == 0 {
            CandidateComparisonStatus::FullyMatches
        } else {
            CandidateComparisonStatus::Mismatch
        };
        (status, join(details, "; "@), vals.len(), oe.len())
    }
}

/// Where part `i` occurs in the parts joined by `sep`.
proof fn lemma_join_occurs(parts: Seq<Seq<char>>, sep: Seq<char>, i: int) -> (j: int)
    requires
        0 <= i < parts.len(),
    ensures
        occurs_at(join(parts, sep), parts[i], j),
    decreases parts.len(),
{
    let s = join(parts, sep);
    if parts.len() == 1 {
        assert(s.subrange(0, parts[0].len() as int) =~= parts[0]);
        0
    } else {
        let front = join(parts.drop_last(), sep);
        assert(s == front + sep + parts.last());
        if i == parts.len() - 1 {
            let j: int = (front.len() + sep.len()) as int;
            assert(s.subrange(j, j + parts[i].len()) =~= parts[i]);
            j
        } else {
            let j = lemma_join_occurs(parts.drop_last(), sep, i);
            assert(parts.drop_last()[i] == parts[i]);
            assert(s.subrange(j, j + parts[i].len()) =~= front.subrange(j, j + parts[i].len()));
            j
        }
    }
}

/// Text that occurs somewhere in `s` is contained in it.
proof fn lemma_occurs_contains(s: Seq<char>, p: Seq<char>, j: int)
    requires
        occurs_at(s, p, j),
    ensures
        contains(s, p),
{
    lemma_find_from(s, p, 0);
}

/// The report line for an official candidate whose OCR count differs.
pub open spec fn value_mismatch_line(key: CandidateKey, ocr: u32, official: u32) -> Seq<char> {
    key_label(key) + ": md="@ + dec(ocr as nat) + ", official="@ + dec(official as nat)
}

proof fn lemma_value_mismatch_listed(
    oe: Seq<(CandidateKey, u32)>,
    vals: Seq<(CandidateKey, u32)>,
    k: int,
    i: int,
) -> (j: int)
    requires
        0 <= i < k <= oe.len(),
        lookup(vals, oe[i].0) is Some,
        lookup(vals, oe[i].0)->0 != oe[i].1,
    ensures
        0 <= j < value_mismatches_upto(oe, vals, k).len(),
        value_mismatches_upto(oe, vals, k)[j] == value_mismatch_line(
            oe[i].0,
            lookup(vals, oe[i].0)->0,
            oe[i].1,
        ),
    decreases k,
{
    if i == k - 1 {
        (value_mismatches_upto(oe, vals, k).len() - 1) as int
    } else {
        let j = lemma_value_mismatch_listed(oe, vals, k - 1, i);
        j
    }
}

proof fn lemma_missing_keys(oe: Seq<(CandidateKey, u32)>, vals: Seq<(CandidateKey, u32)>, k: int, i: int)
    requires
        0 <= i < k <= oe.len(),
        !has_key(vals, oe[i].0),
    ensures
        missing_keys_upto(oe, vals, k).len() > 0,
    decreases k,
{
    if i < k - 1 {
        lemma_missing_keys(oe, vals, k - 1, i);
    }
}

/// Comparing candidate tables with the official candidate values: an
/// official candidate whose OCR count differs from the official count, in
/// either direction, is reported as `{key}: md={count}, official={count}`
/// and the comparison does not fully match; and a comparison fully matches
/// only when there are official candidates, every one of them has an OCR
/// count equal to its official count, and every OCR candidate is an
/// official one.
pub proof fn law_candidate_value_mismatches(
    oe: Seq<(CandidateKey, u32)>,
    paths: Seq<Seq<char>>,
    contents: Seq<Result<Seq<char>, Seq<char>>>,
)
    ensures
        forall|i: int|
            #![trigger oe[i]]
            0 <= i < oe.len() && lookup(candidate_files_fold(paths, contents, paths.len() as int).1, oe[i].0)
                is Some && lookup(candidate_files_fold(paths, contents, paths.len() as int).1, oe[i].0)->0
                != oe[i].1 ==> {
                &&& candidate_outcome(oe, paths, contents).0 != CandidateComparisonStatus::FullyMatches
                &&& contains(
                    candidate_outcome(oe, paths, contents).1,
                    value_mismatch_line(
                        oe[i].0,
                        lookup(candidate_files_fold(paths, contents, paths.len() as int).1, oe[i].0)->0,
                        oe[i].1,
                    ),
                )
            },
        candidate_outcome(oe, paths, contents).0 == CandidateComparisonStatus::FullyMatches ==> {
            &&& oe.len() > 0
            &&& forall|i: int|
                #![trigger oe[i]]
                0 <= i < oe.len() ==> lookup(
                    candidate_files_fold(paths, contents, paths.len() as int).1,
                    oe[i].0,
                ) == Some(oe[i].1)
            &&& forall|key: CandidateKey|
                #[trigger] lookup(candidate_files_fold(paths, contents, paths.len() as int).1, key)
                    is Some ==> lookup(oe, key) is Some
        },
{
    let st = candidate_files_fold(paths, contents, paths.len() as int);
    let vals = st.1;
    let o = candidate_outcome(oe, paths, contents);
    let n = oe.len() as int;
    let missing = missing_keys_upto(oe, vals, n);
    let mm = value_mismatches_upto(oe, vals, n);
    let extra = extra_details_upto(vals, oe, vals.len() as int);
    let g = group_keys(missing);
    let details = st.0 + extra + missing_details_upto(oe, g, g.len() as int) + mm;
    assert forall|i: int|
        #![trigger oe[i]]
        0 <= i < oe.len() && lookup(vals, oe[i].0) is Some && lookup(vals, oe[i].0)->0 != oe[i].1
            implies o.0 != CandidateComparisonStatus::FullyMatches && contains(
            o.1,
            value_mismatch_line(oe[i].0, lookup(vals, oe[i].0)->0, oe[i].1),
        ) by {
        let m = value_mismatch_line(oe[i].0, lookup(vals, oe[i].0)->0, oe[i].1);
        let j = lemma_value_mismatch_listed(oe, vals, n, i);
        let d = details.len() - mm.len() + j;
        assert(details[d] == m);
        assert(o.1 == join(details, "; "@));
        let at = lemma_join_occurs(details, "; "@, d);
        lemma_occurs_contains(o.1, m, at);
    }
    if o.0 == CandidateComparisonStatus::FullyMatches {
        assert(oe.len() > 0);
        assert(g.len() == 0 && details.len() == 0);
        assert forall|i: int| #![trigger oe[i]] 0 <= i < oe.len() implies lookup(vals, oe[i].0) == Some(
            oe[i].1,
        ) by {
            if !has_key(vals, oe[i].0) {
                lemma_missing_keys(oe, vals, n, i);
                assert(missing.len() > 0);
                assert(group_keys(missing).len() > 0);
            }
            assert(lookup(vals, oe[i].0) is Some);
            if lookup(vals, oe[i].0)->0 != oe[i].1 {
                let j = lemma_value_mismatch_listed(oe, vals, n, i);
                assert(mm.len() > 0);
            }
        }
        assert(extra.len() == 0);
        assert forall|key: CandidateKey| #[trigger] lookup(vals, key) is Some implies lookup(oe, key) is Some by {
            if lookup(oe, key) is None {
                assert(has_key(vals, key));
                let j = choose|j: int| 0 <= j < vals.len() && vals[j].0 == key;
                assert(!has_key(oe, vals[j].0));
                lemma_extra_listed(vals, oe, vals.len() as int, j);
            }
        }
    }
}

proof fn lemma_extra_listed(vals: Seq<(CandidateKey, u32)>, oe: Seq<(CandidateKey, u32)>, k: int, j: int)
    requires
        0 <= j < k <= vals.len(),
        !has_key(oe, vals[j].0),
    ensures
        extra_details_upto(vals, oe, k).len() > 0,
    decreases k,
{
    if j < k - 1 {
        lemma_extra_listed(vals, oe, k - 1, j);
    }
}

proof fn lemma_extra_line(vals: Seq<(CandidateKey, u32)>, oe: Seq<(CandidateKey, u32)>, k: int, j: int) -> (d: int)
    requires
        0 <= j < k <= vals.len(),
        !has_key(oe, vals[j].0),
    ensures
        0 <= d < extra_details_upto(vals, oe, k).len(),
        extra_details_upto(vals, oe, k)[d] == key_label(vals[j].0)
            + " is not present in the official candidate list"@,
    decreases k,
{
    if j == k - 1 {
        (extra_details_upto(vals, oe, k).len() - 1) as int
    } else {
        lemma_extra_line(vals, oe, k - 1, j)
    }
}

/// Comparing candidate tables when candidates do not line up: without
/// official candidate values the comparison is incomplete and says so; an
/// OCR candidate that the official list lacks is reported as `{key} is not
/// present in the official candidate list` and makes the comparison
/// internally inconsistent; and an official candidate without an OCR count
/// leaves it incomplete or internally inconsistent.
pub proof fn law_candidate_keys_line_up(
    oe: Seq<(CandidateKey, u32)>,
    paths: Seq<Seq<char>>,
    contents: Seq<Result<Seq<char>, Seq<char>>>,
)
    ensures
        oe.len() == 0 ==> candidate_outcome(oe, paths, contents).0
            == CandidateComparisonStatus::Incomplete && contains(
            candidate_outcome(oe, paths, contents).1,
            "official CSV has no candidate rows"@,
        ),
        forall|key: CandidateKey|
            oe.len() > 0 && #[trigger] lookup(candidate_files_fold(paths, contents, paths.len() as int).1, key)
                is Some && lookup(oe, key) is None ==> candidate_outcome(oe, paths, contents).0
                == CandidateComparisonStatus::InternallyInconsistent && contains(
                candidate_outcome(oe, paths, contents).1,
                key_label(key) + " is not present in the official candidate list"@,
            ),
        forall|i: int|
            #![trigger oe[i]]
            0 <= i < oe.len() && lookup(candidate_files_fold(paths, contents, paths.len() as int).1, oe[i].0)
                is None ==> candidate_outcome(oe, paths, contents).0
                == CandidateComparisonStatus::Incomplete || candidate_outcome(oe, paths, contents).0
                == CandidateComparisonStatus::InternallyInconsistent,
{
    let st = candidate_files_fold(paths, contents, paths.len() as int);
    let vals = st.1;
    let o = candidate_outcome(oe, paths, contents);
    let n = oe.len() as int;
    if n == 0 {
        let parts = st.0.push("official CSV has no candidate rows"@);
        let at = lemma_join_occurs(parts, "; "@, st.0.len() as int);
        lemma_occurs_contains(o.1, "official CSV has no candidate rows"@, at);
    } else {
        let missing = missing_keys_upto(oe, vals, n);
        let mm = value_mismatches_upto(oe, vals, n);
        let extra = extra_details_upto(vals, oe, vals.len() as int);
        let g = group_keys(missing);
        let details = st.0 + extra + missing_details_upto(oe, g, g.len() as int) + mm;
        assert forall|key: CandidateKey|
            #[trigger] lookup(vals, key) is Some && lookup(oe, key) is None implies o.0
                == CandidateComparisonStatus::InternallyInconsistent && contains(
                o.1,
                key_label(key) + " is not present in the official candidate list"@,
            ) by {
            assert(has_key(vals, key));
            let j = choose|j: int| 0 <= j < vals.len() && vals[j].0 == key;
            assert(!has_key(oe, vals[j].0));
            let e = lemma_extra_line(vals, oe, vals.len() as int, j);
            let d = st.0.len() + e;
            assert(details[d] == extra[e]);
            let at = lemma_join_occurs(details, "; "@, d);
            lemma_occurs_contains(o.1, extra[e], at);
        }
        assert forall|i: int|
            #![trigger oe[i]]
            0 <= i < oe.len() && lookup(vals, oe[i].0) is None implies o.0
                == CandidateComparisonStatus::Incomplete || o.0
                == CandidateComparisonStatus::InternallyInconsistent by {
            assert(!has_key(vals, oe[i].0));
            lemma_missing_keys(oe, vals, n, i);
            assert(g.len() > 0);
        }
    }
}

/// Every candidate file whose text was read fits the validation's sums.
pub open spec fn candidate_contents_fit(contents: Seq<Result<String, String>>) -> bool {
    forall|i: int|
        0 <= i < contents.len() ==> match #[trigger] contents[i] {
            Ok(md) => is_skipped(md@) || candidates_fit(md@),
            Err(_) => true,
        }
}

/// Appends `m` to `details`.
fn push_detail(details: &mut Vec<Vec<char>>, m: Vec<char>)
    ensures
        seqs(final(details)@) == seqs(old(details)@).push(m@),
{
    let ghost d0 = seqs(details@);
    details.push(m);
    assert(seqs(details@) =~= d0.push(m@));
}

/// Reads one candidate file into the state.
fn read_candidate_file(
    details: &mut Vec<Vec<char>>,
    values: &mut CandidateValues,
    internal: &mut bool,
    path: &str,
    content: &Result<String, String>,
)
    requires
        old(values).wf(),
        match content {
            Ok(md) => is_skipped(md@) || candidates_fit(md@),
            Err(_) => true,
        },
    ensures
        final(values).wf(),
        (seqs(final(details)@), final(values)@, *final(internal)) == candidate_file_step(
            (seqs(old(details)@), old(values)@, *old(internal)),
            path@,
            match content {
                Ok(s) => Ok(s@),
                Err(e) => Err(e@),
            },
        ),
{
    let list = match candidate_list_number_from_path(path) {
        Some(l) => l,
        None => {
            let n = display_file_name(path);
            let mut m = to_chars(n.as_str());
            push_str(&mut m, ": could not parse list number from file name");
            push_detail(details, m);
            *internal = true;
            return;
        },
    };
    let md = match content {
        Ok(md) => md,
        Err(e) => {
            let mut m = to_chars(path);
            push_str(&mut m, ": could not read Markdown: ");
            let ec = to_chars(e.as_str());
            append_chars(&mut m, &ec);
            push_detail(details, m);
            *internal = true;
            return;
        },
    };
    let validation = validate_candidates_markdown(md.as_str());
    if !validation.passed {
        let n = display_file_name(path);
        let mut m = to_chars(n.as_str());
        push_str(&mut m, ": ");
        let j = crate::comparison::join_strings(&validation.errors, "; ");
        append_chars(&mut m, &j);
        push_detail(details, m);
        *internal = true;
    }
    let ghost st1 = (seqs(details@), values@, *internal);
    let nv = parse_candidates_markdown_values(md.as_str());
    let mut k: usize = 0;
    while k < nv.entries.len()
        invariant
            k <= nv@.len(),
            values.wf(),
            (seqs(details@), values@, *internal) == insert_numbered(st1, list, nv@, k as int),
        decreases nv@.len() - k,
    {
        let key = CandidateKey { list, candidate: nv.entries[k].0 };
        let previous = values.insert(key, nv.entries[k].1);
        if previous.is_some() {
            let mut m = to_chars("duplicate candidate OCR row for ");
            let l = key.label_chars();
            append_chars(&mut m, &l);
            push_detail(details, m);
            *internal = true;
        }
        k = k + 1;
    }
}

/// Compares a station's candidate OCR files (`paths`, with their texts or
/// the reasons they could not be read) with its official candidate values.
/// Files whose list number cannot be read, that cannot be read, that fail
/// validation, or that give one candidate twice, and OCR values for keys the
/// official list lacks, make the comparison internally inconsistent;
/// official candidates without an OCR value make it incomplete; otherwise
/// it fully matches or mismatches.
pub fn compare_candidate_markdown_to_official(
    official: &OfficialStationResult,
    paths: &Vec<String>,
    contents: &Vec<Result<String, String>>,
) -> (r: CandidateComparison)
    requires
        official.wf(),
        paths.len() == contents.len(),
        candidate_contents_fit(contents@),
    ensures
        strs(r.paths@) == strs(paths@),
        ({
            let o = candidate_outcome(
                official.candidate_values@,
                strs(paths@),
                contents_view(contents@),
            );
            &&& r.status == o.0
            &&& r.details@ == o.1
            &&& r.compared_values == o.2
            &&& r.expected_values == o.3
        }),
{
    let ghost ps = strs(paths@);
    let ghost cs = contents_view(contents@);
    let mut details: Vec<Vec<char>> = Vec::new();
    let mut values = CandidateValues::new();
    let mut internal = false;
    let mut i: usize = 0;
    assert(seqs(details@) =~= Seq::<Seq<char>>::empty());
    while i < paths.len()
        invariant
            paths.len() == contents.len(),
            candidate_contents_fit(contents@),
            ps == strs(paths@),
            cs == contents_view(contents@),
            i <= paths.len(),
            values.wf(),
            (seqs(details@), values@, internal) == candidate_files_fold(ps, cs, i as int),
        decreases paths.len() - i,
    {
        assert(ps[i as int] == paths@[i as int]@);
        assert(match contents@[i as int] {
            Ok(md) => is_skipped(md@) || candidates_fit(md@),
            Err(_) => true,
        });
        read_candidate_file(&mut details, &mut values, &mut internal, paths[i].as_str(), &contents[i]);
        i = i + 1;
    }
    let ghost st = (seqs(details@), values@, internal);
    let ghost vals = values@;
    let oe = &official.candidate_values;
    if oe.entries.len() == 0 {
        push_detail(&mut details, to_chars("official CSV has no candidate rows"));
        let d = join_chars(&details, "; ");
        return CandidateComparison {
            paths: crate::comparison::copy_strings(paths),
            status: CandidateComparisonStatus::Incomplete,
            details: from_chars(&d),
            compared_values: values.entries.len(),
            expected_values: 0,
        };
    }
    let mut missing_by_list: Vec<(u32, Vec<u32>)> = Vec::new();
    let mut mismatches: Vec<Vec<char>> = Vec::new();
    let ghost oes = oe@;
    let mut k: usize = 0;
    assert(groups_view(missing_by_list@) =~= Seq::<(u32, Seq<u32>)>::empty());
    assert(seqs(mismatches@) =~= Seq::<Seq<char>>::empty());
    while k < oe.entries.len()
        invariant
            official.wf(),
            oes == official.candidate_values@,
            oe == &official.candidate_values,
            values.wf(),
            vals == values@,
            k <= oes.len(),
            groups_view(missing_by_list@) == group_keys(missing_keys_upto(oes, vals, k as int)),
            seqs(mismatches@) == value_mismatches_upto(oes, vals, k as int),
        decreases oes.len() - k,
    {
        let key = oe.entries[k].0;
        let official_value = oe.entries[k].1;
        match values.get(&key) {
            Some(mv) => {
                if mv != official_value {
                    let mut m = key.label_chars();
                    push_str(&mut m, ": md=");
                    let a = dec_chars(mv as u64);
                    append_chars(&mut m, &a);
                    push_str(&mut m, ", official=");
                    let b = dec_chars(official_value as u64);
                    append_chars(&mut m, &b);
                    push_detail(&mut mismatches, m);
                }
            },
            None => {
                let ghost ks = missing_keys_upto(oes, vals, k as int);
                let ghost g0 = groups_view(missing_by_list@);
                assert(missing_keys_upto(oes, vals, k + 1) == ks.push(key));
                assert(ks.push(key).drop_last() =~= ks);
                let n = missing_by_list.len();
                if n > 0 && missing_by_list[n - 1].0 == key.list {
                    let (l, mut cands) = missing_by_list.pop().unwrap();
                    let ghost c0 = cands@;
                    cands.push(key.candidate);
                    missing_by_list.push((l, cands));
                    assert(groups_view(missing_by_list@) =~= g0.update(
                        g0.len() - 1,
                        (key.list, c0.push(key.candidate)),
                    ));
                } else {
                    let mut cands: Vec<u32> = Vec::new();
                    cands.push(key.candidate);
                    missing_by_list.push((key.list, cands));
                    assert(cands@ =~= seq![key.candidate]);
                    assert(groups_view(missing_by_list@) =~= g0.push((key.list, seq![key.candidate])));
                }
            },
        }
        k = k + 1;
    }
    let mut extra: Vec<Vec<char>> = Vec::new();
    let mut j: usize = 0;
    assert(seqs(extra@) =~= Seq::<Seq<char>>::empty());
    while j < values.entries.len()
        invariant
            official.wf(),
            oes == official.candidate_values@,
            oe == &official.candidate_values,
            vals == values@,
            j <= vals.len(),
            seqs(extra@) == extra_details_upto(vals, oes, j as int),
        decreases vals.len() - j,
    {
        let key = values.entries[j].0;
        if !oe.contains_key(&key) {
            let mut m = key.label_chars();
            push_str(&mut m, " is not present in the official candidate list");
            push_detail(&mut extra, m);
        }
        j = j + 1;
    }
    let has_extra = extra.len() > 0;
    let mut i2: usize = 0;
    let ghost d0 = seqs(details@);
    while i2 < extra.len()
        invariant
            i2 <= extra.len(),
            seqs(details@) == d0 + seqs(extra@).take(i2 as int),
        decreases extra.len() - i2,
    {
        let c = crate::textops::copy_chars(&extra[i2]);
        push_detail(&mut details, c);
        assert(seqs(extra@).take(i2 + 1) =~= seqs(extra@).take(i2 as int).push(extra@[i2 as int]@));
        assert(d0 + seqs(extra@).take(i2 + 1) =~= (d0 + seqs(extra@).take(i2 as int)).push(extra@[i2 as int]@));
        i2 = i2 + 1;
    }
    assert(seqs(extra@).take(extra.len() as int) =~= seqs(extra@));
    let missing_lines = candidate_missing_details(&official.candidate_values, &missing_by_list);
    let ghost d1 = seqs(details@);
    let mut i3: usize = 0;
    while i3 < missing_lines.len()
        invariant
            i3 <= missing_lines.len(),
            seqs(details@) == d1 + strs(missing_lines@).take(i3 as int),
        decreases missing_lines.len() - i3,
    {
        let c = to_chars(missing_lines[i3].as_str());
        push_detail(&mut details, c);
        assert(strs(missing_lines@).take(i3 + 1) =~= strs(missing_lines@).take(i3 as int).push(missing_lines@[i3 as int]@));
        assert(d1 + strs(missing_lines@).take(i3 + 1) =~= (d1 + strs(missing_lines@).take(i3 as int)).push(missing_lines@[i3 as int]@));
        i3 = i3 + 1;
    }
    assert(strs(missing_lines@).take(missing_lines.len() as int) =~= strs(missing_lines@));
    let ghost d2 = seqs(details@);
    let mut i4: usize = 0;
    while i4 < mismatches.len()
        invariant
            i4 <= mismatches.len(),
            seqs(details@) == d2 + seqs(mismatches@).take(i4 as int),
        decreases mismatches.len() - i4,
    {
        let c = crate::textops::copy_chars(&mismatches[i4]);
        push_detail(&mut details, c);
        assert(seqs(mismatches@).take(i4 + 1) =~= seqs(mismatches@).take(i4 as int).push(mismatches@[i4 as int]@));
        assert(d2 + seqs(mismatches@).take(i4 + 1) =~= (d2 + seqs(mismatches@).take(i4 as int)).push(mismatches@[i4 as int]@));
        i4 = i4 + 1;
    }
    assert(seqs(mismatches@).take(mismatches.len() as int) =~= seqs(mismatches@));
    let status = if internal || has_extra {
        CandidateComparisonStatus::InternallyInconsistent
    } else if missing_by_list.len() > 0 {
        CandidateComparisonStatus::Incomplete
    } else if details.len() == 0 {
        CandidateComparisonStatus::FullyMatches
    } else {
        CandidateComparisonStatus::Mismatch
    };
    let d = join_chars(&details, "; ");
    CandidateComparison {
        paths: crate::comparison::copy_strings(paths),
        status,
        details: from_chars(&d),
        compared_values: values.entries.len(),
        expected_values: oe.entries.len(),
    }
}

} // verus!
