//! Parsing of the official semicolon-separated result CSV.
use vstd::prelude::*;
use crate::error::{error_from_chars, PvError};
use crate::text::{all_digits, dec, lines, parse_u32, seqs, strs, trim};
use crate::textops::{
    append_chars, concat_str, debug_chars, eq_str, lines_chars, parse_u32_chars, to_chars,
    to_strings, trim_chars,
};
use crate::validate::all_digits_chars;
use crate::votes::vote_label;

verus! {

broadcast use vstd::string::group_string_axioms;

/// The state of reading one CSV record after some characters: the fields
/// completed so far, the field being read, and whether a quoted section is
/// open.
pub open spec fn csv_scan(
    s: Seq<char>,
    i: int,
    fields: Seq<Seq<char>>,
    field: Seq<char>,
    in_quotes: bool,
) -> (Seq<Seq<char>>, Seq<char>, bool)
    decreases s.len() - i,
{
    if i < 0 || i >= s.len() {
        (fields, field, in_quotes)
    } else {
        let ch = s[i];
        if in_quotes {
            if ch == '"' {
                if i + 1 < s.len() && s[i + 1] == '"' {
                    csv_scan(s, i + 2, fields, field.push('"'), true)
                } else {
                    csv_scan(s, i + 1, fields, field, false)
                }
            } else {
                csv_scan(s, i + 1, fields, field.push(ch), true)
            }
        } else if ch == '"' && field.len() == 0 {
            csv_scan(s, i + 1, fields, field, true)
        } else if ch == ';' {
            csv_scan(s, i + 1, fields.push(field), Seq::empty(), false)
        } else {
            csv_scan(s, i + 1, fields, field.push(ch), false)
        }
    }
}

/// `s` without its leading byte-order marks.
pub open spec fn strip_bom(s: Seq<char>) -> Seq<char>
    decreases s.len(),
{
    if s.len() > 0 && s[0] == '\u{feff}' {
        strip_bom(s.drop_first())
    } else {
        s
    }
}

/// The fields of one CSV record: `;` separates fields, a field that starts
/// with `"` is quoted until the next lone `"`, `""` inside quotes stands for
/// one `"`; byte-order marks at the start of the first field are dropped.
/// `None` when a quoted section is not closed.
pub open spec fn csv_record(line: Seq<char>) -> Option<Seq<Seq<char>>> {
    let (fields, field, in_quotes) = csv_scan(line, 0, Seq::empty(), Seq::empty(), false);
    if in_quotes {
        None
    } else {
        let all = fields.push(field);
        Some(all.update(0, strip_bom(all[0])))
    }
}

/// The error message for an unterminated record.
pub open spec fn csv_record_error(line: Seq<char>) -> Seq<char> {
    "unterminated quoted CSV field in "@ + crate::text::debug_quoted(line)
}

/// Splits one line of a semicolon-separated file into its fields.
pub fn parse_semicolon_csv_record(line: &str) -> (r: Result<Vec<String>, PvError>)
    ensures
        match csv_record(line@) {
            Some(f) => r is Ok && strs(r->Ok_0@) == f,
            None => r is Err && r->Err_0.message@ == csv_record_error(line@),
        },
{
    let v = to_chars(line);
    match csv_record_chars(&v) {
        Some(f) => Ok(to_strings(&f)),
        None => {
            let mut m = to_chars("unterminated quoted CSV field in ");
            let q = debug_chars(&v);
            append_chars(&mut m, &q);
            Err(error_from_chars(&m))
        },
    }
}

/// The fields of the record `v`, or `None` when a quote is left open.
pub fn csv_record_chars(v: &Vec<char>) -> (r: Option<Vec<Vec<char>>>)
    ensures
        match csv_record(v@) {
            Some(f) => r is Some && seqs(r->0@) == f,
            None => r is None,
        },
{
    let mut fields: Vec<Vec<char>> = Vec::new();
    let mut field: Vec<char> = Vec::new();
    let mut in_quotes = false;
    let mut i: usize = 0;
    assert(seqs(fields@) =~= Seq::<Seq<char>>::empty());
    while i < v.len()
        invariant
            i <= v.len(),
            csv_scan(v@, 0, Seq::empty(), Seq::empty(), false) == csv_scan(
                v@,
                i as int,
                seqs(fields@),
                field@,
                in_quotes,
            ),
        decreases v.len() - i,
    {
        let ch = v[i];
        if in_quotes {
            if ch == '"' {
                if i + 1 < v.len() && v[i + 1] == '"' {
                    field.push('"');
                    i = i + 2;
                } else {
                    in_quotes = false;
                    i = i + 1;
                }
            } else {
                field.push(ch);
                i = i + 1;
            }
        } else if ch == '"' && field.len() == 0 {
            in_quotes = true;
            i = i + 1;
        } else if ch == ';' {
            let ghost old_f = seqs(fields@);
            let ghost fv = field@;
            fields.push(field);
            field = Vec::new();
            assert(seqs(fields@) =~= old_f.push(fv));
            i = i + 1;
        } else {
            field.push(ch);
            i = i + 1;
        }
    }
    if in_quotes {
        return None;
    }
    let ghost old_f = seqs(fields@);
    let ghost fv = field@;
    fields.push(field);
    assert(seqs(fields@) =~= old_f.push(fv));
    let first = strip_bom_chars(&fields[0]);
    let ghost all = seqs(fields@);
    fields.set(0, first);
    assert(seqs(fields@) =~= all.update(0, strip_bom(all[0])));
    Some(fields)
}

fn strip_bom_chars(v: &Vec<char>) -> (r: Vec<char>)
    ensures
        r@ == strip_bom(v@),
{
    let mut i: usize = 0;
    assert(v@.skip(0) =~= v@);
    while i < v.len() && v[i] == '\u{feff}'
        invariant
            i <= v.len(),
            strip_bom(v@) == strip_bom(v@.skip(i as int)),
        decreases v.len() - i,
    {
        assert(v@.skip(i as int).drop_first() =~= v@.skip(i + 1));
        i = i + 1;
    }
    assert(v@.skip(i as int) =~= v@.subrange(i as int, v@.len() as int));
    crate::textops::subrange_chars(v, i, v.len())
}

/// The records of all lines of `ls` with index below `k`, or the index of
/// the first line that does not parse.
pub open spec fn csv_records_upto(ls: Seq<Seq<char>>, k: int) -> Result<
    Seq<Seq<Seq<char>>>,
    int,
>
    decreases k,
{
    if k <= 0 {
        Ok(Seq::empty())
    } else {
        match csv_records_upto(ls, k - 1) {
            Err(j) => Err(j),
            Ok(rows) => match csv_record(ls[k - 1]) {
                Some(f) => Ok(rows.push(f)),
                None => Err(k - 1),
            },
        }
    }
}

/// The records of every line of `content`, or the index of the first line
/// that does not parse.
pub open spec fn csv_records(content: Seq<char>) -> Result<Seq<Seq<Seq<char>>>, int> {
    csv_records_upto(lines(content), lines(content).len() as int)
}

/// The fields of a sequence of records.
pub open spec fn rows_view(rows: Seq<Vec<String>>) -> Seq<Seq<Seq<char>>> {
    rows.map_values(|r: Vec<String>| strs(r@))
}

/// Splits a semicolon-separated file into records; the first line that does
/// not parse gives the error.
pub fn parse_semicolon_csv(content: &str) -> (r: Result<Vec<Vec<String>>, PvError>)
    ensures
        match csv_records(content@) {
            Ok(rows) => r is Ok && rows_view(r->Ok_0@) == rows,
            Err(j) => r is Err && r->Err_0.message@ == csv_record_error(lines(content@)[j]),
        },
{
    let v = to_chars(content);
    let ls = lines_chars(&v);
    let ghost lv = seqs(ls@);
    let mut rows: Vec<Vec<String>> = Vec::new();
    let mut k: usize = 0;
    assert(rows_view(rows@) =~= Seq::<Seq<Seq<char>>>::empty());
    while k < ls.len()
        invariant
            k <= ls.len(),
            lv == seqs(ls@),
            lv == lines(content@),
            csv_records_upto(lv, k as int) == Ok::<Seq<Seq<Seq<char>>>, int>(rows_view(rows@)),
        decreases ls.len() - k,
    {
        assert(lv[k as int] == ls@[k as int]@);
        match csv_record_chars(&ls[k]) {
            Some(f) => {
                let s = to_strings(&f);
                let ghost old_rows = rows_view(rows@);
                rows.push(s);
                assert(rows_view(rows@) =~= old_rows.push(seqs(f@)));
            },
            None => {
                proof {
                    lemma_records_err_extends(lv, k as int + 1, lv.len() as int, k as int);
                }
                let mut m = to_chars("unterminated quoted CSV field in ");
                let q = debug_chars(&ls[k]);
                append_chars(&mut m, &q);
                return Err(error_from_chars(&m));
            },
        }
        k = k + 1;
    }
    Ok(rows)
}

proof fn lemma_records_err_extends(ls: Seq<Seq<char>>, j: int, n: int, e: int)
    requires
        0 < j <= n,
        csv_records_upto(ls, j) == Err::<Seq<Seq<Seq<char>>>, int>(e),
    ensures
        csv_records_upto(ls, n) == Err::<Seq<Seq<Seq<char>>>, int>(e),
    decreases n - j,
{
    if j < n {
        lemma_records_err_extends(ls, j + 1, n, e);
    }
}

/// A party row: the first field is a list number and the third is empty.
pub open spec fn list_number_of_row(row: Seq<Seq<char>>) -> Option<u32> {
    if row.len() > 0 && parse_u32(row[0]) is Some && row.len() > 2 && row[2].len() == 0 {
        parse_u32(row[0])
    } else {
        None
    }
}

/// A candidate row: the first field is absent or empty, and the third is a
/// candidate number.
pub open spec fn candidate_number_of_row(row: Seq<Seq<char>>) -> Option<u32> {
    if row.len() > 0 && row[0].len() != 0 {
        None
    } else if row.len() > 2 {
        parse_u32(row[2])
    } else {
        None
    }
}

/// The vote row a record gives values for: a party row with list number
/// `n` in `1..=20` gives `E.{n}`; otherwise the second field names the
/// valid, blank, invalid or found ballots.
pub open spec fn result_slot_of_row(row: Seq<Seq<char>>) -> Option<int> {
    if row.len() > 2 && parse_u32(row[0]) is Some && 1 <= parse_u32(row[0])->0 <= 20
        && row[2].len() == 0 {
        Some(parse_u32(row[0])->0 - 1)
    } else if row.len() > 1 {
        if row[1] == "geldige stembiljetten"@ {
            Some(20)
        } else if row[1] == "blanco stembiljetten"@ {
            Some(21)
        } else if row[1] == "ongeldige stembiljetten"@ {
            Some(22)
        } else if row[1] == "aangetroffen stembiljetten"@ {
            Some(23)
        } else {
            None
        }
    } else {
        None
    }
}

/// The list number of a party row.
pub fn official_list_number_for_row(row: &[String]) -> (r: Option<u32>)
    ensures
        r == list_number_of_row(strs(row@)),
{
    let ghost rv = strs(row@);
    if row.len() == 0 {
        return None;
    }
    assert(rv[0] == row@[0]@);
    let first = to_chars(row[0].as_str());
    let n = match parse_u32_chars(&first) {
        Some(n) => n,
        None => {
            return None;
        },
    };
    if row.len() > 2 {
        assert(rv[2] == row@[2]@);
        let third = to_chars(row[2].as_str());
        if third.len() == 0 {
            return Some(n);
        }
    }
    None
}

/// The candidate number of a candidate row.
pub fn official_candidate_number_for_row(row: &[String]) -> (r: Option<u32>)
    ensures
        r == candidate_number_of_row(strs(row@)),
{
    let ghost rv = strs(row@);
    if row.len() > 0 {
        assert(rv[0] == row@[0]@);
        let first = to_chars(row[0].as_str());
        if first.len() != 0 {
            return None;
        }
    }
    if row.len() > 2 {
        assert(rv[2] == row@[2]@);
        let third = to_chars(row[2].as_str());
        parse_u32_chars(&third)
    } else {
        None
    }
}

/// The slot of the vote row a record gives values for.
pub fn result_slot_for_row(row: &[String]) -> (r: Option<usize>)
    ensures
        match result_slot_of_row(strs(row@)) {
            Some(s) => r == Some(s as usize) && 0 <= s < 24,
            None => r is None,
        },
{
    let ghost rv = strs(row@);
    if row.len() > 2 {
        assert(rv[0] == row@[0]@ && rv[2] == row@[2]@);
        let first = to_chars(row[0].as_str());
        match parse_u32_chars(&first) {
            Some(n) => {
                let third = to_chars(row[2].as_str());
                if 1 <= n && n <= 20 && third.len() == 0 {
                    return Some((n - 1) as usize);
                }
            },
            None => {},
        }
    }
    if row.len() > 1 {
        assert(rv[1] == row@[1]@);
        let second = to_chars(row[1].as_str());
        if eq_str(&second, "geldige stembiljetten") {
            Some(20)
        } else if eq_str(&second, "blanco stembiljetten") {
            Some(21)
        } else if eq_str(&second, "ongeldige stembiljetten") {
            Some(22)
        } else if eq_str(&second, "aangetroffen stembiljetten") {
            Some(23)
        } else {
            None
        }
    } else {
        None
    }
}

/// The identifier of the vote row a record gives values for.
pub fn official_result_id_for_row(row: &[String]) -> (r: Option<String>)
    ensures
        match result_slot_of_row(strs(row@)) {
            Some(s) => r is Some && r->0@ == vote_label(s),
            None => r is None,
        },
{
    match result_slot_for_row(row) {
        Some(s) => Some(crate::votes::vote_label_string(s)),
        None => None,
    }
}

/// The value of a numeric CSV cell: an empty (or blank) cell counts as 0;
/// otherwise the trimmed cell must be digits that fit in `u32`.
pub open spec fn csv_cell_value(cell: Seq<char>) -> Result<u32, Seq<char>> {
    let v = trim(cell);
    if v.len() == 0 {
        Ok(0)
    } else if !all_digits(v) {
        Err("expected numeric CSV cell, found "@ + crate::text::debug_quoted(v))
    } else {
        match parse_u32(v) {
            Some(n) => Ok(n),
            None => Err("number too large to fit in target type"@),
        }
    }
}

/// The value of a numeric CSV cell.
pub fn parse_u32_cell_chars(cell: &Vec<char>) -> (r: Result<u32, PvError>)
    ensures
        match csv_cell_value(cell@) {
            Ok(n) => r == Ok::<u32, PvError>(n),
            Err(m) => r is Err && r->Err_0.message@ == m,
        },
{
    let v = trim_chars(cell);
    if v.len() == 0 {
        return Ok(0);
    }
    if !all_digits_chars(&v) {
        let mut m = to_chars("expected numeric CSV cell, found ");
        let q = debug_chars(&v);
        append_chars(&mut m, &q);
        return Err(error_from_chars(&m));
    }
    match parse_u32_chars(&v) {
        Some(n) => Ok(n),
        None => Err(error_from_chars(&to_chars("number too large to fit in target type"))),
    }
}

/// The value of a numeric CSV cell.
pub fn parse_u32_cell(cell: &str) -> (r: Result<u32, PvError>)
    ensures
        match csv_cell_value(cell@) {
            Ok(n) => r == Ok::<u32, PvError>(n),
            Err(m) => r is Err && r->Err_0.message@ == m,
        },
{
    let v = to_chars(cell);
    parse_u32_cell_chars(&v)
}

//CSV_MORE
} // verus!
