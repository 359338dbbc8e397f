//! Executable counterparts of the operations modelled in `text`.
use vstd::prelude::*;
use crate::text::{
    all_digits, debug_quoted, dec, digit_char, digit_value, digits_value, drop_empty, ends_with,
    find_from, is_digit, is_ws, join, lines, occurs_at, parse_i32, parse_u32, seqs, split,
    split_acc, split_once, split_str, starts_with, strip_cr, strip_plus, strip_prefix, strs,
    trim, trim_end, trim_start, trimmed_lines,
};

verus! {

broadcast use vstd::string::group_string_axioms;

/// The characters of `s`.
pub fn to_chars(s: &str) -> (r: Vec<char>)
    ensures
        r@ == s@,
{
    let mut r: Vec<char> = Vec::new();
    for c in it: s.chars()
        invariant
            it.seq() == s@,
            r@ == it.seq().take(it.index() as int),
    {
        r.push(c);
    }
    r
}

/// `String::push`.
#[verifier::external_body]
fn string_push(s: &mut String, c: char)
    ensures
        final(s)@ == old(s)@.push(c),
{
    s.push(c)
}

/// `format!("{:?}", s)` on a string.
#[verifier::external_body]
pub(crate) fn debug_format(s: &str) -> (r: String)
    ensures
        r@ == debug_quoted(s@),
{
    format!("{:?}", s)
}

/// A `String` holding the characters of `v`.
pub fn from_chars(v: &Vec<char>) -> (r: String)
    ensures
        r@ == v@,
{
    let mut r = String::new();
    let mut i: usize = 0;
    while i < v.len()
        invariant
            i <= v.len(),
            r@ == v@.take(i as int),
        decreases v.len() - i,
    {
        string_push(&mut r, v[i]);
        assert(v@.take(i + 1) =~= v@.take(i as int).push(v@[i as int]));
        i = i + 1;
    }
    assert(v@.take(v@.len() as int) =~= v@);
    r
}

/// The `Debug` rendering of the text `v`.
pub fn debug_chars(v: &Vec<char>) -> (r: Vec<char>)
    ensures
        r@ == debug_quoted(v@),
{
    let s = from_chars(v);
    let d = debug_format(s.as_str());
    to_chars(d.as_str())
}

/// Appends `w` to `v`.
pub fn append_chars(v: &mut Vec<char>, w: &Vec<char>)
    ensures
        final(v)@ == old(v)@ + w@,
{
    let mut i: usize = 0;
    while i < w.len()
        invariant
            i <= w.len(),
            v@ == old(v)@ + w@.take(i as int),
        decreases w.len() - i,
    {
        v.push(w[i]);
        assert(w@.take(i + 1) =~= w@.take(i as int).push(w@[i as int]));
        i = i + 1;
    }
    assert(w@.take(w@.len() as int) =~= w@);
}

/// Appends the characters of `s` to `v`.
pub fn push_str(v: &mut Vec<char>, s: &str)
    ensures
        final(v)@ == old(v)@ + s@,
{
    let w = to_chars(s);
    append_chars(v, &w);
}

/// The characters of `s` followed by those of `w`.
pub fn concat_str(s: &str, w: &Vec<char>) -> (r: Vec<char>)
    ensures
        r@ == s@ + w@,
{
    let mut r = to_chars(s);
    append_chars(&mut r, w);
    r
}

/// A copy of `v`.
pub fn copy_chars(v: &Vec<char>) -> (r: Vec<char>)
    ensures
        r@ == v@,
{
    let mut r: Vec<char> = Vec::new();
    append_chars(&mut r, v);
    r
}

/// The characters of `v` from `lo` up to `hi`.
pub fn subrange_chars(v: &Vec<char>, lo: usize, hi: usize) -> (r: Vec<char>)
    requires
        lo <= hi <= v.len(),
    ensures
        r@ == v@.subrange(lo as int, hi as int),
{
    let mut r: Vec<char> = Vec::new();
    let mut i = lo;
    while i < hi
        invariant
            lo <= i <= hi,
            hi <= v.len(),
            r@ == v@.subrange(lo as int, i as int),
        decreases hi - i,
    {
        r.push(v[i]);
        assert(v@.subrange(lo as int, i + 1) =~= v@.subrange(lo as int, i as int).push(v@[i as int]));
        i = i + 1;
    }
    r
}

/// Whether `a` and `b` hold the same characters.
pub fn chars_eq(a: &Vec<char>, b: &Vec<char>) -> (r: bool)
    ensures
        r == (a@ == b@),
{
    if a.len() != b.len() {
        return false;
    }
    let mut i: usize = 0;
    while i < a.len()
        invariant
            a.len() == b.len(),
            i <= a.len(),
            forall|j: int| 0 <= j < i ==> a@[j] == b@[j],
        decreases a.len() - i,
    {
        if a[i] != b[i] {
            assert(a@[i as int] != b@[i as int]);
            return false;
        }
        i = i + 1;
    }
    assert(a@ =~= b@);
    true
}

/// Whether `a` holds the characters of `s`.
pub fn eq_str(a: &Vec<char>, s: &str) -> (r: bool)
    ensures
        r == (a@ == s@),
{
    let b = to_chars(s);
    chars_eq(a, &b)
}

/// `char::is_whitespace`.
pub fn is_whitespace(c: char) -> (r: bool)
    ensures
        r == is_ws(c),
{
    let u = c as u32;
    (9 <= u && u <= 13) || u == 32 || u == 0x85 || u == 0xA0 || u == 0x1680 || (0x2000 <= u
        && u <= 0x200A) || u == 0x2028 || u == 0x2029 || u == 0x202F || u == 0x205F || u == 0x3000
}

/// `char::is_ascii_digit`.
pub fn is_ascii_digit(c: char) -> (r: bool)
    ensures
        r == is_digit(c),
{
    let u = c as u32;
    48 <= u && u <= 57
}

/// `str::trim`.
pub fn trim_chars(v: &Vec<char>) -> (r: Vec<char>)
    ensures
        r@ == trim(v@),
{
    let mut i: usize = 0;
    assert(v@.skip(0) =~= v@);
    while i < v.len() && is_whitespace(v[i])
        invariant
            i <= v.len(),
            trim_start(v@) == trim_start(v@.skip(i as int)),
        decreases v.len() - i,
    {
        assert(v@.skip(i as int).drop_first() =~= v@.skip(i + 1));
        i = i + 1;
    }
    assert(trim_start(v@) == v@.skip(i as int));
    let mut j: usize = v.len();
    while j > i && is_whitespace(v[j - 1])
        invariant
            i <= j <= v.len(),
            trim(v@) == trim_end(v@.subrange(i as int, j as int)),
        decreases j - i,
    {
        assert(v@.subrange(i as int, j as int).drop_last() =~= v@.subrange(i as int, j - 1));
        j = j - 1;
    }
    assert(v@.skip(i as int) =~= v@.subrange(i as int, v@.len() as int));
    subrange_chars(v, i, j)
}

/// `str::trim_start`.
pub fn trim_start_chars(v: &Vec<char>) -> (r: Vec<char>)
    ensures
        r@ == trim_start(v@),
{
    let mut i: usize = 0;
    assert(v@.skip(0) =~= v@);
    while i < v.len() && is_whitespace(v[i])
        invariant
            i <= v.len(),
            trim_start(v@) == trim_start(v@.skip(i as int)),
        decreases v.len() - i,
    {
        assert(v@.skip(i as int).drop_first() =~= v@.skip(i + 1));
        i = i + 1;
    }
    assert(trim_start(v@) == v@.skip(i as int));
    assert(v@.skip(i as int) =~= v@.subrange(i as int, v@.len() as int));
    subrange_chars(v, i, v.len())
}

/// `str::trim` on a `str`.
pub fn trim_str(s: &str) -> (r: Vec<char>)
    ensures
        r@ == trim(s@),
{
    let v = to_chars(s);
    trim_chars(&v)
}

/// `str::split(sep)`.
pub fn split_chars(v: &Vec<char>, sep: char) -> (r: Vec<Vec<char>>)
    ensures
        seqs(r@) == split(v@, sep),
{
    let mut out: Vec<Vec<char>> = Vec::new();
    let mut cur: Vec<char> = Vec::new();
    let mut i: usize = 0;
    assert(v@.skip(0) =~= v@);
    assert(seqs(out@) =~= Seq::<Seq<char>>::empty());
    while i < v.len()
        invariant
            i <= v.len(),
            seqs(out@) + split_acc(v@.skip(i as int), sep, cur@) == split(v@, sep),
        decreases v.len() - i,
    {
        let ghost rest = v@.skip(i as int);
        assert(rest.drop_first() =~= v@.skip(i + 1));
        assert(rest[0] == v@[i as int]);
        if v[i] == sep {
            let ghost old_out = seqs(out@);
            let ghost c = cur@;
            out.push(cur);
            cur = Vec::new();
            assert(seqs(out@) =~= old_out.push(c));
            assert(old_out + (seq![c] + split_acc(v@.skip(i + 1), sep, cur@)) =~= old_out.push(c)
                + split_acc(v@.skip(i + 1), sep, cur@));
        } else {
            cur.push(v[i]);
        }
        i = i + 1;
    }
    let ghost old_out = seqs(out@);
    let ghost c = cur@;
    assert(v@.skip(i as int) =~= Seq::<char>::empty());
    out.push(cur);
    assert(seqs(out@) =~= old_out.push(c));
    assert(old_out + seq![c] =~= old_out.push(c));
    out
}

proof fn lemma_split_acc_len(s: Seq<char>, sep: char, cur: Seq<char>)
    ensures
        split_acc(s, sep, cur).len() >= 1,
    decreases s.len(),
{
    if s.len() > 0 {
        if s[0] == sep {
            lemma_split_acc_len(s.drop_first(), sep, Seq::empty());
        } else {
            lemma_split_acc_len(s.drop_first(), sep, cur.push(s[0]));
        }
    }
}

/// `s` without one trailing `\r`.
fn strip_cr_chars(v: &Vec<char>) -> (r: Vec<char>)
    ensures
        r@ == strip_cr(v@),
{
    if v.len() > 0 && v[v.len() - 1] == '\r' {
        subrange_chars(v, 0, v.len() - 1)
    } else {
        copy_chars(v)
    }
}

/// `str::lines`.
pub fn lines_chars(v: &Vec<char>) -> (r: Vec<Vec<char>>)
    ensures
        seqs(r@) == lines(v@),
{
    let parts = split_chars(v, '\n');
    proof {
        lemma_split_acc_len(v@, '\n', Seq::empty());
    }
    assert(seqs(parts@).len() == parts@.len());
    let n = parts.len();
    let k = if parts[n - 1].len() == 0 {
        n - 1
    } else {
        n
    };
    let ghost target = lines(v@);
    assert(target.len() == k);
    let mut out: Vec<Vec<char>> = Vec::new();
    let mut i: usize = 0;
    while i < k
        invariant
            i <= k,
            k <= n,
            n == parts.len(),
            seqs(parts@) == split(v@, '\n'),
            target == lines(v@),
            target.len() == k,
            seqs(out@) == target.take(i as int),
        decreases k - i,
    {
        assert(seqs(parts@)[i as int] == parts@[i as int]@);
        let p = if i < n - 1 {
            strip_cr_chars(&parts[i])
        } else {
            copy_chars(&parts[i])
        };
        let ghost old_out = seqs(out@);
        out.push(p);
        assert(seqs(out@) =~= old_out.push(p@));
        assert(target.take(i + 1) =~= target.take(i as int).push(target[i as int]));
        i = i + 1;
    }
    assert(target.take(k as int) =~= target);
    out
}

/// Every line of `v`, trimmed.
pub fn trimmed_lines_chars(v: &Vec<char>) -> (r: Vec<Vec<char>>)
    ensures
        seqs(r@) == trimmed_lines(v@),
{
    let ls = lines_chars(v);
    let ghost target = trimmed_lines(v@);
    let mut out: Vec<Vec<char>> = Vec::new();
    let mut i: usize = 0;
    while i < ls.len()
        invariant
            i <= ls.len(),
            seqs(ls@) == lines(v@),
            target == trimmed_lines(v@),
            target.len() == ls.len(),
            seqs(out@) == target.take(i as int),
        decreases ls.len() - i,
    {
        assert(seqs(ls@)[i as int] == ls@[i as int]@);
        let t = trim_chars(&ls[i]);
        let ghost old_out = seqs(out@);
        out.push(t);
        assert(seqs(out@) =~= old_out.push(t@));
        assert(target.take(i + 1) =~= target.take(i as int).push(target[i as int]));
        i = i + 1;
    }
    assert(target.take(ls.len() as int) =~= target);
    out
}

/// The non-empty elements of `v`, in order.
pub fn drop_empty_chars(v: &Vec<Vec<char>>) -> (r: Vec<Vec<char>>)
    ensures
        seqs(r@) == drop_empty(seqs(v@)),
{
    let ghost sv = seqs(v@);
    let mut out: Vec<Vec<char>> = Vec::new();
    let mut i: usize = 0;
    assert(sv.take(0) =~= Seq::<Seq<char>>::empty());
    assert(seqs(out@) =~= Seq::<Seq<char>>::empty());
    while i < v.len()
        invariant
            i <= v.len(),
            sv == seqs(v@),
            seqs(out@) == drop_empty(sv.take(i as int)),
        decreases v.len() - i,
    {
        assert(sv.take(i + 1).drop_last() =~= sv.take(i as int));
        assert(sv.take(i + 1).last() == v@[i as int]@);
        if v[i].len() > 0 {
            let c = copy_chars(&v[i]);
            let ghost old_out = seqs(out@);
            out.push(c);
            assert(seqs(out@) =~= old_out.push(c@));
        }
        i = i + 1;
    }
    assert(sv.take(v.len() as int) =~= sv);
    out
}

/// The non-empty trimmed lines of `s`.
pub fn nonempty_trimmed_lines(s: &str) -> (r: Vec<Vec<char>>)
    ensures
        seqs(r@) == drop_empty(trimmed_lines(s@)),
{
    let v = to_chars(s);
    let t = trimmed_lines_chars(&v);
    drop_empty_chars(&t)
}

proof fn lemma_digits_value_prefix(s: Seq<char>, k: int)
    requires
        0 <= k <= s.len(),
    ensures
        digits_value(s.take(k)) <= digits_value(s),
    decreases s.len(),
{
    if k < s.len() {
        assert(s.drop_last().take(k) =~= s.take(k));
        lemma_digits_value_prefix(s.drop_last(), k);
    } else {
        assert(s.take(k) =~= s);
    }
}

/// The value of the decimal digits `v[start..]`, when they are all digits,
/// there is at least one, and the value is at most `limit`.
fn parse_digits(v: &Vec<char>, start: usize, limit: u64) -> (r: Option<u64>)
    requires
        start <= v.len(),
        limit <= u32::MAX + 1,
    ensures
        ({
            let d = v@.skip(start as int);
            r == if d.len() > 0 && all_digits(d) && digits_value(d) <= limit {
                Some(digits_value(d) as u64)
            } else {
                None::<u64>
            }
        }),
{
    let ghost d = v@.skip(start as int);
    if start >= v.len() {
        return None;
    }
    let mut acc: u64 = 0;
    let mut i = start;
    assert(d.take(0) =~= Seq::<char>::empty());
    while i < v.len()
        invariant
            start <= i <= v.len(),
            d == v@.skip(start as int),
            limit <= u32::MAX + 1,
            acc == digits_value(d.take(i - start)),
            acc <= limit,
            all_digits(d.take(i - start)),
        decreases v.len() - i,
    {
        assert(d[i - start] == v@[i as int]);
        if !is_ascii_digit(v[i]) {
            assert(!is_digit(d[i - start]));
            return None;
        }
        let ghost pre = d.take(i - start);
        let ghost next = d.take(i + 1 - start);
        assert(next.drop_last() =~= pre);
        assert(next.last() == v@[i as int]);
        let dv = (v[i] as u32 - 48) as u64;
        assert(dv == digit_value(v@[i as int]));
        acc = acc * 10 + dv;
        assert(acc == digits_value(next));
        assert(all_digits(next)) by {
            assert forall|j: int| 0 <= j < next.len() implies is_digit(#[trigger] next[j]) by {
                if j < pre.len() {
                    assert(next[j] == pre[j]);
                }
            }
        }
        if acc > limit {
            proof {
                lemma_digits_value_prefix(d, i + 1 - start);
            }
            return None;
        }
        i = i + 1;
    }
    assert(d.take(i - start) =~= d);
    Some(acc)
}

/// `str::parse::<u32>`.
pub fn parse_u32_chars(v: &Vec<char>) -> (r: Option<u32>)
    ensures
        r == parse_u32(v@),
{
    let start: usize = if v.len() > 0 && v[0] == '+' {
        1
    } else {
        0
    };
    assert(strip_plus(v@) =~= v@.skip(start as int));
    match parse_digits(v, start, 0xFFFF_FFFF) {
        Some(x) => Some(x as u32),
        None => None,
    }
}

/// `str::parse::<i32>`.
pub fn parse_i32_chars(v: &Vec<char>) -> (r: Option<i32>)
    ensures
        r == parse_i32(v@),
{
    if v.len() > 0 && v[0] == '-' {
        assert(v@.drop_first() =~= v@.skip(1));
        match parse_digits(v, 1, 0x8000_0000) {
            Some(x) => Some((0i64 - x as i64) as i32),
            None => None,
        }
    } else {
        let start: usize = if v.len() > 0 && v[0] == '+' {
            1
        } else {
            0
        };
        assert(strip_plus(v@) =~= v@.skip(start as int));
        match parse_digits(v, start, 0x7FFF_FFFF) {
            Some(x) => Some(x as i32),
            None => None,
        }
    }
}

fn digit_to_char(d: u64) -> (c: char)
    requires
        d < 10,
    ensures
        c == digit_char(d as nat),
{
    if d == 0 { '0' }
    else if d == 1 { '1' }
    else if d == 2 { '2' }
    else if d == 3 { '3' }
    else if d == 4 { '4' }
    else if d == 5 { '5' }
    else if d == 6 { '6' }
    else if d == 7 { '7' }
    else if d == 8 { '8' }
    else { '9' }
}

/// Decimal notation of `n`.
pub fn dec_chars(n: u64) -> (r: Vec<char>)
    ensures
        r@ == dec(n as nat),
    decreases n,
{
    if n < 10 {
        let mut r: Vec<char> = Vec::new();
        r.push(digit_to_char(n));
        assert(r@ =~= seq![digit_char(n as nat)]);
        r
    } else {
        let mut r = dec_chars(n / 10);
        r.push(digit_to_char(n % 10));
        r
    }
}

/// Whether `v` starts with the characters of `p`.
pub fn starts_with_str(v: &Vec<char>, p: &str) -> (r: bool)
    ensures
        r == starts_with(v@, p@),
{
    let pv = to_chars(p);
    if pv.len() > v.len() {
        return false;
    }
    let head = subrange_chars(v, 0, pv.len());
    assert(head@ =~= v@.take(pv@.len() as int));
    chars_eq(&head, &pv)
}

/// Whether `v` ends with the characters of `p`.
pub fn ends_with_str(v: &Vec<char>, p: &str) -> (r: bool)
    ensures
        r == ends_with(v@, p@),
{
    let pv = to_chars(p);
    if pv.len() > v.len() {
        return false;
    }
    let tail = subrange_chars(v, v.len() - pv.len(), v.len());
    assert(tail@ =~= v@.skip(v@.len() - pv@.len()));
    chars_eq(&tail, &pv)
}

/// `str::strip_prefix`.
pub fn strip_prefix_str(v: &Vec<char>, p: &str) -> (r: Option<Vec<char>>)
    ensures
        match strip_prefix(v@, p@) {
            Some(rest) => r is Some && r->0@ == rest,
            None => r is None,
        },
{
    if starts_with_str(v, p) {
        let n = to_chars(p).len();
        let rest = subrange_chars(v, n, v.len());
        assert(rest@ =~= v@.skip(p@.len() as int));
        Some(rest)
    } else {
        None
    }
}

fn occurs_at_exec(v: &Vec<char>, p: &Vec<char>, i: usize) -> (r: bool)
    requires
        i + p.len() <= v.len(),
    ensures
        r == occurs_at(v@, p@, i as int),
{
    let mut j: usize = 0;
    while j < p.len()
        invariant
            i + p.len() <= v.len(),
            j <= p.len(),
            forall|k: int| 0 <= k < j ==> v@[i + k] == p@[k],
        decreases p.len() - j,
    {
        if v[i + j] != p[j] {
            assert(v@.subrange(i as int, i + p.len())[j as int] != p@[j as int]);
            return false;
        }
        j = j + 1;
    }
    assert(v@.subrange(i as int, i + p.len()) =~= p@);
    true
}

pub proof fn lemma_find_from(s: Seq<char>, p: Seq<char>, i: int)
    requires
        0 <= i,
    ensures
        match find_from(s, p, i) {
            Some(j) => i <= j && j + p.len() <= s.len() && occurs_at(s, p, j) && forall|k: int|
                i <= k < j ==> !occurs_at(s, p, k),
            None => forall|k: int| i <= k ==> !occurs_at(s, p, k),
        },
    decreases s.len() + 1 - i,
{
    if i + p.len() > s.len() {
    } else if occurs_at(s, p, i) {
    } else {
        lemma_find_from(s, p, i + 1);
    }
}

/// The first index at or after `from` where `p` occurs in `v`.
pub fn find_chars(v: &Vec<char>, p: &Vec<char>, from: usize) -> (r: Option<usize>)
    ensures
        match find_from(v@, p@, from as int) {
            Some(j) => r == Some(j as usize),
            None => r is None,
        },
{
    let mut i = from;
    while i <= v.len() && p.len() <= v.len() - i
        invariant
            from <= i,
            find_from(v@, p@, from as int) == find_from(v@, p@, i as int),
        decreases v.len() + 1 - i,
    {
        if occurs_at_exec(v, p, i) {
            return Some(i);
        }
        if i == v.len() {
            assert(find_from(v@, p@, i + 1) is None);
            return None;
        }
        i = i + 1;
    }
    None
}

/// `str::split_once`.
pub fn split_once_str(v: &Vec<char>, p: &str) -> (r: Option<(Vec<char>, Vec<char>)>)
    ensures
        match split_once(v@, p@) {
            Some((a, b)) => match r {
                Some((x, y)) => x@ == a && y@ == b,
                None => false,
            },
            None => r is None,
        },
{
    let pv = to_chars(p);
    proof {
        lemma_find_from(v@, p@, 0);
    }
    match find_chars(v, &pv, 0) {
        Some(i) => {
            proof {
                let j = find_from(v@, p@, 0)->0;
                assert(find_from(v@, pv@, 0) == find_from(v@, p@, 0));
                assert(0 <= j && j + p@.len() <= v@.len());
                assert(i == j as usize);
                assert(pv@.len() == p@.len());
            }
            assert(i + pv.len() <= v.len());
            let a = subrange_chars(v, 0, i);
            let b = subrange_chars(v, i + pv.len(), v.len());
            assert(a@ =~= v@.take(i as int));
            assert(b@ =~= v@.skip(i + p@.len()));
            Some((a, b))
        },
        None => None,
    }
}

/// Whether `p` occurs in `v`.
pub fn contains_str(v: &Vec<char>, p: &str) -> (r: bool)
    ensures
        r == crate::text::contains(v@, p@),
{
    let pv = to_chars(p);
    match find_chars(v, &pv, 0) {
        Some(_) => true,
        None => false,
    }
}

/// `str::split(p)` for a non-empty separator `p`.
pub fn split_str_chars(v: &Vec<char>, p: &str) -> (r: Vec<Vec<char>>)
    requires
        p@.len() > 0,
    ensures
        seqs(r@) == split_str(v@, p@),
{
    let pv = to_chars(p);
    let mut out: Vec<Vec<char>> = Vec::new();
    let mut rest = copy_chars(v);
    assert(seqs(out@) =~= Seq::<Seq<char>>::empty());
    loop
        invariant
            pv@ == p@,
            p@.len() > 0,
            seqs(out@) + split_str(rest@, p@) == split_str(v@, p@),
        decreases rest@.len(),
    {
        proof {
            lemma_find_from(rest@, p@, 0);
        }
        match find_chars(&rest, &pv, 0) {
            Some(i) => {
                assert(i + pv@.len() <= rest@.len()) by {
                    let j = find_from(rest@, p@, 0)->0;
                    assert(j + p@.len() <= rest@.len());
                    assert(i == j as usize);
                }
                let plen = pv.len();
                assert(i + plen <= rest.len());
                let a = subrange_chars(&rest, 0, i);
                let b = subrange_chars(&rest, i + plen, rest.len());
                assert(a@ =~= rest@.take(i as int));
                assert(b@ =~= rest@.skip(i + p@.len()));
                let ghost old_out = seqs(out@);
                out.push(a);
                assert(seqs(out@) =~= old_out.push(a@));
                assert(old_out + (seq![a@] + split_str(b@, p@)) =~= old_out.push(a@) + split_str(
                    b@,
                    p@,
                ));
                rest = b;
            },
            None => {
                let ghost old_out = seqs(out@);
                let ghost rv = rest@;
                out.push(rest);
                assert(seqs(out@) =~= old_out.push(rv));
                assert(old_out + seq![rv] =~= old_out.push(rv));
                return out;
            },
        }
    }
}

/// `parts.join(sep)`.
pub fn join_chars(parts: &Vec<Vec<char>>, sep: &str) -> (r: Vec<char>)
    ensures
        r@ == join(seqs(parts@), sep@),
{
    let ghost sp = seqs(parts@);
    let mut out: Vec<char> = Vec::new();
    let mut i: usize = 0;
    while i < parts.len()
        invariant
            i <= parts.len(),
            sp == seqs(parts@),
            out@ == join(sp.take(i as int), sep@),
        decreases parts.len() - i,
    {
        assert(sp.take(i + 1).drop_last() =~= sp.take(i as int));
        assert(sp[i as int] == parts@[i as int]@);
        if i > 0 {
            push_str(&mut out, sep);
        } else {
            assert(out@ =~= Seq::<char>::empty());
        }
        append_chars(&mut out, &parts[i]);
        i = i + 1;
    }
    assert(sp.take(parts.len() as int) =~= sp);
    out
}

/// The strings holding each element of `v`.
pub fn to_strings(v: &Vec<Vec<char>>) -> (r: Vec<String>)
    ensures
        strs(r@) == seqs(v@),
{
    let mut out: Vec<String> = Vec::new();
    let mut i: usize = 0;
    while i < v.len()
        invariant
            i <= v.len(),
            strs(out@) == seqs(v@).take(i as int),
        decreases v.len() - i,
    {
        let s = from_chars(&v[i]);
        let ghost old_out = strs(out@);
        out.push(s);
        assert(strs(out@) =~= old_out.push(s@));
        assert(seqs(v@).take(i + 1) =~= seqs(v@).take(i as int).push(v@[i as int]@));
        i = i + 1;
    }
    assert(seqs(v@).take(v.len() as int) =~= seqs(v@));
    out
}

/// The characters of each string of `v`.
pub fn strings_to_chars(v: &Vec<String>) -> (r: Vec<Vec<char>>)
    ensures
        seqs(r@) == strs(v@),
{
    let mut out: Vec<Vec<char>> = Vec::new();
    let mut i: usize = 0;
    while i < v.len()
        invariant
            i <= v.len(),
            seqs(out@) == strs(v@).take(i as int),
        decreases v.len() - i,
    {
        let c = to_chars(v[i].as_str());
        let ghost old_out = seqs(out@);
        out.push(c);
        assert(seqs(out@) =~= old_out.push(c@));
        assert(strs(v@).take(i + 1) =~= strs(v@).take(i as int).push(v@[i as int]@));
        i = i + 1;
    }
    assert(strs(v@).take(v.len() as int) =~= strs(v@));
    out
}
} // verus!
