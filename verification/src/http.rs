//! The HTTP exchange with the OCR model server: the text of the request,
//! and the body of the response, decoding a chunked transfer encoding.
//! Lengths and chunk sizes count UTF-8 bytes.
use vstd::prelude::*;
use crate::error::{err, PvError};
use crate::text::{contains, find_from, lines, split_once, trim};
use crate::textops::{
    append_chars, dec_chars, from_chars, lemma_find_from, lines_chars, push_str, split_once_str,
    subrange_chars, to_chars, trim_chars,
};
use crate::tools::HttpEndpoint;

verus! {

broadcast use vstd::string::group_string_axioms;

/// The number of bytes of the UTF-8 encoding of `c`.
pub open spec fn utf8_len(c: char) -> nat {
    let u = c as u32;
    if u < 0x80 {
        1
    } else if u < 0x800 {
        2
    } else if u < 0x10000 {
        3
    } else {
        4
    }
}

/// The number of bytes of the UTF-8 encoding of `s`.
pub open spec fn byte_len(s: Seq<char>) -> nat
    decreases s.len(),
{
    if s.len() == 0 {
        0
    } else {
        byte_len(s.drop_last()) + utf8_len(s.last())
    }
}

/// The number of characters, from `k` on, that make up the first `n` bytes
/// of `s`, if the `n`-th byte ends a character.
pub open spec fn byte_prefix(s: Seq<char>, n: int, k: int) -> Option<int>
    decreases s.len() - k,
{
    if k < 0 || k > s.len() {
        None
    } else if byte_len(s.take(k)) == n {
        Some(k)
    } else if byte_len(s.take(k)) > n || k == s.len() {
        None
    } else {
        byte_prefix(s, n, k + 1)
    }
}

/// The value of a hexadecimal digit.
pub open spec fn hex_digit(c: char) -> Option<nat> {
    if '0' <= c <= '9' {
        Some((c as u32 - '0' as u32) as nat)
    } else if 'a' <= c <= 'f' {
        Some((c as u32 - 'a' as u32 + 10) as nat)
    } else if 'A' <= c <= 'F' {
        Some((c as u32 - 'A' as u32 + 10) as nat)
    } else {
        None
    }
}

/// Reading hexadecimal digits from index `k` on after the value `acc`.
pub open spec fn hex_scan(s: Seq<char>, k: int, acc: nat) -> Result<nat, Seq<char>>
    decreases s.len() - k,
{
    if k < 0 || k >= s.len() {
        Ok(acc)
    } else {
        match hex_digit(s[k]) {
            None => Err("invalid digit found in string"@),
            Some(d) => if acc * 16 + d > usize::MAX {
                Err("number too large to fit in target type"@)
            } else {
                hex_scan(s, k + 1, acc * 16 + d)
            },
        }
    }
}

/// `usize::from_str_radix(s, 16)`: the value of the hexadecimal digits of
/// `s`, after an optional `+`, or the message of the error.
pub open spec fn parse_hex(s: Seq<char>) -> Result<nat, Seq<char>> {
    if s.len() == 0 {
        Err("cannot parse integer from empty string"@)
    } else if s[0] == '+' {
        if s.len() == 1 {
            Err("invalid digit found in string"@)
        } else {
            hex_scan(s, 1, 0)
        }
    } else {
        hex_scan(s, 0, 0)
    }
}

/// The body decoded from the chunked text `rest`, after the decoded text
/// `acc`: chunks of a hexadecimal byte count and a line break, the bytes
/// and a line break, up to a chunk of size zero. A chunk that would end
/// inside a character cannot be cut from the text (slicing there panics);
/// what decoding gives then is left open, and `chunked_fits` rules such
/// bodies out.
pub open spec fn chunked_decode(rest: Seq<char>, acc: Seq<char>) -> Result<Seq<char>, Seq<char>>
    decreases rest.len(),
{
    match find_from(rest, "\r\n"@, 0) {
        Some(i) => if 0 <= i && i + 2 <= rest.len() {
            let after = rest.skip(i + 2);
            match parse_hex(trim(rest.take(i))) {
                Err(e) => Err(e),
                Ok(size) => if size == 0 {
                    Ok(acc)
                } else if byte_len(after) < size + 2 {
                    Err("truncated chunked HTTP response"@)
                } else {
                    match (byte_prefix(after, size as int, 0), byte_prefix(after, size + 2 as int, 0)) {
                        (Some(k), Some(k2)) => if 0 <= k2 <= after.len() {
                            chunked_decode(after.skip(k2), acc + after.take(k))
                        } else {
                            arbitrary()
                        },
                        _ => arbitrary(),
                    }
                },
            }
        } else {
            Err("invalid chunked HTTP response"@)
        },
        None => Err("invalid chunked HTTP response"@),
    }
}

/// Decoding `rest` cuts the text only between characters and its chunk
/// sizes leave room for the line break after them.
pub open spec fn chunked_fits(rest: Seq<char>) -> bool
    decreases rest.len(),
{
    match find_from(rest, "\r\n"@, 0) {
        Some(i) => if 0 <= i && i + 2 <= rest.len() {
            let after = rest.skip(i + 2);
            match parse_hex(trim(rest.take(i))) {
                Err(e) => true,
                Ok(size) => if size == 0 {
                    true
                } else if size + 2 > usize::MAX {
                    false
                } else if byte_len(after) < size + 2 {
                    true
                } else {
                    match (byte_prefix(after, size as int, 0), byte_prefix(after, size + 2 as int, 0)) {
                        (Some(k), Some(k2)) => if 0 <= k2 <= after.len() {
                            chunked_fits(after.skip(k2))
                        } else {
                            false
                        },
                        _ => false,
                    }
                },
            }
        } else {
            true
        },
        None => true,
    }
}

/// The UTF-8 length of a character.
fn utf8_len_exec(c: char) -> (r: u128)
    ensures
        r == utf8_len(c),
{
    let u = c as u32;
    if u < 0x80 {
        1
    } else if u < 0x800 {
        2
    } else if u < 0x10000 {
        3
    } else {
        4
    }
}

/// Scans `v` for its first `n` bytes: the first `k` whose prefix has at
/// least `n` bytes (or the whole of `v`), and that prefix's byte count.
fn scan_bytes(v: &Vec<char>, n: u128) -> (r: (usize, u128))
    requires
        n <= usize::MAX,
    ensures
        r.0 <= v@.len(),
        r.1 == byte_len(v@.take(r.0 as int)),
        r.1 < n ==> r.0 == v@.len(),
        byte_prefix(v@, n as int, 0) == if r.1 == n {
            Some(r.0 as int)
        } else {
            None::<int>
        },
{
    let mut k: usize = 0;
    let mut acc: u128 = 0;
    assert(v@.take(0) =~= Seq::<char>::empty());
    while k < v.len() && acc < n
        invariant
            k <= v@.len(),
            n <= usize::MAX,
            acc == byte_len(v@.take(k as int)),
            acc <= n,
            byte_prefix(v@, n as int, 0) == byte_prefix(v@, n as int, k as int),
        decreases v@.len() - k,
    {
        assert(v@.take(k + 1).drop_last() =~= v@.take(k as int));
        let step = utf8_len_exec(v[k]);
        acc = acc + step;
        k = k + 1;
        if acc > n {
            assert(byte_prefix(v@, n as int, k as int) is None);
            return (k, acc);
        }
    }
    (k, acc)
}

/// The value of a hexadecimal digit.
fn hex_digit_exec(c: char) -> (r: Option<u128>)
    ensures
        match hex_digit(c) {
            Some(d) => r == Some(d as u128),
            None => r is None,
        },
{
    if '0' <= c && c <= '9' {
        Some(((c as u32) - ('0' as u32)) as u128)
    } else if 'a' <= c && c <= 'f' {
        Some(((c as u32) - ('a' as u32) + 10) as u128)
    } else if 'A' <= c && c <= 'F' {
        Some(((c as u32) - ('A' as u32) + 10) as u128)
    } else {
        None
    }
}

/// `usize::from_str_radix(s, 16)` on characters, with the message of the
/// error.
pub fn parse_hex_chars(v: &Vec<char>) -> (r: Result<usize, String>)
    ensures
        match parse_hex(v@) {
            Ok(n) => r is Ok && r->Ok_0 == n,
            Err(e) => r is Err && r->Err_0@ == e,
        },
{
    if v.len() == 0 {
        return Err("cannot parse integer from empty string".to_owned());
    }
    let mut k: usize = 0;
    if v[0] == '+' {
        if v.len() == 1 {
            return Err("invalid digit found in string".to_owned());
        }
        k = 1;
    }
    let mut acc: u128 = 0;
    while k < v.len()
        invariant
            1 <= v@.len(),
            k <= v@.len(),
            k >= 1 || v@[0] != '+',
            acc <= usize::MAX,
            parse_hex(v@) == hex_scan(v@, k as int, acc as nat),
        decreases v@.len() - k,
    {
        match hex_digit_exec(v[k]) {
            None => {
                return Err("invalid digit found in string".to_owned());
            },
            Some(d) => {
                let next = acc * 16 + d;
                if next > (usize::MAX as u128) {
                    return Err("number too large to fit in target type".to_owned());
                }
                acc = next;
            },
        }
        k = k + 1;
    }
    Ok(acc as usize)
}

/// Decodes a body sent with the chunked transfer encoding: the chunks'
/// bytes joined, up to the chunk of size zero; an error when a chunk size
/// line is missing or is not hexadecimal, or when a chunk is cut short.
pub fn decode_chunked_body(body: &str) -> (r: Result<String, PvError>)
    requires
        chunked_fits(body@),
    ensures
        match chunked_decode(body@, Seq::empty()) {
            Ok(s) => r is Ok && r->Ok_0@ == s,
            Err(e) => r is Err && r->Err_0.message@ == e,
        },
{
    let mut rest = to_chars(body);
    let mut decoded: Vec<char> = Vec::new();
    proof {
        reveal_strlit("\r\n");
    }
    loop
        invariant
            chunked_fits(rest@),
            chunked_decode(body@, Seq::empty()) == chunked_decode(rest@, decoded@),
        decreases rest@.len(),
    {
        proof {
            reveal_strlit("\r\n");
            lemma_find_from(rest@, "\r\n"@, 0);
        }
        let (size_hex, after) = match split_once_str(&rest, "\r\n") {
            Some(p) => p,
            None => {
                return err("invalid chunked HTTP response");
            },
        };
        let ghost i = find_from(rest@, "\r\n"@, 0)->0;
        assert(0 <= i && i + 2 <= rest@.len());
        assert(size_hex@ == rest@.take(i) && after@ == rest@.skip(i + 2));
        let trimmed = trim_chars(&size_hex);
        let size = match parse_hex_chars(&trimmed) {
            Ok(n) => n,
            Err(e) => {
                assert(chunked_decode(rest@, decoded@) == Err::<Seq<char>, Seq<char>>(e@));
                return Err(PvError { message: e });
            },
        };
        if size == 0 {
            assert(chunked_decode(rest@, decoded@) == Ok::<Seq<char>, Seq<char>>(decoded@));
            return Ok(from_chars(&decoded));
        }
        let (k2, bytes2) = scan_bytes(&after, (size as u128) + 2);
        if bytes2 < (size as u128) + 2 {
            assert(after@.take(after@.len() as int) =~= after@);
            return err("truncated chunked HTTP response");
        }
        let (k, bytes) = scan_bytes(&after, size as u128);
        proof {
            lemma_byte_len_prefix(after@, k2 as int);
            assert(byte_len(after@) >= size + 2);
            assert(parse_hex(trim(rest@.take(i))) == Ok::<nat, Seq<char>>(size as nat));
            assert(byte_prefix(after@, size as int, 0) == Some(k as int));
            assert(byte_prefix(after@, size + 2 as int, 0) == Some(k2 as int));
        }
        let chunk = subrange_chars(&after, 0, k);
        assert(chunk@ =~= after@.take(k as int));
        append_chars(&mut decoded, &chunk);
        rest = subrange_chars(&after, k2, after.len());
        assert(rest@ =~= after@.skip(k2 as int));
    }
}

/// ASCII letters in lower case, other characters unchanged.
pub open spec fn ascii_lower(c: char) -> char {
    if 'A' <= c <= 'Z' {
        ((c as u32) + 32) as char
    } else {
        c
    }
}

/// `str::eq_ignore_ascii_case`.
pub open spec fn eq_ignore_ascii_case(a: Seq<char>, b: Seq<char>) -> bool {
    a.len() == b.len() && forall|i: int| 0 <= i < a.len() ==> ascii_lower(#[trigger] a[i]) == ascii_lower(b[i])
}

/// One of the first `k` header lines announces a chunked body.
pub open spec fn chunked_header(ls: Seq<Seq<char>>, k: int) -> bool
    decreases k,
{
    k > 0 && (chunked_header(ls, k - 1) || eq_ignore_ascii_case(
        ls[k - 1],
        "transfer-encoding: chunked"@,
    ))
}

/// The first line of the headers, or nothing.
pub open spec fn status_line(headers: Seq<char>) -> Seq<char> {
    if lines(headers).len() > 0 {
        lines(headers)[0]
    } else {
        Seq::empty()
    }
}

/// The body of an HTTP response, or why it is unusable: no blank line
/// after the headers; a status other than 200 (with the status line and
/// the first thousand characters of the body); or a chunked body that
/// does not decode.
pub open spec fn response_body(resp: Seq<char>) -> Result<Seq<char>, Seq<char>> {
    match split_once(resp, "\r\n\r\n"@) {
        None => Err("HTTP response did not include headers"@),
        Some((headers, body)) => if !contains(status_line(headers), " 200 "@) {
            Err(
                "LLM endpoint returned "@ + status_line(headers) + ": "@ + body.take(
                    if body.len() < 1000 {
                        body.len() as int
                    } else {
                        1000
                    },
                ),
            )
        } else if chunked_header(lines(headers), lines(headers).len() as int) {
            chunked_decode(body, Seq::empty())
        } else {
            Ok(body)
        },
    }
}

/// Reading the response cuts a chunked body only between characters.
pub open spec fn response_fits(resp: Seq<char>) -> bool {
    match split_once(resp, "\r\n\r\n"@) {
        Some((headers, body)) => chunked_header(lines(headers), lines(headers).len() as int)
            ==> chunked_fits(body),
        None => true,
    }
}

/// Whether `a` equals `b` ignoring ASCII case.
fn eq_ignore_case_exec(a: &Vec<char>, b: &str) -> (r: bool)
    ensures
        r == eq_ignore_ascii_case(a@, b@),
{
    let bv = to_chars(b);
    if a.len() != bv.len() {
        return false;
    }
    let mut i: usize = 0;
    while i < a.len()
        invariant
            a@.len() == bv@.len(),
            bv@ == b@,
            i <= a@.len(),
            forall|j: int| 0 <= j < i ==> ascii_lower(#[trigger] a@[j]) == ascii_lower(bv@[j]),
        decreases a@.len() - i,
    {
        if lower_exec(a[i]) != lower_exec(bv[i]) {
            return false;
        }
        i = i + 1;
    }
    true
}

/// The ASCII lower-case form of a character.
fn lower_exec(c: char) -> (r: char)
    ensures
        r == ascii_lower(c),
{
    if 'A' <= c && c <= 'Z' {
        let u = (c as u32) + 32;
        let b = u as u8;
        let r = b as char;
        assert(r == ascii_lower(c)) by {
            assert(u == b);
        }
        r
    } else {
        c
    }
}

/// The body of an HTTP response text, or why it is unusable: no blank line
/// after the headers, a status other than 200, or a chunked body that does
/// not decode.
pub fn http_response_body(response: &str) -> (r: Result<String, PvError>)
    requires
        response_fits(response@),
    ensures
        match response_body(response@) {
            Ok(s) => r is Ok && r->Ok_0@ == s,
            Err(e) => r is Err && r->Err_0.message@ == e,
        },
{
    proof {
        reveal_strlit("\r\n\r\n");
    }
    let v = to_chars(response);
    let (headers, body) = match split_once_str(&v, "\r\n\r\n") {
        Some(p) => p,
        None => {
            return err("HTTP response did not include headers");
        },
    };
    let ls = lines_chars(&headers);
    let status: Vec<char> = if ls.len() > 0 {
        crate::textops::copy_chars(&ls[0])
    } else {
        Vec::new()
    };
    assert(status@ == status_line(headers@));
    if !crate::textops::contains_str(&status, " 200 ") {
        let n = if body.len() < 1000 {
            body.len()
        } else {
            1000
        };
        let shown = subrange_chars(&body, 0, n);
        let mut m = to_chars("LLM endpoint returned ");
        append_chars(&mut m, &status);
        push_str(&mut m, ": ");
        append_chars(&mut m, &shown);
        assert(shown@ =~= body@.take(n as int));
        return Err(PvError { message: from_chars(&m) });
    }
    let mut chunked = false;
    let mut k: usize = 0;
    while k < ls.len()
        invariant
            k <= ls@.len(),
            crate::text::seqs(ls@) == lines(headers@),
            chunked == chunked_header(lines(headers@), k as int),
        decreases ls@.len() - k,
    {
        if eq_ignore_case_exec(&ls[k], "transfer-encoding: chunked") {
            chunked = true;
        }
        k = k + 1;
    }
    if chunked {
        let b = from_chars(&body);
        decode_chunked_body(b.as_str())
    } else {
        Ok(from_chars(&body))
    }
}

/// Whether decoding the chunked text `body` cuts it only between
/// characters, with chunk sizes that leave room for their line break.
pub fn chunked_body_fits(body: &str) -> (r: bool)
    ensures
        r == chunked_fits(body@),
{
    let mut rest = to_chars(body);
    loop
        invariant
            chunked_fits(body@) == chunked_fits(rest@),
        decreases rest@.len(),
    {
        proof {
            reveal_strlit("\r\n");
            lemma_find_from(rest@, "\r\n"@, 0);
        }
        let (size_hex, after) = match split_once_str(&rest, "\r\n") {
            Some(p) => p,
            None => {
                return true;
            },
        };
        let ghost i = find_from(rest@, "\r\n"@, 0)->0;
        assert(0 <= i && i + 2 <= rest@.len());
        assert(size_hex@ == rest@.take(i) && after@ == rest@.skip(i + 2));
        let trimmed = trim_chars(&size_hex);
        let size = match parse_hex_chars(&trimmed) {
            Ok(n) => n,
            Err(_) => {
                return true;
            },
        };
        if size == 0 {
            return true;
        }
        if (size as u128) + 2 > (usize::MAX as u128) {
            return false;
        }
        let (k2, bytes2) = scan_bytes(&after, (size as u128) + 2);
        if bytes2 < (size as u128) + 2 {
            assert(after@.take(after@.len() as int) =~= after@);
            return true;
        }
        proof {
            lemma_byte_len_prefix(after@, k2 as int);
        }
        let (k, bytes) = scan_bytes(&after, size as u128);
        if bytes != (size as u128) || bytes2 != (size as u128) + 2 {
            return false;
        }
        rest = subrange_chars(&after, k2, after.len());
        assert(rest@ =~= after@.skip(k2 as int));
    }
}

/// Whether reading the body of the HTTP response text `response` cuts it
/// only between characters: `http_response_body` needs this.
pub fn response_body_fits(response: &str) -> (r: bool)
    ensures
        r == response_fits(response@),
{
    proof {
        reveal_strlit("\r\n\r\n");
    }
    let v = to_chars(response);
    let (headers, body) = match split_once_str(&v, "\r\n\r\n") {
        Some(p) => p,
        None => {
            return true;
        },
    };
    let ls = lines_chars(&headers);
    let mut chunked = false;
    let mut k: usize = 0;
    while k < ls.len()
        invariant
            k <= ls@.len(),
            crate::text::seqs(ls@) == lines(headers@),
            chunked == chunked_header(lines(headers@), k as int),
        decreases ls@.len() - k,
    {
        if eq_ignore_case_exec(&ls[k], "transfer-encoding: chunked") {
            chunked = true;
        }
        k = k + 1;
    }
    if chunked {
        let b = from_chars(&body);
        chunked_body_fits(b.as_str())
    } else {
        true
    }
}

/// The text of an HTTP request posting the JSON `body` to an endpoint.
pub open spec fn request_text(path: Seq<char>, host_header: Seq<char>, body: Seq<char>) -> Seq<char> {
    "POST "@ + path + " HTTP/1.1\r\nHost: "@ + host_header
        + "\r\nContent-Type: application/json\r\nContent-Length: "@ + crate::text::dec(byte_len(body))
        + "\r\nConnection: close\r\n\r\n"@ + body
}

/// The number of UTF-8 bytes of `s`.
pub fn byte_length(s: &str) -> (r: u64)
    requires
        byte_len(s@) <= u64::MAX,
    ensures
        r == byte_len(s@),
{
    let v = to_chars(s);
    let mut n: u64 = 0;
    let mut k: usize = 0;
    assert(v@.take(0) =~= Seq::<char>::empty());
    while k < v.len()
        invariant
            v@ == s@,
            k <= v@.len(),
            n == byte_len(v@.take(k as int)),
            byte_len(s@) <= u64::MAX,
        decreases v@.len() - k,
    {
        assert(v@.take(k + 1).drop_last() =~= v@.take(k as int));
        proof {
            lemma_byte_len_prefix(v@, k + 1);
        }
        let step = utf8_len_exec(v[k]) as u64;
        n = n + step;
        k = k + 1;
    }
    assert(v@.take(v@.len() as int) =~= v@);
    n
}

/// A prefix has no more bytes than the whole.
proof fn lemma_byte_len_prefix(s: Seq<char>, k: int)
    requires
        0 <= k <= s.len(),
    ensures
        byte_len(s.take(k)) <= byte_len(s),
    decreases s.len() - k,
{
    if k < s.len() {
        lemma_byte_len_prefix(s, k + 1);
        assert(s.take(k + 1).drop_last() =~= s.take(k));
    } else {
        assert(s.take(k) =~= s);
    }
}

/// The HTTP request that posts the JSON `body` to `endpoint`, closing the
/// connection after the response.
pub fn http_request_text(endpoint: &HttpEndpoint, body: &str) -> (r: String)
    requires
        byte_len(body@) <= u64::MAX,
    ensures
        r@ == request_text(endpoint.path@, endpoint.host_header@, body@),
{
    let mut m = to_chars("POST ");
    push_str(&mut m, endpoint.path.as_str());
    push_str(&mut m, " HTTP/1.1\r\nHost: ");
    push_str(&mut m, endpoint.host_header.as_str());
    push_str(&mut m, "\r\nContent-Type: application/json\r\nContent-Length: ");
    let n = byte_length(body);
    let d = dec_chars(n);
    append_chars(&mut m, &d);
    push_str(&mut m, "\r\nConnection: close\r\n\r\n");
    push_str(&mut m, body);
    from_chars(&m)
}

} // verus!
