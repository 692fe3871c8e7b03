//! Content-Length framing for JSON-RPC over stdio.
//!
//! A frame is `Content-Length: <n>\r\n\r\n` followed by `n` bytes of body.
//! [`encode`] writes one; [`Decoder`] takes bytes in arbitrary chunks and
//! hands back whole bodies, as [`spec_next_message`] describes.

use crate::error::Error;
use crate::text::{
    chars_eq_ignore_ascii_case, decimal_bytes, decimal_chars, eq_ignore_ascii_case, parse_usize,
    str_chars, trim, trim_bounds, usize_decimal_bytes, lemma_decimal_chars_digits,
    lemma_parse_decimal, is_digit_char, lemma_leading_ws_exact,
    lemma_trailing_ws_exact, is_whitespace_char, all_digits, char_index_from, find_char,
};
use vstd::prelude::*;
use vstd::slice::slice_subrange;
use vstd::utf8::{valid_utf8, decode_utf8};

verus! {

broadcast use vstd::slice::group_slice_axioms;

/// `"Content-Length: "` as bytes.
pub open spec fn header_prefix() -> Seq<u8> {
    seq![67u8, 111, 110, 116, 101, 110, 116, 45, 76, 101, 110, 103, 116, 104, 58, 32]
}

/// The blank line that ends a header: `"\r\n\r\n"`.
pub open spec fn header_end() -> Seq<u8> {
    seq![13u8, 10, 13, 10]
}

/// A framed payload.
pub open spec fn spec_encode(payload: Seq<u8>) -> Seq<u8> {
    header_prefix() + decimal_bytes(payload.len()) + header_end() + payload
}

/// Frame a payload with an LSP `Content-Length` header.
pub fn encode(payload: &[u8]) -> (out: Vec<u8>)
    ensures
        out@ == spec_encode(payload@),
{
    let mut out: Vec<u8> = Vec::new();
    out.push(67u8);
    out.push(111u8);
    out.push(110u8);
    out.push(116u8);
    out.push(101u8);
    out.push(110u8);
    out.push(116u8);
    out.push(45u8);
    out.push(76u8);
    out.push(101u8);
    out.push(110u8);
    out.push(103u8);
    out.push(116u8);
    out.push(104u8);
    out.push(58u8);
    out.push(32u8);
    proof {
        assert(out@ =~= header_prefix());
    }
    let digits = usize_decimal_bytes(payload.len());
    let mut i: usize = 0;
    while i < digits.len()
        invariant
            i <= digits@.len(),
            out@ == header_prefix() + digits@.take(i as int),
        decreases digits.len() - i,
    {
        out.push(digits[i]);
        proof {
            assert(digits@.take(i as int).push(digits@[i as int]) =~= digits@.take(i + 1));
            assert(header_prefix() + digits@.take(i as int).push(digits@[i as int])
                =~= (header_prefix() + digits@.take(i as int)).push(digits@[i as int]));
        }
        i = i + 1;
    }
    proof {
        assert(digits@.take(digits@.len() as int) =~= digits@);
    }
    out.push(13u8);
    out.push(10u8);
    out.push(13u8);
    out.push(10u8);
    let ghost before = out@;
    let mut j: usize = 0;
    while j < payload.len()
        invariant
            j <= payload@.len(),
            out@ == before + payload@.take(j as int),
        decreases payload.len() - j,
    {
        out.push(payload[j]);
        proof {
            assert(payload@.take(j as int).push(payload@[j as int]) =~= payload@.take(j + 1));
            assert(before + payload@.take(j as int).push(payload@[j as int]) =~= (before
                + payload@.take(j as int)).push(payload@[j as int]));
        }
        j = j + 1;
    }
    proof {
        assert(payload@.take(payload@.len() as int) =~= payload@);
        assert(out@ =~= spec_encode(payload@));
    }
    out
}

/// `needle` occurs in `haystack` starting at `i`.
pub open spec fn occurs_at(haystack: Seq<u8>, needle: Seq<u8>, i: int) -> bool {
    0 <= i && i + needle.len() <= haystack.len() && haystack.subrange(i, i + needle.len()) == needle
}

/// The first position at or after `i` where `needle` occurs.
pub open spec fn find_from(haystack: Seq<u8>, needle: Seq<u8>, i: nat) -> Option<nat>
    decreases haystack.len() + 1 - i,
{
    if i + needle.len() > haystack.len() {
        None
    } else if occurs_at(haystack, needle, i as int) {
        Some(i)
    } else {
        find_from(haystack, needle, i + 1)
    }
}

/// The first position of `needle` in `haystack`.
pub fn find_subslice(haystack: &[u8], needle: &[u8]) -> (r: Option<usize>)
    requires
        needle@.len() > 0,
    ensures
        r matches Some(i) ==> find_from(haystack@, needle@, 0) == Some(i as nat),
        r is None ==> find_from(haystack@, needle@, 0) is None,
{
    if needle.len() > haystack.len() {
        return None;
    }
    let last = haystack.len() - needle.len();
    let mut i: usize = 0;
    while i <= last
        invariant
            needle@.len() > 0,
            haystack.len() == haystack@.len(),
            last == haystack@.len() - needle@.len(),
            i <= last + 1,
            find_from(haystack@, needle@, 0) == find_from(haystack@, needle@, i as nat),
        decreases last + 1 - i,
    {
        let mut k: usize = 0;
        let mut same = true;
        while k < needle.len()
            invariant
                i <= last,
                haystack.len() == haystack@.len(),
                last == haystack@.len() - needle@.len(),
                needle@.len() > 0,
                k <= needle@.len(),
                same == (forall|m: int| 0 <= m < k ==> haystack@[i + m] == needle@[m]),
            decreases needle.len() - k,
        {
            assert(i + k < haystack@.len());
            if haystack[i + k] != needle[k] {
                same = false;
            }
            k = k + 1;
        }
        if same {
            proof {
                assert(haystack@.subrange(i as int, i + needle@.len()) =~= needle@);
            }
            return Some(i);
        }
        proof {
            if occurs_at(haystack@, needle@, i as int) {
                let m = choose|m: int| 0 <= m < k && haystack@[i + m] != needle@[m];
                assert(haystack@.subrange(i as int, i + needle@.len())[m] == haystack@[i + m]);
            }
        }
        i = i + 1;
    }
    None
}

/// `str::split("\r\n")`, with `cur` the part of the current piece already read.
pub open spec fn split_crlf_from(s: Seq<char>, cur: Seq<char>) -> Seq<Seq<char>>
    decreases s.len(),
{
    if s.len() == 0 {
        seq![cur]
    } else if s.len() >= 2 && s[0] == '\r' && s[1] == '\n' {
        seq![cur] + split_crlf_from(s.subrange(2, s.len() as int), Seq::empty())
    } else {
        split_crlf_from(s.drop_first(), cur.push(s[0]))
    }
}

/// The lines of a header, split at each `"\r\n"`.
pub open spec fn header_lines(s: Seq<char>) -> Seq<Seq<char>> {
    split_crlf_from(s, Seq::empty())
}

/// `"content-length"`.
pub open spec fn content_length_key() -> Seq<char> {
    seq!['c', 'o', 'n', 't', 'e', 'n', 't', '-', 'l', 'e', 'n', 'g', 't', 'h']
}

/// Read header lines in order. Blank lines are skipped; the first line with
/// no `:` is an error; each `Content-Length` line (the key compared after
/// trimming, ignoring ASCII case) sets the length to its parsed value, or to
/// nothing when the value does not parse. `acc` is the length so far.
pub open spec fn scan_header(lines: Seq<Seq<char>>, acc: Option<nat>) -> Result<
    Option<nat>,
    Seq<char>,
>
    decreases lines.len(),
{
    if lines.len() == 0 {
        Ok(acc)
    } else {
        let l = lines[0];
        if l.len() == 0 {
            scan_header(lines.drop_first(), acc)
        } else {
            match char_index_from(l, ':', 0) {
                None => Err(l),
                Some(c) => scan_header(
                    lines.drop_first(),
                    if eq_ignore_ascii_case(trim(l.take(c as int)), content_length_key()) {
                        parse_usize(trim(l.skip(c + 1 as int)))
                    } else {
                        acc
                    },
                ),
            }
        }
    }
}

/// What one decoding step yields: a whole body, nothing yet, or the text of
/// a framing error.
pub enum Decoded {
    Message(Seq<u8>),
    Incomplete,
    Malformed(Seq<char>),
}

/// One decoding step on buffer `buf`: what it yields, and what stays
/// buffered. A malformed header is consumed through its blank line, so that
/// a later frame can still be read; an incomplete frame leaves the buffer
/// untouched.
pub open spec fn spec_next_message(buf: Seq<u8>) -> (Decoded, Seq<u8>) {
    match find_from(buf, header_end(), 0) {
        None => (Decoded::Incomplete, buf),
        Some(h) => {
            let header = buf.take(h as int);
            let after = buf.skip(h + 4 as int);
            if !valid_utf8(header) {
                (Decoded::Malformed("invalid UTF-8 in header: "@ + spec_utf8_error_text(header)), after)
            } else {
                match scan_header(header_lines(decode_utf8(header)), None) {
                    Err(line) => (Decoded::Malformed("header line without colon: "@ + line), after),
                    Ok(None) => (Decoded::Malformed("no Content-Length header found"@), after),
                    Ok(Some(len)) => if after.len() < len {
                        (Decoded::Incomplete, buf)
                    } else {
                        (Decoded::Message(after.take(len as int)), after.skip(len as int))
                    },
                }
            }
        },
    }
}

/// The text `std::str::Utf8Error` displays for these bytes.
pub uninterp spec fn spec_utf8_error_text(bytes: Seq<u8>) -> Seq<char>;

/// `std::str::from_utf8`, with the text of its error.
///
/// Trusted: `from_utf8` accepts exactly well-formed UTF-8 (`valid_utf8`) and
/// then yields the decoded characters; on failure the error's `Display` text
/// is returned, which is named rather than stated.
#[verifier::external_body]
fn utf8_decode(bytes: &[u8]) -> (r: core::result::Result<String, String>)
    ensures
        r is Ok <==> valid_utf8(bytes@),
        r matches Ok(s) ==> s@ == decode_utf8(bytes@),
        r matches Err(m) ==> m@ == spec_utf8_error_text(bytes@),
{
    match std::str::from_utf8(bytes) {
        Ok(s) => Ok(s.to_string()),
        Err(e) => Err(e.to_string()),
    }
}

/// Split decoded header text into lines.
fn split_header_lines(s: &[char]) -> (lines: Vec<Vec<char>>)
    ensures
        lines@.map_values(|v: Vec<char>| v@) == header_lines(s@),
{
    let mut lines: Vec<Vec<char>> = Vec::new();
    let mut cur: Vec<char> = Vec::new();
    let mut i: usize = 0;
    proof {
        assert(s@.skip(0) =~= s@);
        assert(lines@.map_values(|v: Vec<char>| v@) + split_crlf_from(s@, cur@) =~= split_crlf_from(
            s@,
            Seq::empty(),
        ));
    }
    while i < s.len()
        invariant
            i <= s@.len(),
            header_lines(s@) == lines@.map_values(|v: Vec<char>| v@) + split_crlf_from(
                s@.skip(i as int),
                cur@,
            ),
        decreases s.len() - i,
    {
        let ghost rest = s@.skip(i as int);
        if i + 1 < s.len() && s[i] == '\r' && s[i + 1] == '\n' {
            proof {
                assert(rest.subrange(2, rest.len() as int) =~= s@.skip(i + 2));
                assert(lines@.map_values(|v: Vec<char>| v@) + split_crlf_from(rest, cur@)
                    =~= lines@.push(cur).map_values(|v: Vec<char>| v@) + split_crlf_from(
                    s@.skip(i + 2),
                    Seq::empty(),
                ));
            }
            lines.push(cur);
            cur = Vec::new();
            proof {
                assert(cur@ =~= Seq::<char>::empty());
            }
            i = i + 2;
        } else {
            proof {
                assert(rest.drop_first() =~= s@.skip(i + 1));
                assert(rest[0] == s@[i as int]);
            }
            cur.push(s[i]);
            i = i + 1;
        }
    }
    proof {
        assert(s@.skip(i as int) =~= Seq::<char>::empty());
        assert(lines@.push(cur).map_values(|v: Vec<char>| v@) =~= lines@.map_values(
            |v: Vec<char>| v@,
        ) + seq![cur@]);
    }
    lines.push(cur);
    lines
}

/// Is this key `Content-Length`, after trimming and ignoring ASCII case?
fn is_content_length_key(k: &[char]) -> (r: bool)
    ensures
        r == eq_ignore_ascii_case(trim(k@), content_length_key()),
{
    let (a, b) = trim_bounds(k);
    let key = slice_subrange(k, a, b);
    let target: Vec<char> = vec!['c', 'o', 'n', 't', 'e', 'n', 't', '-', 'l', 'e', 'n', 'g', 't', 'h'];
    proof {
        assert(target@ =~= content_length_key());
    }
    chars_eq_ignore_ascii_case(key, target.as_slice())
}

/// `str::parse::<usize>` on characters.
fn parse_usize_chars(s: &[char]) -> (r: Option<usize>)
    ensures
        r matches Some(n) ==> parse_usize(s@) == Some(n as nat),
        r is None ==> parse_usize(s@) is None,
{
    let start: usize = if s.len() > 0 && s[0] == '+' {
        1
    } else {
        0
    };
    let ghost d = if s@.len() > 0 && s@[0] == '+' {
        s@.drop_first()
    } else {
        s@
    };
    proof {
        assert(d =~= s@.skip(start as int));
    }
    if start == s.len() {
        return None;
    }
    let mut i: usize = start;
    let mut value: usize = 0;
    while i < s.len()
        invariant
            start <= i <= s@.len(),
            d == s@.skip(start as int),
            d == (if s@.len() > 0 && s@[0] == '+' {
                s@.drop_first()
            } else {
                s@
            }),
            forall|j: int| start <= j < i ==> is_digit_char(#[trigger] s@[j]),
            value as nat == crate::text::digits_value(s@.subrange(start as int, i as int)),
        decreases s.len() - i,
    {
        let c = s[i];
        if !('0' <= c && c <= '9') {
            proof {
                assert(d[i - start] == c);
                assert(!is_digit_char(d[i - start]));
                assert(!all_digits(d));
                assert(parse_usize(s@) is None);
            }
            return None;
        }
        let dv = (c as u32 - 48) as usize;
        proof {
            let p = s@.subrange(start as int, i + 1);
            assert(p.drop_last() =~= s@.subrange(start as int, i as int));
            assert(p.last() == c);
        }
        if value > (usize::MAX - dv) / 10 {
            // The value no longer fits; every further digit keeps it out of range.
            proof {
                assert(dv == crate::text::digit_value(c));
                lemma_digits_overflow(s@, start as int, i as int);
                assert(!all_digits(d) || crate::text::digits_value(d) > usize::MAX);
            }
            return None;
        }
        value = value * 10 + dv;
        i = i + 1;
    }
    proof {
        assert(s@.subrange(start as int, s@.len() as int) =~= d);
    }
    Some(value)
}

/// Once a digit prefix overflows `usize`, the whole digit string does too
/// (or it is not all digits).
proof fn lemma_digits_overflow(s: Seq<char>, start: int, i: int)
    requires
        0 <= start <= i < s.len(),
        is_digit_char(s[i]),
        crate::text::digits_value(s.subrange(start, i)) > (usize::MAX - crate::text::digit_value(s[i])) / 10,
    ensures
        ({
            let d = s.skip(start);
            !all_digits(d) || crate::text::digits_value(d) > usize::MAX
        }),
{
    let dv = crate::text::digit_value(s[i]);
    let v = crate::text::digits_value(s.subrange(start, i));
    assert(s.subrange(start, i + 1).drop_last() =~= s.subrange(start, i));
    assert(v * 10 + dv > usize::MAX) by (nonlinear_arith)
        requires
            v > (usize::MAX - dv) / 10,
            dv < 10,
    ;
    lemma_digits_value_mono(s.skip(start), i + 1 - start);
    assert(s.skip(start).take(i + 1 - start) =~= s.subrange(start, i + 1));
}

/// A longer all-digit prefix never denotes a smaller number.
proof fn lemma_digits_value_mono(d: Seq<char>, k: int)
    requires
        0 <= k <= d.len(),
    ensures
        all_digits(d) ==> crate::text::digits_value(d) >= crate::text::digits_value(d.take(k)),
    decreases d.len(),
{
    if all_digits(d) && k == d.len() {
        assert(d.take(k) =~= d);
    }
    if all_digits(d) && k < d.len() {
        assert(d.drop_last().take(k) =~= d.take(k));
        assert(all_digits(d.drop_last())) by {
            assert forall|i: int| 0 <= i < d.drop_last().len() implies is_digit_char(
                #[trigger] d.drop_last()[i],
            ) by {
                assert(d.drop_last()[i] == d[i]);
            }
        }
        lemma_digits_value_mono(d.drop_last(), k);
        let v = crate::text::digits_value(d.drop_last());
        assert(v * 10 + crate::text::digit_value(d.last()) >= v) by (nonlinear_arith)
            requires
                v >= 0,
        ;
    }
}

/// Read the header lines for a `Content-Length`.
fn scan_header_lines(lines: &Vec<Vec<char>>) -> (r: core::result::Result<Option<usize>, Vec<char>>)
    ensures
        match (r, scan_header(lines@.map_values(|v: Vec<char>| v@), None)) {
            (Ok(Some(n)), Ok(Some(m))) => n == m,
            (Ok(None), Ok(None)) => true,
            (Err(l), Err(m)) => l@ == m,
            _ => false,
        },
{
    let ghost all = lines@.map_values(|v: Vec<char>| v@);
    let mut len: Option<usize> = None;
    let mut k: usize = 0;
    proof {
        assert(all.skip(0) =~= all);
    }
    while k < lines.len()
        invariant
            k <= lines@.len(),
            all == lines@.map_values(|v: Vec<char>| v@),
            scan_header(all, None) == scan_header(all.skip(k as int), match len {
                Some(n) => Some(n as nat),
                None => None,
            }),
            len matches Some(n) ==> n <= usize::MAX,
        decreases lines.len() - k,
    {
        let line = &lines[k];
        proof {
            assert(all.skip(k as int)[0] == line@);
            assert(all.skip(k as int).drop_first() =~= all.skip(k + 1));
        }
        if line.len() > 0 {
            match find_char(line.as_slice(), ':') {
                None => {
                    return Err(vstd::slice::slice_to_vec(line.as_slice()));
                },
                Some(c) => {
                    proof {
                        lemma_char_index_bound(line@, ':', 0);
                    }
                    let key = slice_subrange(line.as_slice(), 0, c);
                    let val = slice_subrange(line.as_slice(), c + 1, line.len());
                    proof {
                        assert(key@ =~= line@.take(c as int));
                        assert(val@ =~= line@.skip(c + 1));
                    }
                    if is_content_length_key(key) {
                        let (a, b) = trim_bounds(val);
                        let v = slice_subrange(val, a, b);
                        len = parse_usize_chars(v);
                    }
                },
            }
        }
        k = k + 1;
    }
    proof {
        assert(all.skip(k as int) =~= Seq::<Seq<char>>::empty());
    }
    Ok(len)
}

/// Incremental decoder. Bytes arrive in arbitrary chunks; messages come out whole.
pub struct Decoder {
    buf: Vec<u8>,
}

impl View for Decoder {
    type V = Seq<u8>;

    /// The bytes received and not yet consumed.
    closed spec fn view(&self) -> Seq<u8> {
        self.buf@
    }
}

impl Decoder {
    pub fn new() -> (d: Decoder)
        ensures
            d@ == Seq::<u8>::empty(),
    {
        Decoder { buf: Vec::new() }
    }

    pub fn push(&mut self, bytes: &[u8])
        ensures
            final(self)@ == old(self)@ + bytes@,
    {
        let mut i: usize = 0;
        while i < bytes.len()
            invariant
                i <= bytes@.len(),
                self.buf@ == old(self)@ + bytes@.take(i as int),
            decreases bytes.len() - i,
        {
            self.buf.push(bytes[i]);
            proof {
                assert(bytes@.take(i as int).push(bytes@[i as int]) =~= bytes@.take(i + 1));
                assert(old(self)@ + bytes@.take(i as int).push(bytes@[i as int]) =~= (old(self)@
                    + bytes@.take(i as int)).push(bytes@[i as int]));
            }
            i = i + 1;
        }
        proof {
            assert(bytes@.take(bytes@.len() as int) =~= bytes@);
        }
    }

    /// Drop the first `n` buffered bytes.
    fn consume(&mut self, n: usize)
        requires
            n <= old(self)@.len(),
        ensures
            final(self)@ == old(self)@.skip(n as int),
    {
        let rest = self.buf.split_off(n);
        self.buf = rest;
    }

    /// Take the next whole message out of the buffer, if one has arrived.
    pub fn next_message(&mut self) -> (r: core::result::Result<Option<Vec<u8>>, Error>)
        ensures
            final(self)@ == spec_next_message(old(self)@).1,
            match (r, spec_next_message(old(self)@).0) {
                (Ok(Some(body)), Decoded::Message(m)) => body@ == m,
                (Ok(None), Decoded::Incomplete) => true,
                (Err(Error::Protocol(t)), Decoded::Malformed(m)) => t@ == m,
                _ => false,
            },
    {
        let crlf2: Vec<u8> = vec![13u8, 10u8, 13u8, 10u8];
        proof {
            assert(crlf2@ =~= header_end());
        }
        let header_end_at = match find_subslice(self.buf.as_slice(), crlf2.as_slice()) {
            Some(pos) => pos,
            None => return Ok(None),
        };
        proof {
            lemma_find_from_bound(self.buf@, header_end(), 0);
            assert(header_end().len() == 4);
            assert(self.buf@.len() == self.buf.len());
        }
        let ghost buf0 = self.buf@;
        let body_start = header_end_at + 4;
        let header_bytes = slice_subrange(self.buf.as_slice(), 0, header_end_at);
        proof {
            assert(header_bytes@ =~= buf0.take(header_end_at as int));
        }
        let header = match utf8_decode(header_bytes) {
            Ok(h) => h,
            Err(e) => {
                self.consume(body_start);
                let mut msg = String::new();
                crate::text::push_str(&mut msg, "invalid UTF-8 in header: ");
                crate::text::push_str(&mut msg, e.as_str());
                return Err(Error::Protocol(msg));
            },
        };
        let chars = str_chars(header.as_str());
        let lines = split_header_lines(chars.as_slice());
        let len = match scan_header_lines(&lines) {
            Err(line) => {
                self.consume(body_start);
                let mut msg = String::new();
                crate::text::push_str(&mut msg, "header line without colon: ");
                crate::text::push_chars(&mut msg, line.as_slice());
                return Err(Error::Protocol(msg));
            },
            Ok(None) => {
                self.consume(body_start);
                let mut msg = String::new();
                crate::text::push_str(&mut msg, "no Content-Length header found");
                return Err(Error::Protocol(msg));
            },
            Ok(Some(l)) => l,
        };
        if self.buf.len() - body_start < len {
            return Ok(None);
        }
        let body = slice_subrange(self.buf.as_slice(), body_start, body_start + len);
        let out = vstd::slice::slice_to_vec(body);
        proof {
            assert(body@ =~= buf0.skip(body_start as int).take(len as int));
        }
        self.consume(body_start + len);
        proof {
            assert(buf0.skip((body_start + len) as int) =~= buf0.skip(body_start as int).skip(
                len as int,
            ));
        }
        Ok(Some(out))
    }
}

proof fn lemma_char_index_bound(s: Seq<char>, c: char, i: nat)
    ensures
        char_index_from(s, c, i) matches Some(p) ==> i <= p < s.len() && s[p as int] == c,
    decreases s.len() - i,
{
    if i < s.len() && s[i as int] != c {
        lemma_char_index_bound(s, c, i + 1);
    }
}

proof fn lemma_find_from_bound(h: Seq<u8>, n: Seq<u8>, i: nat)
    ensures
        find_from(h, n, i) matches Some(p) ==> i <= p && p + n.len() <= h.len() && occurs_at(
            h,
            n,
            p as int,
        ),
    decreases h.len() + 1 - i,
{
    if i + n.len() <= h.len() && !occurs_at(h, n, i as int) {
        lemma_find_from_bound(h, n, i + 1);
    }
}

} // verus!

verus! {

/// `"Content-Length: "` as characters.
pub open spec fn header_prefix_chars() -> Seq<char> {
    seq!['C', 'o', 'n', 't', 'e', 'n', 't', '-', 'L', 'e', 'n', 'g', 't', 'h', ':', ' ']
}

/// The header of a frame for `n` body bytes, as characters.
pub open spec fn frame_header_chars(n: nat) -> Seq<char> {
    header_prefix_chars() + decimal_chars(n)
}

/// The header of a frame for `n` body bytes (without its blank line).
pub open spec fn frame_header(n: nat) -> Seq<u8> {
    header_prefix() + decimal_bytes(n)
}

proof fn lemma_frame_header_text(n: nat)
    ensures
        frame_header(n).len() == frame_header_chars(n).len(),
        forall|i: int| 0 <= i < frame_header(n).len() ==> frame_header(n)[i] != 13u8,
        forall|i: int| 0 <= i < frame_header_chars(n).len() ==> frame_header_chars(n)[i] != '\r',
        valid_utf8(frame_header(n)),
        decode_utf8(frame_header(n)) == frame_header_chars(n),
{
    lemma_decimal_chars_digits(n);
    let hc = frame_header_chars(n);
    let hb = frame_header(n);
    let dc = decimal_chars(n);
    assert(vstd::utf8::is_ascii_chars(hc)) by {
        assert forall|i: int| 0 <= i < hc.len() implies '\0' <= #[trigger] hc[i] <= '\u{7f}' by {
            if i >= 16 {
                assert(hc[i] == dc[i - 16]);
                assert(is_digit_char(dc[i - 16]));
            }
        }
    }
    vstd::utf8::is_ascii_chars_encode_utf8(hc);
    assert(vstd::utf8::encode_utf8(hc) =~= hb) by {
        assert forall|i: int| 0 <= i < hb.len() implies vstd::utf8::encode_utf8(hc)[i] == hb[i] by {
            assert(hc[i] as u8 == vstd::utf8::encode_utf8(hc)[i]);
            if i >= 16 {
                assert(hc[i] == dc[i - 16]);
                assert(hb[i] == decimal_bytes(n)[i - 16]);
            }
        }
    }
    vstd::utf8::encode_utf8_valid_utf8(hc);
    vstd::utf8::encode_utf8_decode_utf8(hc);
    assert forall|i: int| 0 <= i < hb.len() implies hb[i] != 13u8 by {
        if i >= 16 {
            assert(is_digit_char(dc[i - 16]));
            assert(hb[i] == dc[i - 16] as u8);
        }
    }
    assert forall|i: int| 0 <= i < hc.len() implies hc[i] != '\r' by {
        if i >= 16 {
            assert(is_digit_char(dc[i - 16]));
        }
    }
}

/// With no `'\r'` left to read, the rest is one piece.
proof fn lemma_split_no_cr(s: Seq<char>, cur: Seq<char>)
    requires
        forall|i: int| 0 <= i < s.len() ==> s[i] != '\r',
    ensures
        split_crlf_from(s, cur) == seq![cur + s],
    decreases s.len(),
{
    if s.len() == 0 {
        assert(cur + s =~= cur);
    } else {
        assert forall|i: int| 0 <= i < s.drop_first().len() implies s.drop_first()[i] != '\r' by {
            assert(s.drop_first()[i] == s[i + 1]);
        }
        lemma_split_no_cr(s.drop_first(), cur.push(s[0]));
        assert(cur.push(s[0]) + s.drop_first() =~= cur + s);
    }
}

/// No `needle` starts before `h`, and one starts at `h`: the search from
/// any `i <= h` finds `h`.
proof fn lemma_find_first_at(hs: Seq<u8>, n: Seq<u8>, i: nat, h: nat)
    requires
        i <= h,
        occurs_at(hs, n, h as int),
        forall|j: int| i <= j < h ==> !occurs_at(hs, n, j),
    ensures
        find_from(hs, n, i) == Some(h),
    decreases h - i,
{
    if i < h {
        lemma_find_first_at(hs, n, i + 1, h);
    }
}

/// No `needle` occurs at all from `i` on.
proof fn lemma_find_none(hs: Seq<u8>, n: Seq<u8>, i: nat)
    requires
        forall|j: int| i <= j ==> !occurs_at(hs, n, j),
    ensures
        find_from(hs, n, i) is None,
    decreases hs.len() + 1 - i,
{
    if i + n.len() <= hs.len() {
        lemma_find_none(hs, n, i + 1);
    }
}

/// The first `':'` of a frame header follows `Content-Length`.
proof fn lemma_colon_index(n: nat, i: nat)
    requires
        i <= 14,
    ensures
        char_index_from(frame_header_chars(n), ':', i) == Some(14nat),
    decreases 14 - i,
{
    let hc = frame_header_chars(n);
    assert(hc[i as int] == header_prefix_chars()[i as int]);
    if i < 14 {
        lemma_colon_index(n, i + 1);
    }
}

/// A frame's `Content-Length` line sets the length to its body length,
/// whatever was read before it.
proof fn lemma_scan_frame_line(n: nat, rest: Seq<Seq<char>>, acc: Option<nat>)
    requires
        n <= usize::MAX,
    ensures
        scan_header(seq![frame_header_chars(n)] + rest, acc) == scan_header(rest, Some(n)),
{
    let hc = frame_header_chars(n);
    let dc = decimal_chars(n);
    lemma_decimal_chars_digits(n);
    lemma_colon_index(n, 0);
    let key = hc.take(14);
    assert(key =~= seq!['C', 'o', 'n', 't', 'e', 'n', 't', '-', 'L', 'e', 'n', 'g', 't', 'h']);
    lemma_leading_ws_exact(key, 0);
    lemma_trailing_ws_exact(key, 0);
    assert(trim(key) =~= key);
    assert(eq_ignore_ascii_case(key, content_length_key()));
    let val = hc.skip(15);
    assert(val =~= seq![' '] + dc);
    assert(is_whitespace_char(val[0]));
    assert(val[1] == dc[0]);
    assert(is_digit_char(dc[0]));
    lemma_leading_ws_exact(val, 1);
    let t = val.skip(1);
    assert(t =~= dc);
    assert(is_digit_char(dc[dc.len() - 1]));
    lemma_trailing_ws_exact(t, 0);
    assert(trim(val) =~= dc);
    crate::text::lemma_parse_decimal(n);
    let lines = seq![hc] + rest;
    assert(lines.drop_first() =~= rest);
    assert(lines[0] == hc);
    assert(parse_usize(trim(hc.skip(14 + 1 as int))) == Some(n));
}

/// The header of a frame announces its body length.
proof fn lemma_scan_frame_header(n: nat)
    requires
        n <= usize::MAX,
    ensures
        scan_header(seq![frame_header_chars(n)], None) == Ok::<Option<nat>, Seq<char>>(Some(n)),
{
    lemma_scan_frame_line(n, Seq::empty(), None);
    assert(seq![frame_header_chars(n)] + Seq::<Seq<char>>::empty() =~= seq![frame_header_chars(n)]);
}

/// Is `line` a header line for some other header than `Content-Length`: a
/// line with a `:` whose key, trimmed, is not `content-length` in any case?
pub open spec fn other_header(line: Seq<char>) -> bool {
    char_index_from(line, ':', 0) matches Some(c) && !eq_ignore_ascii_case(
        trim(line.take(c as int)),
        content_length_key(),
    )
}

/// A header line for another header leaves the length read so far as it
/// is, and reading goes on with the next line.
pub proof fn lemma_other_header_keeps_length(line: Seq<char>, rest: Seq<Seq<char>>, acc: Option<nat>)
    requires
        other_header(line),
    ensures
        scan_header(seq![line] + rest, acc) == scan_header(rest, acc),
{
    let lines = seq![line] + rest;
    assert(lines.drop_first() =~= rest);
    assert(lines[0] == line);
    let c = char_index_from(line, ':', 0)->Some_0;
    crate::text::lemma_char_index_from(line, ':', 0);
    assert(line.len() > 0);
}

/// Lines for other headers, however many, leave the length read so far as
/// it is.
pub proof fn lemma_other_headers_keep_length(lines: Seq<Seq<char>>, acc: Option<nat>)
    requires
        forall|i: int| 0 <= i < lines.len() ==> other_header(#[trigger] lines[i]),
    ensures
        scan_header(lines, acc) == Ok::<Option<nat>, Seq<char>>(acc),
    decreases lines.len(),
{
    if lines.len() > 0 {
        let rest = lines.drop_first();
        assert(lines =~= seq![lines[0]] + rest);
        lemma_other_header_keeps_length(lines[0], rest, acc);
        assert forall|i: int| 0 <= i < rest.len() implies other_header(#[trigger] rest[i]) by {
            assert(rest[i] == lines[i + 1]);
        }
        lemma_other_headers_keep_length(rest, acc);
    }
}

/// A `Content-Length: n` line followed by lines for other headers gives the
/// length `n`: what follows it does not wipe it.
pub proof fn lemma_length_then_other_headers(n: nat, others: Seq<Seq<char>>)
    requires
        n <= usize::MAX,
        forall|i: int| 0 <= i < others.len() ==> other_header(#[trigger] others[i]),
    ensures
        scan_header(seq![frame_header_chars(n)] + others, None) == Ok::<Option<nat>, Seq<char>>(Some(n)),
{
    lemma_scan_frame_line(n, others, None);
    lemma_other_headers_keep_length(others, Some(n));
}

/// Decoding a frame gives back exactly its body, whatever follows it.
pub proof fn lemma_decode_encode(payload: Seq<u8>, rest: Seq<u8>)
    requires
        payload.len() <= usize::MAX,
    ensures
        spec_next_message(spec_encode(payload) + rest) == (Decoded::Message(payload), rest),
{
    let n = payload.len();
    let hb = frame_header(n);
    let h = hb.len();
    let buf = spec_encode(payload) + rest;
    assert(buf =~= hb + header_end() + payload + rest);
    lemma_frame_header_text(n);
    assert forall|j: int| 0 <= j < h implies !occurs_at(buf, header_end(), j) by {
        if occurs_at(buf, header_end(), j) {
            assert(buf.subrange(j, j + 4)[0] == buf[j]);
            assert(buf[j] == hb[j]);
        }
    }
    assert(buf.subrange(h as int, h + 4 as int) =~= header_end());
    lemma_find_first_at(buf, header_end(), 0, h);
    assert(buf.take(h as int) =~= hb);
    lemma_split_no_cr(frame_header_chars(n), Seq::empty());
    assert(Seq::<char>::empty() + frame_header_chars(n) =~= frame_header_chars(n));
    lemma_scan_frame_header(n);
    let after = buf.skip(h + 4 as int);
    assert(after =~= payload + rest);
    assert(after.take(n as int) =~= payload);
    assert(after.skip(n as int) =~= rest);
}

/// Any strict prefix of a frame decodes to nothing yet and stays buffered.
pub proof fn lemma_partial_frame_waits(payload: Seq<u8>, k: int)
    requires
        payload.len() <= usize::MAX,
        0 <= k < spec_encode(payload).len(),
    ensures
        spec_next_message(spec_encode(payload).take(k)) == (Decoded::Incomplete, spec_encode(
            payload,
        ).take(k)),
{
    let n = payload.len();
    let hb = frame_header(n);
    let h = hb.len();
    let full = spec_encode(payload);
    let buf = full.take(k);
    assert(full =~= hb + header_end() + payload);
    lemma_frame_header_text(n);
    assert forall|j: int| 0 <= j < h implies !occurs_at(buf, header_end(), j) by {
        if occurs_at(buf, header_end(), j) {
            assert(buf.subrange(j, j + 4)[0] == buf[j]);
            assert(buf[j] == hb[j]);
        }
    }
    if k < h + 4 {
        assert forall|j: int| 0 <= j implies !occurs_at(buf, header_end(), j) by {}
        lemma_find_none(buf, header_end(), 0);
    } else {
        assert(buf.subrange(h as int, h + 4 as int) =~= header_end());
        lemma_find_first_at(buf, header_end(), 0, h);
        assert(buf.take(h as int) =~= hb);
        lemma_split_no_cr(frame_header_chars(n), Seq::empty());
        assert(Seq::<char>::empty() + frame_header_chars(n) =~= frame_header_chars(n));
        lemma_scan_frame_header(n);
    }
}

/// Header lines after the first, each introduced by `"\r\n"`.
pub open spec fn more_header_lines(lines: Seq<Seq<char>>) -> Seq<char>
    decreases lines.len(),
{
    if lines.len() == 0 {
        Seq::empty()
    } else {
        seq!['\r', '\n'] + lines[0] + more_header_lines(lines.drop_first())
    }
}

/// A line of text with no carriage return in it.
pub open spec fn no_cr(s: Seq<char>) -> bool {
    forall|i: int| 0 <= i < s.len() ==> s[i] != '\r'
}

/// A line for another header as a frame carries it: ASCII, as header text
/// is, with no carriage return inside.
pub open spec fn framed_other_header(line: Seq<char>) -> bool {
    &&& other_header(line)
    &&& vstd::utf8::is_ascii_chars(line)
    &&& no_cr(line)
}

/// Splitting at `"\r\n"`: a piece with no `'\r'` ends at the next one.
proof fn lemma_split_at_crlf(s: Seq<char>, cur: Seq<char>, u: Seq<char>)
    requires
        no_cr(s),
    ensures
        split_crlf_from(s + seq!['\r', '\n'] + u, cur) == seq![cur + s] + split_crlf_from(u, Seq::empty()),
    decreases s.len(),
{
    let x = s + seq!['\r', '\n'] + u;
    if s.len() == 0 {
        assert(x.subrange(2, x.len() as int) =~= u);
        assert(cur + s =~= cur);
    } else {
        assert(x[0] == s[0]);
        assert(x.drop_first() =~= s.drop_first() + seq!['\r', '\n'] + u);
        assert(no_cr(s.drop_first())) by {
            assert forall|i: int| 0 <= i < s.drop_first().len() implies s.drop_first()[i] != '\r' by {
                assert(s.drop_first()[i] == s[i + 1]);
            }
        }
        lemma_split_at_crlf(s.drop_first(), cur.push(s[0]), u);
        assert(cur.push(s[0]) + s.drop_first() =~= cur + s);
    }
}

/// The lines of a first line followed by more lines are those lines.
proof fn lemma_split_more_lines(s: Seq<char>, cur: Seq<char>, others: Seq<Seq<char>>)
    requires
        no_cr(s),
        forall|i: int| 0 <= i < others.len() ==> no_cr(#[trigger] others[i]),
    ensures
        split_crlf_from(s + more_header_lines(others), cur) == seq![cur + s] + others,
    decreases others.len(),
{
    if others.len() == 0 {
        assert(s + more_header_lines(others) =~= s);
        lemma_split_no_cr(s, cur);
        assert(seq![cur + s] + others =~= seq![cur + s]);
    } else {
        let rest = others.drop_first();
        let u = others[0] + more_header_lines(rest);
        assert(s + more_header_lines(others) =~= s + seq!['\r', '\n'] + u);
        lemma_split_at_crlf(s, cur, u);
        assert forall|i: int| 0 <= i < rest.len() implies no_cr(#[trigger] rest[i]) by {
            assert(rest[i] == others[i + 1]);
        }
        lemma_split_more_lines(others[0], Seq::empty(), rest);
        assert(Seq::<char>::empty() + others[0] =~= others[0]);
        assert(seq![cur + s] + (seq![others[0]] + rest) =~= seq![cur + s] + others);
    }
}

/// Each carriage return is followed by a line feed and then by something
/// that is not a carriage return: no blank line ends the text early.
pub open spec fn no_blank_line(c: Seq<char>) -> bool {
    forall|k: int| 0 <= k < c.len() && #[trigger] c[k] == '\r' ==> k + 2 < c.len() && c[k + 1] == '\n' && c[k + 2]
        != '\r'
}

proof fn lemma_more_lines_shape(s: Seq<char>, others: Seq<Seq<char>>)
    requires
        no_cr(s),
        vstd::utf8::is_ascii_chars(s),
        forall|i: int| 0 <= i < others.len() ==> framed_other_header(#[trigger] others[i]),
    ensures
        no_blank_line(s + more_header_lines(others)),
        vstd::utf8::is_ascii_chars(s + more_header_lines(others)),
    decreases others.len(),
{
    let c = s + more_header_lines(others);
    if others.len() == 0 {
        assert(c =~= s);
    } else {
        let rest = others.drop_first();
        let o = others[0];
        assert(framed_other_header(o));
        assert(o.len() > 0) by {
            crate::text::lemma_char_index_from(o, ':', 0);
        }
        assert forall|i: int| 0 <= i < rest.len() implies framed_other_header(#[trigger] rest[i]) by {
            assert(rest[i] == others[i + 1]);
        }
        lemma_more_lines_shape(o, rest);
        let u = o + more_header_lines(rest);
        assert(c =~= s + seq!['\r', '\n'] + u);
        let n = s.len();
        assert forall|k: int| 0 <= k < c.len() && #[trigger] c[k] == '\r' implies k + 2 < c.len() && c[k + 1]
            == '\n' && c[k + 2] != '\r' by {
            if k < n {
                assert(c[k] == s[k]);
            } else if k == n {
                assert(c[k + 2] == u[0]);
                assert(u[0] == o[0]);
            } else if k == n + 1 {
            } else {
                assert(c[k] == u[k - n - 2]);
                assert(c[k + 1] == u[k - n - 1]);
                assert(c[k + 2] == u[k - n]);
            }
        }
        assert forall|i: int| 0 <= i < c.len() implies '\0' <= #[trigger] c[i] <= '\u{7f}' by {
            if i < n {
                assert(c[i] == s[i]);
            } else if i >= n + 2 {
                assert(c[i] == u[i - n - 2]);
            }
        }
    }
}

/// A frame whose `Content-Length` line is followed by lines for other
/// headers decodes to exactly its body: the other headers are read and
/// ignored, and whatever follows the body stays buffered.
pub proof fn lemma_decode_with_other_headers(others: Seq<Seq<char>>, payload: Seq<u8>, rest: Seq<u8>)
    requires
        payload.len() <= usize::MAX,
        forall|i: int| 0 <= i < others.len() ==> framed_other_header(#[trigger] others[i]),
    ensures
        spec_next_message(
            vstd::utf8::encode_utf8(frame_header_chars(payload.len()) + more_header_lines(others)) + header_end()
                + payload + rest,
        ) == (Decoded::Message(payload), rest),
{
    let n = payload.len();
    let fh = frame_header_chars(n);
    lemma_frame_header_text(n);
    lemma_decimal_chars_digits(n);
    assert(vstd::utf8::is_ascii_chars(fh)) by {
        assert forall|i: int| 0 <= i < fh.len() implies '\0' <= #[trigger] fh[i] <= '\u{7f}' by {
            if i >= 16 {
                assert(fh[i] == decimal_chars(n)[i - 16]);
                assert(is_digit_char(decimal_chars(n)[i - 16]));
            }
        }
    }
    lemma_more_lines_shape(fh, others);
    let chars = fh + more_header_lines(others);
    let hb = vstd::utf8::encode_utf8(chars);
    vstd::utf8::is_ascii_chars_encode_utf8(chars);
    vstd::utf8::encode_utf8_valid_utf8(chars);
    vstd::utf8::encode_utf8_decode_utf8(chars);
    let h = hb.len();
    let buf = hb + header_end() + payload + rest;
    assert forall|j: int| 0 <= j < h implies !occurs_at(buf, header_end(), j) by {
        if occurs_at(buf, header_end(), j) {
            assert(buf.subrange(j, j + 4)[0] == buf[j]);
            assert(buf.subrange(j, j + 4)[2] == buf[j + 2]);
            assert(buf[j] == hb[j]);
            assert(chars[j] as u8 == 13u8);
            assert(chars[j] == '\r');
            if j + 2 < h {
                assert(buf[j + 2] == hb[j + 2]);
                assert(chars[j + 2] as u8 == 13u8);
            }
        }
    }
    assert(buf.subrange(h as int, h + 4 as int) =~= header_end());
    lemma_find_first_at(buf, header_end(), 0, h);
    assert(buf.take(h as int) =~= hb);
    assert forall|i: int| 0 <= i < others.len() implies no_cr(#[trigger] others[i]) by {}
    lemma_split_more_lines(fh, Seq::empty(), others);
    assert(Seq::<char>::empty() + fh =~= fh);
    assert forall|i: int| 0 <= i < others.len() implies other_header(#[trigger] others[i]) by {}
    lemma_length_then_other_headers(n, others);
    let after = buf.skip(h + 4 as int);
    assert(after =~= payload + rest);
    assert(after.take(n as int) =~= payload);
    assert(after.skip(n as int) =~= rest);
}

} // verus!
