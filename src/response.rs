//! The response synthesizer: a command's standard output read line by line,
//! `@header: Name: Value` and `@status: NNN` lines taken as response control,
//! every other line as body; the content type inferred when none was set.
use vstd::prelude::*;
use vstd::string::*;

use crate::text::{
    ascii_lower_range, ascii_lower_seq, chars_of, contains_lit, contains_seq, copy_range,
    equals_lit, find_char, first_index, has_prefix, lemma_first_index_range, push_char,
    push_range, starts_with_lit, string_of_range, trim, trim_bounds, trim_str,
};

verus! {

broadcast use vstd::string::group_string_axioms;

/// A response ready to be sent: status code, headers in order (repeats
/// allowed) and body.
pub struct HttpResponse {
    pub status: u16,
    pub headers: Vec<(String, String)>,
    pub body: String,
}

/// What the output lines read so far have set: status, headers in order,
/// body text, and whether a `Content-Type` header was among the headers.
pub type OutputState = (u16, Seq<(Seq<char>, Seq<char>)>, Seq<char>, bool);

pub open spec fn header_pairs(v: Seq<(String, String)>) -> Seq<(Seq<char>, Seq<char>)> {
    v.map_values(|p: (String, String)| (p.0@, p.1@))
}

pub open spec fn is_digit(c: char) -> bool {
    '0' <= c && c <= '9'
}

/// The decimal value of a string of digits.
pub open spec fn digits_value(s: Seq<char>) -> nat
    decreases s.len(),
{
    if s.len() == 0 {
        0
    } else {
        digits_value(s.drop_last()) * 10 + (s.last() as nat - '0' as nat) as nat
    }
}

/// The status code that `@status:` text `s` (already trimmed) sets: an
/// optional `+` and decimal digits, as `str::parse::<u16>` reads them, whose
/// value lies in 100..=999, the codes `http::StatusCode::from_u16` accepts.
pub open spec fn status_code_of(s: Seq<char>) -> Option<u16> {
    if s.len() > 0 && s[0] == '+' {
        digits_status(s.drop_first())
    } else {
        digits_status(s)
    }
}

/// The status code that a string of decimal digits names, if valid.
pub open spec fn digits_status(d: Seq<char>) -> Option<u16> {
    if d.len() > 0 && (forall|i: int| 0 <= i < d.len() ==> is_digit(#[trigger] d[i])) && 100
        <= digits_value(d) <= 999 {
        Some(digits_value(d) as u16)
    } else {
        None
    }
}

/// Reads a status code from `v[lo..hi]`.
pub fn parse_status(v: &Vec<char>, lo: usize, hi: usize) -> (r: Option<u16>)
    requires
        lo <= hi <= v@.len(),
    ensures
        r == status_code_of(v@.subrange(lo as int, hi as int)),
{
    let ghost s = v@.subrange(lo as int, hi as int);
    let mut start: usize = lo;
    if lo < hi && v[lo] == '+' {
        start = lo + 1;
        assert(s.drop_first() =~= v@.subrange(start as int, hi as int));
    } else {
        assert(s =~= v@.subrange(start as int, hi as int));
    }
    if start == hi {
        return None;
    }
    let mut acc: u32 = 0;
    let mut i: usize = start;
    while i < hi
        invariant
            lo <= start <= i <= hi <= v@.len(),
            start < hi,
            status_code_of(v@.subrange(lo as int, hi as int)) == digits_status(
                v@.subrange(start as int, hi as int),
            ),
            forall|k: int| start <= k < i ==> is_digit(#[trigger] v@[k]),
            acc == (if digits_value(v@.subrange(start as int, i as int)) > 999 {
                1000
            } else {
                digits_value(v@.subrange(start as int, i as int))
            }),
        decreases hi - i,
    {
        let c = v[i];
        if !('0' <= c && c <= '9') {
            let ghost d = v@.subrange(start as int, hi as int);
            assert(!is_digit(d[i - start]));
            return None;
        }
        let digit = (c as u32) - ('0' as u32);
        assert(v@.subrange(start as int, i + 1).drop_last() =~= v@.subrange(start as int, i as int));
        if acc >= 1000 {
            acc = 1000;
        } else {
            acc = acc * 10 + digit;
            if acc > 999 {
                acc = 1000;
            }
        }
        i = i + 1;
    }
    let ghost d = v@.subrange(start as int, hi as int);
    assert forall|k: int| 0 <= k < d.len() implies is_digit(#[trigger] d[k]) by {
        assert(d[k] == v@[start + k]);
    }
    if 100 <= acc && acc <= 999 {
        Some(acc as u16)
    } else {
        None
    }
}

/// The trimmed text `t` looks like a JSON object or array.
pub open spec fn json_shaped(t: Seq<char>) -> bool {
    t.len() > 0 && ((t[0] == '{' && t.last() == '}') || (t[0] == '[' && t.last() == ']'))
}

/// The content type of the trimmed body `t`, given whether `t` parses as
/// JSON: JSON, then HTML, then XML, else plain text. The HTML prefixes are
/// compared without regard to ASCII case.
pub open spec fn content_type_name(t: Seq<char>, json_ok: bool) -> Seq<char> {
    if json_shaped(t) && json_ok {
        "application/json"@
    } else if t.len() > 0 && t[0] == '<' {
        if has_prefix(ascii_lower_seq(t), "<!doctype html"@) || has_prefix(
            ascii_lower_seq(t),
            "<html"@,
        ) {
            "text/html"@
        } else if has_prefix(t, "<?xml"@) || has_prefix(t, "<!DOCTYPE"@) || (t.last() == '>'
            && contains_seq(t, "</"@)) {
            "application/xml"@
        } else {
            "text/plain"@
        }
    } else {
        "text/plain"@
    }
}

/// Whether `serde_json` accepts a text as one JSON value.
pub uninterp spec fn is_json(s: Seq<char>) -> bool;

/// Relies on `serde_json::from_str::<serde_json::Value>`: whether `s` parses
/// as a JSON value; the answer depends on the text alone.
#[verifier::external_body]
fn parses_as_json(s: &str) -> (r: bool)
    ensures
        r == is_json(s@),
{
    serde_json::from_str::<serde_json::Value>(s).is_ok()
}

/// The content type of `body`, given whether its trimmed text parses as JSON.
pub fn content_type_for(body: &str, json_ok: bool) -> (r: &'static str)
    ensures
        r@ == content_type_name(trim(body@), json_ok),
{
    let t = trim_str(body);
    let v = chars_of(t.as_str());
    let n = v.len();
    if n > 0 && ((v[0] == '{' && v[n - 1] == '}') || (v[0] == '[' && v[n - 1] == ']')) && json_ok {
        return "application/json";
    }
    if n > 0 && v[0] == '<' {
        let lower = ascii_lower_range(&v, 0, n);
        assert(v@.subrange(0, n as int) =~= v@);
        if starts_with_lit(&lower, "<!doctype html") || starts_with_lit(&lower, "<html") {
            return "text/html";
        }
        if starts_with_lit(&v, "<?xml") || starts_with_lit(&v, "<!DOCTYPE") || (v[n - 1] == '>'
            && contains_lit(&v, "</")) {
            return "application/xml";
        }
    }
    "text/plain"
}

/// The content type inferred for a body: JSON only where the trimmed text is
/// bracketed and parses as JSON.
pub open spec fn detected_content_type(body: Seq<char>) -> Seq<char> {
    content_type_name(trim(body), is_json(trim(body)))
}

/// Auto-detect content type based on body content.
pub fn detect_content_type(body: &str) -> (r: &'static str)
    ensures
        r@ == detected_content_type(body@),
{
    let t = trim_str(body);
    let v = chars_of(t.as_str());
    let n = v.len();
    let shaped = n > 0 && ((v[0] == '{' && v[n - 1] == '}') || (v[0] == '[' && v[n - 1] == ']'));
    let json_ok = if shaped {
        parses_as_json(t.as_str())
    } else {
        false
    };
    content_type_for(body, json_ok)
}

/// `l` without one trailing carriage return.
pub open spec fn strip_cr(l: Seq<char>) -> Seq<char> {
    if l.len() > 0 && l.last() == '\r' {
        l.drop_last()
    } else {
        l
    }
}

/// The lines of `s` as `str::lines` yields them: split after each line feed,
/// a `\r` before the line feed dropped, no empty line after a final line feed.
#[verifier::opaque]
pub open spec fn lines_of(s: Seq<char>) -> Seq<Seq<char>>
    decreases s.len(),
{
    if s.len() == 0 {
        Seq::empty()
    } else {
        match first_index(s, '\n') {
            // `first_index` yields a position inside `s`; the bound is
            // restated here for the termination check.
            Some(p) => if 0 <= p < s.len() {
                seq![strip_cr(s.subrange(0, p))] + lines_of(s.subrange(p + 1, s.len() as int))
            } else {
                Seq::empty()
            },
            None => seq![s],
        }
    }
}

/// Splitting a range of `v` at the first line feed, at `p`.
proof fn lemma_lines_split(v: Seq<char>, lo: int, n: int, p: int)
    requires
        0 <= lo <= p < n <= v.len(),
        first_index(v.subrange(lo, n), '\n') == Some(p - lo),
    ensures
        lines_of(v.subrange(lo, n)) == seq![strip_cr(v.subrange(lo, p))] + lines_of(
            v.subrange(p + 1, n),
        ),
{
    reveal(lines_of);
    let s = v.subrange(lo, n);
    assert(s.subrange(0, p - lo) =~= v.subrange(lo, p));
    assert(s.subrange(p - lo + 1, s.len() as int) =~= v.subrange(p + 1, n));
}

/// The last line: a range of `v` without a line feed.
proof fn lemma_lines_last(v: Seq<char>, lo: int, n: int)
    requires
        0 <= lo < n <= v.len(),
        first_index(v.subrange(lo, n), '\n') is None,
    ensures
        lines_of(v.subrange(lo, n)) == seq![v.subrange(lo, n)],
{
    reveal(lines_of);
}

/// Applying the first line, then the rest.
proof fn lemma_run_first(st: OutputState, x: Seq<char>, rest: Seq<Seq<char>>)
    ensures
        run_lines(st, seq![x] + rest) == run_lines(apply_line(st, x), rest),
{
    reveal(run_lines);
    assert((seq![x] + rest).drop_first() =~= rest);
}

/// What one output line does to the response.
/// What a `@header:` line does, `rest` being the text after the prefix.
pub open spec fn header_line(st: OutputState, rest: Seq<char>) -> OutputState {
    match first_index(rest, ':') {
        Some(p) => {
            let k = trim(rest.subrange(0, p));
            let v = trim(rest.subrange(p + 1, rest.len() as int));
            (st.0, st.1.push((k, v)), st.2, st.3 || ascii_lower_seq(k) == "content-type"@)
        },
        None => st,
    }
}

/// What a `@status:` line does, `rest` being the text after the prefix.
pub open spec fn status_line(st: OutputState, rest: Seq<char>) -> OutputState {
    match status_code_of(trim(rest)) {
        Some(c) => (c, st.1, st.2, st.3),
        None => st,
    }
}

/// What one output line does to the response.
#[verifier::opaque]
pub open spec fn apply_line(st: OutputState, line: Seq<char>) -> OutputState {
    if has_prefix(line, "@header:"@) {
        header_line(st, line.subrange("@header:"@.len() as int, line.len() as int))
    } else if has_prefix(line, "@status:"@) {
        status_line(st, line.subrange("@status:"@.len() as int, line.len() as int))
    } else {
        (st.0, st.1, st.2 + line + seq!['\n'], st.3)
    }
}

/// The lines applied in order.
#[verifier::opaque]
pub open spec fn run_lines(st: OutputState, lines: Seq<Seq<char>>) -> OutputState
    decreases lines.len(),
{
    if lines.len() == 0 {
        st
    } else {
        run_lines(apply_line(st, lines[0]), lines.drop_first())
    }
}

/// Status 200, no header, empty body.
pub open spec fn initial_output_state() -> OutputState {
    (200, Seq::empty(), Seq::empty(), false)
}

/// What the whole output sets.
pub open spec fn read_output(stdout: Seq<char>) -> OutputState {
    run_lines(initial_output_state(), lines_of(stdout))
}

/// The headers of the response: those the output set, then the inferred
/// `Content-Type` where the output set none.
pub open spec fn final_headers(st: OutputState) -> Seq<(Seq<char>, Seq<char>)> {
    if st.3 {
        st.1
    } else {
        st.1.push(("Content-Type"@, detected_content_type(st.2)))
    }
}

struct Collected {
    status: u16,
    headers: Vec<(String, String)>,
    body: String,
    content_type_set: bool,
}

impl Collected {
    spec fn state(&self) -> OutputState {
        (self.status, header_pairs(self.headers@), self.body@, self.content_type_set)
    }
}

/// Applies a `@header:` line `l` (the prefix is its first 8 characters).
#[verifier::rlimit(30)]
fn take_header(st: &mut Collected, l: &Vec<char>)
    requires
        8 <= l@.len(),
    ensures
        final(st).state() == header_line(old(st).state(), l@.subrange(8, l@.len() as int)),
{
    let n = l.len();
    let ghost rest = l@.subrange(8, n as int);
    let found = find_char(l, 8, n, ':');
    proof {
        lemma_first_index_range(l@, 8, n as int, ':', found);
    }
    match found {
        Some(p) => {
            let (a, b) = trim_bounds(l, 8, p);
            let (c, d) = trim_bounds(l, p + 1, n);
            assert(rest.subrange(0, p - 8) =~= l@.subrange(8, p as int));
            assert(rest.subrange(p - 8 + 1, rest.len() as int) =~= l@.subrange(p + 1, n as int));
            let key = string_of_range(l, a, b);
            let value = string_of_range(l, c, d);
            let lowered = ascii_lower_range(l, a, b);
            let is_content_type = equals_lit(&lowered, "content-type");
            st.headers.push((key, value));
            assert(header_pairs(st.headers@) =~= header_pairs(old(st).headers@).push(
                (l@.subrange(a as int, b as int), l@.subrange(c as int, d as int)),
            ));
            if is_content_type {
                st.content_type_set = true;
            }
        },
        None => {},
    }
}

/// Applies a `@status:` line `l` (the prefix is its first 8 characters).
fn take_status(st: &mut Collected, l: &Vec<char>)
    requires
        8 <= l@.len(),
    ensures
        final(st).state() == status_line(old(st).state(), l@.subrange(8, l@.len() as int)),
{
    let (a, b) = trim_bounds(l, 8, l.len());
    match parse_status(l, a, b) {
        Some(code) => {
            st.status = code;
        },
        None => {},
    }
}

/// Applies the line `v[lo..hi]` to what has been collected.
fn take_line(st: &mut Collected, v: &Vec<char>, lo: usize, hi: usize)
    requires
        lo <= hi <= v@.len(),
    ensures
        final(st).state() == apply_line(old(st).state(), v@.subrange(lo as int, hi as int)),
{
    let l = copy_range(v, lo, hi);
    let n = l.len();
    proof {
        reveal(apply_line);
        reveal_strlit("@header:");
        reveal_strlit("@status:");
    }
    if starts_with_lit(&l, "@header:") {
        take_header(st, &l);
    } else if starts_with_lit(&l, "@status:") {
        take_status(st, &l);
    } else {
        push_range(&mut st.body, &l, 0, n);
        push_char(&mut st.body, '\n');
        assert(l@.subrange(0, n as int) =~= l@);
    }
}

/// Builds the response from a successful command's standard output: status
/// 200 unless a valid `@status:` line set another (the last one wins), the
/// `@header:` headers in order, and every other line followed by a line
/// feed as the body; a `Content-Type` is inferred from the body when no
/// header set one.
pub fn synthesize_response(stdout: &str) -> (r: HttpResponse)
    ensures
        r.status == read_output(stdout@).0,
        header_pairs(r.headers@) == final_headers(read_output(stdout@)),
        r.body@ == read_output(stdout@).2,
{
    let v = chars_of(stdout);
    let n = v.len();
    let mut st = Collected {
        status: 200,
        headers: Vec::new(),
        body: String::new(),
        content_type_set: false,
    };
    let mut lo: usize = 0;
    assert(v@.subrange(0, n as int) =~= v@);
    assert(header_pairs(st.headers@) =~= Seq::empty());
    while lo < n
        invariant
            lo <= n == v@.len(),
            read_output(v@) == run_lines(st.state(), lines_of(v@.subrange(lo as int, n as int))),
        decreases n - lo,
    {
        let ghost s = v@.subrange(lo as int, n as int);
        let found = find_char(&v, lo, n, '\n');
        proof {
            lemma_first_index_range(v@, lo as int, n as int, '\n', found);
        }
        match found {
            Some(p) => {
                let end = if p > lo && v[p - 1] == '\r' {
                    p - 1
                } else {
                    p
                };
                assert(strip_cr(v@.subrange(lo as int, p as int)) =~= v@.subrange(
                    lo as int,
                    end as int,
                ));
                proof {
                    lemma_lines_split(v@, lo as int, n as int, p as int);
                    lemma_run_first(
                        st.state(),
                        v@.subrange(lo as int, end as int),
                        lines_of(v@.subrange(p + 1, n as int)),
                    );
                }
                take_line(&mut st, &v, lo, end);
                lo = p + 1;
            },
            None => {
                proof {
                    lemma_lines_last(v@, lo as int, n as int);
                    lemma_run_first(st.state(), s, Seq::empty());
                    reveal(lines_of);
                    reveal(run_lines);
                    assert(seq![s] + Seq::<Seq<char>>::empty() =~= seq![s]);
                }
                take_line(&mut st, &v, lo, n);
                lo = n;
                assert(v@.subrange(n as int, n as int) =~= Seq::<char>::empty());
            },
        }
    }
    assert(v@.subrange(lo as int, n as int) =~= Seq::<char>::empty());
    proof {
        reveal(lines_of);
        reveal(run_lines);
    }
    if !st.content_type_set {
        let detected = detect_content_type(st.body.as_str());
        let name = "Content-Type".to_string();
        let value = detected.to_string();
        let ghost before = st.headers@;
        st.headers.push((name, value));
        assert(header_pairs(st.headers@) =~= header_pairs(before).push(
            ("Content-Type"@, detected_content_type(st.body@)),
        ));
    }
    HttpResponse { status: st.status, headers: st.headers, body: st.body }
}

} // verus!
