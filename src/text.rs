//! Character-level helpers shared by the route table, the script builder and
//! the response synthesizer. Strings are handled as sequences of `char`.
use vstd::prelude::*;

verus! {

/// Relies on `String::push`: appends one character at the end.
#[verifier::external_body]
pub(crate) fn push_char(s: &mut String, c: char)
    ensures
        final(s)@ == old(s)@.push(c),
{
    s.push(c);
}

/// The characters of `s`, in order.
pub fn chars_of(s: &str) -> (r: Vec<char>)
    ensures
        r@ == s@,
{
    let mut r: Vec<char> = Vec::new();
    for c in it: s.chars()
        invariant
            it.seq() == s@,
            r@ == it.seq().take(it.index() as int),
    {
        r.push(c);
    }
    assert(r@ =~= s@);
    r
}

/// Appends `v[lo..hi]` to `s`.
pub fn push_range(s: &mut String, v: &Vec<char>, lo: usize, hi: usize)
    requires
        lo <= hi <= v@.len(),
    ensures
        final(s)@ == old(s)@ + v@.subrange(lo as int, hi as int),
{
    let mut i: usize = lo;
    while i < hi
        invariant
            lo <= i <= hi <= v@.len(),
            s@ == old(s)@ + v@.subrange(lo as int, i as int),
        decreases hi - i,
    {
        push_char(s, v[i]);
        assert(v@.subrange(lo as int, i + 1) =~= v@.subrange(lo as int, i as int).push(v@[i as int]));
        i = i + 1;
    }
}

/// A `String` holding `v[lo..hi]`.
pub fn string_of_range(v: &Vec<char>, lo: usize, hi: usize) -> (r: String)
    requires
        lo <= hi <= v@.len(),
    ensures
        r@ == v@.subrange(lo as int, hi as int),
{
    let mut r = String::new();
    push_range(&mut r, v, lo, hi);
    r
}

/// Unicode `White_Space`, the set that `str::trim` removes.
pub open spec fn is_ws(c: char) -> bool {
    ('\u{9}' <= c && c <= '\u{d}') || c == ' ' || c == '\u{85}' || c == '\u{a0}'
        || c == '\u{1680}' || ('\u{2000}' <= c && c <= '\u{200a}') || c == '\u{2028}'
        || c == '\u{2029}' || c == '\u{202f}' || c == '\u{205f}' || c == '\u{3000}'
}

pub fn is_whitespace(c: char) -> (r: bool)
    ensures
        r == is_ws(c),
{
    ('\u{9}' <= c && c <= '\u{d}') || c == ' ' || c == '\u{85}' || c == '\u{a0}'
        || c == '\u{1680}' || ('\u{2000}' <= c && c <= '\u{200a}') || c == '\u{2028}'
        || c == '\u{2029}' || c == '\u{202f}' || c == '\u{205f}' || c == '\u{3000}'
}

pub open spec fn trim_start(s: Seq<char>) -> Seq<char>
    decreases s.len(),
{
    if s.len() > 0 && is_ws(s[0]) {
        trim_start(s.drop_first())
    } else {
        s
    }
}

pub open spec fn trim_end(s: Seq<char>) -> Seq<char>
    decreases s.len(),
{
    if s.len() > 0 && is_ws(s.last()) {
        trim_end(s.drop_last())
    } else {
        s
    }
}

/// `s` without leading and trailing white space.
pub open spec fn trim(s: Seq<char>) -> Seq<char> {
    trim_end(trim_start(s))
}

/// True when every character of `s` is white space.
pub open spec fn is_blank(s: Seq<char>) -> bool {
    forall|i: int| 0 <= i < s.len() ==> is_ws(#[trigger] s[i])
}

/// The bounds of `v[lo..hi]` once white space is trimmed from both ends.
pub fn trim_bounds(v: &Vec<char>, lo: usize, hi: usize) -> (r: (usize, usize))
    requires
        lo <= hi <= v@.len(),
    ensures
        lo <= r.0 <= r.1 <= hi,
        v@.subrange(r.0 as int, r.1 as int) == trim(v@.subrange(lo as int, hi as int)),
{
    let mut i: usize = lo;
    while i < hi && is_whitespace(v[i])
        invariant
            lo <= i <= hi <= v@.len(),
            trim_start(v@.subrange(lo as int, hi as int)) == trim_start(
                v@.subrange(i as int, hi as int),
            ),
        decreases hi - i,
    {
        assert(v@.subrange(i as int, hi as int).drop_first() =~= v@.subrange(i + 1, hi as int));
        i = i + 1;
    }
    let mut j: usize = hi;
    while j > i && is_whitespace(v[j - 1])
        invariant
            lo <= i <= j <= hi <= v@.len(),
            trim_end(v@.subrange(i as int, hi as int)) == trim_end(v@.subrange(i as int, j as int)),
        decreases j - i,
    {
        assert(v@.subrange(i as int, j as int).drop_last() =~= v@.subrange(i as int, j - 1));
        j = j - 1;
    }
    (i, j)
}

/// `s` with white space trimmed from both ends.
pub fn trim_str(s: &str) -> (r: String)
    ensures
        r@ == trim(s@),
{
    let v = chars_of(s);
    let (a, b) = trim_bounds(&v, 0, v.len());
    assert(v@.subrange(0, v@.len() as int) =~= v@);
    string_of_range(&v, a, b)
}

/// Whether `v[lo..hi]` holds only white space.
pub fn blank_range(v: &Vec<char>, lo: usize, hi: usize) -> (r: bool)
    requires
        lo <= hi <= v@.len(),
    ensures
        r == is_blank(v@.subrange(lo as int, hi as int)),
{
    let mut i: usize = lo;
    while i < hi
        invariant
            lo <= i <= hi <= v@.len(),
            forall|k: int| lo <= k < i ==> is_ws(#[trigger] v@[k]),
        decreases hi - i,
    {
        if !is_whitespace(v[i]) {
            assert(v@.subrange(lo as int, hi as int)[i - lo] == v@[i as int]);
            return false;
        }
        i = i + 1;
    }
    assert forall|k: int| 0 <= k < hi - lo implies is_ws(
        #[trigger] v@.subrange(lo as int, hi as int)[k],
    ) by {
        assert(v@.subrange(lo as int, hi as int)[k] == v@[lo + k]);
    }
    true
}

/// `s` with every non-overlapping occurrence of `pat`, taken from the left,
/// replaced by `rep` (as `str::replace` does for a non-empty pattern).
pub open spec fn replaced(s: Seq<char>, pat: Seq<char>, rep: Seq<char>) -> Seq<char>
    decreases s.len(),
{
    if pat.len() == 0 || s.len() == 0 {
        s
    } else if pat.len() <= s.len() && s.subrange(0, pat.len() as int) == pat {
        rep + replaced(s.subrange(pat.len() as int, s.len() as int), pat, rep)
    } else {
        seq![s[0]] + replaced(s.drop_first(), pat, rep)
    }
}

/// Whether `pat` occurs in `v` at position `i`.
pub fn occurs_at(v: &Vec<char>, i: usize, pat: &Vec<char>) -> (r: bool)
    requires
        i <= v@.len(),
    ensures
        r == (i + pat@.len() <= v@.len() && v@.subrange(i as int, i + pat@.len()) == pat@),
{
    if pat.len() > v.len() - i {
        return false;
    }
    let mut k: usize = 0;
    while k < pat.len()
        invariant
            i + pat@.len() <= v@.len(),
            v@.len() <= usize::MAX,
            k <= pat@.len(),
            forall|m: int| 0 <= m < k ==> v@[i + m] == pat@[m],
        decreases pat@.len() - k,
    {
        if v[i + k] != pat[k] {
            assert(v@.subrange(i as int, i + pat@.len())[k as int] != pat@[k as int]);
            return false;
        }
        k = k + 1;
    }
    assert(v@.subrange(i as int, i + pat@.len()) =~= pat@);
    true
}

/// `s` with every occurrence of `pat` replaced by `rep`.
pub fn replace_all(s: &Vec<char>, pat: &Vec<char>, rep: &Vec<char>) -> (r: Vec<char>)
    requires
        pat@.len() > 0,
    ensures
        r@ == replaced(s@, pat@, rep@),
{
    let mut out: Vec<char> = Vec::new();
    let mut i: usize = 0;
    assert(s@.subrange(0, s@.len() as int) =~= s@);
    assert(out@ + replaced(s@, pat@, rep@) =~= replaced(s@, pat@, rep@));
    while i < s.len()
        invariant
            i <= s@.len(),
            pat@.len() > 0,
            replaced(s@, pat@, rep@) == out@ + replaced(s@.subrange(i as int, s@.len() as int), pat@, rep@),
        decreases s@.len() - i,
    {
        let ghost rest = s@.subrange(i as int, s@.len() as int);
        let hit = occurs_at(s, i, pat);
        if hit {
            assert(i + pat@.len() <= s@.len());
            assert(rest.len() == s@.len() - i);
            assert(rest.subrange(0, pat@.len() as int) =~= s@.subrange(i as int, i + pat@.len()));
            assert(rest.subrange(pat@.len() as int, rest.len() as int) =~= s@.subrange(i + pat@.len(), s@.len() as int));
            let ghost before = out@;
            let mut k: usize = 0;
            while k < rep.len()
                invariant
                    k <= rep@.len(),
                    out@ == before + rep@.take(k as int),
                decreases rep@.len() - k,
            {
                out.push(rep[k]);
                assert(rep@.take(k + 1) =~= rep@.take(k as int).push(rep@[k as int]));
                k = k + 1;
            }
            assert(rep@.take(rep@.len() as int) =~= rep@);
            assert(out@ + replaced(s@.subrange(i + pat@.len(), s@.len() as int), pat@, rep@)
                =~= before + (rep@ + replaced(s@.subrange(i + pat@.len(), s@.len() as int), pat@, rep@)));
            i = i + pat.len();
        } else {
            assert(rest.drop_first() =~= s@.subrange(i + 1, s@.len() as int));
            proof {
                if i + pat@.len() <= s@.len() {
                    assert(rest.subrange(0, pat@.len() as int) =~= s@.subrange(i as int, i + pat@.len()));
                }
            }
            out.push(s[i]);
            i = i + 1;
        }
    }
    assert(out@ + replaced(s@.subrange(i as int, s@.len() as int), pat@, rep@) =~= out@);
    out
}

/// The text that stands for one literal `'` inside a single-quoted shell word:
/// close the quotes, an escaped quote, reopen the quotes.
pub open spec fn quote_escape() -> Seq<char> {
    seq!['\'', '\\', '\'', '\'']
}

/// `s` with every `'` written as `'\''`.
pub open spec fn escape_quotes(s: Seq<char>) -> Seq<char>
    decreases s.len(),
{
    if s.len() == 0 {
        s
    } else if s[0] == '\'' {
        quote_escape() + escape_quotes(s.drop_first())
    } else {
        seq![s[0]] + escape_quotes(s.drop_first())
    }
}

/// Escapes single quotes for use inside a single-quoted shell word.
pub fn escape_single_quotes(s: &Vec<char>) -> (r: Vec<char>)
    ensures
        r@ == escape_quotes(s@),
{
    let mut out: Vec<char> = Vec::new();
    let mut i: usize = 0;
    assert(s@.subrange(0, s@.len() as int) =~= s@);
    assert(out@ + escape_quotes(s@) =~= escape_quotes(s@));
    while i < s.len()
        invariant
            i <= s@.len(),
            escape_quotes(s@) == out@ + escape_quotes(s@.subrange(i as int, s@.len() as int)),
        decreases s@.len() - i,
    {
        let ghost rest = s@.subrange(i as int, s@.len() as int);
        let ghost before = out@;
        assert(rest.drop_first() =~= s@.subrange(i + 1, s@.len() as int));
        assert(rest[0] == s@[i as int]);
        if s[i] == '\'' {
            out.push('\'');
            out.push('\\');
            out.push('\'');
            out.push('\'');
        } else {
            out.push(s[i]);
        }
        assert(out@ + escape_quotes(s@.subrange(i + 1, s@.len() as int))
            =~= before + escape_quotes(rest));
        i = i + 1;
    }
    assert(out@ + escape_quotes(s@.subrange(i as int, s@.len() as int)) =~= out@);
    out
}

/// How a POSIX shell reads the characters of one word: inside single quotes
/// every character is literal up to the closing `'`; outside them a backslash
/// makes the next character literal and `'` opens a quoted run.
pub open spec fn shell_read(w: Seq<char>, quoted: bool) -> Seq<char>
    decreases w.len(),
{
    if w.len() == 0 {
        w
    } else if quoted {
        if w[0] == '\'' {
            shell_read(w.drop_first(), false)
        } else {
            seq![w[0]] + shell_read(w.drop_first(), true)
        }
    } else if w[0] == '\\' && w.len() >= 2 {
        seq![w[1]] + shell_read(w.subrange(2, w.len() as int), false)
    } else if w[0] == '\'' {
        shell_read(w.drop_first(), true)
    } else {
        seq![w[0]] + shell_read(w.drop_first(), false)
    }
}

/// A value escaped with `escape_quotes` and put between single quotes reads
/// back, in the shell, as exactly the given value, whatever quotes it holds.
pub proof fn lemma_quoted_value_reads_back(v: Seq<char>)
    ensures
        shell_read(seq!['\''] + escape_quotes(v) + seq!['\''], false) == v,
{
    lemma_escaped_reads_back(v);
    let w = seq!['\''] + escape_quotes(v) + seq!['\''];
    assert(w.drop_first() =~= escape_quotes(v) + seq!['\'']);
}

proof fn lemma_escaped_reads_back(v: Seq<char>)
    ensures
        shell_read(escape_quotes(v) + seq!['\''], true) == v,
    decreases v.len(),
{
    let tail = seq!['\''];
    if v.len() == 0 {
        assert(escape_quotes(v) + tail =~= tail);
        assert(tail.drop_first() =~= Seq::<char>::empty());
        assert(shell_read(tail, true) == shell_read(Seq::<char>::empty(), false));
        assert(v =~= Seq::<char>::empty());
    } else {
        lemma_escaped_reads_back(v.drop_first());
        let e = escape_quotes(v.drop_first()) + tail;
        if v[0] == '\'' {
            let w = quote_escape() + e;
            let w1 = seq!['\\', '\'', '\''] + e;
            let w2 = seq!['\''] + e;
            assert(escape_quotes(v) + tail =~= w);
            assert(w[0] == '\'');
            assert(w.drop_first() =~= w1);
            assert(shell_read(w, true) == shell_read(w1, false));
            assert(w1[0] == '\\' && w1[1] == '\'');
            assert(w1.subrange(2, w1.len() as int) =~= w2);
            assert(shell_read(w1, false) == seq!['\''] + shell_read(w2, false));
            assert(w2[0] == '\'');
            assert(w2.drop_first() =~= e);
            assert(shell_read(w2, false) == shell_read(e, true));
        } else {
            let w = seq![v[0]] + e;
            assert(escape_quotes(v) + tail =~= w);
            assert(w[0] == v[0]);
            assert(w.drop_first() =~= e);
            assert(shell_read(w, true) == seq![v[0]] + shell_read(e, true));
        }
        assert(v =~= seq![v[0]] + v.drop_first());
    }
}

/// Position of the first `c` in `s`, if any.
pub open spec fn first_index(s: Seq<char>, c: char) -> Option<int> {
    if exists|i: int| 0 <= i < s.len() && s[i] == c {
        Some(choose|i: int| 0 <= i < s.len() && s[i] == c && forall|k: int| 0 <= k < i ==> s[k] != c)
    } else {
        None
    }
}

/// `first_index` at a position known to hold the first `c`.
pub proof fn lemma_first_index_at(s: Seq<char>, c: char, p: int)
    requires
        0 <= p < s.len(),
        s[p] == c,
        forall|k: int| 0 <= k < p ==> s[k] != c,
    ensures
        first_index(s, c) == Some(p),
{
    let j = choose|j: int| 0 <= j < s.len() && s[j] == c && forall|k: int| 0 <= k < j ==> s[k] != c;
    assert(j == p) by {
        if j < p {
            assert(s[j] != c);
        } else if j > p {
            assert(s[p] != c);
        }
    }
}

/// The first `c` in `v[lo..hi]`, as a position of `v`.
pub fn find_char(v: &Vec<char>, lo: usize, hi: usize, c: char) -> (r: Option<usize>)
    requires
        lo <= hi <= v@.len(),
    ensures
        match r {
            Some(p) => lo <= p < hi && v@[p as int] == c && forall|k: int| lo <= k < p ==> v@[k] != c,
            None => forall|k: int| lo <= k < hi ==> v@[k] != c,
        },
{
    let mut i: usize = lo;
    while i < hi
        invariant
            lo <= i <= hi <= v@.len(),
            forall|k: int| lo <= k < i ==> v@[k] != c,
        decreases hi - i,
    {
        if v[i] == c {
            return Some(i);
        }
        i = i + 1;
    }
    None
}

/// `first_index` of a range of `v`, from what `find_char` found there.
pub proof fn lemma_first_index_range(v: Seq<char>, lo: int, hi: int, c: char, r: Option<usize>)
    requires
        0 <= lo <= hi <= v.len(),
        match r {
            Some(p) => lo <= p < hi && v[p as int] == c && forall|k: int| lo <= k < p ==> v[k] != c,
            None => forall|k: int| lo <= k < hi ==> v[k] != c,
        },
    ensures
        first_index(v.subrange(lo, hi), c) == (match r {
            Some(p) => Some(p - lo),
            None => None::<int>,
        }),
{
    let s = v.subrange(lo, hi);
    match r {
        Some(p) => {
            assert forall|k: int| 0 <= k < p - lo implies s[k] != c by {
                assert(s[k] == v[lo + k]);
            }
            lemma_first_index_at(s, c, p - lo);
        },
        None => {
            assert forall|i: int| 0 <= i < s.len() implies s[i] != c by {
                assert(s[i] == v[lo + i]);
            }
        },
    }
}

/// ASCII letters in lower case; every other character unchanged.
pub open spec fn ascii_lower(c: char) -> char {
    if 'A' <= c && c <= 'Z' {
        ((c as u32) + 32) as char
    } else {
        c
    }
}

pub open spec fn ascii_lower_seq(s: Seq<char>) -> Seq<char> {
    s.map_values(|c: char| ascii_lower(c))
}

fn lower_char(c: char) -> (r: char)
    ensures
        r == ascii_lower(c),
{
    if 'A' <= c && c <= 'Z' {
        ((c as u8) + 32) as char
    } else {
        c
    }
}

/// `v[lo..hi]` with ASCII letters in lower case.
pub fn ascii_lower_range(v: &Vec<char>, lo: usize, hi: usize) -> (r: Vec<char>)
    requires
        lo <= hi <= v@.len(),
    ensures
        r@ == ascii_lower_seq(v@.subrange(lo as int, hi as int)),
{
    let mut out: Vec<char> = Vec::new();
    let mut i: usize = lo;
    while i < hi
        invariant
            lo <= i <= hi <= v@.len(),
            out@ =~= ascii_lower_seq(v@.subrange(lo as int, i as int)),
        decreases hi - i,
    {
        out.push(lower_char(v[i]));
        i = i + 1;
        assert(out@ =~= ascii_lower_seq(v@.subrange(lo as int, i as int)));
    }
    out
}

/// `s` begins with `p`.
pub open spec fn has_prefix(s: Seq<char>, p: Seq<char>) -> bool {
    p.len() <= s.len() && s.subrange(0, p.len() as int) == p
}

/// `p` occurs somewhere in `s`.
pub open spec fn contains_seq(s: Seq<char>, p: Seq<char>) -> bool {
    exists|i: int| 0 <= i && i + p.len() <= s.len() && #[trigger] s.subrange(i, i + p.len()) == p
}

/// Whether `v` begins with `lit`.
pub fn starts_with_lit(v: &Vec<char>, lit: &str) -> (r: bool)
    ensures
        r == has_prefix(v@, lit@),
{
    let p = chars_of(lit);
    occurs_at(v, 0, &p)
}

/// Whether `lit` occurs in `v`.
pub fn contains_lit(v: &Vec<char>, lit: &str) -> (r: bool)
    ensures
        r == contains_seq(v@, lit@),
{
    let p = chars_of(lit);
    let mut i: usize = 0;
    while i < v.len()
        invariant
            i <= v@.len(),
            p@ == lit@,
            forall|k: int| 0 <= k < i ==> !(k + p@.len() <= v@.len() && #[trigger] v@.subrange(k, k + p@.len()) == p@),
        decreases v@.len() - i,
    {
        if occurs_at(v, i, &p) {
            assert(v@.subrange(i as int, i + p@.len()) == lit@);
            return true;
        }
        i = i + 1;
    }
    if p.len() == 0 {
        assert(v@.subrange(v@.len() as int, v@.len() as int + lit@.len()) =~= lit@);
        return true;
    }
    assert forall|k: int| 0 <= k && k + p@.len() <= v@.len() implies #[trigger] v@.subrange(k, k + p@.len()) != p@ by {
        assert(k < i);
    }
    false
}

/// Whether `v` holds exactly the characters of `lit`.
pub fn equals_lit(v: &Vec<char>, lit: &str) -> (r: bool)
    ensures
        r == (v@ == lit@),
{
    let w = chars_of(lit);
    if v.len() != w.len() {
        return false;
    }
    let mut i: usize = 0;
    while i < v.len()
        invariant
            i <= v@.len(),
            v@.len() == w@.len(),
            w@ == lit@,
            forall|k: int| 0 <= k < i ==> v@[k] == w@[k],
        decreases v@.len() - i,
    {
        if v[i] != w[i] {
            assert(v@[i as int] != w@[i as int]);
            return false;
        }
        i = i + 1;
    }
    assert(v@ =~= w@);
    true
}

/// A copy of `v[lo..hi]`.
pub fn copy_range(v: &Vec<char>, lo: usize, hi: usize) -> (r: Vec<char>)
    requires
        lo <= hi <= v@.len(),
    ensures
        r@ == v@.subrange(lo as int, hi as int),
{
    let mut out: Vec<char> = Vec::new();
    let mut i: usize = lo;
    while i < hi
        invariant
            lo <= i <= hi <= v@.len(),
            out@ =~= v@.subrange(lo as int, i as int),
        decreases hi - i,
    {
        out.push(v[i]);
        i = i + 1;
        assert(out@ =~= v@.subrange(lo as int, i as int));
    }
    out
}

} // verus!
