//! The route table: operator route specs (`"METHOD /path/:name"`) turned into
//! entries whose paths use the router's `{name}` placeholders.
use vstd::prelude::*;
use vstd::string::*;

use crate::text::{
    blank_range, chars_of, equals_lit, is_blank, string_of_range, trim, trim_bounds, trim_str,
};

verus! {

broadcast use vstd::string::group_string_axioms;

/// Route entry with method and path
#[derive(Clone, Debug)]
pub struct RouteEntry {
    pub method: String,
    pub path: String,
    pub command: String,
}

/// Why a list of routes was refused.
#[derive(Clone, Debug)]
pub enum RouteError {
    /// The command bound to the route spec `spec` is empty or white space.
    EmptyCommand { spec: String },
}

/// What `str::to_uppercase` makes of a string.
pub uninterp spec fn upper_of(s: Seq<char>) -> Seq<char>;

/// Relies on `str::to_uppercase`: the result depends on the characters alone.
#[verifier::external_body]
fn to_upper(s: &str) -> (r: String)
    ensures
        r@ == upper_of(s@),
{
    s.to_uppercase()
}

/// The methods a route spec may name.
pub open spec fn known_method(m: Seq<char>) -> bool {
    m == "GET"@ || m == "POST"@ || m == "PUT"@ || m == "DELETE"@ || m == "PATCH"@ || m
        == "HEAD"@ || m == "OPTIONS"@ || m == "ANY"@
}

/// Position of the first space in `s`, if any.
pub open spec fn first_space(s: Seq<char>) -> Option<int> {
    if exists|i: int| 0 <= i < s.len() && s[i] == ' ' {
        Some(
            choose|i: int|
                0 <= i < s.len() && s[i] == ' ' && forall|k: int| 0 <= k < i ==> s[k] != ' ',
        )
    } else {
        None
    }
}

/// The text before the first space (all of `s` when there is none).
pub open spec fn first_token(s: Seq<char>) -> Seq<char> {
    match first_space(s) {
        Some(i) => s.subrange(0, i),
        None => s,
    }
}

/// Method and path of the trimmed spec `t`, given `upper`, the upper-cased
/// text before its first space: a recognised method and the rest of the spec,
/// or `ANY` and the whole spec.
pub open spec fn route_parts(t: Seq<char>, upper: Seq<char>) -> (Seq<char>, Seq<char>) {
    match first_space(t) {
        Some(i) => if known_method(upper) {
            (upper, t.subrange(i + 1, t.len() as int))
        } else {
            ("ANY"@, t)
        },
        None => ("ANY"@, t),
    }
}

/// Method and path of a route spec.
pub open spec fn parsed_route_spec(spec: Seq<char>) -> (Seq<char>, Seq<char>) {
    route_parts(trim(spec), upper_of(first_token(trim(spec))))
}

/// Finds the first space of `v`.
fn find_space(v: &Vec<char>) -> (r: Option<usize>)
    ensures
        match r {
            Some(i) => first_space(v@) == Some(i as int) && i < v@.len(),
            None => first_space(v@) is None,
        },
{
    let mut i: usize = 0;
    while i < v.len()
        invariant
            i <= v@.len(),
            forall|k: int| 0 <= k < i ==> v@[k] != ' ',
        decreases v@.len() - i,
    {
        if v[i] == ' ' {
            let ghost j = choose|j: int|
                0 <= j < v@.len() && v@[j] == ' ' && forall|k: int| 0 <= k < j ==> v@[k] != ' ';
            assert(j == i) by {
                if j < i {
                } else if j > i {
                    assert(v@[i as int] != ' ');
                }
            }
            return Some(i);
        }
        i = i + 1;
    }
    None
}

/// Whether `m` is one of the methods a route spec may name.
pub fn is_known_method(m: &str) -> (r: bool)
    ensures
        r == known_method(m@),
{
    let v = chars_of(m);
    proof {
        reveal_strlit("GET");
        reveal_strlit("POST");
        reveal_strlit("PUT");
        reveal_strlit("DELETE");
        reveal_strlit("PATCH");
        reveal_strlit("HEAD");
        reveal_strlit("OPTIONS");
        reveal_strlit("ANY");
    }
    equals_lit(&v, "GET") || equals_lit(&v, "POST") || equals_lit(&v, "PUT") || equals_lit(
        &v,
        "DELETE",
    ) || equals_lit(&v, "PATCH") || equals_lit(&v, "HEAD") || equals_lit(&v, "OPTIONS")
        || equals_lit(&v, "ANY")
}

/// Method and path of a route spec whose text before the first space,
/// upper-cased, is `upper_method`.
pub fn route_spec_with_method(spec: &str, upper_method: &str) -> (r: (String, String))
    ensures
        (r.0@, r.1@) == route_parts(trim(spec@), upper_method@),
{
    let t = trim_str(spec);
    let v = chars_of(t.as_str());
    match find_space(&v) {
        Some(i) => {
            if is_known_method(upper_method) {
                let m = upper_method.to_string();
                assert(m@ == upper_method@);
                let p = string_of_range(&v, i + 1, v.len());
                (m, p)
            } else {
                ("ANY".to_string(), t)
            }
        },
        None => ("ANY".to_string(), t),
    }
}

/// Parse route specification like "GET /hello/:name" or just "/hello/:name":
/// a first word that upper-cases to a known method is the method, else the
/// method is `ANY` and the whole (trimmed) spec is the path.
pub fn parse_route_spec(spec: &str) -> (r: (String, String))
    ensures
        (r.0@, r.1@) == parsed_route_spec(spec@),
{
    let t = trim_str(spec);
    let v = chars_of(t.as_str());
    let token = match find_space(&v) {
        Some(i) => string_of_range(&v, 0, i),
        None => t.clone(),
    };
    let upper = to_upper(token.as_str());
    route_spec_with_method(spec, upper.as_str())
}

/// A character that may appear in a parameter name.
pub open spec fn is_name_char(c: char) -> bool {
    ('a' <= c && c <= 'z') || ('A' <= c && c <= 'Z') || ('0' <= c && c <= '9') || c == '_'
}

/// `s` with every `:name` token (a colon, then the longest run of name
/// characters, at least one) written as `{name}`; every other character is
/// kept. `in_name` is set while inside a token whose `{` has been written.
pub open spec fn bracket_params_from(s: Seq<char>, in_name: bool) -> Seq<char>
    decreases s.len(), if in_name {
        1nat
    } else {
        0nat
    },
{
    if in_name {
        if s.len() > 0 && is_name_char(s[0]) {
            seq![s[0]] + bracket_params_from(s.drop_first(), true)
        } else {
            seq!['}'] + bracket_params_from(s, false)
        }
    } else if s.len() == 0 {
        s
    } else if s[0] == ':' && s.len() >= 2 && is_name_char(s[1]) {
        seq!['{', s[1]] + bracket_params_from(s.subrange(2, s.len() as int), true)
    } else {
        seq![s[0]] + bracket_params_from(s.drop_first(), false)
    }
}

/// The path `s` in the router's placeholder syntax.
pub open spec fn bracket_params(s: Seq<char>) -> Seq<char> {
    bracket_params_from(s, false)
}

/// The pattern of a `:name` token, with the name as its first group.
pub open spec fn param_token_pattern() -> Seq<char> {
    ":([a-zA-Z0-9_]+)"@
}

/// What a `:name` token becomes: its first group between braces.
pub open spec fn param_token_template() -> Seq<char> {
    "{$1}"@
}

/// Relies on `regex::Regex::replace_all`: with the `:name` pattern and the
/// `{$1}` template it rewrites every leftmost, longest, non-overlapping
/// `:name` token of `text` as `{name}` and copies the rest unchanged. The
/// pattern is a valid regex, so `Regex::new` succeeds.
#[verifier::external_body]
fn regex_replace_all(pattern: &str, text: &str, template: &str) -> (r: String)
    requires
        pattern@ == param_token_pattern(),
        template@ == param_token_template(),
    ensures
        r@ == bracket_params(text@),
{
    regex::Regex::new(pattern).unwrap().replace_all(text, template).into_owned()
}

/// Convert `/user/:id` to `/user/{id}`.
pub fn normalize_path(path: &str) -> (r: String)
    ensures
        r@ == bracket_params(path@),
{
    regex_replace_all(":([a-zA-Z0-9_]+)", path, "{$1}")
}

/// The entry that the spec `raw_spec` bound to `command` becomes.
pub open spec fn route_entry_of(raw_spec: Seq<char>, command: Seq<char>) -> (
    Seq<char>,
    Seq<char>,
    Seq<char>,
) {
    (parsed_route_spec(raw_spec).0, bracket_params(parsed_route_spec(raw_spec).1), command)
}

/// The text fields of an entry.
pub open spec fn entry_view(e: RouteEntry) -> (Seq<char>, Seq<char>, Seq<char>) {
    (e.method@, e.path@, e.command@)
}

/// Number of complete (spec, command) pairs in the raw list.
pub open spec fn pair_count(raw: Seq<String>) -> int {
    raw.len() as int / 2
}

/// The command of pair `j` is empty or white space.
pub open spec fn blank_command(raw: Seq<String>, j: int) -> bool {
    is_blank(raw[2 * j + 1]@)
}

/// Parse CLI route arguments, taken as (spec, command) pairs, into entries;
/// a trailing unpaired item is ignored. A pair whose command is empty or
/// white space refuses the whole list, naming the first such spec.
pub fn parse_routes(raw_routes: &[String]) -> (r: Result<Vec<RouteEntry>, RouteError>)
    ensures
        match r {
            Ok(v) => {
                &&& forall|j: int| 0 <= j < pair_count(raw_routes@) ==> !blank_command(raw_routes@, j)
                &&& v@.len() == pair_count(raw_routes@)
                &&& forall|j: int|
                    0 <= j < v@.len() ==> entry_view(#[trigger] v@[j]) == route_entry_of(
                        raw_routes@[2 * j]@,
                        raw_routes@[2 * j + 1]@,
                    )
            },
            Err(RouteError::EmptyCommand { spec }) => exists|j: int|
                0 <= j < pair_count(raw_routes@) && blank_command(raw_routes@, j) && (forall|
                    k: int,
                | 0 <= k < j ==> !blank_command(raw_routes@, k)) && spec@ == raw_routes@[2 * j]@,
        },
{
    let mut routes: Vec<RouteEntry> = Vec::new();
    let len: usize = raw_routes.len();
    let n: usize = len / 2;
    let mut j: usize = 0;
    while j < n
        invariant
            n == pair_count(raw_routes@),
            len == raw_routes@.len(),
            j <= n,
            forall|k: int| 0 <= k < j ==> !blank_command(raw_routes@, k),
            routes@.len() == j,
            forall|k: int|
                0 <= k < j ==> entry_view(#[trigger] routes@[k]) == route_entry_of(
                    raw_routes@[2 * k]@,
                    raw_routes@[2 * k + 1]@,
                ),
        decreases n - j,
    {
        assert(2 * j + 1 < raw_routes@.len()) by (nonlinear_arith)
            requires
                j < n,
                n == raw_routes@.len() as int / 2,
        ;
        let raw_spec = &raw_routes[2 * j];
        let cmd = &raw_routes[2 * j + 1];
        let cv = chars_of(cmd.as_str());
        assert(cv@.subrange(0, cv@.len() as int) =~= cv@);
        if blank_range(&cv, 0, cv.len()) {
            let spec = raw_spec.clone();
            assert(blank_command(raw_routes@, j as int));
            assert(spec@ == raw_routes@[2 * j]@);
            return Err(RouteError::EmptyCommand { spec });
        }
        let (method, raw_path) = parse_route_spec(raw_spec.as_str());
        let path = normalize_path(raw_path.as_str());
        routes.push(RouteEntry { method, path, command: cmd.clone() });
        j = j + 1;
    }
    Ok(routes)
}

/// Normalizing two pieces: where `y` does not start with a name character,
/// no token spans the seam.
proof fn lemma_bracket_concat(x: Seq<char>, y: Seq<char>, in_name: bool)
    requires
        y.len() == 0 || !is_name_char(y[0]),
    ensures
        bracket_params_from(x + y, in_name) == bracket_params_from(x, in_name)
            + bracket_params_from(y, false),
    decreases x.len(), if in_name {
        1nat
    } else {
        0nat
    },
{
    let xy = x + y;
    let e = Seq::<char>::empty();
    if x.len() == 0 {
        assert(xy =~= y);
        if in_name {
            assert(bracket_params_from(e, true) == seq!['}'] + bracket_params_from(e, false));
            assert(seq!['}'] + e =~= seq!['}']);
        } else {
            assert(e + bracket_params_from(y, false) =~= bracket_params_from(y, false));
        }
    } else if in_name {
        assert(xy[0] == x[0]);
        if is_name_char(x[0]) {
            assert(xy.drop_first() =~= x.drop_first() + y);
            lemma_bracket_concat(x.drop_first(), y, true);
        } else {
            lemma_bracket_concat(x, y, false);
        }
    } else {
        assert(xy[0] == x[0]);
        if x[0] == ':' && x.len() >= 2 && is_name_char(x[1]) {
            assert(xy[1] == x[1]);
            assert(xy.subrange(2, xy.len() as int) =~= x.subrange(2, x.len() as int) + y);
            lemma_bracket_concat(x.subrange(2, x.len() as int), y, true);
        } else if x[0] == ':' && x.len() == 1 {
            assert(xy.drop_first() =~= y);
            assert(x.drop_first() =~= e);
            if y.len() > 0 {
                assert(xy[1] == y[0]);
            }
        } else {
            if x.len() >= 2 {
                assert(xy[1] == x[1]);
            }
            assert(xy.drop_first() =~= x.drop_first() + y);
            lemma_bracket_concat(x.drop_first(), y, false);
        }
    }
}

/// Inside a token, a run of name characters is copied and closed with `}`.
proof fn lemma_bracket_name_run(w: Seq<char>)
    requires
        forall|i: int| 0 <= i < w.len() ==> is_name_char(#[trigger] w[i]),
    ensures
        bracket_params_from(w, true) == w + seq!['}'],
    decreases w.len(),
{
    let e = Seq::<char>::empty();
    if w.len() == 0 {
        assert(w =~= e);
        assert(bracket_params_from(e, true) == seq!['}'] + bracket_params_from(e, false));
        assert(w + seq!['}'] =~= seq!['}']);
        assert(seq!['}'] + e =~= seq!['}']);
    } else {
        assert(is_name_char(w[0]));
        assert forall|i: int| 0 <= i < w.drop_first().len() implies is_name_char(
            #[trigger] w.drop_first()[i],
        ) by {
            assert(w.drop_first()[i] == w[i + 1]);
        }
        lemma_bracket_name_run(w.drop_first());
        assert(bracket_params_from(w, true) == seq![w[0]] + bracket_params_from(w.drop_first(), true));
        assert(seq![w[0]] + (w.drop_first() + seq!['}']) =~= w + seq!['}']);
    }
}

/// Every `:name` token is written `{name}`, and the text around it is
/// normalized on its own: a token whose name is `name` (name characters,
/// at least one, not followed by another name character) becomes
/// `{name}` wherever it stands.
pub proof fn lemma_param_token_bracketed(a: Seq<char>, name: Seq<char>, b: Seq<char>)
    requires
        name.len() > 0,
        forall|i: int| 0 <= i < name.len() ==> is_name_char(#[trigger] name[i]),
        b.len() == 0 || !is_name_char(b[0]),
    ensures
        bracket_params(a + seq![':'] + name + b) == bracket_params(a) + seq!['{'] + name + seq![
            '}',
        ] + bracket_params(b),
{
    let token = seq![':'] + name;
    assert(a + seq![':'] + name + b =~= (a + token) + b);
    lemma_bracket_concat(a + token, b, false);
    lemma_bracket_concat(a, token, false);
    assert(token[0] == ':' && token[1] == name[0]);
    assert(token.subrange(2, token.len() as int) =~= name.drop_first());
    assert forall|i: int| 0 <= i < name.drop_first().len() implies is_name_char(
        #[trigger] name.drop_first()[i],
    ) by {
        assert(name.drop_first()[i] == name[i + 1]);
    }
    lemma_bracket_name_run(name.drop_first());
    assert(seq!['{', name[0]] + (name.drop_first() + seq!['}']) =~= seq!['{'] + name + seq!['}']);
    assert(bracket_params(a) + (seq!['{'] + name + seq!['}']) + bracket_params(b)
        =~= bracket_params(a) + seq!['{'] + name + seq!['}'] + bracket_params(b));
}

/// A path without `:` is left exactly as it is.
pub proof fn lemma_no_token_unchanged(s: Seq<char>)
    requires
        forall|i: int| 0 <= i < s.len() ==> #[trigger] s[i] != ':',
    ensures
        bracket_params(s) == s,
    decreases s.len(),
{
    if s.len() > 0 {
        assert(s[0] != ':');
        assert forall|i: int| 0 <= i < s.drop_first().len() implies #[trigger] s.drop_first()[i]
            != ':' by {
            assert(s.drop_first()[i] == s[i + 1]);
        }
        lemma_no_token_unchanged(s.drop_first());
        assert(seq![s[0]] + s.drop_first() =~= s);
    }
}

} // verus!
