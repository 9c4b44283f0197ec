//! The request pipeline around the subordinate process: which command a
//! request runs, the script and environment it runs with, and the response
//! made of what it did.
use vstd::prelude::*;
use vstd::string::*;

use crate::response::{header_pairs, synthesize_response, read_output, final_headers, HttpResponse};
use crate::routes::RouteEntry;
use crate::shell::{build_shell_script, executable_name, pairs_view, shell_script, HeaderFormat};
use crate::state::AppState;
use crate::text::{chars_of, equals_lit, escape_quotes, escape_single_quotes, push_char, replace_all, replaced};

verus! {

broadcast use vstd::string::group_string_axioms;

/// The command of the last route registered for `method` and `pattern`.
pub open spec fn last_match(routes: Seq<RouteEntry>, method: Seq<char>, pattern: Seq<char>) -> Option<
    Seq<char>,
>
    decreases routes.len(),
{
    if routes.len() == 0 {
        None
    } else if routes.last().method@ == method && routes.last().path@ == pattern {
        Some(routes.last().command@)
    } else {
        last_match(routes.drop_last(), method, pattern)
    }
}

/// The command bound to a request: the one registered for its method, else
/// the one registered for `ANY`.
pub open spec fn bound_command(routes: Seq<RouteEntry>, method: Seq<char>, pattern: Seq<char>) -> Option<
    Seq<char>,
> {
    match last_match(routes, method, pattern) {
        Some(c) => Some(c),
        None => last_match(routes, "ANY"@, pattern),
    }
}

/// Whether `a` and `b` hold the same characters.
fn same_text(a: &String, b: &str) -> (r: bool)
    ensures
        r == (a@ == b@),
{
    let v = chars_of(a.as_str());
    equals_lit(&v, b)
}

/// The command of the last route registered for `method` and `pattern`.
fn find_last(routes: &Vec<RouteEntry>, method: &str, pattern: &str) -> (r: Option<String>)
    ensures
        match r {
            Some(c) => last_match(routes@, method@, pattern@) == Some(c@),
            None => last_match(routes@, method@, pattern@) is None,
        },
{
    let mut i: usize = routes.len();
    assert(routes@.take(i as int) =~= routes@);
    while i > 0
        invariant
            i <= routes@.len(),
            last_match(routes@, method@, pattern@) == last_match(routes@.take(i as int), method@, pattern@),
        decreases i,
    {
        let e = &routes[i - 1];
        assert(routes@.take(i as int).drop_last() =~= routes@.take(i - 1));
        assert(routes@.take(i as int).last() == routes@[i - 1]);
        if same_text(&e.method, method) && same_text(&e.path, pattern) {
            return Some(e.command.clone());
        }
        i = i - 1;
    }
    None
}

/// The command bound to `method` and the route pattern `pattern`: the exact
/// method first, then `ANY`.
pub fn lookup_command(state: &AppState, method: &str, pattern: &str) -> (r: Option<String>)
    ensures
        match r {
            Some(c) => bound_command(state.commands@, method@, pattern@) == Some(c@),
            None => bound_command(state.commands@, method@, pattern@) is None,
        },
{
    match find_last(&state.commands, method, pattern) {
        Some(c) => Some(c),
        None => find_last(&state.commands, "ANY", pattern),
    }
}

/// `command` with each `:name` of the parameters, in order, replaced by the
/// parameter's value, single quotes escaped.
pub open spec fn substituted(command: Seq<char>, params: Seq<(Seq<char>, Seq<char>)>) -> Seq<char>
    decreases params.len(),
{
    if params.len() == 0 {
        command
    } else {
        substituted(
            replaced(command, seq![':'] + params[0].0, escape_quotes(params[0].1)),
            params.drop_first(),
        )
    }
}

/// Replaces `:name` placeholders in a command template by the captured path
/// parameters' values, with `'` escaped as `'\''`.
pub fn substitute_params(template: &str, params: &Vec<(String, String)>) -> (r: String)
    ensures
        r@ == substituted(template@, pairs_view(params@)),
{
    let mut cmd = chars_of(template);
    let mut i: usize = 0;
    assert(pairs_view(params@).subrange(0, params@.len() as int) =~= pairs_view(params@));
    while i < params.len()
        invariant
            i <= params@.len(),
            substituted(template@, pairs_view(params@)) == substituted(
                cmd@,
                pairs_view(params@).subrange(i as int, params@.len() as int),
            ),
        decreases params@.len() - i,
    {
        let (k, v) = &params[i];
        let mut pat: Vec<char> = Vec::new();
        pat.push(':');
        let kc = chars_of(k.as_str());
        pat.append(&mut kc.clone());
        let vc = chars_of(v.as_str());
        let safe = escape_single_quotes(&vc);
        let ghost rest = pairs_view(params@).subrange(i as int, params@.len() as int);
        assert(rest[0] == (k@, v@));
        assert(pat@ =~= seq![':'] + k@);
        assert(rest.drop_first() =~= pairs_view(params@).subrange(i + 1, params@.len() as int));
        cmd = replace_all(&cmd, &pat, &safe);
        i = i + 1;
    }
    assert(pairs_view(params@).subrange(i as int, params@.len() as int) =~= Seq::empty());
    let mut out = String::new();
    let mut j: usize = 0;
    while j < cmd.len()
        invariant
            j <= cmd@.len(),
            out@ == cmd@.take(j as int),
        decreases cmd@.len() - j,
    {
        push_char(&mut out, cmd[j]);
        assert(cmd@.take(j + 1) =~= cmd@.take(j as int).push(cmd@[j as int]));
        j = j + 1;
    }
    assert(cmd@.take(cmd@.len() as int) =~= cmd@);
    out
}

/// The JSON object text that `serde_json` writes for a string-to-string map
/// holding the pairs (a later pair overriding an earlier one with its key).
pub uninterp spec fn json_object_of(entries: Seq<(Seq<char>, Seq<char>)>) -> Seq<char>;

/// Relies on `serde_json::to_string` of a `BTreeMap<String, String>`: the
/// JSON object of the pairs, keys in sorted order, a function of the pairs
/// alone.
#[verifier::external_body]
fn json_object_text(entries: &Vec<(String, String)>) -> (r: String)
    ensures
        r@ == json_object_of(pairs_view(entries@)),
{
    let map: std::collections::BTreeMap<String, String> = entries.iter().cloned().collect();
    serde_json::to_string(&map).unwrap_or_default()
}

/// What the subordinate process is started with.
pub struct CommandPlan {
    /// The interpreter, run as `program -c script`.
    pub program: String,
    pub script: String,
    /// Variables added to the inherited environment.
    pub env: Vec<(String, String)>,
}

/// The environment variables a request adds: `HEADERS_JSON` and
/// `QUERY_JSON`, each where its format is `Json`.
pub open spec fn plan_env(
    header_format: HeaderFormat,
    headers: Seq<(Seq<char>, Seq<char>)>,
    query_format: HeaderFormat,
    query_params: Seq<(Seq<char>, Seq<char>)>,
) -> Seq<(Seq<char>, Seq<char>)> {
    (if header_format == HeaderFormat::Json {
        seq![("HEADERS_JSON"@, json_object_of(headers))]
    } else {
        Seq::empty()
    }) + (if query_format == HeaderFormat::Json {
        seq![("QUERY_JSON"@, json_object_of(query_params))]
    } else {
        Seq::empty()
    })
}

/// A response with a plain-text body and no other header.
pub open spec fn plain_response_view(r: HttpResponse, status: u16, body: Seq<char>) -> bool {
    &&& r.status == status
    &&& header_pairs(r.headers@) == seq![("content-type"@, "text/plain; charset=utf-8"@)]
    &&& r.body@ == body
}

/// A response with status `status` and the plain-text body `body`.
pub fn plain_response(status: u16, body: String) -> (r: HttpResponse)
    ensures
        plain_response_view(r, status, body@),
{
    let mut headers: Vec<(String, String)> = Vec::new();
    headers.push(("content-type".to_string(), "text/plain; charset=utf-8".to_string()));
    assert(header_pairs(headers@) =~= seq![("content-type"@, "text/plain; charset=utf-8"@)]);
    HttpResponse { status, headers, body }
}

/// Decides what a request to `method` on the route pattern `pattern` runs:
/// the bound command with the path parameters substituted, behind the
/// header and query preambles, with the JSON variables; or, where no command
/// is bound, the 500 `Config Error` response.
pub fn plan_command(
    state: &AppState,
    method: &str,
    pattern: &str,
    params: &Vec<(String, String)>,
    headers: &Vec<(String, String)>,
    query_params: &Vec<(String, String)>,
) -> (r: Result<CommandPlan, HttpResponse>)
    ensures
        match bound_command(state.commands@, method@, pattern@) {
            None => r is Err && plain_response_view(r->Err_0, 500, "Config Error"@),
            Some(t) => r is Ok && r->Ok_0.program@ == executable_name(state.shell)
                && r->Ok_0.script@ == shell_script(
                state.shell,
                state.header_format,
                pairs_view(headers@),
                state.query_format,
                pairs_view(query_params@),
                substituted(t, pairs_view(params@)),
            ) && pairs_view(r->Ok_0.env@) == plan_env(
                state.header_format,
                pairs_view(headers@),
                state.query_format,
                pairs_view(query_params@),
            ),
        },
{
    let template = match lookup_command(state, method, pattern) {
        Some(t) => t,
        None => {
            return Err(plain_response(500, "Config Error".to_string()));
        },
    };
    let command = substitute_params(template.as_str(), params);
    let script = build_shell_script(
        &state.shell,
        &state.header_format,
        headers,
        &state.query_format,
        query_params,
        command.as_str(),
    );
    let mut env: Vec<(String, String)> = Vec::new();
    if state.header_format == HeaderFormat::Json {
        env.push(("HEADERS_JSON".to_string(), json_object_text(headers)));
    }
    let ghost mid = env@;
    if state.query_format == HeaderFormat::Json {
        env.push(("QUERY_JSON".to_string(), json_object_text(query_params)));
    }
    assert(pairs_view(env@) =~= plan_env(
        state.header_format,
        pairs_view(headers@),
        state.query_format,
        pairs_view(query_params@),
    ));
    Ok(CommandPlan { program: state.shell.executable().to_string(), script, env })
}

/// How the subordinate process ended.
pub enum ExecOutcome {
    /// It could not be started; the system's error text.
    SpawnFailed(String),
    /// It ran; whether its exit status was success, and its two output
    /// streams as text.
    Exited { success: bool, stdout: String, stderr: String },
}

/// The response to a finished command: the synthesized response on success,
/// else status 500 with the spawn error text, or `Error:` and a line feed
/// before the standard error text.
pub fn respond_to_outcome(outcome: &ExecOutcome) -> (r: HttpResponse)
    ensures
        match outcome {
            ExecOutcome::SpawnFailed(msg) => plain_response_view(r, 500, msg@),
            ExecOutcome::Exited { success, stdout, stderr } => if *success {
                &&& r.status == read_output(stdout@).0
                &&& header_pairs(r.headers@) == final_headers(read_output(stdout@))
                &&& r.body@ == read_output(stdout@).2
            } else {
                plain_response_view(r, 500, "Error:\n"@ + stderr@)
            },
        },
{
    match outcome {
        ExecOutcome::SpawnFailed(msg) => plain_response(500, msg.clone()),
        ExecOutcome::Exited { success, stdout, stderr } => {
            if *success {
                synthesize_response(stdout.as_str())
            } else {
                let mut body = "Error:\n".to_string();
                body.append(stderr.as_str());
                plain_response(500, body)
            }
        },
    }
}

/// The response to a path that no route matches: 404 `Route not found`.
pub fn fallback_handler() -> (r: HttpResponse)
    ensures
        plain_response_view(r, 404, "Route not found"@),
{
    plain_response(404, "Route not found".to_string())
}

} // verus!
