use sherut::handler::{
    lookup_command, plan_command, respond_to_outcome, substitute_params, ExecOutcome,
};
use sherut::routes::{parse_routes, RouteEntry};
use sherut::shell::{HeaderFormat, ShellType};
use sherut::state::AppState;

fn pairs(items: &[(&str, &str)]) -> Vec<(String, String)> {
    items.iter().map(|(k, v)| (k.to_string(), v.to_string())).collect()
}

fn entry(method: &str, path: &str, command: &str) -> RouteEntry {
    RouteEntry { method: method.to_string(), path: path.to_string(), command: command.to_string() }
}

fn state(commands: Vec<RouteEntry>, format: HeaderFormat) -> AppState {
    AppState { commands, shell: ShellType::Bash, header_format: format, query_format: format }
}

#[test]
fn lookup_prefers_exact_method_then_any() {
    let st = state(
        vec![
            entry("ANY", "/x", "any-x"),
            entry("GET", "/x", "get-x"),
            entry("GET", "/y", "first-y"),
            entry("GET", "/y", "second-y"),
        ],
        HeaderFormat::Json,
    );
    assert_eq!(lookup_command(&st, "GET", "/x").as_deref(), Some("get-x"));
    assert_eq!(lookup_command(&st, "POST", "/x").as_deref(), Some("any-x"));
    assert_eq!(lookup_command(&st, "GET", "/y").as_deref(), Some("second-y"));
    assert_eq!(lookup_command(&st, "POST", "/y"), None);
    assert_eq!(lookup_command(&st, "GET", "/z"), None);
}

#[test]
fn substitute_params_escapes_and_replaces_every_occurrence() {
    let p = pairs(&[("id", "42")]);
    assert_eq!(substitute_params("echo :id :id", &p), "echo 42 42");
    let p = pairs(&[("name", "o'brien")]);
    assert_eq!(substitute_params("echo ':name'", &p), "echo 'o'\\''brien'");
    let p = pairs(&[("x", "1")]);
    assert_eq!(substitute_params("echo :y 12:30", &p), "echo :y 12:30");
}

#[test]
fn end_to_end_path_parameter() {
    let routes = parse_routes(&["GET /user/:id".to_string(), "echo :id".to_string()]).unwrap();
    let st = state(routes, HeaderFormat::Json);
    let plan = match plan_command(&st, "GET", "/user/{id}", &pairs(&[("id", "42")]), &pairs(&[]), &pairs(&[])) {
        Ok(p) => p,
        Err(_) => panic!("route is bound"),
    };
    assert_eq!(plan.program, "bash");
    assert_eq!(plan.script, "echo 42");
    assert_eq!(plan.env.len(), 2);
    assert_eq!(plan.env[0], ("HEADERS_JSON".to_string(), "{}".to_string()));
    assert_eq!(plan.env[1], ("QUERY_JSON".to_string(), "{}".to_string()));

    let r = respond_to_outcome(&ExecOutcome::Exited {
        success: true,
        stdout: "42\n".to_string(),
        stderr: String::new(),
    });
    assert_eq!(r.status, 200);
    assert_eq!(r.body, "42\n");
    assert_eq!(r.headers, vec![("Content-Type".to_string(), "text/plain".to_string())]);
}

#[test]
fn end_to_end_status_line() {
    let r = respond_to_outcome(&ExecOutcome::Exited {
        success: true,
        stdout: "@status: 404\nNot found here".to_string(),
        stderr: String::new(),
    });
    assert_eq!(r.status, 404);
    assert_eq!(r.body, "Not found here\n");
}

#[test]
fn end_to_end_unbound_method_is_config_error() {
    let st = state(vec![entry("GET", "/only-get", "echo hi")], HeaderFormat::Json);
    match plan_command(&st, "POST", "/only-get", &pairs(&[]), &pairs(&[]), &pairs(&[])) {
        Err(r) => {
            assert_eq!(r.status, 500);
            assert_eq!(r.body, "Config Error");
        }
        Ok(_) => panic!("no command is bound for POST"),
    }
}

#[test]
fn plan_with_assoc_formats_has_preamble_and_no_env() {
    let st = state(vec![entry("ANY", "/h", "echo done")], HeaderFormat::Assoc);
    let plan = match plan_command(&st, "PUT", "/h", &pairs(&[]), &pairs(&[("a", "b")]), &pairs(&[("q", "1")])) {
        Ok(p) => p,
        Err(_) => panic!("route is bound"),
    };
    assert_eq!(plan.script, "declare -A HEADERS=([a]='b' ); declare -A QUERY=([q]='1' ); echo done");
    assert!(plan.env.is_empty());
}

#[test]
fn plan_json_env_holds_the_pairs() {
    let st = state(vec![entry("GET", "/j", "cat")], HeaderFormat::Json);
    let plan = match plan_command(&st, "GET", "/j", &pairs(&[]), &pairs(&[("b", "2"), ("a", "x\"y")]), &pairs(&[("k", "v")])) {
        Ok(p) => p,
        Err(_) => panic!("route is bound"),
    };
    assert_eq!(plan.env[0].0, "HEADERS_JSON");
    assert_eq!(plan.env[0].1, r#"{"a":"x\"y","b":"2"}"#);
    assert_eq!(plan.env[1], ("QUERY_JSON".to_string(), r#"{"k":"v"}"#.to_string()));
}

#[test]
fn failed_command_and_spawn_failure_are_500() {
    let r = respond_to_outcome(&ExecOutcome::Exited {
        success: false,
        stdout: "ignored".to_string(),
        stderr: "boom".to_string(),
    });
    assert_eq!(r.status, 500);
    assert_eq!(r.body, "Error:\nboom");
    let r = respond_to_outcome(&ExecOutcome::SpawnFailed("No such file or directory".to_string()));
    assert_eq!(r.status, 500);
    assert_eq!(r.body, "No such file or directory");
}
