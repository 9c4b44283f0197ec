use sherut::handler::fallback_handler;
use sherut::response::{content_type_for, detect_content_type, synthesize_response};

fn header<'a>(headers: &'a [(String, String)], name: &str) -> Vec<&'a str> {
    headers.iter().filter(|(k, _)| k == name).map(|(_, v)| v.as_str()).collect()
}

#[test]
fn test_detect_content_type_json_object() {
    let body = r#"{"name": "test", "value": 123}"#;
    assert_eq!(detect_content_type(body), "application/json");
}

#[test]
fn test_detect_content_type_json_array() {
    let body = r#"[1, 2, 3]"#;
    assert_eq!(detect_content_type(body), "application/json");
}

#[test]
fn test_detect_content_type_json_with_whitespace() {
    let body = r#"
            {
                "name": "test"
            }
        "#;
    assert_eq!(detect_content_type(body), "application/json");
}

#[test]
fn test_detect_content_type_invalid_json() {
    let body = r#"{not valid json}"#;
    assert_eq!(detect_content_type(body), "text/plain");
}

#[test]
fn test_detect_content_type_xml_declaration() {
    let body = r#"<?xml version="1.0"?><root></root>"#;
    assert_eq!(detect_content_type(body), "application/xml");
}

#[test]
fn test_detect_content_type_xml_doctype() {
    let body = r#"<!DOCTYPE note><note></note>"#;
    assert_eq!(detect_content_type(body), "application/xml");
}

#[test]
fn test_detect_content_type_xml_tags() {
    let body = r#"<root><child>value</child></root>"#;
    assert_eq!(detect_content_type(body), "application/xml");
}

#[test]
fn test_detect_content_type_html_doctype() {
    let body = r#"<!DOCTYPE html><html><body></body></html>"#;
    assert_eq!(detect_content_type(body), "text/html");
}

#[test]
fn test_detect_content_type_html_tag() {
    let body = r#"<html><head></head><body>Hello</body></html>"#;
    assert_eq!(detect_content_type(body), "text/html");
}

#[test]
fn test_detect_content_type_plain_text() {
    let body = "Hello, World!";
    assert_eq!(detect_content_type(body), "text/plain");
}

#[test]
fn test_detect_content_type_empty() {
    let body = "";
    assert_eq!(detect_content_type(body), "text/plain");
}

#[test]
fn test_detect_content_type_whitespace_only() {
    let body = "   \n\t  ";
    assert_eq!(detect_content_type(body), "text/plain");
}

#[test]
fn test_detect_content_type_nested_json() {
    let body = r#"{"users": [{"id": 1, "name": "Alice"}, {"id": 2, "name": "Bob"}]}"#;
    assert_eq!(detect_content_type(body), "application/json");
}

#[test]
fn detect_content_type_listed_examples() {
    assert_eq!(detect_content_type(r#"{"a":1}"#), "application/json");
    assert_eq!(detect_content_type("[1,2,3]"), "application/json");
    assert_eq!(detect_content_type("{not valid json}"), "text/plain");
    assert_eq!(detect_content_type("<!DOCTYPE html><html></html>"), "text/html");
    assert_eq!(detect_content_type(r#"<?xml version="1.0"?><root/>"#), "application/xml");
    assert_eq!(detect_content_type(""), "text/plain");
}

#[test]
fn detect_content_type_html_case_and_xml_fallbacks() {
    assert_eq!(detect_content_type("<HTML><BODY>x</BODY></HTML>"), "text/html");
    assert_eq!(detect_content_type("<!doctype HTML>"), "text/html");
    assert_eq!(detect_content_type("<!doctype note>"), "text/plain");
    assert_eq!(detect_content_type("<a>b</a> trailing"), "text/plain");
    assert_eq!(detect_content_type("<br>"), "text/plain");
    assert_eq!(detect_content_type("[1, 2"), "text/plain");
}

#[test]
fn content_type_for_takes_the_json_answer() {
    assert_eq!(content_type_for("{x}", true), "application/json");
    assert_eq!(content_type_for("{x}", false), "text/plain");
    assert_eq!(content_type_for("  [ ]\n", true), "application/json");
    assert_eq!(content_type_for("plain", true), "text/plain");
    assert_eq!(content_type_for("<html>", false), "text/html");
}

#[test]
fn synthesize_status_and_body() {
    let r = synthesize_response("@status: 404\nNot found here");
    assert_eq!(r.status, 404);
    assert_eq!(r.body, "Not found here\n");
    assert_eq!(header(&r.headers, "Content-Type"), vec!["text/plain"]);
}

#[test]
fn synthesize_plain_output() {
    let r = synthesize_response("42\n");
    assert_eq!(r.status, 200);
    assert_eq!(r.body, "42\n");
    assert_eq!(r.headers.len(), 1);
    assert_eq!(header(&r.headers, "Content-Type"), vec!["text/plain"]);
}

#[test]
fn synthesize_explicit_headers_kept_in_order() {
    let out = "@header: Content-Type: application/json\n@header: X-A:  1 \n@header: x-a: 2\n{\"a\":1}";
    let r = synthesize_response(out);
    assert_eq!(r.status, 200);
    assert_eq!(
        r.headers,
        vec![
            ("Content-Type".to_string(), "application/json".to_string()),
            ("X-A".to_string(), "1".to_string()),
            ("x-a".to_string(), "2".to_string()),
        ]
    );
    assert_eq!(r.body, "{\"a\":1}\n");
}

#[test]
fn synthesize_content_type_any_case_counts() {
    let r = synthesize_response("@header: CONTENT-type: text/csv\na,b");
    assert_eq!(r.headers, vec![("CONTENT-type".to_string(), "text/csv".to_string())]);
}

#[test]
fn synthesize_status_rules() {
    assert_eq!(synthesize_response("@status: 201\n@status: 202\nx").status, 202);
    assert_eq!(synthesize_response("@status: 404\n@status: abc").status, 404);
    assert_eq!(synthesize_response("@status: 99").status, 200);
    assert_eq!(synthesize_response("@status: 1000").status, 200);
    assert_eq!(synthesize_response("@status: 70000").status, 200);
    assert_eq!(synthesize_response("@status: +301").status, 301);
    assert_eq!(synthesize_response("@status:0404").status, 404);
    assert_eq!(synthesize_response("@status: -404").status, 200);
    assert_eq!(synthesize_response("@status: 999").status, 999);
}

#[test]
fn synthesize_control_lines_only_give_empty_body() {
    let r = synthesize_response("@status: 204\n@header: X: y\n@header: no colon here\n");
    assert_eq!(r.status, 204);
    assert_eq!(r.body, "");
    assert_eq!(
        r.headers,
        vec![
            ("X".to_string(), "y".to_string()),
            ("Content-Type".to_string(), "text/plain".to_string()),
        ]
    );
}

#[test]
fn synthesize_line_splitting() {
    assert_eq!(synthesize_response("a\r\nb\r\n").body, "a\nb\n");
    assert_eq!(synthesize_response("a\n\nb").body, "a\n\nb\n");
    assert_eq!(synthesize_response("").body, "");
    assert_eq!(synthesize_response("\n").body, "\n");
    assert_eq!(synthesize_response("x\r").body, "x\r\n");
}

#[test]
fn synthesize_infers_json_body() {
    let r = synthesize_response("[1,2]\n");
    assert_eq!(header(&r.headers, "Content-Type"), vec!["application/json"]);
}

#[test]
fn test_fallback_handler() {
    let r = fallback_handler();
    assert_eq!(r.status, 404);
    assert_eq!(r.body, "Route not found");
}
