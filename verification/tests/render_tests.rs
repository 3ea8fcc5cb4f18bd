use httpc::BodyFormatError;
use httpc::CliRequest;
use httpc::CommandSpec;
use httpc::HttpResponse;
use httpc::Mapping;
use httpc::RequestDispatcher;
use httpc::ResponseRenderer;
use httpc::jsonenc::encode_object;
use httpc::render::is_json_content_type;
use httpc::strutil::u16_to_dec;

fn resp(status: u16, headers: &[(&str, &str)], body: &str) -> HttpResponse {
    HttpResponse {
        status,
        version: "HTTP/1.1".to_string(),
        headers: headers
            .iter()
            .map(|(n, v)| (n.to_string(), v.to_string()))
            .collect(),
        body: body.to_string(),
    }
}

#[test]
fn plain_text_body_is_printed_verbatim() {
    let out = ResponseRenderer::render(&resp(200, &[("content-type", "text/plain")], "hello"))
        .unwrap();
    assert_eq!(out.status_line, "200 HTTP/1.1");
    assert_eq!(out.body, "hello");
}

#[test]
fn json_body_is_pretty_printed() {
    let out = ResponseRenderer::render(&resp(
        200,
        &[("content-type", "application/json")],
        "{\"a\":1}",
    ))
    .unwrap();
    assert_eq!(out.body, "{\n  \"a\": 1\n}");
}

#[test]
fn json_with_charset_parameter_is_still_json() {
    let out = ResponseRenderer::render(&resp(
        200,
        &[("content-type", "application/json; charset=utf-8")],
        "{\"ok\":true}",
    ))
    .unwrap();
    assert_eq!(out.body, "{\n  \"ok\": true\n}");
}

#[test]
fn content_type_lookup_is_case_insensitive() {
    let out = ResponseRenderer::render(&resp(
        200,
        &[("Content-Type", "Application/JSON")],
        "{\"a\":1}",
    ))
    .unwrap();
    assert_eq!(out.body, "{\n  \"a\": 1\n}");
}

#[test]
fn missing_content_type_prints_body_verbatim() {
    let out = ResponseRenderer::render(&resp(204, &[], "{\"a\":1}")).unwrap();
    assert_eq!(out.body, "{\"a\":1}");
    assert_eq!(out.status_line, "204 HTTP/1.1");
}

#[test]
fn other_content_type_prints_body_verbatim() {
    let out = ResponseRenderer::render(&resp(
        200,
        &[("content-type", "application/json-seq")],
        "{\"a\":1}",
    ))
    .unwrap();
    assert_eq!(out.body, "{\"a\":1}");
}

#[test]
fn headers_keep_receipt_order_and_duplicates() {
    let out = ResponseRenderer::render(&resp(
        200,
        &[("set-cookie", "a=1"), ("x-two", "2"), ("set-cookie", "b=2")],
        "",
    ))
    .unwrap();
    let names: Vec<&str> = out.headers.iter().map(|h| h.0.as_str()).collect();
    assert_eq!(names, vec!["set-cookie", "x-two", "set-cookie"]);
    assert_eq!(out.headers[2].1, "b=2");
}

#[test]
fn first_content_type_header_decides() {
    let out = ResponseRenderer::render(&resp(
        200,
        &[
            ("content-type", "text/plain"),
            ("content-type", "application/json"),
        ],
        "{\"a\":1}",
    ))
    .unwrap();
    assert_eq!(out.body, "{\"a\":1}");
}

#[test]
fn plain_text_layout_has_blank_line_after_headers() {
    let out = ResponseRenderer::render(&resp(200, &[("content-type", "text/plain")], "hello"))
        .unwrap();
    assert_eq!(
        out.plain_text(),
        "200 HTTP/1.1\ncontent-type: text/plain\n\nhello\n"
    );
}

#[test]
fn plain_text_layout_with_zero_headers() {
    let out = ResponseRenderer::render(&resp(404, &[], "missing")).unwrap();
    assert_eq!(out.plain_text(), "404 HTTP/1.1\n\nmissing\n");
}

#[test]
fn media_token_extraction() {
    assert!(is_json_content_type("application/json"));
    assert!(is_json_content_type("application/json; charset=utf-8"));
    assert!(is_json_content_type("  application/json  ; q=1"));
    assert!(is_json_content_type("APPLICATION/JSON"));
    assert!(!is_json_content_type("application/jsonx"));
    assert!(!is_json_content_type("\u{FFFD}application/json"));
    assert!(!is_json_content_type("text/json-ish"));
    assert!(!is_json_content_type(""));
}

#[test]
fn decimal_status_codes() {
    assert_eq!(u16_to_dec(0), "0");
    assert_eq!(u16_to_dec(7), "7");
    assert_eq!(u16_to_dec(200), "200");
    assert_eq!(u16_to_dec(404), "404");
    assert_eq!(u16_to_dec(65535), "65535");
}

#[test]
fn json_encoding_escapes_specials() {
    let mut m = Mapping::new();
    m.insert("qu\"ote".to_string(), "back\\slash".to_string());
    m.insert("line".to_string(), "a\nb".to_string());
    assert_eq!(
        encode_object(&m),
        "{\"qu\\\"ote\":\"back\\\\slash\",\"line\":\"a\\u000ab\"}"
    );
}

#[test]
fn json_encoding_of_empty_mapping() {
    let m = Mapping::new();
    assert_eq!(encode_object(&m), "{}");
}

#[test]
fn body_format_error_message() {
    let e = BodyFormatError {};
    assert_eq!(e.message(), "response body is not valid JSON");
}

#[test]
fn end_to_end_post_and_render() {
    let args: Vec<String> = vec![
        "post".to_string(),
        "--url".to_string(),
        "https://example.test/x".to_string(),
        "--body".to_string(),
        "name=Alice,age=30".to_string(),
    ];
    let cmd = match CommandSpec::parse(&args) {
        Ok(CliRequest::Run(c)) => c,
        _ => panic!("expected a command"),
    };
    let req = RequestDispatcher::plan(&cmd);
    assert_eq!(req.url, "https://example.test/x");
    assert_eq!(req.body.as_deref(), Some("{\"name\":\"Alice\",\"age\":\"30\"}"));
    let out = ResponseRenderer::render(&resp(
        200,
        &[("content-type", "application/json")],
        "{\"ok\":true}",
    ))
    .unwrap();
    assert_eq!(out.status_line, "200 HTTP/1.1");
    assert_eq!(out.body, "{\n  \"ok\": true\n}");
    assert_eq!(
        out.plain_text(),
        "200 HTTP/1.1\ncontent-type: application/json\n\n{\n  \"ok\": true\n}\n"
    );
}
