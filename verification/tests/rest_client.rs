use rustbits::rest::{
    body_source, format_body, json_paints, parse_header, parse_headers, parse_method,
    pretty_print_json, status_class, BodySource, HttpMethod, JsonPaint, JsonValue, OutputFormat,
    StatusClass,
};

#[test]
fn methods() {
    assert_eq!(parse_method("get").unwrap().name, "GET");
    assert_eq!(parse_method("Post").unwrap().name, "POST");
    assert_eq!(parse_method("purge").unwrap().name, "PURGE");
    assert_eq!(parse_method("m-search").unwrap().name, "M-SEARCH");
    let get = parse_method("get").unwrap();
    assert_eq!(reqwest::Method::from_bytes(get.name.as_bytes()).unwrap(), reqwest::Method::GET);
    assert_eq!(
        parse_method("bé").unwrap_err(),
        "Invalid HTTP method: 'bé'. Use GET, POST, PUT, DELETE, etc."
    );
    assert_eq!(
        parse_method("bad method").unwrap_err(),
        "Invalid HTTP method: 'bad method'. Use GET, POST, PUT, DELETE, etc."
    );
    assert_eq!(
        parse_method("").unwrap_err(),
        "Invalid HTTP method: ''. Use GET, POST, PUT, DELETE, etc."
    );
}

#[test]
fn headers() {
    assert_eq!(
        parse_header("Content-Type: application/json"),
        Ok((String::from("Content-Type"), String::from("application/json")))
    );
    assert_eq!(parse_header("  X-A :  b:c  "), Ok((String::from("X-A"), String::from("b:c"))));
    assert_eq!(parse_header("Key:"), Ok((String::from("Key"), String::new())));
    assert_eq!(
        parse_header("NoColon"),
        Err(String::from("Invalid header format 'NoColon'. Expected 'Key: Value'"))
    );
    assert_eq!(
        parse_header("  : value"),
        Err(String::from("Invalid header format '  : value'. Expected 'Key: Value'"))
    );
}

#[test]
fn header_round_trip() {
    for (k, v) in [("Accept", "text/plain"), ("X-Y", ""), ("a", "b c")] {
        for sep in [":", " : ", ":\t"] {
            let line = format!("{k}{sep}{v}");
            assert_eq!(parse_header(&line), Ok((k.to_string(), v.to_string())));
        }
    }
}

#[test]
fn many_headers() {
    let hs = vec![String::from("A: 1"), String::from("bad"), String::from("B:2")];
    let r = parse_headers(&hs);
    assert_eq!(r.len(), 3);
    assert_eq!(r[0], Ok((String::from("A"), String::from("1"))));
    assert!(r[1].is_err());
    assert_eq!(r[2], Ok((String::from("B"), String::from("2"))));
}

#[test]
fn body_sources() {
    let d = Some(String::from("x"));
    let f = Some(String::from("f.json"));
    assert_eq!(body_source(&d, &f), BodySource::Inline(String::from("x")));
    assert_eq!(body_source(&None, &f), BodySource::File(String::from("f.json")));
    assert_eq!(body_source(&None, &None), BodySource::Empty);
}

#[test]
fn status_classes() {
    assert_eq!(status_class(200), StatusClass::Success);
    assert_eq!(status_class(299), StatusClass::Success);
    assert_eq!(status_class(302), StatusClass::Other);
    assert_eq!(status_class(404), StatusClass::ClientError);
    assert_eq!(status_class(503), StatusClass::ServerError);
    assert_eq!(status_class(600), StatusClass::Other);
    assert_eq!(status_class(100), StatusClass::Other);
}

#[test]
fn body_formats() {
    let json = "{\"a\":1,\"b\":[true,null]}";
    let pretty = "{\n  \"a\": 1,\n  \"b\": [\n    true,\n    null\n  ]\n}";
    assert_eq!(format_body(json, OutputFormat::Raw).unwrap(), json);
    assert_eq!(format_body(json, OutputFormat::Auto).unwrap(), pretty);
    assert_eq!(format_body(json, OutputFormat::Json).unwrap(), pretty);
    assert_eq!(format_body(json, OutputFormat::Pretty).unwrap(), pretty);
    assert_eq!(format_body("not json", OutputFormat::Auto).unwrap(), "not json");
    assert_eq!(format_body("<html>", OutputFormat::Pretty).unwrap(), "<html>");
}

#[test]
fn method_ignores_ascii_case() {
    for (a, b) in [("get", "GET"), ("Get", "gEt"), ("delete", "DELETE"), ("x-Y", "X-y")] {
        assert_eq!(parse_method(a), parse_method(b));
    }
    assert_eq!(parse_method("pAtCh"), Ok(HttpMethod { name: String::from("PATCH") }));
}

#[test]
fn json_values_and_pretty_text() {
    assert!(JsonValue::parse("{\"a\":1}").is_some());
    assert!(JsonValue::parse("[1, 2").is_none());
    assert!(JsonValue::parse("").is_none());
    let v = JsonValue::parse("{\"a\":1}").unwrap();
    assert_eq!(pretty_print_json(&v), "{\n  \"a\": 1\n}");
    let w = JsonValue::parse(" [true,null,\"x\"] ").unwrap();
    assert_eq!(pretty_print_json(&w), "[\n  true,\n  null,\n  \"x\"\n]");
    let once = format_body("{\"k\":[1,2,{\"z\":\"w\"}]}", OutputFormat::Json).unwrap();
    assert_eq!(format_body(&once, OutputFormat::Json).unwrap(), once);
}

#[test]
fn json_paint_runs() {
    let (p, t, n, k) = (JsonPaint::Plain, JsonPaint::Text, JsonPaint::Number, JsonPaint::Keyword);
    let text = "{\"a\\\"\": -1.5e3, \"b\": true}";
    let paints = json_paints(text);
    assert_eq!(paints.len(), text.chars().count());
    let expect = vec![
        p, t, t, t, t, t, p, p, n, n, n, n, n, n, p, p, t, t, t, p, p, k, k, k, k, p,
    ];
    assert_eq!(paints, expect);
}
