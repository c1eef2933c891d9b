use vertx::network::api::{Body, Method, Response};
use vertx::server::http::{content_length, find_body, next_step, read_head, Buffer, Step};
use vertx::server::respond::{
    bad_request, method_not_allowed, not_acceptable, not_found, ok, ok_default, Mime,
};
use vertx::server::router::{api_outcome, find_route, route, start_event_stream, File, Outcome, Route};
use vertx::server::{dhcp_reply_target, stack_config, StackConfig};
use vertx::network::NetworkKind;

#[test]
fn find_body_gives_the_offset_past_the_first_crlf_crlf() {
    assert_eq!(find_body(b"GET / HTTP/1.1\r\n\r\n", 0), Some(18));
    assert_eq!(find_body(b"a\r\n\r\nb", 0), Some(5));
    assert_eq!(find_body(b"GET / HTTP/1.1\r\nHost: x\r\n\r\nbody", 0), Some(27));
    assert_eq!(find_body(b"GET / HTTP/1.1\r\nA\r\nbody", 0), None);
    assert_eq!(find_body(b"GET / HTTP/1.1\r\nHost: x", 0), None);
    assert_eq!(find_body(b"\r\n\r", 0), None);
    assert_eq!(find_body(b"\r\n\r\n\r\n\r\n", 0), Some(4));
}

#[test]
fn find_body_starts_three_bytes_before_the_last_read() {
    // The marker straddles the previous read: it is still found.
    assert_eq!(find_body(b"GET / HTTP/1.1\r\n\r\nbody", 17), Some(18));
    // A marker that ends before the previous read is not looked at again.
    assert_eq!(find_body(b"GET / HTTP/1.1\r\n\r\nbody", 19), None);
    assert_eq!(find_body(b"abc", 2), None);
    assert_eq!(find_body(b"abc", 9), None);
}

#[test]
fn responses_have_exact_bytes() {
    assert_eq!(
        ok(b"text/html", b"hello"),
        b"HTTP/1.1 200 OK\r\nContent-Type:text/html\r\nContent-Length:5\r\n\r\nhello".to_vec()
    );
    assert_eq!(
        ok_default(),
        b"HTTP/1.1 200 OK\r\nContent-Type:text/plain\r\nContent-Length:2\r\n\r\nOK".to_vec()
    );
    assert_eq!(
        bad_request(b"Bad Request"),
        b"HTTP/1.1 400 Bad Request\r\nContent-Type:text/plain\r\nContent-Length:11\r\n\r\nBad Request"
            .to_vec()
    );
    assert_eq!(
        not_found(),
        b"HTTP/1.1 404 Not Found\r\nContent-Type:text/plain\r\nContent-Length:9\r\n\r\nNot Found".to_vec()
    );
    assert_eq!(
        method_not_allowed(&[Method::Get, Method::Post]),
        b"HTTP/1.1 405 Method Not Allowed\r\nAllow:GET,POST\r\nContent-Length:0\r\n\r\n".to_vec()
    );
    let mime = Mime::new("text", "html", "charset=utf-8");
    assert_eq!(
        not_acceptable(&mime),
        b"HTTP/1.1 406 Not Acceptable\r\nContent-Type:text/plain\r\nContent-Length:22\r\n\r\ntext/html;charset=utf-8"
            .to_vec()
    );
}

#[test]
fn content_length_uses_large_numbers() {
    let big = ok(b"a", &vec![0u8; 1234]);
    assert!(big.starts_with(b"HTTP/1.1 200 OK\r\nContent-Type:a\r\nContent-Length:1234\r\n\r\n"));
}

#[test]
fn mime_acceptance() {
    let html = Mime::new("text", "html", "");
    assert!(html.is_acceptable("*/*"));
    assert!(html.is_acceptable("text/html"));
    assert!(html.is_acceptable("image/png, text/*"));
    assert!(html.is_acceptable("  text/html  "));
    assert!(!html.is_acceptable("image/png"));
    assert!(!html.is_acceptable("text"));
    assert!(!html.is_acceptable("text, */*"));
    assert!(html.is_acceptable("image/png,\u{3000}*/*"));
    assert_eq!(html.len(), 10);
    assert_eq!(html.to_bytes(), b"text/html".to_vec());
}

#[test]
fn mime_with_parameters_in_its_subtype_compares_their_head() {
    // The part of its own subtype before the `;` is compared with its whole
    // subtype, so only a `*/*` item accepts it.
    let odd = Mime::new("text", "html;level=1", "");
    assert!(!odd.is_acceptable("text/html"));
    assert!(!odd.is_acceptable("text/html;level=1"));
    assert!(!odd.is_acceptable("text/*"));
    assert!(odd.is_acceptable("*/*"));
}

#[test]
fn buffer_keeps_what_follows_a_request() {
    let mut buffer = Buffer::new(vec![0; 16]);
    assert_eq!(buffer.remaining(), 16);
    assert_eq!(buffer.receive(b"abcdef"), 6);
    assert_eq!(buffer.data(), b"abcdef");
    buffer.finish_request(2, 1);
    assert_eq!(buffer.data(), b"def");
    buffer.discard_prefix(1);
    assert_eq!(buffer.data(), b"ef");
    buffer.clear();
    assert_eq!(buffer.len(), 0);
}

#[test]
fn request_heads() {
    let raw = b"get /api/x HTTP/1.1\r\nConnection: CLOSE\r\nContent-Length: 12\r\n\r\n";
    let head = read_head(raw).unwrap();
    assert_eq!(head.method, Method::Get);
    assert_eq!(head.path, "/api/x");
    assert!(head.close);
    assert_eq!(content_length(&head.headers), 12);

    let raw = b"POST / HTTP/1.1\r\nHost: a\r\n\r\n";
    let head = read_head(raw).unwrap();
    assert_eq!(head.headers.len(), 1);
    assert_eq!(head.headers[0].0, "Host");
    assert_eq!(head.headers[0].1, b"a");
    assert_eq!(head.method, Method::Post);
    assert!(!head.close);
    assert_eq!(content_length(&head.headers), 0);

    assert_eq!(next_step(&read_head(raw)), Step::Serve { close: false });
    assert_eq!(next_step(&read_head(b"get / HTTP/1.1\r\nConnection: close\r\n\r\n")), Step::Serve { close: true });
    assert_eq!(next_step(&read_head(b"FETCH / HTTP/1.1\r\n\r\n")), Step::Reject);
    assert!(read_head(b"FETCH / HTTP/1.1\r\n\r\n").is_err());
    assert!(read_head(b"GET / HTTP/1.1\r\nBad Header\r\n\r\n").is_err());
}

const INDEX: File<'static> = File {
    mime: Mime { typ: "text", subtype: "html", parameters: "" },
    gzipped: false,
    content: b"<html>",
};

const ASSETS: &[(&str, File<'static>)] = &[
    (
        "/app.js",
        File {
            mime: Mime { typ: "text", subtype: "javascript", parameters: "" },
            gzipped: true,
            content: b"js",
        },
    ),
    (
        "/style.css",
        File {
            mime: Mime { typ: "text", subtype: "css", parameters: "" },
            gzipped: false,
            content: b"css",
        },
    ),
];

#[test]
fn routing() {
    assert_eq!(find_route(ASSETS, "/style.css"), Some(1));
    assert_eq!(find_route(ASSETS, "/app.js"), Some(0));
    assert_eq!(find_route(ASSETS, "/missing"), None);

    let headers = [("Accept", b"*/*".as_slice())];
    match route("/api/config", Method::Post, &headers, ASSETS, &INDEX) {
        Route::Api(path) => assert_eq!(path, "config"),
        Route::Static(_) => panic!(),
    }
    match route("/app.js", Method::Get, &headers, ASSETS, &INDEX) {
        Route::Static(bytes) => assert_eq!(
            bytes,
            b"HTTP/1.1 200 Ok\r\nContent-Type:text/javascript\r\nContent-Encoding:gzip\r\nContent-Length:2\r\n\r\njs".to_vec()
        ),
        Route::Api(_) => panic!(),
    }
    match route("/elsewhere", Method::Get, &[], ASSETS, &INDEX) {
        Route::Static(bytes) => assert_eq!(
            bytes,
            b"HTTP/1.1 200 Ok\r\nContent-Type:text/html\r\nContent-Length:6\r\n\r\n<html>".to_vec()
        ),
        Route::Api(_) => panic!(),
    }
    let json_only = [("accept", b"application/json".as_slice())];
    match route("/", Method::Get, &json_only, ASSETS, &INDEX) {
        Route::Static(bytes) => assert_eq!(
            bytes,
            b"HTTP/1.1 406 Not Acceptable\r\nContent-Type:text/plain\r\nContent-Length:10\r\n\r\ntext/html".to_vec()
        ),
        Route::Api(_) => panic!(),
    }
    match route("/", Method::Delete, &[], ASSETS, &INDEX) {
        Route::Static(bytes) => assert_eq!(
            bytes,
            b"HTTP/1.1 405 Method Not Allowed\r\nAllow:GET\r\nContent-Length:0\r\n\r\n".to_vec()
        ),
        Route::Api(_) => panic!(),
    }
}

#[test]
fn api_outcomes() {
    match api_outcome::<u8>(Response::Success(None)) {
        Outcome::Complete(bytes) => assert_eq!(bytes, ok_default()),
        Outcome::EventStream(_) => panic!(),
    }
    let body = Body { mime: b"application/json".to_vec(), body: b"{}".to_vec() };
    match api_outcome::<u8>(Response::Success(Some(body))) {
        Outcome::Complete(bytes) => assert_eq!(bytes, ok(b"application/json", b"{}")),
        Outcome::EventStream(_) => panic!(),
    }
    match api_outcome::<u8>(Response::EventStream(7)) {
        Outcome::EventStream(id) => assert_eq!(id, 7),
        Outcome::Complete(_) => panic!(),
    }
    assert_eq!(
        start_event_stream(),
        b"HTTP/1.1 200 OK\r\nContent-Type:text/event-stream\r\nCache-Control:no-cache\r\n\r\n".to_vec()
    );
}

#[test]
fn network_stack_configuration() {
    match stack_config(NetworkKind::Field, String::new(), [10, 0, 0, 1]) {
        (StackConfig::Static { address, prefix_len, gateway }, dhcp) => {
            assert_eq!(address, [10, 0, 0, 1]);
            assert_eq!(prefix_len, 24);
            assert_eq!(gateway, [10, 0, 0, 1]);
            assert_eq!(dhcp, Some([10, 0, 0, 1]));
        }
        _ => panic!(),
    }
    match stack_config(NetworkKind::Home, String::from("vertx"), [10, 0, 0, 1]) {
        (StackConfig::Dhcp { hostname }, None) => assert_eq!(hostname, "vertx"),
        _ => panic!(),
    }
    assert_eq!(dhcp_reply_target(false, [0, 0, 0, 0], 68), ([255, 255, 255, 255], 68));
    assert_eq!(dhcp_reply_target(true, [10, 0, 0, 2], 68), ([255, 255, 255, 255], 68));
    assert_eq!(dhcp_reply_target(false, [10, 0, 0, 2], 68), ([10, 0, 0, 2], 68));
}
