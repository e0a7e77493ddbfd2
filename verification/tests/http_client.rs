use schedule_manager::api_client::{
    address, assemble, open_envelope, ApiClient, ClientError, Transport, UrlParts,
};
use schedule_manager::http::{decode_chunked, parse_http_response, HttpError};
use schedule_manager::models::ApiEnvelope;

#[test]
fn parses_content_length_response() {
    let response = b"HTTP/1.1 200 OK\r\nContent-Length: 11\r\n\r\n{\"ok\":true}";
    let (status, body) = parse_http_response(response).unwrap();
    assert_eq!(status, 200);
    assert_eq!(body, b"{\"ok\":true}");
}

#[test]
fn decodes_chunked_body() {
    let body = decode_chunked(b"5\r\nhello\r\n6\r\n world\r\n0\r\n\r\n").unwrap();
    assert_eq!(body, b"hello world");
}

#[test]
fn chunked_responses_are_decoded() {
    let response =
        b"HTTP/1.1 404 Not Found\r\nTRANSFER-encoding:  Chunked\r\n\r\n3;x=1\r\nabc\r\n0\r\n\r\n";
    assert_eq!(parse_http_response(response).unwrap(), (404, b"abc".to_vec()));
    // The first line is no header, even when it looks like one.
    let odd = b"Transfer-Encoding: 200 chunked\r\n\r\nabc";
    assert_eq!(parse_http_response(odd).unwrap(), (200, b"abc".to_vec()));
}

#[test]
fn broken_responses_are_refused() {
    assert_eq!(
        parse_http_response(b"HTTP/1.1 200 OK\r\n").unwrap_err(),
        HttpError::HeadersIncomplete
    );
    assert_eq!(
        parse_http_response(b"HTTP/1.1 \xff\xfe\r\n\r\n").unwrap_err(),
        HttpError::InvalidText
    );
    assert_eq!(parse_http_response(b"HTTP/1.1\r\n\r\n").unwrap_err(), HttpError::StatusMissing);
    assert_eq!(parse_http_response(b"\r\n\r\n").unwrap_err(), HttpError::StatusMissing);
    assert_eq!(
        parse_http_response(b"HTTP/1.1 abc\r\n\r\n").unwrap_err(),
        HttpError::InvalidStatus
    );
    assert_eq!(
        parse_http_response(b"HTTP/1.1 65536\r\n\r\n").unwrap_err(),
        HttpError::InvalidStatus
    );
    assert_eq!(
        parse_http_response(b"HTTP/1.1 200\r\nTransfer-Encoding: chunked\r\n\r\n5").unwrap_err(),
        HttpError::ChunkSizeIncomplete
    );
}

#[test]
fn broken_chunks_are_refused() {
    assert_eq!(decode_chunked(b"").unwrap_err(), HttpError::ChunkSizeIncomplete);
    assert_eq!(decode_chunked(b"\r\n").unwrap_err(), HttpError::InvalidChunkSize);
    assert_eq!(decode_chunked(b"xyz\r\n").unwrap_err(), HttpError::InvalidChunkSize);
    assert_eq!(decode_chunked(b"5 \r\nhello\r\n").unwrap_err(), HttpError::InvalidChunkSize);
    assert_eq!(decode_chunked(b"\xff\r\n").unwrap_err(), HttpError::InvalidText);
    assert_eq!(decode_chunked(b"5\r\nhell").unwrap_err(), HttpError::ChunkBodyIncomplete);
    assert_eq!(decode_chunked(b"5\r\nhelloXX0\r\n").unwrap_err(), HttpError::ChunkBodyIncomplete);
    assert_eq!(
        decode_chunked(b"ffffffffffffffffff\r\nx\r\n").unwrap_err(),
        HttpError::InvalidChunkSize
    );
    assert_eq!(decode_chunked(b"+1\r\na\r\n0\r\n").unwrap(), b"a");
    assert_eq!(decode_chunked(b"0\r\nrest").unwrap(), b"");
}

fn client(base: &str, token: Option<&str>) -> ApiClient {
    ApiClient::new(base.to_string(), token.map(|t| t.to_string()))
}

#[test]
fn requests_name_their_target_and_host() {
    let request = client("https://novel.emssion.com/schedule///", None).health().unwrap();
    assert_eq!(request.host, "novel.emssion.com");
    assert_eq!(request.port, 443);
    assert!(matches!(request.transport, Transport::Secure));
    assert_eq!(request.body, "{}");
    assert_eq!(
        request.head,
        "POST /schedule/health HTTP/1.1\r\nHost: novel.emssion.com\r\nUser-Agent: \
         ScheduleManager/0.1\r\nContent-Type: application/json\r\nAccept: \
         application/json\r\nContent-Length: 2\r\nConnection: close\r\n\r\n"
    );
}

#[test]
fn requests_carry_the_token_and_other_ports() {
    let request = client("http://127.0.0.1:8010", Some("abc")).pull(7).unwrap();
    assert_eq!(request.host, "127.0.0.1");
    assert_eq!(request.port, 8010);
    assert!(matches!(request.transport, Transport::Plain));
    assert_eq!(request.body, "{\"cursor\":7}");
    assert!(request.head.starts_with("POST /sync/pull HTTP/1.1\r\nHost: 127.0.0.1:8010\r\n"));
    assert!(request.head.contains("Authorization: Bearer abc\r\nContent-Length: 12\r\n"));
    let request = client("http://[::1]", None).pull(-3).unwrap();
    assert_eq!(request.host, "[::1]");
    assert_eq!(request.port, 80);
    assert!(request.head.contains("Host: [::1]\r\n"));
    assert_eq!(address(&request.host, request.port), "[::1]:80");
}

#[test]
fn bodies_are_what_serde_writes() {
    let client = client("http://localhost", None);
    let name = "A\"\\\u{8}\n\u{1}名";
    let sent = client.register("a@b.c", "p\"w", name, "123456").unwrap().body;
    let read: serde_json::Value = serde_json::from_str(&sent).unwrap();
    assert_eq!(read["email"], "a@b.c");
    assert_eq!(read["password"], "p\"w");
    assert_eq!(read["displayName"], name);
    assert_eq!(read["code"], "123456");
    let read: serde_json::Value =
        serde_json::from_str(&client.request_code("x\"y").unwrap().body).unwrap();
    assert_eq!(read["email"], "x\"y");
    let read: serde_json::Value =
        serde_json::from_str(&client.login("e", "p").unwrap().body).unwrap();
    assert_eq!(read["email"], "e");
    assert_eq!(read["password"], "p");
    let read: serde_json::Value =
        serde_json::from_str(&client.delete_event("i", -2).unwrap().body).unwrap();
    assert_eq!(read["id"], "i");
    assert_eq!(read["baseVersion"], -2);
    let read: serde_json::Value =
        serde_json::from_str(&client.holidays(2025, 2027).unwrap().body).unwrap();
    assert_eq!(read["startYear"], 2025);
    assert_eq!(read["endYear"], 2027);
    let sent = client.upsert_event("{\"id\":1}".to_string()).unwrap();
    assert_eq!(sent.body, "{\"id\":1}");
    assert!(sent.head.starts_with("POST /events/upsert "));
}

#[test]
fn content_length_counts_bytes() {
    let request = client("http://localhost", None).upsert_event("\"名\"".to_string()).unwrap();
    assert!(request.head.contains("Content-Length: 5\r\n"));
}

#[test]
fn urls_without_host_or_port_are_refused() {
    assert!(matches!(client("not a url", None).health(), Err(ClientError::InvalidUrl(_))));
    assert!(matches!(client("mailto:x", None).health(), Err(ClientError::MissingHost)));
    assert!(matches!(client("foo://host", None).health(), Err(ClientError::MissingPort)));
    let request = client("foo://host:5", None).health().unwrap();
    assert!(matches!(request.transport, Transport::Unsupported(scheme) if scheme == "foo"));
    assert_eq!(ClientError::MissingHost.message(), "API URL is missing a host");
    assert_eq!(ClientError::MissingPort.message(), "API URL is missing a port");
}

#[test]
fn an_empty_path_becomes_a_slash_and_queries_stay() {
    let parts = UrlParts {
        scheme: "http".to_string(),
        host: Some("h".to_string()),
        port: Some(80),
        path: String::new(),
        query: Some("a=b".to_string()),
    };
    let request = assemble(Some(parts), "/x", &None, String::new()).unwrap();
    assert!(request.head.starts_with("POST /?a=b HTTP/1.1\r\nHost: h\r\n"));
    let request = client("http://h/p?q=1", None).health().unwrap();
    assert!(request.head.starts_with("POST /p?q=1/health HTTP/1.1\r\n"));
}

#[test]
fn only_successful_envelopes_open() {
    let envelope = |code: i32| ApiEnvelope { code, message: "不行".to_string(), data: 5 };
    assert_eq!(open_envelope(200, envelope(0)).unwrap(), 5);
    assert_eq!(open_envelope(299, envelope(0)).unwrap(), 5);
    for (status, code) in [(199, 0), (300, 0), (200, 1), (401, 401)] {
        match open_envelope(status, envelope(code)) {
            Err(ClientError::Refused(message)) => assert_eq!(message, "不行"),
            _ => panic!("opened"),
        }
    }
}

#[test]
fn a_chunked_body_that_is_cut_off_is_refused() {
    let whole = b"5\r\nhello\r\n6\r\n world\r\n0\r\n\r\n";
    for cut in 0..whole.len() - 2 {
        assert!(decode_chunked(&whole[..cut]).is_err());
    }
    for cut in whole.len() - 2..=whole.len() {
        assert_eq!(decode_chunked(&whole[..cut]).unwrap(), b"hello world");
    }
}
