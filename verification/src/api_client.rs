//! Requests to the calendar server and the reading of its answers.
//!
//! A client prepares whole requests and judges answers; sending and receiving bytes is up to the
//! caller.
use crate::models::ApiEnvelope;
use crate::text::{
    chars_of, decimal, decimal_text, same_text, signed_decimal, signed_text, string_from,
};
use vstd::prelude::*;
use vstd::utf8::encode_utf8;

verus! {

/// What the client needs of a URL.
#[derive(Debug)]
pub struct UrlParts {
    pub scheme: String,
    pub host: Option<String>,
    pub port: Option<u16>,
    pub path: String,
    pub query: Option<String>,
}

/// The text inside an optional string.
pub open spec fn text_in(s: Option<String>) -> Option<Seq<char>> {
    match s {
        Some(t) => Some(t@),
        None => None,
    }
}

impl View for UrlParts {
    type V = (Seq<char>, Option<Seq<char>>, Option<u16>, Seq<char>, Option<Seq<char>>);

    open spec fn view(&self) -> Self::V {
        (self.scheme@, text_in(self.host), self.port, self.path@, text_in(self.query))
    }
}

/// What `url` reads in a text: scheme, host, port or the default port of the scheme, path, query.
pub uninterp spec fn parsed_url(s: Seq<char>) -> Option<
    (Seq<char>, Option<Seq<char>>, Option<u16>, Seq<char>, Option<Seq<char>>),
>;

/// Calls `url`'s `Url::parse` and takes the result apart with `scheme`, `host_str`,
/// `port_or_known_default`, `path` and `query`. The schemes `http` and `https` have a known port.
#[verifier::external_body]
fn url_parts(s: &str) -> (r: Option<UrlParts>)
    ensures
        match r {
            Some(parts) => parsed_url(s@) == Some(parts@),
            None => parsed_url(s@) is None,
        },
        r matches Some(parts) ==> parts.scheme@ == "http"@ || parts.scheme@ == "https"@
            ==> parts.port is Some,
{
    let url = url::Url::parse(s).ok()?;
    Some(UrlParts {
        scheme: url.scheme().to_string(),
        host: url.host_str().map(|host| host.to_string()),
        port: url.port_or_known_default(),
        path: url.path().to_string(),
        query: url.query().map(|query| query.to_string()),
    })
}

/// A text as a JSON string, as `serde_json` writes it.
pub uninterp spec fn json_quoted(s: Seq<char>) -> Seq<char>;

/// Calls `serde_json`'s `to_string` on a text: the JSON string that stands for it.
#[verifier::external_body]
fn json_string(s: &str) -> (r: String)
    ensures
        r@ == json_quoted(s@),
{
    serde_json::to_string(s).unwrap()
}

/// How to reach a server.
#[derive(Debug)]
pub enum Transport {
    /// Over TLS.
    Secure,
    /// Over plain TCP.
    Plain,
    /// In no way: the URL has another scheme.
    Unsupported(String),
}

/// A request that is ready to be sent.
#[derive(Debug)]
pub struct ApiRequest {
    pub host: String,
    pub port: u16,
    pub transport: Transport,
    /// Request line and headers, with the empty line that ends them.
    pub head: String,
    pub body: String,
}

/// How to reach a server, with the scheme of an unsupported URL as text.
pub enum TransportView {
    Secure,
    Plain,
    Unsupported(Seq<char>),
}

impl View for Transport {
    type V = TransportView;

    open spec fn view(&self) -> TransportView {
        match self {
            Transport::Secure => TransportView::Secure,
            Transport::Plain => TransportView::Plain,
            Transport::Unsupported(scheme) => TransportView::Unsupported(scheme@),
        }
    }
}

/// How a URL with this scheme is reached: over TLS for `https`, plainly for `http`.
pub open spec fn transport_for(scheme: Seq<char>) -> TransportView {
    if scheme == "https"@ {
        TransportView::Secure
    } else if scheme == "http"@ {
        TransportView::Plain
    } else {
        TransportView::Unsupported(scheme)
    }
}

/// What a request holds.
#[verifier::ext_equal]
pub struct RequestView {
    pub host: Seq<char>,
    pub port: u16,
    pub transport: TransportView,
    pub head: Seq<char>,
    pub body: Seq<char>,
}

impl View for ApiRequest {
    type V = RequestView;

    open spec fn view(&self) -> RequestView {
        RequestView {
            host: self.host@,
            port: self.port,
            transport: self.transport@,
            head: self.head@,
            body: self.body@,
        }
    }
}

/// Why a request failed.
#[derive(Debug)]
pub enum ClientError {
    /// Base URL and path do not make a URL.
    InvalidUrl(String),
    MissingHost,
    MissingPort,
    /// The server refused, with this message.
    Refused(String),
}

/// What users read for an error.
pub open spec fn client_error_text(e: ClientError) -> Seq<char> {
    match e {
        ClientError::InvalidUrl(path) => "invalid API URL for "@ + path@,
        ClientError::MissingHost => "API URL is missing a host"@,
        ClientError::MissingPort => "API URL is missing a port"@,
        ClientError::Refused(message) => message@,
    }
}

impl ClientError {
    /// What users read for this error.
    pub fn message(&self) -> (r: String)
        ensures
            r@ == client_error_text(*self),
    {
        match self {
            ClientError::InvalidUrl(path) => {
                let mut r = "invalid API URL for ".to_owned();
                r.append(path.as_str());
                r
            },
            ClientError::MissingHost => "API URL is missing a host".to_owned(),
            ClientError::MissingPort => "API URL is missing a port".to_owned(),
            ClientError::Refused(message) => message.clone(),
        }
    }
}

/// Host and port as an address, such as `example.com:443`.
pub open spec fn address_text(host: Seq<char>, port: u16) -> Seq<char> {
    host + ":"@ + decimal(port as nat)
}

/// Host and port as an address.
pub fn address(host: &str, port: u16) -> (r: String)
    ensures
        r@ == address_text(host@, port),
{
    let mut r = host.to_owned();
    r.append(":");
    r.append(decimal_text(port as u64).as_str());
    r
}

/// Whether `port` is the one that a scheme stands for by itself.
pub open spec fn is_default_port(scheme: Seq<char>, port: u16) -> bool {
    (scheme == "https"@ && port == 443) || (scheme == "http"@ && port == 80)
}

/// What the request line asks for: path and query.
pub open spec fn request_target(path: Seq<char>, query: Option<Seq<char>>) -> Seq<char> {
    (if path.len() == 0 {
        "/"@
    } else {
        path
    }) + match query {
        Some(q) => "?"@ + q,
        None => ""@,
    }
}

/// The header that carries a session token.
pub open spec fn authorization_text(token: Option<Seq<char>>) -> Seq<char> {
    match token {
        Some(t) => "Authorization: Bearer "@ + t + "\r\n"@,
        None => ""@,
    }
}

/// Request line and headers of a request with a body of `length` bytes.
pub open spec fn head_text(
    target: Seq<char>,
    host_header: Seq<char>,
    token: Option<Seq<char>>,
    length: nat,
) -> Seq<char> {
    "POST "@ + target + " HTTP/1.1\r\nHost: "@ + host_header
        + "\r\nUser-Agent: ScheduleManager/0.1\r\nContent-Type: application/json\r\nAccept: application/json\r\n"@
        + authorization_text(token) + "Content-Length: "@ + decimal(length)
        + "\r\nConnection: close\r\n\r\n"@
}

/// The request with `body` to a URL with these parts.
pub open spec fn request_view(
    scheme: Seq<char>,
    host: Seq<char>,
    port: u16,
    path: Seq<char>,
    query: Option<Seq<char>>,
    token: Option<Seq<char>>,
    body: Seq<char>,
) -> RequestView {
    RequestView {
        host,
        port,
        transport: transport_for(scheme),
        head: head_text(
            request_target(path, query),
            if is_default_port(scheme, port) {
                host
            } else {
                address_text(host, port)
            },
            token,
            encode_utf8(body).len(),
        ),
        body,
    }
}

/// The request with `body` to `url`, where that is a URL with host and port.
pub open spec fn assembled(
    url: Option<(Seq<char>, Option<Seq<char>>, Option<u16>, Seq<char>, Option<Seq<char>>)>,
    token: Option<Seq<char>>,
    body: Seq<char>,
) -> Option<RequestView> {
    match url {
        Some((scheme, Some(host), Some(port), path, query)) => Some(
            request_view(scheme, host, port, path, query, token, body),
        ),
        _ => None,
    }
}

/// The request with `body` to `url`, which stands for base URL and `path`.
pub fn assemble(
    url: Option<UrlParts>,
    path: &str,
    token: &Option<String>,
    body: String,
) -> (r: Result<ApiRequest, ClientError>)
    ensures
        ({
            let parts = match url {
                Some(u) => Some(u@),
                None => None,
            };
            match r {
                Ok(request) => assembled(parts, text_in(*token), body@) == Some(request@),
                Err(e) => assembled(parts, text_in(*token), body@) is None && match url {
                    None => e matches ClientError::InvalidUrl(p) && p@ == path@,
                    Some(u) => if u.host is None {
                        e is MissingHost
                    } else {
                        e is MissingPort
                    },
                },
            }
        }),
{
    let parts = match url {
        Some(parts) => parts,
        None => {
            return Err(ClientError::InvalidUrl(path.to_owned()));
        },
    };
    let host = match parts.host {
        Some(host) => host,
        None => {
            return Err(ClientError::MissingHost);
        },
    };
    let port: u16 = match parts.port {
        Some(port) => port,
        None => {
            return Err(ClientError::MissingPort);
        },
    };
    let secure: bool = same_text(parts.scheme.as_str(), "https");
    let plain: bool = same_text(parts.scheme.as_str(), "http");
    let mut head = "POST ".to_owned();
    if parts.path.as_str().is_empty() {
        head.append("/");
    } else {
        head.append(parts.path.as_str());
    }
    match &parts.query {
        Some(query) => {
            head.append("?");
            head.append(query.as_str());
        },
        None => {},
    }
    let ghost target = request_target(parts.path@, text_in(parts.query));
    assert(head@ =~= "POST "@ + target) by {
        reveal_strlit("");
    }
    head.append(" HTTP/1.1\r\nHost: ");
    head.append(host.as_str());
    if !((secure && port == 443) || (plain && port == 80)) {
        head.append(":");
        head.append(decimal_text(port as u64).as_str());
    }
    let ghost host_header = if is_default_port(parts.scheme@, port) {
        host@
    } else {
        address_text(host@, port)
    };
    assert(head@ =~= "POST "@ + target + " HTTP/1.1\r\nHost: "@ + host_header);
    head.append(
        "\r\nUser-Agent: ScheduleManager/0.1\r\nContent-Type: application/json\r\nAccept: application/json\r\n",
    );
    match token {
        Some(token) => {
            head.append("Authorization: Bearer ");
            head.append(token.as_str());
            head.append("\r\n");
        },
        None => {},
    }
    assert(head@ =~= "POST "@ + target + " HTTP/1.1\r\nHost: "@ + host_header
        + "\r\nUser-Agent: ScheduleManager/0.1\r\nContent-Type: application/json\r\nAccept: application/json\r\n"@
        + authorization_text(text_in(*token))) by {
        reveal_strlit("");
    }
    head.append("Content-Length: ");
    let length: usize = body.as_str().as_bytes().len();
    head.append(decimal_text(length as u64).as_str());
    head.append("\r\nConnection: close\r\n\r\n");
    let transport = if secure {
        Transport::Secure
    } else if plain {
        Transport::Plain
    } else {
        Transport::Unsupported(parts.scheme)
    };
    Ok(ApiRequest { host, port, transport, head, body })
}

/// A text without slashes at its end.
pub open spec fn without_slashes(s: Seq<char>) -> Seq<char>
    decreases s.len(),
{
    if s.len() > 0 && s.last() == '/' {
        without_slashes(s.drop_last())
    } else {
        s
    }
}

/// A client of one server, signed in or not.
#[derive(Debug)]
pub struct ApiClient {
    base_url: String,
    token: Option<String>,
}

impl Clone for ApiClient {
    fn clone(&self) -> (r: Self)
        ensures
            r.base() == self.base(),
            r.session() == self.session(),
    {
        ApiClient {
            base_url: self.base_url.clone(),
            token: match &self.token {
                Some(token) => Some(token.clone()),
                None => None,
            },
        }
    }
}

impl ApiClient {
    /// Where the server is.
    pub closed spec fn base(&self) -> Seq<char> {
        self.base_url@
    }

    /// The session token.
    pub closed spec fn session(&self) -> Option<Seq<char>> {
        text_in(self.token)
    }

    /// A client of the server at `base_url`.
    pub fn new(base_url: String, token: Option<String>) -> (r: Self)
        ensures
            r.base() == without_slashes(base_url@),
            r.session() == text_in(token),
    {
        let chars = chars_of(base_url.as_str());
        let mut n: usize = chars.len();
        assert(chars@.subrange(0, n as int) =~= base_url@);
        while n > 0 && chars[n - 1] == '/'
            invariant
                n <= chars@.len(),
                without_slashes(base_url@) == without_slashes(chars@.subrange(0, n as int)),
            decreases n,
        {
            assert(chars@.subrange(0, n as int).drop_last() =~= chars@.subrange(0, n - 1));
            n = n - 1;
        }
        ApiClient { base_url: string_from(&chars, 0, n), token }
    }

    /// What a request to `path` with `body` comes to, or the error that it meets. Where base URL and
    /// path make an `http` or `https` URL with a host, there is a request.
    pub open spec fn prepares(
        &self,
        path: Seq<char>,
        body: Seq<char>,
        r: Result<ApiRequest, ClientError>,
    ) -> bool {
        let url = parsed_url(self.base() + path);
        match r {
            Ok(request) => assembled(url, self.session(), body) == Some(request@),
            Err(e) => assembled(url, self.session(), body) is None && match url {
                None => e matches ClientError::InvalidUrl(p) && p@ == path,
                Some((scheme, host, port, target, query)) => if host is None {
                    e is MissingHost
                } else {
                    e is MissingPort && !(transport_for(scheme) is Secure) && !(transport_for(
                        scheme,
                    ) is Plain)
                },
            },
        }
    }

    /// The request to `path` with `body`.
    pub fn send(&self, path: &str, body: String) -> (r: Result<ApiRequest, ClientError>)
        ensures
            self.prepares(path@, body@, r),
    {
        let mut text = self.base_url.clone();
        text.append(path);
        let url = url_parts(text.as_str());
        assemble(url, path, &self.token, body)
    }

    /// Asks for a verification code to be mailed.
    pub fn request_code(&self, email: &str) -> (r: Result<ApiRequest, ClientError>)
        ensures
            self.prepares("/auth/request-code"@, "{\"email\":"@ + json_quoted(email@) + "}"@, r),
    {
        let mut body = "{\"email\":".to_owned();
        body.append(json_string(email).as_str());
        body.append("}");
        self.send("/auth/request-code", body)
    }

    /// Asks for a new account.
    pub fn register(
        &self,
        email: &str,
        password: &str,
        display_name: &str,
        code: &str,
    ) -> (r: Result<ApiRequest, ClientError>)
        ensures
            self.prepares(
                "/auth/register"@,
                "{\"code\":"@ + json_quoted(code@) + ",\"displayName\":"@ + json_quoted(
                    display_name@,
                ) + ",\"email\":"@ + json_quoted(email@) + ",\"password\":"@ + json_quoted(
                    password@,
                ) + "}"@,
                r,
            ),
    {
        let mut body = "{\"code\":".to_owned();
        body.append(json_string(code).as_str());
        body.append(",\"displayName\":");
        body.append(json_string(display_name).as_str());
        body.append(",\"email\":");
        body.append(json_string(email).as_str());
        body.append(",\"password\":");
        body.append(json_string(password).as_str());
        body.append("}");
        self.send("/auth/register", body)
    }

    /// Asks for a session.
    pub fn login(&self, email: &str, password: &str) -> (r: Result<ApiRequest, ClientError>)
        ensures
            self.prepares(
                "/auth/login"@,
                "{\"email\":"@ + json_quoted(email@) + ",\"password\":"@ + json_quoted(password@)
                    + "}"@,
                r,
            ),
    {
        let mut body = "{\"email\":".to_owned();
        body.append(json_string(email).as_str());
        body.append(",\"password\":");
        body.append(json_string(password).as_str());
        body.append("}");
        self.send("/auth/login", body)
    }

    /// Asks for what changed since `cursor`.
    pub fn pull(&self, cursor: i64) -> (r: Result<ApiRequest, ClientError>)
        ensures
            self.prepares(
                "/sync/pull"@,
                "{\"cursor\":"@ + signed_decimal(cursor as int) + "}"@,
                r,
            ),
    {
        let mut body = "{\"cursor\":".to_owned();
        body.append(signed_text(cursor).as_str());
        body.append("}");
        self.send("/sync/pull", body)
    }

    /// Asks to store an event, given as JSON.
    pub fn upsert_event(&self, event_json: String) -> (r: Result<ApiRequest, ClientError>)
        ensures
            self.prepares("/events/upsert"@, event_json@, r),
    {
        self.send("/events/upsert", event_json)
    }

    /// Asks to delete the event `id`, as far as it still has `base_version`.
    pub fn delete_event(&self, id: &str, base_version: i64) -> (r: Result<ApiRequest, ClientError>)
        ensures
            self.prepares(
                "/events/delete"@,
                "{\"baseVersion\":"@ + signed_decimal(base_version as int) + ",\"id\":"@
                    + json_quoted(id@) + "}"@,
                r,
            ),
    {
        let mut body = "{\"baseVersion\":".to_owned();
        body.append(signed_text(base_version).as_str());
        body.append(",\"id\":");
        body.append(json_string(id).as_str());
        body.append("}");
        self.send("/events/delete", body)
    }

    /// Asks whether the server is well.
    pub fn health(&self) -> (r: Result<ApiRequest, ClientError>)
        ensures
            self.prepares("/health"@, "{}"@, r),
    {
        self.send("/health", "{}".to_owned())
    }

    /// Asks for the holidays of some years.
    pub fn holidays(&self, start_year: i32, end_year: i32) -> (r: Result<ApiRequest, ClientError>)
        ensures
            self.prepares(
                "/holidays/list"@,
                "{\"endYear\":"@ + signed_decimal(end_year as int) + ",\"startYear\":"@
                    + signed_decimal(start_year as int) + "}"@,
                r,
            ),
    {
        let mut body = "{\"endYear\":".to_owned();
        body.append(signed_text(end_year as i64).as_str());
        body.append(",\"startYear\":");
        body.append(signed_text(start_year as i64).as_str());
        body.append("}");
        self.send("/holidays/list", body)
    }
}

/// Whether status and code of an answer say success.
pub open spec fn is_good(status: u16, code: i32) -> bool {
    200 <= status < 300 && code == 0
}

/// What an answer carries: its data when status and code say success, else its message as error.
pub fn open_envelope<T>(status: u16, envelope: ApiEnvelope<T>) -> (r: Result<T, ClientError>)
    ensures
        match r {
            Ok(data) => is_good(status, envelope.code) && data == envelope.data,
            Err(e) => !is_good(status, envelope.code) && (e matches ClientError::Refused(message)
                && message@ == envelope.message@),
        },
{
    if !(200 <= status && status < 300) || envelope.code != 0 {
        return Err(ClientError::Refused(envelope.message));
    }
    Ok(envelope.data)
}

/// The address of a server ends in no slash, whether it was given with some or with none.
pub proof fn slashes_at_the_end_make_no_difference(s: Seq<char>)
    ensures
        without_slashes(s.push('/')) == without_slashes(s),
        without_slashes(s).len() > 0 ==> without_slashes(s).last() != '/',
        s.len() > 0 && s.last() != '/' ==> without_slashes(s) == s,
    decreases s.len(),
{
    assert(s.push('/').drop_last() =~= s);
    if s.len() > 0 && s.last() == '/' {
        slashes_at_the_end_make_no_difference(s.drop_last());
    }
}

/// A request asks for the path and the query of its URL, and for the root where that has no path.
pub proof fn a_request_asks_for_path_and_query(path: Seq<char>, query: Seq<char>)
    ensures
        path.len() > 0 ==> request_target(path, None) == path,
        request_target(Seq::<char>::empty(), None) == seq!['/'],
        request_target(path, Some(query)) == request_target(path, None) + seq!['?'] + query,
{
    reveal_strlit("/");
    reveal_strlit("?");
    reveal_strlit("");
    assert("/"@ =~= seq!['/']);
    assert("?"@ =~= seq!['?']);
    assert(path + ""@ =~= path);
    assert(seq!['/'] + ""@ =~= seq!['/']);
    assert(request_target(path, Some(query)) =~= request_target(path, None) + seq!['?'] + query);
}

/// A request goes over TLS to `https` addresses and plainly to `http` ones, and in no way to others.
/// Its host header names the port, unless it is the one of the scheme.
pub proof fn the_scheme_decides_the_way(
    scheme: Seq<char>,
    host: Seq<char>,
    port: u16,
    path: Seq<char>,
    query: Option<Seq<char>>,
    token: Option<Seq<char>>,
    body: Seq<char>,
)
    ensures
        ({
            let request = request_view(scheme, host, port, path, query, token, body);
            &&& request.host == host && request.port == port && request.body == body
            &&& request.transport is Secure <==> scheme == seq!['h', 't', 't', 'p', 's']
            &&& request.transport is Plain <==> scheme == seq!['h', 't', 't', 'p']
            &&& scheme == seq!['h', 't', 't', 'p', 's'] && port == 443 || scheme == seq![
                'h',
                't',
                't',
                'p',
            ] && port == 80 ==> request.head == head_text(
                request_target(path, query),
                host,
                token,
                encode_utf8(body).len(),
            )
            &&& scheme == seq!['h', 't', 't', 'p', 's'] && port != 443 || scheme == seq![
                'h',
                't',
                't',
                'p',
            ] && port != 80 ==> request.head == head_text(
                request_target(path, query),
                host + seq![':'] + decimal(port as nat),
                token,
                encode_utf8(body).len(),
            )
        }),
{
    reveal_strlit("https");
    reveal_strlit("http");
    reveal_strlit(":");
    assert("https"@ =~= seq!['h', 't', 't', 'p', 's']);
    assert("http"@ =~= seq!['h', 't', 't', 'p']);
    assert(":"@ =~= seq![':']);
    assert("https"@.len() != "http"@.len());
}

/// The head of a request carries the session token in one header, and nothing else of it changes
/// with the token; it ends with the length of the body and an empty line.
pub proof fn a_token_adds_one_header(
    target: Seq<char>,
    host: Seq<char>,
    token: Seq<char>,
    length: nat,
)
    ensures
        ({
            let begin = "POST "@ + target + " HTTP/1.1\r\nHost: "@ + host
                + "\r\nUser-Agent: ScheduleManager/0.1\r\nContent-Type: application/json\r\nAccept: application/json\r\n"@;
            let end = "Content-Length: "@ + decimal(length) + "\r\nConnection: close\r\n\r\n"@;
            &&& head_text(target, host, None, length) == begin + end
            &&& head_text(target, host, Some(token), length) == begin + (
            "Authorization: Bearer "@ + token + "\r\n"@) + end
        }),
{
    reveal_strlit("");
    let begin = "POST "@ + target + " HTTP/1.1\r\nHost: "@ + host
        + "\r\nUser-Agent: ScheduleManager/0.1\r\nContent-Type: application/json\r\nAccept: application/json\r\n"@;
    let end = "Content-Length: "@ + decimal(length) + "\r\nConnection: close\r\n\r\n"@;
    assert(head_text(target, host, None, length) =~= begin + end);
    assert(head_text(target, host, Some(token), length) =~= begin + ("Authorization: Bearer "@
        + token + "\r\n"@) + end);
}

/// An answer is good when its status is one of the two hundreds and its code is zero, and only then.
pub proof fn an_answer_is_good_by_status_and_code(status: u16, code: i32)
    ensures
        is_good(status, code) <==> status / 100 == 2 && code == 0,
{
}

} // verus!
