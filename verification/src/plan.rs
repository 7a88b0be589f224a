//! What a notarization sets out to do: whom to reach, and what to ask.
use crate::digits;
use crate::errors::{conn_err, ErrorText, TlsnError};
use crate::text;
use crate::urls;
use crate::urls::{UrlParts, UrlText};
use vstd::prelude::*;
use vstd::utf8::*;

verus! {

/// A header of a request.
#[derive(Debug)]
pub struct HttpHeader {
    pub name: String,
    pub value: String,
}

/// The request to notarize.
#[derive(Debug)]
pub struct HttpRequest {
    pub url: String,
    pub method: String,
    pub headers: Vec<HttpHeader>,
    pub body: Option<String>,
}

/// Which notary to use, and how much may go over the connection.
#[derive(Debug)]
pub struct ProverOptions {
    pub verifier_url: String,
    pub max_sent_data: u32,
    pub max_recv_data: u32,
}

/// The request as it goes to the server.
#[derive(Debug)]
pub struct OutgoingRequest {
    pub method: String,
    /// Path and query.
    pub target: String,
    pub headers: Vec<HttpHeader>,
    pub body: Vec<u8>,
}

/// What a notarization sets out to do.
#[derive(Debug)]
pub struct Plan {
    /// The server.
    pub host: String,
    /// Where the notary takes sessions.
    pub notary_url: String,
    pub max_sent_data: u32,
    pub max_recv_data: u32,
    pub request: OutgoingRequest,
}

/// A request as it goes to the server, over characters.
#[verifier::ext_equal]
pub struct RequestText {
    pub method: Seq<char>,
    pub target: Seq<char>,
    pub headers: Seq<(Seq<char>, Seq<char>)>,
    pub body: Seq<u8>,
}

/// What a notarization sets out to do, over characters.
#[verifier::ext_equal]
pub struct PlanText {
    pub host: Seq<char>,
    pub notary_url: Seq<char>,
    pub max_sent_data: u32,
    pub max_recv_data: u32,
    pub request: RequestText,
}

/// The names and values of `headers`.
pub open spec fn header_texts(headers: Seq<HttpHeader>) -> Seq<(Seq<char>, Seq<char>)> {
    Seq::new(headers.len(), |i: int| (headers[i].name@, headers[i].value@))
}

impl View for OutgoingRequest {
    type V = RequestText;

    open spec fn view(&self) -> RequestText {
        RequestText {
            method: self.method@,
            target: self.target@,
            headers: header_texts(self.headers@),
            body: self.body@,
        }
    }
}

impl View for Plan {
    type V = PlanText;

    open spec fn view(&self) -> PlanText {
        PlanText {
            host: self.host@,
            notary_url: self.notary_url@,
            max_sent_data: self.max_sent_data,
            max_recv_data: self.max_recv_data,
            request: self.request@,
        }
    }
}

/// The port of every server that is notarized.
pub const SERVER_PORT: u16 = 443;

/// What is asked of the server: path and query.
pub open spec fn target_of(url: UrlText) -> Seq<char> {
    match url.query {
        Some(query) => url.path + seq!['?'] + query,
        None => url.path,
    }
}

/// Where the notary behind `url` takes sessions, with the limits in the query.
pub open spec fn notary_url_of(url: UrlText, max_sent: u32, max_recv: u32) -> Seq<char> {
    let scheme = if url.scheme == "https"@ {
        "wss"@
    } else {
        "ws"@
    };
    let host = match url.host {
        Some(host) => host,
        None => "localhost"@,
    };
    let port = match url.port {
        Some(port) => ":"@ + digits::decimal_of(port as nat),
        None => Seq::empty(),
    };
    scheme + "://"@ + host + port + "/notary?maxSentData="@ + digits::decimal_of(max_sent as nat)
        + "&maxRecvData="@ + digits::decimal_of(max_recv as nat)
}

/// The request that goes to `host`: its name as the first header, and then the headers that were
/// given; no body is an empty one.
pub open spec fn outgoing(url: UrlText, host: Seq<char>, request: HttpRequest) -> RequestText {
    RequestText {
        method: request.method@,
        target: target_of(url),
        headers: seq![("Host"@, host)] + header_texts(request.headers@),
        body: match request.body {
            Some(body) => encode_utf8(body@),
            None => Seq::empty(),
        },
    }
}

/// What a notarization sets out to do, from what came of reading the URLs of the server and of the
/// notary.
pub open spec fn planned(
    server: Result<UrlText, Seq<char>>,
    notary: Result<UrlText, Seq<char>>,
    request: HttpRequest,
    options: ProverOptions,
) -> Result<PlanText, ErrorText> {
    match server {
        Err(e) => Err(ErrorText::ConnectionFailed("bad url: "@ + e)),
        Ok(url) => match url.host {
            None => Err(ErrorText::ConnectionFailed("no host in url"@)),
            Some(host) => match notary {
                Err(e) => Err(ErrorText::ConnectionFailed("bad verifier url: "@ + e)),
                Ok(v) => Ok(
                    PlanText {
                        host,
                        notary_url: notary_url_of(v, options.max_sent_data, options.max_recv_data),
                        max_sent_data: options.max_sent_data,
                        max_recv_data: options.max_recv_data,
                        request: outgoing(url, host, request),
                    },
                ),
            },
        },
    }
}

/// What is asked of the server: path and query.
pub fn request_target(url: &UrlParts) -> (target: String)
    ensures
        target@ == target_of(url@),
{
    let mut target = url.path.clone();
    if let Some(query) = &url.query {
        target.push('?');
        target.append(query.as_str());
        assert(target@ =~= target_of(url@));
    }
    target
}

/// Where the notary behind `url` takes sessions, with the limits in the query.
pub fn notary_session_url(url: &UrlParts, max_sent: u32, max_recv: u32) -> (r: String)
    ensures
        r@ == notary_url_of(url@, max_sent, max_recv),
{
    let mut r = if text::same_text(url.scheme.as_str(), "https") {
        "wss".to_string()
    } else {
        "ws".to_string()
    };
    r.append("://");
    match &url.host {
        Some(host) => r.append(host.as_str()),
        None => r.append("localhost"),
    }
    match url.port {
        Some(port) => {
            let shown = text::joined(":", digits::decimal(port as u64).as_str());
            r.append(shown.as_str());
        },
        None => {
            assert(r@ =~= r@ + Seq::<char>::empty());
        },
    }
    r.append("/notary?maxSentData=");
    r.append(digits::decimal(max_sent as u64).as_str());
    r.append("&maxRecvData=");
    r.append(digits::decimal(max_recv as u64).as_str());
    r
}

/// The request that goes to `host`.
pub fn outgoing_request(url: &UrlParts, host: &str, request: &HttpRequest) -> (r: OutgoingRequest)
    ensures
        r@ == outgoing(url@, host@, *request),
{
    let mut headers: Vec<HttpHeader> = Vec::new();
    headers.push(HttpHeader { name: "Host".to_string(), value: host.to_string() });
    let ghost given = header_texts(request.headers@);
    assert(header_texts(headers@) =~= seq![("Host"@, host@)] + given.take(0));
    let mut i: usize = 0;
    while i < request.headers.len()
        invariant
            i <= request.headers.len(),
            given == header_texts(request.headers@),
            header_texts(headers@) == seq![("Host"@, host@)] + given.take(i as int),
        decreases request.headers.len() - i,
    {
        let ghost before = headers@;
        let name = request.headers[i].name.clone();
        let value = request.headers[i].value.clone();
        headers.push(HttpHeader { name, value });
        proof {
            assert(given.take(i + 1) =~= given.take(i as int).push(given[i as int]));
            assert(header_texts(headers@) =~= header_texts(before).push(given[i as int]));
            assert(header_texts(headers@) =~= seq![("Host"@, host@)] + given.take(i + 1));
        }
        i += 1;
    }
    assert(given.take(i as int) =~= given);
    let body = match &request.body {
        Some(body) => vstd::slice::slice_to_vec(body.as_str().as_bytes()),
        None => Vec::new(),
    };
    OutgoingRequest {
        method: request.method.clone(),
        target: request_target(url),
        headers,
        body,
    }
}

/// What a notarization sets out to do, from what came of reading the URLs of the server and of the
/// notary.
pub fn plan_from(
    server: Result<UrlParts, String>,
    notary: Result<UrlParts, String>,
    request: &HttpRequest,
    options: &ProverOptions,
) -> (r: Result<Plan, TlsnError>)
    ensures
        r matches Ok(plan) ==> planned(
            urls::read_as(server),
            urls::read_as(notary),
            *request,
            *options,
        ) == Ok::<_, ErrorText>(plan@),
        r matches Err(e) ==> planned(
            urls::read_as(server),
            urls::read_as(notary),
            *request,
            *options,
        ) == Err::<PlanText, _>(e@),
{
    let url = match server {
        Ok(url) => url,
        Err(e) => return Err(conn_err(text::joined("bad url: ", e.as_str()).as_str())),
    };
    let host = match &url.host {
        Some(host) => host.clone(),
        None => return Err(conn_err("no host in url")),
    };
    let v = match notary {
        Ok(v) => v,
        Err(e) => return Err(conn_err(text::joined("bad verifier url: ", e.as_str()).as_str())),
    };
    let outgoing = outgoing_request(&url, host.as_str(), request);
    Ok(
        Plan {
            host,
            notary_url: notary_session_url(&v, options.max_sent_data, options.max_recv_data),
            max_sent_data: options.max_sent_data,
            max_recv_data: options.max_recv_data,
            request: outgoing,
        },
    )
}

/// What a notarization of `request` sets out to do.
pub fn plan_notarization(request: &HttpRequest, options: &ProverOptions) -> (r: Result<
    Plan,
    TlsnError,
>)
    ensures
        r matches Ok(plan) ==> planned(
            urls::url_in(request.url@),
            urls::url_in(options.verifier_url@),
            *request,
            *options,
        ) == Ok::<_, ErrorText>(plan@),
        r matches Err(e) ==> planned(
            urls::url_in(request.url@),
            urls::url_in(options.verifier_url@),
            *request,
            *options,
        ) == Err::<PlanText, _>(e@),
{
    let server = urls::parse_url(request.url.as_str());
    let notary = urls::parse_url(options.verifier_url.as_str());
    plan_from(server, notary, request, options)
}

/// A plan asks the server for what was requested: by the method that was given, for the path and query
/// of the URL, with the name of the host and then every header that was given, in order, and with the
/// whole body.
pub proof fn law_plan_asks_what_was_requested(
    server: UrlText,
    notary: UrlText,
    request: HttpRequest,
    options: ProverOptions,
    host: Seq<char>,
)
    requires
        server.host == Some(host),
    ensures
        planned(Ok(server), Ok(notary), request, options) matches Ok(p) && {
            &&& p.host == host
            &&& p.request.method == request.method@
            &&& server.query matches Some(query) ==> p.request.target == server.path + "?"@ + query
            &&& server.query is None ==> p.request.target == server.path
            &&& p.request.headers.len() == request.headers@.len() + 1
            &&& p.request.headers[0] == ("Host"@, host)
            &&& forall|i: int|
                0 <= i < request.headers@.len() ==> p.request.headers[i + 1] == (
                    (#[trigger] request.headers@[i]).name@,
                    request.headers@[i].value@,
                )
            &&& request.body matches Some(body) ==> p.request.body == encode_utf8(body@)
            &&& request.body is None ==> p.request.body == Seq::<u8>::empty()
            &&& p.max_sent_data == options.max_sent_data
            &&& p.max_recv_data == options.max_recv_data
        },
        SERVER_PORT == 443,
{
    reveal_strlit("?");
    assert("?"@ =~= seq!['?']);
}

/// A plan goes to the notary behind the URL that was given: over a secure connection iff that URL is
/// secure, at its host and port, with both limits.
pub proof fn law_plan_goes_to_the_given_notary(
    server: UrlText,
    notary: UrlText,
    request: HttpRequest,
    options: ProverOptions,
)
    requires
        server.host is Some,
    ensures
        planned(Ok(server), Ok(notary), request, options) matches Ok(p) && {
            let scheme = if notary.scheme == "https"@ {
                "wss"@
            } else {
                "ws"@
            };
            let host = if notary.host is Some {
                notary.host->0
            } else {
                "localhost"@
            };
            let port = if notary.port is Some {
                ":"@ + digits::decimal_of(notary.port->0 as nat)
            } else {
                Seq::empty()
            };
            p.notary_url == scheme + "://"@ + host + port + "/notary?maxSentData="@ + digits::decimal_of(
                options.max_sent_data as nat,
            ) + "&maxRecvData="@ + digits::decimal_of(options.max_recv_data as nat)
        },
{
}

/// There is a plan iff both URLs can be read and that of the server has a host. Where not, the error is
/// that of the first thing that is missing.
pub proof fn law_unreadable_urls_are_refused_in_order(
    server: Result<UrlText, Seq<char>>,
    notary: Result<UrlText, Seq<char>>,
    request: HttpRequest,
    options: ProverOptions,
)
    ensures
        planned(server, notary, request, options) is Ok <==> (server matches Ok(url)
            && url.host is Some) && notary is Ok,
        server matches Err(e) ==> planned(server, notary, request, options) == Err::<PlanText, _>(
            ErrorText::ConnectionFailed("bad url: "@ + e),
        ),
        (server matches Ok(url) && url.host is None) ==> planned(server, notary, request, options)
            == Err::<PlanText, _>(ErrorText::ConnectionFailed("no host in url"@)),
        (server matches Ok(url) && url.host is Some) ==> (notary matches Err(e) ==> planned(
            server,
            notary,
            request,
            options,
        ) == Err::<PlanText, _>(ErrorText::ConnectionFailed("bad verifier url: "@ + e))),
{
}

/// A plan is what its fields hold, each under its own name.
pub proof fn law_plan_holds_what_was_planned(plan: Plan, request: OutgoingRequest, i: int)
    ensures
        plan@.host == plan.host@,
        plan@.notary_url == plan.notary_url@,
        plan@.max_sent_data == plan.max_sent_data,
        plan@.max_recv_data == plan.max_recv_data,
        plan@.request == plan.request@,
        request@.method == request.method@,
        request@.target == request.target@,
        request@.body == request.body@,
        request@.headers.len() == request.headers@.len(),
        0 <= i < request.headers@.len() ==> request@.headers[i] == (
            request.headers@[i].name@,
            request.headers@[i].value@,
        ),
{
}

} // verus!
