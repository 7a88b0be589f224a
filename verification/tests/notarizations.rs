use rep_notary::disclosure::{commitments, cut_exchange, openings, request_line_end};
use rep_notary::errors::TlsnError;
use rep_notary::notarize::{Event, Notarization, Step, Turn};
use rep_notary::plan::{
    plan_from, plan_notarization, HttpHeader, HttpRequest, Plan, ProverOptions,
};
use rep_notary::presentation::ByteRange;
use rep_notary::urls::UrlParts;

fn request(url: &str) -> HttpRequest {
    HttpRequest {
        url: url.to_string(),
        method: "GET".to_string(),
        headers: vec![HttpHeader { name: "accept".to_string(), value: "application/json".to_string() }],
        body: None,
    }
}

fn options(verifier_url: &str) -> ProverOptions {
    ProverOptions {
        verifier_url: verifier_url.to_string(),
        max_sent_data: 8192,
        max_recv_data: 16384,
    }
}

fn plan() -> Plan {
    plan_notarization(&request("https://example.com/a?b=c"), &options("http://127.0.0.1:9444"))
        .unwrap()
}

fn message(e: TlsnError) -> String {
    match e {
        TlsnError::ConnectionFailed(m) => format!("conn {m}"),
        TlsnError::ProofFailed(m) => format!("proof {m}"),
    }
}

/// The event of a success of `step`.
fn success(step: Step) -> Event {
    match step {
        Step::EndProver => Event::Exchange { sent: b"GET /\r\nA: b\r\n".to_vec(), received: 9 },
        Step::SerializeRequest => Event::Bytes(vec![1, 2, 3]),
        Step::ReadLength => Event::Length([0, 0, 1, 2]),
        Step::SerializePresentation => Event::Bytes(vec![7, 8]),
        _ => Event::Done,
    }
}

/// Takes the steps up to `step` with success.
fn up_to(step: Step) -> Notarization {
    let mut n = Notarization::new(plan());
    while n.step() != step {
        let event = success(n.step());
        n = match n.advance(event) {
            Turn::Next(next) => next,
            other => panic!("{other:?}"),
        };
    }
    n
}

#[test]
fn a_plan_says_whom_to_reach_and_what_to_ask() {
    let p = plan();
    assert_eq!(p.host, "example.com");
    assert_eq!(
        p.notary_url,
        "ws://127.0.0.1:9444/notary?maxSentData=8192&maxRecvData=16384"
    );
    assert_eq!(p.request.target, "/a?b=c");
    assert_eq!(p.request.method, "GET");
    assert_eq!(p.request.headers.len(), 2);
    assert_eq!((p.request.headers[0].name.as_str(), p.request.headers[0].value.as_str()), ("Host", "example.com"));
    assert_eq!(p.request.headers[1].name, "accept");
    assert!(p.request.body.is_empty());
}

#[test]
fn a_secure_notary_is_reached_securely_and_the_body_goes_along() {
    let mut r = request("https://example.com");
    r.body = Some("{\"ä\":1}".to_string());
    let p = plan_notarization(&r, &options("https://notary.example.org")).unwrap();
    assert_eq!(
        p.notary_url,
        "wss://notary.example.org/notary?maxSentData=8192&maxRecvData=16384"
    );
    assert_eq!(p.request.target, "/");
    assert_eq!(p.request.body, "{\"ä\":1}".as_bytes().to_vec());
}

#[test]
fn urls_are_refused_in_order() {
    let good = options("https://n.example");
    let bad = plan_notarization(&request("no url"), &options("neither"));
    assert_eq!(message(bad.unwrap_err()), "conn bad url: relative URL without a base");
    let no_host = plan_notarization(&request("data:text/plain,x"), &options("neither"));
    assert_eq!(message(no_host.unwrap_err()), "conn no host in url");
    let bad_notary = plan_notarization(&request("https://example.com"), &options("neither"));
    assert_eq!(
        message(bad_notary.unwrap_err()),
        "conn bad verifier url: relative URL without a base"
    );
    assert!(plan_notarization(&request("https://example.com"), &good).is_ok());
}

#[test]
fn a_notary_without_a_host_is_local() {
    let server = UrlParts {
        scheme: "https".to_string(),
        host: Some("h".to_string()),
        port: None,
        path: "/p".to_string(),
        query: None,
    };
    let notary = UrlParts {
        scheme: "unix".to_string(),
        host: None,
        port: Some(8),
        path: String::new(),
        query: None,
    };
    let p = plan_from(Ok(server), Ok(notary), &request(""), &options("")).unwrap();
    assert_eq!(p.notary_url, "ws://localhost:8/notary?maxSentData=8192&maxRecvData=16384");
    assert_eq!(p.request.target, "/p");
}

#[test]
fn the_request_line_is_committed_to_apart_from_the_headers() {
    let sent = b"GET / HTTP/1.1\r\nCookie: x\r\n\r\n";
    assert_eq!(request_line_end(sent), 14);
    let cut = cut_exchange(sent, 100);
    let committed = commitments(cut);
    assert_eq!(
        committed.sent,
        vec![ByteRange { start: 0, end: 14 }, ByteRange { start: 14, end: sent.len() }]
    );
    assert_eq!(committed.received, vec![ByteRange { start: 0, end: 100 }]);
    let shown = openings(cut);
    assert_eq!(shown.sent, vec![ByteRange { start: 0, end: 14 }]);
    assert_eq!(shown.received, vec![ByteRange { start: 0, end: 100 }]);
}

#[test]
fn a_request_without_a_line_break_is_one_range() {
    let cut = cut_exchange(b"GET", 0);
    assert_eq!(commitments(cut).sent, vec![ByteRange { start: 0, end: 3 }]);
    assert_eq!(openings(cut).sent, vec![ByteRange { start: 0, end: 3 }]);
}

#[test]
fn a_notarization_ends_in_the_presentation() {
    let last = up_to(Step::SerializePresentation);
    match last.advance(Event::Bytes(vec![7, 8])) {
        Turn::Finished(bytes) => assert_eq!(bytes, vec![7, 8]),
        other => panic!("{other:?}"),
    }
}

#[test]
fn steps_hand_on_what_they_brought() {
    let n = up_to(Step::BuildCommitments);
    assert_eq!(n.commitments().sent.len(), 2);
    assert_eq!(n.openings().sent, vec![ByteRange { start: 0, end: 5 }]);
    assert_eq!(n.openings().received, vec![ByteRange { start: 0, end: 9 }]);
    let n = up_to(Step::WriteLength);
    assert_eq!(n.request_prefix(), [0, 0, 0, 3]);
    assert_eq!(n.attestation_request(), &[1, 2, 3]);
    assert_eq!(up_to(Step::ReadAttestation).attestation_len(), 258);
    let n = Notarization::new(plan());
    assert_eq!(n.host(), "example.com");
    assert_eq!(n.limits(), (8192, 16384));
    assert_eq!(n.outgoing().target, "/a?b=c");
    assert!(n.notary_url().starts_with("ws://"));
}

#[test]
fn a_socket_that_does_not_close_is_no_failure() {
    match up_to(Step::CloseSocket).advance(Event::Failed("broken pipe".to_string())) {
        Turn::Next(n) => assert_eq!(n.step(), Step::DeserializeAttestation),
        other => panic!("{other:?}"),
    }
}

#[test]
fn every_step_fails_with_its_own_error() {
    let expected = [
        (Step::ConnectNotary, "conn e"),
        (Step::BuildProverConfig, "proof config: e"),
        (Step::CreateProver, "conn e"),
        (Step::BuildMpcConfig, "proof config: e"),
        (Step::Commit, "conn e"),
        (Step::ConnectServer, "conn server connect example.com: e"),
        (Step::NameServer, "conn bad server name"),
        (Step::BuildTlsConfig, "proof config: e"),
        (Step::ConnectTls, "conn e"),
        (Step::Handshake, "conn http handshake: e"),
        (Step::BuildRequest, "conn build request: e"),
        (Step::SendRequest, "conn send request: e"),
        (Step::JoinProver, "proof prover join: e"),
        (Step::EndProver, "conn e"),
        (Step::BuildCommitments, "proof config: e"),
        (Step::BuildRequestConfig, "proof config: e"),
        (Step::BuildProveConfig, "proof config: e"),
        (Step::Prove, "conn e"),
        (Step::CloseProver, "conn e"),
        (Step::NameAttestedServer, "proof bad server name"),
        (Step::TakeCertificates, "proof no server cert chain"),
        (Step::TakeSignature, "proof no server signature"),
        (Step::BuildAttestationRequest, "proof e"),
        (Step::JoinDriver, "proof driver join: e"),
        (Step::EndDriver, "conn e"),
        (Step::SerializeRequest, "proof e"),
        (Step::WriteLength, "conn e"),
        (Step::WriteRequest, "conn e"),
        (Step::Flush, "conn e"),
        (Step::ReadLength, "conn e"),
        (Step::ReadAttestation, "conn e"),
        (Step::DeserializeAttestation, "proof e"),
        (Step::Validate, "proof e"),
        (Step::BuildTranscriptProof, "proof e"),
        (Step::BuildPresentation, "proof e"),
        (Step::SerializePresentation, "proof e"),
    ];
    for (step, text) in expected {
        match up_to(step).advance(Event::Failed("e".to_string())) {
            Turn::Failed(e) => assert_eq!(message(e), text, "{step:?}"),
            other => panic!("{other:?}"),
        }
    }
}
