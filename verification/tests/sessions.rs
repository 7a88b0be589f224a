use rep_notary::notary::{self, CertificateAnswer, Extension, Notary, Record, RecordKind};
use rep_notary::notary::CertificateAnswer::{Covered, InvalidName, NoCertificate, NotCovered};
use rep_notary::session::{Commitment, Event, Limits, Output, Role, Session, ShownBytes, Step, Turn};
use rep_notary::verification::{
    bytes_to_redacted_string, compress_redacted_sequences, conclude, conclude_logged, render,
};

const LIMITS: Limits = Limits { max_sent_data: 4096, max_recv_data: 16384 };

fn mpc(sent: usize, recv: usize) -> Commitment {
    Commitment::Mpc(Limits { max_sent_data: sent, max_recv_data: recv })
}

fn shown() -> Output {
    Output {
        server_name: Some("example.com".to_string()),
        transcript: Some(ShownBytes { sent: b"GET /\0\0".to_vec(), received: b"ok\0".to_vec() }),
    }
}

fn success(step: Step, relay: bool) -> Event {
    match step {
        Step::Commit if relay => {
            Event::Committed(Commitment::Proxy { host: "example.com".to_string() })
        }
        Step::Commit => Event::Committed(mpc(4096, 16384)),
        Step::AcceptOutput => Event::Shown(shown()),
        _ => Event::Done,
    }
}

fn up_to(role: Role, relay: bool, step: Step) -> Session {
    let mut s = Session::new(role, LIMITS);
    while s.step() != step {
        let event = success(s.step(), relay);
        s = match s.advance(event) {
            Turn::Next(next) => next,
            other => panic!("{other:?}"),
        };
    }
    s
}

#[test]
fn a_session_ends_with_what_the_prover_showed() {
    for relay in [false, true] {
        match up_to(Role::Verifier, relay, Step::EndDriver).advance(Event::Done) {
            Turn::Finished(output) => {
                assert_eq!(output.server_name, Some("example.com".to_string()));
                assert_eq!(output.transcript.unwrap().sent, b"GET /\0\0".to_vec());
            }
            other => panic!("{other:?}"),
        }
    }
}

#[test]
fn a_server_is_connected_to_only_where_this_side_relays() {
    match up_to(Role::Notary, false, Step::Commit).advance(Event::Committed(mpc(1, 1))) {
        Turn::Next(s) => {
            assert_eq!(s.step(), Step::Accept);
            assert_eq!(s.server(), None);
        }
        other => panic!("{other:?}"),
    }
    let s = up_to(Role::Notary, true, Step::ConnectServer);
    assert_eq!(s.server(), Some("example.com:443"));
}

#[test]
fn a_verifier_refuses_what_exceeds_its_limits() {
    for (asked, text) in [
        (mpc(4097, 16385), "Prover requested max_sent_data 4097 exceeds limit 4096"),
        (mpc(4096, 16385), "Prover requested max_recv_data 16385 exceeds limit 16384"),
    ] {
        match up_to(Role::Verifier, false, Step::Commit).advance(Event::Committed(asked)) {
            Turn::Failed(e) => assert_eq!(e, text),
            other => panic!("{other:?}"),
        }
    }
}

#[test]
fn a_notary_refuses_what_exceeds_its_limits() {
    for (asked, text) in [
        (mpc(5000, 1), "Prover exceeds limits: sent 5000/4096, recv 1/16384"),
        (mpc(1, 20000), "Prover exceeds limits: sent 1/4096, recv 20000/16384"),
    ] {
        match up_to(Role::Notary, false, Step::Commit).advance(Event::Committed(asked)) {
            Turn::Failed(e) => assert_eq!(e, text),
            other => panic!("{other:?}"),
        }
    }
}

#[test]
fn every_step_of_a_session_fails_with_its_own_message() {
    let expected = [
        (Step::BuildConfig, "Failed to build verifier config: e"),
        (Step::CreateVerifier, "Failed to create verifier: e"),
        (Step::Commit, "Commitment failed: e"),
        (Step::ConnectServer, "Failed to connect to target server example.com:443: e"),
        (Step::Accept, "Accept failed: e"),
        (Step::Run, "Run failed: e"),
        (Step::Verify, "Verification failed: e"),
        (Step::AcceptOutput, "Accept verification failed: e"),
        (Step::Close, "Failed to close verifier: e"),
        (Step::JoinDriver, "Driver task failed: e"),
        (Step::EndDriver, "Session driver error: e"),
    ];
    for (step, text) in expected {
        match up_to(Role::Verifier, true, step).advance(Event::Failed("e".to_string())) {
            Turn::Failed(e) => assert_eq!(e, text),
            other => panic!("{other:?}"),
        }
    }
    match up_to(Role::Notary, true, Step::JoinDriver).advance(Event::Failed("e".to_string())) {
        Turn::Failed(e) => assert_eq!(e, "Driver join failed: e"),
        other => panic!("{other:?}"),
    }
}

#[test]
fn hidden_bytes_are_shown_as_blocks() {
    assert_eq!(bytes_to_redacted_string(b"a\0\0b", "\u{2588}"), Ok("a\u{2588}\u{2588}b".to_string()));
    assert_eq!(bytes_to_redacted_string("ä".as_bytes(), "#"), Ok("ä".to_string()));
    assert_eq!(bytes_to_redacted_string(b"\0", ""), Ok(String::new()));
}

#[test]
fn bytes_that_are_no_text_are_refused() {
    assert_eq!(
        bytes_to_redacted_string(b"ab\xff", "#"),
        Err("Failed to parse bytes to redacted string: invalid utf-8 sequence of 1 bytes from index 2"
            .to_string())
    );
}

#[test]
fn long_runs_of_blocks_are_shortened() {
    let text = format!("a{}b{}c{}", "\u{2588}".repeat(4), "\u{2588}".repeat(5), "\u{2588}".repeat(90));
    let short = format!(
        "a{}b\u{2588}\u{2026}\u{2588}c\u{2588}\u{2026}\u{2588}",
        "\u{2588}".repeat(4)
    );
    assert_eq!(compress_redacted_sequences(text), short);
    assert_eq!(compress_redacted_sequences(short.clone()), short);
}

#[test]
fn a_verifier_concludes_from_what_was_shown() {
    let v = conclude(shown()).unwrap();
    assert_eq!(v.server_name, "example.com");
    assert_eq!(v.shown.sent, b"GET /\0\0".to_vec());
    assert_eq!(v.shown.received, b"ok\0".to_vec());
    let text = render(&v.shown).unwrap();
    assert_eq!(text.sent, "GET /\u{2588}\u{2588}");
    assert_eq!(text.received, "ok\u{2588}");
}

#[test]
fn a_prover_owes_the_name_and_the_exchange() {
    for logs in [false, true] {
        let mut output = shown();
        output.server_name = None;
        assert_eq!(
            conclude_logged(output, logs).err(),
            Some("prover should have revealed server name".to_string())
        );
        let mut output = shown();
        output.transcript = None;
        assert_eq!(
            conclude_logged(output, logs).err(),
            Some("prover should have revealed transcript data".to_string())
        );
    }
}

#[test]
fn only_a_logged_exchange_has_to_be_text() {
    for (sent, received) in [(&b"\xff"[..], &b""[..]), (b"", b"\xff")] {
        let output = || {
            let shown = ShownBytes { sent: sent.to_vec(), received: received.to_vec() };
            Output { server_name: Some("h".to_string()), transcript: Some(shown) }
        };
        let (v, text) = conclude_logged(output(), false).unwrap();
        assert_eq!((v.shown.sent.as_slice(), v.shown.received.as_slice()), (sent, received));
        assert!(text.is_none());
        assert_eq!(
            conclude_logged(output(), true).err(),
            Some("Failed to parse bytes to redacted string: invalid utf-8 sequence of 1 bytes from index 0".to_string())
        );
    }
    let (v, text) = conclude_logged(shown(), true).unwrap();
    assert_eq!(v.server_name, "example.com");
    assert_eq!(text.unwrap().received, "ok\u{2588}");
}

#[test]
fn only_application_data_counts() {
    let data = |len| Record { kind: RecordKind::ApplicationData, len };
    let other = |len| Record { kind: RecordKind::Other, len };
    assert_eq!(notary::transcript_length(&vec![data(5), other(100), data(7)]), 12);
    assert_eq!(notary::transcript_length(&vec![]), 0);
    assert_eq!(notary::transcript_length(&vec![data(0xffff_ffff), data(2)]), 1);
}

fn key_error(given: Option<&str>) -> String {
    notary::load_signing_key(given).unwrap_err()
}

#[test]
fn a_signing_key_is_read_from_hex() {
    let one = format!(" {}01\n", "00".repeat(31));
    let mut bytes = vec![0u8; 32];
    bytes[31] = 1;
    assert_eq!(notary::load_signing_key(Some(&one)), Ok(bytes));
    let largest = "fffffffffffffffffffffffffffffffebaaedce6af48a03bbfd25e8cd0364140";
    assert_eq!(notary::load_signing_key(Some(largest)).unwrap()[31], 0x40);
}

#[test]
fn a_key_that_is_none_is_refused() {
    assert_eq!(key_error(None), "NOTARY_SIGNING_KEY env not set");
    assert_eq!(key_error(Some("abc")), "NOTARY_SIGNING_KEY not valid hex: Odd number of digits");
    assert_eq!(
        key_error(Some("zz")),
        "NOTARY_SIGNING_KEY not valid hex: Invalid character 'z' at position 0"
    );
    assert_eq!(key_error(Some("00ff")), "NOTARY_SIGNING_KEY must be 32 bytes");
    assert_eq!(key_error(Some("")), "NOTARY_SIGNING_KEY must be 32 bytes");
    assert_eq!(key_error(Some(&"00".repeat(32))), "Invalid secp256k1 key: signature error");
    assert_eq!(
        key_error(Some("FFFFFFFFFFFFFFFFFFFFFFFFFFFFFFFEBAAEDCE6AF48A03BBFD25E8CD0364141")),
        "Invalid secp256k1 key: signature error"
    );
}

fn host(value: &[u8]) -> Extension {
    Extension { id: b"rep.host".to_vec(), value: value.to_vec() }
}

fn refused(extension: Extension, observed: Option<&str>, answer: CertificateAnswer) -> String {
    notary::validate_extensions(&vec![extension], observed, &vec![answer]).unwrap_err()
}

#[test]
fn only_the_verified_host_is_attested() {
    let other = Extension { id: b"rep.user".to_vec(), value: b"a".to_vec() };
    assert_eq!(refused(other, Some("a"), Covered), "only rep.host is accepted");
    assert_eq!(refused(host(b"\xff"), None, Covered), "rep.host is not utf-8");
    assert_eq!(
        refused(host(b"evil.example"), Some("a.example"), Covered),
        "rep.host does not match the notarised host"
    );
    assert_eq!(
        refused(host(b"a"), None, NoCertificate),
        "no server certificate in this session"
    );
    assert_eq!(refused(host(b"a"), None, InvalidName), "rep.host is not a valid DNS name");
    assert_eq!(
        refused(host(b"a"), None, NotCovered),
        "rep.host is not covered by the server certificate"
    );
    assert_eq!(notary::validate_extensions(&vec![host(b"a")], None, &vec![Covered]), Ok(()));
    assert_eq!(notary::validate_extensions(&vec![host(b"a")], Some("a"), &vec![NotCovered]), Ok(()));
    assert_eq!(notary::validate_extensions(&vec![], None, &vec![]), Ok(()));
    assert_eq!(
        notary::validate_extensions(
            &vec![host(b"a"), host(b"b"), host(b"\xff")],
            Some("a"),
            &vec![Covered, Covered, Covered]
        ),
        Err("rep.host does not match the notarised host".to_string())
    );
}

fn notary_success(step: notary::Step) -> notary::Event {
    match step {
        notary::Step::ReadLength => notary::Event::Length([0, 0, 0, 9]),
        notary::Step::LoadKey => notary::Event::Key(Some("01".repeat(32))),
        notary::Step::SerializeAttestation => notary::Event::Bytes(vec![4, 5, 6]),
        _ => notary::Event::Done,
    }
}

fn notary_up_to(step: notary::Step) -> Notary {
    let mut n = Notary::new(Output { server_name: Some("h".to_string()), transcript: None });
    while n.step() != step {
        let event = notary_success(n.step());
        n = match n.advance(event) {
            notary::Turn::Next(next) => next,
            other => panic!("{other:?}"),
        };
    }
    n
}

#[test]
fn a_notary_hands_on_what_its_steps_brought() {
    let n = notary_up_to(notary::Step::CloseSocket);
    assert_eq!(n.request_len(), 9);
    assert_eq!(n.key(), &[1u8; 32]);
    assert_eq!(n.host(), Some("h"));
    assert_eq!(n.attestation_prefix(), [0, 0, 0, 3]);
    assert_eq!(n.attestation(), &[4, 5, 6]);
    let extension = n.extension().unwrap();
    assert_eq!((extension.id, extension.value), (b"rep.host".to_vec(), b"h".to_vec()));
    for event in [notary::Event::Done, notary::Event::Failed("e".to_string())] {
        match notary_up_to(notary::Step::CloseSocket).advance(event) {
            notary::Turn::Finished(len) => assert_eq!(len, 3),
            other => panic!("{other:?}"),
        }
    }
    let hidden = Notary::new(Output { server_name: None, transcript: None });
    assert!(hidden.extension().is_none() && hidden.host().is_none());
}

#[test]
fn every_step_of_a_notary_fails_with_its_own_message() {
    let expected = [
        (notary::Step::ReadLength, "Failed to read attestation request length: e"),
        (notary::Step::ReadRequest, "Failed to read attestation request: e"),
        (notary::Step::DeserializeRequest, "Failed to deserialize attestation request: e"),
        (notary::Step::BuildSigner, "Failed to build signer: e"),
        (notary::Step::BuildConfig, "Failed to build attestation config: e"),
        (notary::Step::CheckBinding, "unsupported cert binding version"),
        (notary::Step::AcceptRequest, "Failed to accept attestation request: e"),
        (notary::Step::BuildAttestation, "Failed to build attestation: e"),
        (notary::Step::SerializeAttestation, "Failed to serialize attestation: e"),
        (notary::Step::WriteLength, "Failed to send attestation length: e"),
        (notary::Step::WriteAttestation, "Failed to send attestation: e"),
        (notary::Step::Flush, "Failed to flush attestation: e"),
    ];
    for (step, text) in expected {
        match notary_up_to(step).advance(notary::Event::Failed("e".to_string())) {
            notary::Turn::Failed(e) => assert_eq!(e, text),
            other => panic!("{other:?}"),
        }
    }
    match notary_up_to(notary::Step::LoadKey).advance(notary::Event::Key(None)) {
        notary::Turn::Failed(e) => assert_eq!(e, "NOTARY_SIGNING_KEY env not set"),
        other => panic!("{other:?}"),
    }
}
