use rep_notary::disclosure::{cut_exchange, openings};
use rep_notary::errors::{cfg_err, conn_err, proof_err, TlsnError};
use rep_notary::presentation::{
    mask_undisclosed, verify_presentation, verify_presentation_handler, ByteRange,
    OpenedPresentation, PresentationFault, RevealedTranscript, VerifyQuery, UNDISCLOSED,
};

fn opened(hidden: &[u8]) -> OpenedPresentation {
    let line = b"GET / HTTP/1.1";
    let mut sent = line.to_vec();
    sent.extend_from_slice(hidden);
    let received = b"HTTP/1.1 200 OK\r\n\r\nhi".to_vec();
    let received_len = received.len();
    OpenedPresentation {
        notary_key: vec![0x02, 0xab],
        server_name: Some("example.com".to_string()),
        time_secs: 1_700_000_000,
        transcript: Some(RevealedTranscript {
            sent,
            sent_authed: vec![ByteRange { start: 0, end: line.len() }],
            received,
            received_authed: vec![ByteRange { start: 0, end: received_len }],
        }),
    }
}

#[test]
fn a_presentation_that_holds_is_described() {
    let v = verify_presentation(Ok(opened(b"\r\nA: b")), " 02AB\n").unwrap();
    assert_eq!(v.server_name, "example.com");
    assert_eq!(v.time_secs, 1_700_000_000);
    assert_eq!(v.sent, "GET / HTTP/1.1XXXXXX");
    assert_eq!(v.recv, "HTTP/1.1 200 OK\r\n\r\nhi");
    assert_eq!(v.notary_key, "02ab");
    assert!(v.key_matches);
}

#[test]
fn another_key_does_not_match() {
    for key in ["02ac", "2ab", "", "02ab00", "02 ab"] {
        assert!(!verify_presentation(Ok(opened(b"")), key).unwrap().key_matches);
    }
}

#[test]
fn hidden_bytes_do_not_show() {
    let a = verify_presentation(Ok(opened(b"\r\nCookie: secret")), "02ab").unwrap();
    let b = verify_presentation(Ok(opened(b"\r\nCookie: public")), "02ab").unwrap();
    assert_eq!(a.sent, b.sent);
    assert!(!a.sent.contains("secret"));
}

#[test]
fn a_presentation_without_an_exchange_or_a_name_shows_none() {
    let bare = OpenedPresentation {
        notary_key: vec![],
        server_name: None,
        time_secs: 0,
        transcript: None,
    };
    let v = verify_presentation(Ok(bare), "").unwrap();
    assert_eq!((v.server_name.as_str(), v.sent.as_str(), v.recv.as_str()), ("", "", ""));
    assert!(v.key_matches);
}

#[test]
fn faults_are_told() {
    match verify_presentation(Err(PresentationFault::Unreadable("eof".to_string())), "") {
        Err(TlsnError::ProofFailed(e)) => assert_eq!(e, "eof"),
        other => panic!("{other:?}"),
    }
    match verify_presentation(Err(PresentationFault::Refused("bad".to_string())), "") {
        Err(TlsnError::ProofFailed(e)) => assert_eq!(e, "presentation verify failed: bad"),
        other => panic!("{other:?}"),
    }
}

#[test]
fn the_service_answers_what_the_offline_check_says() {
    let q = VerifyQuery { key: "02ab".to_string() };
    let r = verify_presentation_handler(&q, Ok(opened(b"\r\nA: b"))).unwrap();
    let v = verify_presentation(Ok(opened(b"\r\nA: b")), "02ab").unwrap();
    assert!(r.ok && r.key_matches && v.key_matches);
    assert_eq!((r.sent, r.recv), (v.sent, v.recv));
    assert_eq!((r.server_name, r.time_secs, r.notary_key), (v.server_name, v.time_secs, v.notary_key));
}

#[test]
fn the_service_refuses_with_a_bad_request() {
    let q = VerifyQuery { key: "02ab".to_string() };
    assert_eq!(
        verify_presentation_handler(&q, Err(PresentationFault::Unreadable("eof".to_string()))).err(),
        Some((400, "deserialize presentation: eof".to_string()))
    );
    assert_eq!(
        verify_presentation_handler(&q, Err(PresentationFault::Refused("bad".to_string()))).err(),
        Some((400, "presentation verify failed: bad".to_string()))
    );
}

#[test]
fn only_covered_bytes_are_kept() {
    let few = vec![ByteRange { start: 1, end: 3 }];
    let many = vec![ByteRange { start: 0, end: 2 }, ByteRange { start: 2, end: 9 }];
    let bytes = b"abcd".to_vec();
    assert_eq!(mask_undisclosed(&bytes, &few, UNDISCLOSED), b"XbcX".to_vec());
    assert_eq!(mask_undisclosed(&bytes, &many, UNDISCLOSED), bytes);
    assert_eq!(mask_undisclosed(&bytes, &vec![], 0), vec![0; 4]);
}

#[test]
fn errors_say_what_failed() {
    assert!(matches!(cfg_err("x"), TlsnError::ProofFailed(e) if e == "config: x"));
    assert!(matches!(conn_err("x"), TlsnError::ConnectionFailed(e) if e == "x"));
    assert!(matches!(proof_err("x"), TlsnError::ProofFailed(e) if e == "x"));
}

#[test]
fn a_reopened_presentation_is_narrower() {
    let response = |hidden: u8, ranges: Vec<ByteRange>| {
        let mut bytes = b"HTTP/1.1 200 OK\r\n\r\n{\"id\":1,\"author\":\"me\"}".to_vec();
        for (i, b) in bytes.iter_mut().enumerate() {
            if !ranges.iter().any(|r| r.start <= i && i < r.end) {
                *b = hidden;
            }
        }
        let mut o = opened(b"");
        let t = o.transcript.as_mut().unwrap();
        t.received = bytes;
        t.received_authed = ranges;
        o
    };
    let id = ByteRange { start: 20, end: 26 };
    let author = ByteRange { start: 27, end: 40 };
    let full = verify_presentation(Ok(response(0, vec![id, author])), "02ab").unwrap();
    let narrow = verify_presentation(Ok(response(7, vec![id])), "02ab").unwrap();
    assert_eq!(full.recv, "XXXXXXXXXXXXXXXXXXXX\"id\":1X\"author\":\"me\"X");
    assert_eq!(narrow.recv, "XXXXXXXXXXXXXXXXXXXX\"id\":1XXXXXXXXXXXXXXX");
    assert_eq!(narrow.recv.len(), full.recv.len());
    assert_eq!(narrow.server_name, full.server_name);
    assert_eq!(narrow.time_secs, full.time_secs);
    assert_eq!(narrow.notary_key, full.notary_key);
    assert_eq!(narrow.key_matches, full.key_matches);
}

#[test]
fn a_presentation_of_an_exchange_shows_the_line_alone() {
    let sent = b"GET /a HTTP/1.1\r\nCookie: secret\r\n\r\nbody";
    let received = b"HTTP/1.1 200 OK\r\n\r\nhi".to_vec();
    let shown = openings(cut_exchange(sent, received.len()));
    let mut held = sent.to_vec();
    for b in held.iter_mut().skip(15) {
        *b = 0;
    }
    let mut o = opened(b"");
    o.transcript = Some(RevealedTranscript {
        sent: held,
        sent_authed: shown.sent,
        received,
        received_authed: shown.received,
    });
    let v = verify_presentation(Ok(o), "02ab").unwrap();
    assert_eq!(v.sent, format!("GET /a HTTP/1.1{}", "X".repeat(sent.len() - 15)));
    assert_eq!(v.recv, "HTTP/1.1 200 OK\r\n\r\nhi");
}

#[test]
fn a_request_line_with_other_characters_is_shown_as_it_was_sent() {
    let sent = "GET /ä HTTP/1.1\r\nCookie: ö\r\n\r\n".as_bytes();
    let shown = openings(cut_exchange(sent, 0));
    let mut o = opened(b"");
    o.transcript = Some(RevealedTranscript {
        sent: sent.to_vec(),
        sent_authed: shown.sent,
        received: vec![],
        received_authed: shown.received,
    });
    let v = verify_presentation(Ok(o), "02ab").unwrap();
    assert_eq!(v.sent, format!("GET /ä HTTP/1.1{}", "X".repeat(sent.len() - 16)));
    assert_eq!(v.sent.len(), sent.len());
}

#[test]
fn a_reopened_presentation_with_other_characters_is_narrower_byte_by_byte() {
    let recv = |ranges: Vec<ByteRange>| {
        let mut o = opened(b"");
        let t = o.transcript.as_mut().unwrap();
        t.received = "\"é\":1,\"ü\":2".as_bytes().to_vec();
        t.received_authed = ranges;
        verify_presentation(Ok(o), "02ab").unwrap().recv
    };
    let full = recv(vec![ByteRange { start: 0, end: 13 }]);
    let narrow = recv(vec![ByteRange { start: 0, end: 6 }]);
    assert_eq!(full, "\"é\":1,\"ü\":2");
    assert_eq!(narrow, "\"é\":1XXXXXXX");
    assert_eq!(narrow.len(), full.len());
    for (n, f) in narrow.bytes().zip(full.bytes()) {
        assert!(n == b'X' || n == f);
    }
}
