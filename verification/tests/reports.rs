use rep_notary::errors::proof_err;
use rep_notary::presentation::VerifiedPresentation;
use rep_notary::reopen::{
    check_line, check_views, conclude, probe_request, revealed, run_checks, same_offsets,
};
use rep_notary::report::{extract_facts, parse_args, report, succeeded, DEFAULT_NOTARY_KEY};

fn verified(recv: &str, key_matches: bool) -> VerifiedPresentation {
    VerifiedPresentation {
        server_name: "example.com".to_string(),
        time_secs: 1_700_000_000,
        sent: String::new(),
        recv: recv.to_string(),
        notary_key: "02ab".to_string(),
        key_matches,
    }
}

fn args(given: &[&str]) -> Vec<String> {
    given.iter().map(|a| a.to_string()).collect()
}

#[test]
fn facts_stand_between_undisclosed_stretches() {
    assert_eq!(
        extract_facts("HTTP/1.1 200 OKXXXX\"id\": 1XXX\n a\nb \nXX  XXX-Frame-OptionsXX"),
        vec!["\"id\": 1", "a b", "-Frame-Options"]
    );
    assert_eq!(extract_facts("X-Frame-Options: X"), vec!["X-Frame-Options: X"]);
    assert!(extract_facts("XXXXXX").is_empty());
    assert!(extract_facts("").is_empty());
    assert_eq!(extract_facts("HTTP/1.1 200 OK X"), vec!["HTTP/1.1 200 OK X"]);
}

#[test]
fn arguments_name_the_presentation_and_the_key() {
    assert!(parse_args(&args(&[])).is_none());
    assert!(parse_args(&args(&["rep-verify"])).is_none());
    assert!(parse_args(&args(&["rep-verify", "--json"])).is_none());
    let i = parse_args(&args(&["rep-verify", "p.bin"])).unwrap();
    assert_eq!((i.path.as_str(), i.key.as_str(), i.json), ("p.bin", DEFAULT_NOTARY_KEY, false));
    let i = parse_args(&args(&["rep-verify", "--json", "p.bin", "--other", "02ab", "more"])).unwrap();
    assert_eq!((i.path.as_str(), i.key.as_str(), i.json), ("p.bin", "02ab", true));
    let i = parse_args(&args(&["--json", "-p"])).unwrap();
    assert_eq!((i.path.as_str(), i.json), ("-p", true));
}

#[test]
fn a_presentation_with_the_expected_key_is_reported() {
    let (lines, ok) = report("p.bin", "02ab", &verified("HTTP/1.1 200 OKXX\"é\"", true));
    assert!(ok);
    assert_eq!(
        lines,
        vec![
            "REP offline proof verifier",
            "  presentation: p.bin (21 bytes)",
            "  no network — pure local crypto over the signed bytes\n",
            "[2] INTEGRITY — could the author have faked this?",
            "    NO. signed by the PINNED notary key (keys were MPC-split,",
            "    so the author never held the full session key).",
            "    notary key: 02ab",
            "\n[1] WHO — where did the data come from?",
            "    server (proven by its real TLS certificate): example.com",
            "    connection time (unix): 1700000000",
            "\n[3] PROVEN FACTS — revealed bytes, authenticated as server-origin:",
            "    • \"é\"",
            "\n✅ VERIFIED. Two independent guarantees hold; trust the math, not REP.",
        ]
    );
}

#[test]
fn a_presentation_with_another_key_is_rejected() {
    let (lines, ok) = report("p.bin", "02cd", &verified("", false));
    assert!(!ok);
    assert_eq!(
        &lines[4..],
        &[
            "    ❌ REJECTED — signed by a DIFFERENT notary key:",
            "       got:      02ab",
            "       expected: 02cd",
            "    A notary the author could control proves nothing. STOP.",
        ]
    );
}

#[test]
fn at_most_forty_facts_are_listed() {
    let recv: Vec<String> = (0..50).map(|n| format!("fact {n}")).collect();
    let (lines, _) = report("p", "k", &verified(&recv.join("XX"), true));
    assert_eq!(lines.len(), 11 + 40 + 1);
    assert_eq!(lines[50], "    • fact 39");
    let (lines, _) = report("p", "k", &verified("XXXX", true));
    assert_eq!(lines[11], "    (whole response revealed — see raw recv)");
    assert_eq!(lines.len(), 13);
}

#[test]
fn success_needs_the_expected_key() {
    assert!(succeeded(&Ok(verified("", true))));
    assert!(!succeeded(&Ok(verified("", false))));
    assert!(!succeeded(&Err(proof_err("e"))));
}

#[test]
fn undisclosed_characters_do_not_count() {
    assert_eq!(revealed("aXXbé"), 3);
    assert_eq!(revealed(""), 0);
    assert_eq!(revealed("XXX"), 0);
}

#[test]
fn a_narrower_view_keeps_every_character_in_place() {
    assert!(same_offsets("aXXd", "abXd"));
    assert!(!same_offsets("bXXd", "abXd"));
    assert!(same_offsets("a", "abc"));
    assert!(revealed("aXXd") < revealed("abXd"));
}

#[test]
fn a_sound_narrowing_passes_every_check() {
    let full = verified("HTTP \"id\" :\t17, \"author\": \"me\"", true);
    let narrow = verified("HTTP \"id\" :\t17XXXXXXXXXXXXXXXX", true);
    let checks = run_checks(
        &full,
        &narrow,
        &Err("no commitment for 3..9".to_string()),
        &Ok(Ok(verified("HTTP XX", true))),
        &Ok(vec![Ok(verified("ab", true)), Ok(verified("abc", true))]),
    );
    assert_eq!(checks.len(), 10);
    for check in &checks {
        assert!(check.passed, "{check:?}");
    }
    assert_eq!(check_line(&checks[1]), "  ok   and is signed by the same notary");
    assert_eq!(
        conclude(&checks, &full, &narrow),
        ("\n✅ re-open verified: 30B → 14B revealed, offline, no second proof".to_string(), true)
    );
}

#[test]
fn an_unsound_narrowing_fails_its_checks() {
    let full = verified("ab", true);
    let mut narrow = verified("cbé", false);
    narrow.time_secs = 5;
    narrow.notary_key = "03".to_string();
    let checks = run_checks(
        &full,
        &narrow,
        &Ok(Ok(verified("abX", true))),
        &Ok(Err("broken".to_string())),
        &Ok(vec![Ok(verified("abc", true)), Err("e".to_string()), Ok(verified("a", true))]),
    );
    let lines: Vec<String> = checks.iter().map(check_line).collect();
    assert_eq!(
        lines,
        vec![
            "  FAIL the re-opened proof carries the same connection: example.com @ 5 vs example.com @ 1700000000",
            "  FAIL and is signed by the same notary: 03 vs 02ab",
            "  FAIL which is the notary REP pins: wide=true narrow=false",
            "  FAIL it reveals strictly less than the original: narrow=3B wide=2B",
            "  FAIL and every byte it does reveal is the original byte at the same offset: len 4 vs 2",
            "  FAIL the field that was asked for is present in the narrowed proof: cbé",
            "  FAIL opening a field that was never committed is refused: it produced a proof revealing 2B instead of failing",
            "  FAIL the minimal narrowing still verifies: broken",
            "  FAIL one session yields several levels, each a valid proof: [3, 0, 1]",
            "  FAIL and the narrow level reveals less than the wide one: narrow=3B wide=0B",
        ]
    );
    assert_eq!(
        conclude(&checks, &full, &narrow),
        ("\n❌ re-open is NOT sound; do not ship the disclosure-level path".to_string(), false)
    );
}

#[test]
fn failures_to_open_are_checked() {
    let full = verified("ab", true);
    let checks = run_checks(
        &full,
        &full,
        &Err("timeout".to_string()),
        &Err("refused".to_string()),
        &Err("none".to_string()),
    );
    assert_eq!(
        check_line(&checks[6]),
        "  FAIL opening a field that was never committed is refused, with the bytes named: timeout"
    );
    assert_eq!(
        check_line(&checks[7]),
        "  FAIL narrowing to the status line alone is allowed: refused"
    );
    assert_eq!(check_line(&checks[8]), "  FAIL building levels at proof time works: none");
    assert_eq!(checks.len(), 9);
}

#[test]
fn the_field_needs_a_number() {
    for (recv, found) in [
        ("\"id\":1", true),
        ("\"id\" \n:\u{a0}9x", true),
        ("\"id\":\"1\"", false),
        ("\"id\"1", false),
        ("\"idx\":1", false),
        ("\"id\" X: 1", false),
    ] {
        let v = verified(recv, true);
        assert_eq!(check_views(&v, &v)[5].passed, found, "{recv}");
    }
    let long = verified(&"é".repeat(130), true);
    assert_eq!(check_views(&long, &long)[5].detail, "é".repeat(120));
}

#[test]
fn the_probe_asks_for_plain_json() {
    let r = probe_request(None);
    assert_eq!(r.url, "https://dummyjson.com/quotes/1");
    assert_eq!((r.method.as_str(), r.headers.len(), r.body), ("GET", 4, None));
    assert_eq!(r.headers[2].value, "identity");
    assert_eq!(probe_request(Some("https://a.b/".to_string())).url, "https://a.b/");
}
