//! The offline verifier: its arguments, the facts that it reads from a response, and what it prints.
use crate::digits;
use crate::errors::{ErrorText, TlsnError};
use crate::presentation;
use crate::presentation::{OpenedPresentation, PresentationFault, Verified, VerifiedPresentation};
use crate::runs;
use crate::text;
use vstd::prelude::*;
use vstd::utf8::*;

verus! {

/// The notary key that is expected where none is given.
pub const DEFAULT_NOTARY_KEY: &'static str = "02114d7e15cb2a93ad88997af3394d00008dae381b601f31379d638de492ab25ef";

/// How the offline verifier is called.
pub const USAGE: &'static str = "usage: rep-verify <presentation.bin> [notary_pubkey_hex] [--json]";

/// How many undisclosed bytes in a row hide something; one alone can be a letter.
pub const REDACTION_MIN: usize = 2;

/// How many facts are printed.
pub const FACTS_SHOWN: usize = 40;

/// The fact that a part of a response states, if it states one: the part on one line without
/// whitespace around it. The status line of a response that succeeded is no fact.
pub open spec fn fact_in(part: Seq<char>) -> Option<Seq<char>> {
    let body = text::trimmed(part);
    let line = text::trimmed(text::replaced(body, '\n', " "@));
    if body.len() == 0 || body == "HTTP/1.1 200 OK"@ || line.len() == 0 {
        None
    } else {
        Some(line)
    }
}

/// The facts that `parts` state, in order.
pub open spec fn facts_in(parts: Seq<Seq<char>>) -> Seq<Seq<char>>
    decreases parts.len(),
{
    if parts.len() == 0 {
        Seq::empty()
    } else {
        match fact_in(parts.last()) {
            Some(fact) => facts_in(parts.drop_last()).push(fact),
            None => facts_in(parts.drop_last()),
        }
    }
}

/// The facts of a response: what stands before, between and behind the runs of undisclosed bytes.
pub open spec fn facts_of(recv: Seq<char>) -> Seq<Seq<char>> {
    facts_in(runs::split_at_runs(recv, 'X', REDACTION_MIN as nat))
}

/// The fact that a part of a response states, if it states one.
pub fn read_fact(part: &str) -> (r: Option<String>)
    ensures
        r matches Some(fact) ==> fact_in(part@) == Some(fact@),
        r is None ==> fact_in(part@) is None,
{
    let body = text::trim(part);
    if body.as_str().is_empty() || text::same_text(body.as_str(), "HTTP/1.1 200 OK") {
        return None;
    }
    let line = text::replace_char(body.as_str(), '\n', " ");
    let line = text::trim(line.as_str());
    if line.as_str().is_empty() {
        return None;
    }
    Some(line)
}

/// The facts that `parts` state, in order.
pub fn read_facts(parts: &Vec<String>) -> (facts: Vec<String>)
    ensures
        runs::texts(facts@) == facts_in(runs::texts(parts@)),
{
    let mut facts: Vec<String> = Vec::new();
    let mut i: usize = 0;
    let ghost all = runs::texts(parts@);
    assert(runs::texts(facts@) =~= facts_in(all.take(0)));
    while i < parts.len()
        invariant
            i <= parts.len(),
            all == runs::texts(parts@),
            runs::texts(facts@) == facts_in(all.take(i as int)),
        decreases parts.len() - i,
    {
        let ghost before = facts@;
        assert(all.take(i + 1).drop_last() =~= all.take(i as int));
        assert(all.take(i + 1).last() == parts@[i as int]@);
        match read_fact(parts[i].as_str()) {
            Some(fact) => {
                facts.push(fact);
                assert(runs::texts(facts@) =~= runs::texts(before).push(fact@));
            },
            None => {},
        }
        i += 1;
    }
    assert(all.take(i as int) =~= all);
    facts
}

/// The facts of a response. Undisclosed bytes are runs of 'X'; a single 'X' belongs to the text.
pub fn extract_facts(recv: &str) -> (facts: Vec<String>)
    ensures
        runs::texts(facts@) == facts_of(recv@),
{
    let parts = runs::split_runs(recv, 'X', REDACTION_MIN);
    read_facts(&parts)
}

/// Whether `arg` is an option, and no path or key.
pub open spec fn is_option(arg: Seq<char>) -> bool {
    text::occurs_at(arg, "--"@, 0)
}

/// Those of `args` that are no options, in order.
pub open spec fn positionals(args: Seq<Seq<char>>) -> Seq<Seq<char>>
    decreases args.len(),
{
    if args.len() == 0 {
        Seq::empty()
    } else if is_option(args.last()) {
        positionals(args.drop_last())
    } else {
        positionals(args.drop_last()).push(args.last())
    }
}

/// What the offline verifier was asked to do.
#[derive(Debug)]
pub struct Invocation {
    pub path: String,
    pub key: String,
    pub json: bool,
}

/// `args` without the name of the program.
pub open spec fn after_name(args: Seq<Seq<char>>) -> Seq<Seq<char>> {
    if args.len() == 0 {
        args
    } else {
        args.skip(1)
    }
}

/// What `args` ask for, the name of the program first; nothing where they name no presentation.
pub open spec fn asked(args: Seq<Seq<char>>) -> Option<(Seq<char>, Seq<char>, bool)> {
    let given = positionals(after_name(args));
    if given.len() == 0 {
        None
    } else {
        let key = if given.len() > 1 {
            given[1]
        } else {
            DEFAULT_NOTARY_KEY@
        };
        Some((given[0], key, args.contains("--json"@)))
    }
}

/// Reads the arguments, the name of the program first.
pub fn parse_args(args: &Vec<String>) -> (r: Option<Invocation>)
    ensures
        r matches Some(i) ==> asked(runs::texts(args@)) == Some((i.path@, i.key@, i.json)),
        r is None ==> asked(runs::texts(args@)) is None,
{
    let dashes = text::chars_of("--");
    let ghost all = runs::texts(args@);
    let ghost tail = after_name(all);
    let mut json = false;
    let mut path: Option<usize> = None;
    let mut key: Option<usize> = None;
    let mut i: usize = 0;
    let ghost mut given: Seq<Seq<char>> = Seq::empty();
    while i < args.len()
        invariant
            i <= args.len(),
            dashes@ == "--"@,
            all == runs::texts(args@),
            tail == after_name(all),
            json == (exists|j: int| 0 <= j < i && #[trigger] all[j] == "--json"@),
            i > 0 ==> given == positionals(tail.take(i - 1)),
            i == 0 ==> given == Seq::<Seq<char>>::empty(),
            path is None <==> given.len() == 0,
            key is None <==> given.len() < 2,
            path matches Some(p) ==> p < args.len() && all[p as int] == given[0],
            key matches Some(k) ==> k < args.len() && all[k as int] == given[1],
        decreases args.len() - i,
    {
        let arg = text::chars_of(args[i].as_str());
        assert(arg@ == all[i as int]);
        if text::same_text(args[i].as_str(), "--json") {
            json = true;
        }
        if i > 0 {
            proof {
                assert(tail.take(i as int).drop_last() =~= tail.take(i - 1));
                assert(tail.take(i as int).last() == all[i as int]);
            }
            if !text::chars_at(arg.as_slice(), dashes.as_slice(), 0) {
                if path.is_none() {
                    path = Some(i);
                } else if key.is_none() {
                    key = Some(i);
                }
                proof {
                    given = given.push(all[i as int]);
                }
            }
        } else {
            assert(positionals(tail.take(0)) =~= Seq::empty());
        }
        i += 1;
    }
    proof {
        assert(json == all.contains("--json"@));
        if args.len() > 0 {
            assert(tail.take(args.len() - 1) =~= tail);
        } else {
            assert(tail.len() == 0);
        }
    }
    match path {
        None => None,
        Some(p) => {
            let key = match key {
                Some(k) => args[k].clone(),
                None => DEFAULT_NOTARY_KEY.to_string(),
            };
            Some(Invocation { path: args[p].clone(), key, json })
        },
    }
}

/// The lines that list the first `n` of `facts`.
pub open spec fn fact_lines(facts: Seq<Seq<char>>, n: nat) -> Seq<Seq<char>>
    decreases n,
{
    if n == 0 || n > facts.len() {
        Seq::empty()
    } else {
        fact_lines(facts, (n - 1) as nat).push("    • "@ + facts[n - 1])
    }
}

/// What the offline verifier prints of a presentation that holds.
pub open spec fn report_lines(path: Seq<char>, key: Seq<char>, v: Verified) -> Seq<Seq<char>> {
    let facts = facts_of(v.recv);
    let head = seq![
        "REP offline proof verifier"@,
        "  presentation: "@ + path + " ("@ + digits::decimal_of(encode_utf8(v.recv).len())
            + " bytes)"@,
        "  no network — pure local crypto over the signed bytes\n"@,
        "[2] INTEGRITY — could the author have faked this?"@,
    ];
    if v.key_matches {
        head + seq![
            "    NO. signed by the PINNED notary key (keys were MPC-split,"@,
            "    so the author never held the full session key)."@,
            "    notary key: "@ + v.notary_key,
            "\n[1] WHO — where did the data come from?"@,
            "    server (proven by its real TLS certificate): "@ + v.server_name,
            "    connection time (unix): "@ + digits::decimal_of(v.time_secs as nat),
            "\n[3] PROVEN FACTS — revealed bytes, authenticated as server-origin:"@,
        ] + if facts.len() == 0 {
            seq!["    (whole response revealed — see raw recv)"@]
        } else {
            fact_lines(
                facts,
                if facts.len() < FACTS_SHOWN {
                    facts.len()
                } else {
                    FACTS_SHOWN as nat
                },
            )
        } + seq![
            "\n✅ VERIFIED. Two independent guarantees hold; trust the math, not REP."@,
        ]
    } else {
        head + seq![
            "    ❌ REJECTED — signed by a DIFFERENT notary key:"@,
            "       got:      "@ + v.notary_key,
            "       expected: "@ + key,
            "    A notary the author could control proves nothing. STOP."@,
        ]
    }
}

/// What the offline verifier prints of a presentation that holds. It succeeds iff the key is the one that was
/// expected.
pub fn report(path: &str, key: &str, v: &VerifiedPresentation) -> (r: (Vec<String>, bool))
    ensures
        runs::texts(r.0@) == report_lines(path@, key@, v@),
        r.1 == v.key_matches,
{
    let mut lines: Vec<String> = Vec::new();
    lines.push("REP offline proof verifier".to_string());
    let mut line = text::joined("  presentation: ", path);
    line.append(" (");
    let size: usize = v.recv.as_str().as_bytes().len();
    line.append(digits::decimal(size as u64).as_str());
    line.append(" bytes)");
    lines.push(line);
    lines.push("  no network — pure local crypto over the signed bytes\n".to_string());
    lines.push("[2] INTEGRITY — could the author have faked this?".to_string());
    if !v.key_matches {
        lines.push("    ❌ REJECTED — signed by a DIFFERENT notary key:".to_string());
        lines.push(text::joined("       got:      ", v.notary_key.as_str()));
        lines.push(text::joined("       expected: ", key));
        lines.push("    A notary the author could control proves nothing. STOP.".to_string());
        assert(runs::texts(lines@) =~= report_lines(path@, key@, v@));
        return (lines, false);
    }
    lines.push("    NO. signed by the PINNED notary key (keys were MPC-split,".to_string());
    lines.push("    so the author never held the full session key).".to_string());
    lines.push(text::joined("    notary key: ", v.notary_key.as_str()));
    lines.push("\n[1] WHO — where did the data come from?".to_string());
    lines.push(
        text::joined("    server (proven by its real TLS certificate): ", v.server_name.as_str()),
    );
    lines.push(text::joined("    connection time (unix): ", digits::decimal(v.time_secs).as_str()));
    lines.push(
        "\n[3] PROVEN FACTS — revealed bytes, authenticated as server-origin:".to_string(),
    );
    let facts = extract_facts(v.recv.as_str());
    let ghost head = runs::texts(lines@);
    if facts.len() == 0 {
        lines.push("    (whole response revealed — see raw recv)".to_string());
        lines.push(
            "\n✅ VERIFIED. Two independent guarantees hold; trust the math, not REP.".to_string(),
        );
        assert(facts_of(v.recv@).len() == 0) by {
            assert(runs::texts(facts@).len() == 0);
        }
        assert(runs::texts(lines@) =~= report_lines(path@, key@, v@));
        return (lines, true);
    }
    let shown: usize = if facts.len() < FACTS_SHOWN {
        facts.len()
    } else {
        FACTS_SHOWN
    };
    let ghost told = facts_of(v.recv@);
    let mut i: usize = 0;
    assert(head + fact_lines(told, 0) =~= head);
    while i < shown
        invariant
            i <= shown <= facts.len(),
            told == runs::texts(facts@),
            runs::texts(lines@) == head + fact_lines(told, i as nat),
        decreases shown - i,
    {
        let ghost before = lines@;
        let line = text::joined("    • ", facts[i].as_str());
        lines.push(line);
        proof {
            assert(told[i as int] == facts@[i as int]@);
            assert(fact_lines(told, (i + 1) as nat) == fact_lines(told, i as nat).push(
                "    • "@ + told[i as int],
            ));
            assert(runs::texts(lines@) =~= runs::texts(before).push("    • "@ + told[i as int]));
            assert(runs::texts(lines@) =~= head + fact_lines(told, (i + 1) as nat));
        }
        i += 1;
    }
    let ghost before = lines@;
    lines.push(
        "\n✅ VERIFIED. Two independent guarantees hold; trust the math, not REP.".to_string(),
    );
    assert(runs::texts(lines@) =~= runs::texts(before) + seq![
        "\n✅ VERIFIED. Two independent guarantees hold; trust the math, not REP."@,
    ]);
    assert(told.len() > 0);
    assert(runs::texts(lines@) =~= report_lines(path@, key@, v@));
    (lines, true)
}

/// Whether a check succeeds: the presentation holds, and its key is the one that was expected.
pub open spec fn accepted(verdict: Result<Verified, ErrorText>) -> bool {
    verdict matches Ok(v) && v.key_matches
}

/// Whether a check succeeds: the presentation holds, and its key is the one that was expected.
pub fn succeeded(verdict: &Result<VerifiedPresentation, TlsnError>) -> (r: bool)
    ensures
        verdict matches Ok(v) ==> r == accepted(Ok(v@)),
        verdict matches Err(e) ==> r == accepted(Err(e@)),
{
    match verdict {
        Ok(v) => v.key_matches,
        Err(_) => false,
    }
}

/// A check succeeds iff the presentation holds and the expected key signed it.
pub proof fn law_success_needs_the_expected_key(
    opened: Result<OpenedPresentation, PresentationFault>,
    expected: Seq<char>,
)
    ensures
        accepted(presentation::verdict(opened, expected)) <==> (opened matches Ok(o)
            && presentation::is_pinned(o.notary_key@, expected)),
{
}

/// A fact is not empty, stands on one line without whitespace around it, and has no undisclosed
/// stretch in it.
pub proof fn law_facts_are_disclosed_text(recv: Seq<char>, k: int)
    requires
        0 <= k < facts_of(recv).len(),
    ensures
        ({
            let fact = facts_of(recv)[k];
            &&& fact.len() > 0
            &&& !text::whitespace(fact[0]) && !text::whitespace(fact.last())
            &&& !fact.contains('\n')
            &&& runs::without_run(fact, 'X', REDACTION_MIN as nat)
        }),
{
    let parts = runs::split_at_runs(recv, 'X', REDACTION_MIN as nat);
    runs::law_parts_have_no_run(recv, 'X', REDACTION_MIN as nat);
    lemma_facts(parts, k);
}

proof fn lemma_facts(parts: Seq<Seq<char>>, k: int)
    requires
        0 <= k < facts_in(parts).len(),
        forall|i: int|
            0 <= i < parts.len() ==> runs::without_run(
                #[trigger] parts[i],
                'X',
                REDACTION_MIN as nat,
            ),
    ensures
        ({
            let fact = facts_in(parts)[k];
            &&& fact.len() > 0
            &&& !text::whitespace(fact[0]) && !text::whitespace(fact.last())
            &&& !fact.contains('\n')
            &&& runs::without_run(fact, 'X', REDACTION_MIN as nat)
        }),
    decreases parts.len(),
{
    let rest = parts.drop_last();
    assert forall|i: int| 0 <= i < rest.len() implies runs::without_run(
        #[trigger] rest[i],
        'X',
        REDACTION_MIN as nat,
    ) by {
        assert(rest[i] == parts[i]);
    }
    if k < facts_in(rest).len() {
        lemma_facts(rest, k);
    } else {
        assert(runs::without_run(parts[parts.len() - 1], 'X', REDACTION_MIN as nat));
        lemma_fact(parts.last());
    }
}

proof fn lemma_fact(part: Seq<char>)
    requires
        runs::without_run(part, 'X', REDACTION_MIN as nat),
        fact_in(part) is Some,
    ensures
        ({
            let fact = fact_in(part)->0;
            &&& fact.len() > 0
            &&& !text::whitespace(fact[0]) && !text::whitespace(fact.last())
            &&& !fact.contains('\n')
            &&& runs::without_run(fact, 'X', REDACTION_MIN as nat)
        }),
{
    let body = text::trimmed(part);
    let line = text::replaced(body, '\n', " "@);
    text::lemma_trimmed(part);
    let (i, j) = choose|i: int, j: int|
        0 <= i <= j <= part.len() && body == #[trigger] part.subrange(i, j);
    runs::lemma_stretch_without_run(part, 'X', REDACTION_MIN as nat, i, j);
    lemma_newlines_replaced(body);
    assert forall|i: int| 0 <= i < line.len() implies #[trigger] runs::run_len(line, 'X', i)
        < REDACTION_MIN by {
        lemma_same_runs(body, line, i);
    }
    text::lemma_trimmed(line);
    let (a, b) = choose|a: int, b: int|
        0 <= a <= b <= line.len() && text::trimmed(line) == #[trigger] line.subrange(a, b);
    runs::lemma_stretch_without_run(line, 'X', REDACTION_MIN as nat, a, b);
    let fact = text::trimmed(line);
    if fact.contains('\n') {
        let p = choose|p: int| 0 <= p < fact.len() && fact[p] == '\n';
        assert(line[a + p] == '\n');
    }
}

/// A text with a space in place of every line feed is otherwise the same.
proof fn lemma_newlines_replaced(s: Seq<char>)
    ensures
        ({
            let r = text::replaced(s, '\n', " "@);
            &&& r.len() == s.len()
            &&& forall|i: int|
                0 <= i < s.len() ==> #[trigger] r[i] == (if s[i] == '\n' {
                    ' '
                } else {
                    s[i]
                })
        }),
    decreases s.len(),
{
    reveal_strlit(" ");
    if s.len() > 0 {
        lemma_newlines_replaced(s.drop_last());
    }
}

proof fn lemma_same_runs(s: Seq<char>, r: Seq<char>, i: int)
    requires
        r.len() == s.len(),
        forall|k: int|
            0 <= k < s.len() ==> #[trigger] r[k] == (if s[k] == '\n' {
                ' '
            } else {
                s[k]
            }),
        0 <= i,
    ensures
        runs::run_len(r, 'X', i) == runs::run_len(s, 'X', i),
    decreases s.len() - i,
{
    if i < s.len() {
        lemma_same_runs(s, r, i + 1);
    }
}

/// A part of a response states what is left of it without the whitespace around it, on one line: a
/// space comes in place of every line feed, and every other character stays. A part that is blank, and
/// the status line of a response that succeeded, state nothing.
pub proof fn law_a_part_states_its_text(before: Seq<char>, core: Seq<char>, behind: Seq<char>)
    requires
        forall|i: int| 0 <= i < before.len() ==> text::whitespace(#[trigger] before[i]),
        forall|i: int| 0 <= i < behind.len() ==> text::whitespace(#[trigger] behind[i]),
        core.len() > 0 ==> !text::whitespace(core[0]) && !text::whitespace(core.last()),
    ensures
        core.len() == 0 || core == "HTTP/1.1 200 OK"@ ==> fact_in(before + core + behind) is None,
        core.len() > 0 && core != "HTTP/1.1 200 OK"@ ==> (fact_in(before + core + behind) matches Some(
            fact,
        ) && fact.len() == core.len() && forall|i: int|
            0 <= i < core.len() ==> #[trigger] fact[i] == (if core[i] == '\n' {
                ' '
            } else {
                core[i]
            })),
{
    text::law_trimming_cuts_whitespace_alone(before, core, behind);
    lemma_newlines_replaced(core);
    let line = text::replaced(core, '\n', " "@);
    if core.len() > 0 {
        assert(line[0] == core[0]);
        assert(line[line.len() - 1] == core[core.len() - 1]);
        assert(Seq::<char>::empty() + line + Seq::<char>::empty() =~= line);
        text::law_trimming_cuts_whitespace_alone(Seq::empty(), line, Seq::empty());
    }
}

/// The facts of parts are those of each, in order.
pub proof fn law_facts_come_in_order(a: Seq<Seq<char>>, b: Seq<Seq<char>>, part: Seq<char>)
    ensures
        facts_in(Seq::empty()) == Seq::<Seq<char>>::empty(),
        fact_in(part) matches Some(fact) ==> facts_in(seq![part]) == seq![fact],
        fact_in(part) is None ==> facts_in(seq![part]) == Seq::<Seq<char>>::empty(),
        facts_in(a + b) == facts_in(a) + facts_in(b),
    decreases b.len(),
{
    reveal_with_fuel(facts_in, 2);
    assert(seq![part].drop_last() =~= Seq::empty());
    assert(facts_in(seq![part]) =~= match fact_in(part) {
        Some(fact) => seq![fact],
        None => Seq::empty(),
    });
    if b.len() == 0 {
        assert(a + b =~= a);
        assert(facts_in(a) + facts_in(b) =~= facts_in(a));
    } else {
        law_facts_come_in_order(a, b.drop_last(), part);
        assert((a + b).drop_last() =~= a + b.drop_last());
        assert(facts_in(a + b) =~= facts_in(a) + facts_in(b));
    }
}

/// Two 'X' or more in a row part the facts of a response; one alone does not.
pub proof fn law_undisclosed_stretches_part_the_facts(
    before: Seq<char>,
    n: nat,
    behind: Seq<char>,
)
    requires
        n >= 2,
        runs::without_run(before, 'X', 2),
        before.len() > 0 ==> before.last() != 'X',
        behind.len() > 0 ==> behind[0] != 'X',
    ensures
        facts_of(before) == facts_in(seq![before]),
        facts_of(before + Seq::new(n, |i: int| 'X') + behind) == facts_in(seq![before]) + facts_of(
            behind,
        ),
{
    runs::law_text_without_run_stays(before, 'X', 2, Seq::empty());
    runs::lemma_run_is_split_at(before, 'X', 2, n, behind);
    law_facts_come_in_order(seq![before], runs::split_at_runs(behind, 'X', 2), before);
}

/// Arguments that begin with two dashes are options; all others name something, in order.
pub proof fn law_arguments_without_dashes_name_something(
    a: Seq<Seq<char>>,
    b: Seq<Seq<char>>,
    arg: Seq<char>,
)
    ensures
        positionals(Seq::empty()) == Seq::<Seq<char>>::empty(),
        arg.len() >= 2 && arg[0] == '-' && arg[1] == '-' ==> positionals(seq![arg])
            == Seq::<Seq<char>>::empty(),
        !(arg.len() >= 2 && arg[0] == '-' && arg[1] == '-') ==> positionals(seq![arg]) == seq![arg],
        positionals(a + b) == positionals(a) + positionals(b),
    decreases b.len(),
{
    reveal_with_fuel(positionals, 2);
    reveal_strlit("--");
    assert(seq![arg].drop_last() =~= Seq::empty());
    assert(seq![arg].last() == arg);
    if arg.len() >= 2 {
        assert(arg.subrange(0, 2)[0] == arg[0] && arg.subrange(0, 2)[1] == arg[1]);
        if arg[0] == '-' && arg[1] == '-' {
            assert(arg.subrange(0, 2) =~= "--"@);
        }
    }
    assert(positionals(seq![arg]) =~= if is_option(arg) {
        Seq::empty()
    } else {
        seq![arg]
    });
    if b.len() == 0 {
        assert(a + b =~= a);
        assert(positionals(a) + positionals(b) =~= positionals(a));
    } else {
        law_arguments_without_dashes_name_something(a, b.drop_last(), arg);
        assert((a + b).drop_last() =~= a + b.drop_last());
        assert(positionals(a + b) =~= positionals(a) + positionals(b));
    }
}

/// Behind the name of the program, the first argument that names something is the presentation, and the
/// second the key; where there is no second, the published key is expected.
pub proof fn law_arguments_say_what_to_check(name: Seq<char>, rest: Seq<Seq<char>>)
    ensures
        asked(Seq::empty()) is None,
        ({
            let given = positionals(rest);
            let args = seq![name] + rest;
            &&& given.len() == 0 ==> asked(args) is None
            &&& given.len() == 1 ==> asked(args) == Some(
                (
                    given[0],
                    "02114d7e15cb2a93ad88997af3394d00008dae381b601f31379d638de492ab25ef"@,
                    name == "--json"@ || rest.contains("--json"@),
                ),
            )
            &&& given.len() > 1 ==> asked(args) == Some(
                (given[0], given[1], name == "--json"@ || rest.contains("--json"@)),
            )
        }),
{
    let args = seq![name] + rest;
    assert(args.skip(1) =~= rest);
    let word = "--json"@;
    assert(args.contains(word) <==> name == word || rest.contains(word)) by {
        if args.contains(word) {
            let i = choose|i: int| 0 <= i < args.len() && args[i] == word;
            if i > 0 {
                assert(rest[i - 1] == word);
            }
        }
        if name == word {
            assert(args[0] == word);
        }
        if rest.contains(word) {
            let i = choose|i: int| 0 <= i < rest.len() && rest[i] == word;
            assert(args[i + 1] == word);
        }
    }
    assert(positionals(after_name(Seq::empty())).len() == 0);
}

proof fn lemma_fact_lines(facts: Seq<Seq<char>>, n: nat)
    requires
        n <= facts.len(),
    ensures
        fact_lines(facts, n).len() == n,
        forall|i: int| 0 <= i < n ==> #[trigger] fact_lines(facts, n)[i] == "    • "@ + facts[i],
    decreases n,
{
    if n > 0 {
        lemma_fact_lines(facts, (n - 1) as nat);
        let before = fact_lines(facts, (n - 1) as nat);
        assert forall|i: int| 0 <= i < n implies #[trigger] fact_lines(facts, n)[i] == "    • "@
            + facts[i] by {
            if i < n - 1 {
                assert(fact_lines(facts, n)[i] == before[i]);
            }
        }
    }
}

/// The report on a presentation with the expected key names the key, the server and the time, and lists
/// its facts: the first forty of them, one on each line.
pub proof fn law_report_names_server_time_and_facts(path: Seq<char>, key: Seq<char>, v: Verified)
    requires
        v.key_matches,
    ensures
        ({
            let lines = report_lines(path, key, v);
            let facts = facts_of(v.recv);
            let shown = if facts.len() <= 40 {
                facts.len() as int
            } else {
                40
            };
            let listed = if shown == 0 {
                1
            } else {
                shown
            };
            &&& lines.len() == 12 + listed
            &&& lines[0] == "REP offline proof verifier"@
            &&& lines[1] == "  presentation: "@ + path + " ("@ + digits::decimal_of(
                encode_utf8(v.recv).len(),
            ) + " bytes)"@
            &&& lines[2] == "  no network — pure local crypto over the signed bytes\n"@
            &&& lines[3] == "[2] INTEGRITY — could the author have faked this?"@
            &&& lines[4] == "    NO. signed by the PINNED notary key (keys were MPC-split,"@
            &&& lines[5] == "    so the author never held the full session key)."@
            &&& lines[6] == "    notary key: "@ + v.notary_key
            &&& lines[7] == "\n[1] WHO — where did the data come from?"@
            &&& lines[8] == "    server (proven by its real TLS certificate): "@ + v.server_name
            &&& lines[9] == "    connection time (unix): "@ + digits::decimal_of(v.time_secs as nat)
            &&& lines[10] == "\n[3] PROVEN FACTS — revealed bytes, authenticated as server-origin:"@
            &&& shown == 0 ==> lines[11] == "    (whole response revealed — see raw recv)"@
            &&& forall|i: int| 0 <= i < shown ==> lines[11 + i] == "    • "@ + #[trigger] facts[i]
            &&& lines.last()
                == "\n✅ VERIFIED. Two independent guarantees hold; trust the math, not REP."@
        }),
{
    let facts = facts_of(v.recv);
    let shown: nat = if facts.len() < FACTS_SHOWN {
        facts.len()
    } else {
        FACTS_SHOWN as nat
    };
    lemma_fact_lines(facts, shown);
    let lines = report_lines(path, key, v);
    assert forall|i: int| 0 <= i < shown implies lines[11 + i] == "    • "@ + #[trigger] facts[i] by {
        assert(lines[11 + i] == fact_lines(facts, shown)[i]);
    }
}

/// The report on a presentation with another key says that it is rejected, names both keys, and nothing
/// of what the presentation claims.
pub proof fn law_report_rejects_another_key(path: Seq<char>, key: Seq<char>, v: Verified)
    requires
        !v.key_matches,
    ensures
        report_lines(path, key, v) == seq![
            "REP offline proof verifier"@,
            "  presentation: "@ + path + " ("@ + digits::decimal_of(encode_utf8(v.recv).len())
                + " bytes)"@,
            "  no network — pure local crypto over the signed bytes\n"@,
            "[2] INTEGRITY — could the author have faked this?"@,
            "    ❌ REJECTED — signed by a DIFFERENT notary key:"@,
            "       got:      "@ + v.notary_key,
            "       expected: "@ + key,
            "    A notary the author could control proves nothing. STOP."@,
        ],
{
}

/// A check succeeds iff there is something to vouch for and its key matches.
pub proof fn law_only_a_matching_key_succeeds(v: Verified, e: ErrorText)
    ensures
        accepted(Ok(v)) <==> v.key_matches,
        !accepted(Err(e)),
{
}

} // verus!
