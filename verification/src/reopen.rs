//! The check that a notarized session can be opened again narrower, offline, and no wider.
//!
//! A session is notarized once, with two fields committed to apart. From the same attestation a second
//! presentation is opened that shows one of them. It has to carry the same connection and notary, show
//! strictly less, and show the same characters at the same places. Opening what was never committed to
//! has to fail.
use crate::digits;
use crate::plan::{HttpHeader, HttpRequest};
use crate::presentation::{Verified, VerifiedPresentation};
use crate::text;
use vstd::prelude::*;
use vstd::utf8::*;

verus! {

/// The name of the field that the narrower presentation shows.
pub const FIELD: &'static str = "id";

/// What the session commits to: two fields, as one range each.
pub const WIDE_PATTERN: &'static str = "\"id\"\\s*:\\s*[0-9]+|\"author\"\\s*:\\s*\"[^\"]*\"";

/// What the narrower presentation shows: one of the fields.
pub const NARROW_PATTERN: &'static str = "\"id\"\\s*:\\s*[0-9]+";

/// A field that stands in the response and was not committed to.
pub const UNCOMMITTED_PATTERN: &'static str = "\"quote\"\\s*:\\s*\"[^\"]*\"";

/// What stands in no response.
pub const EMPTY_PATTERN: &'static str = "matches-nothing-at-all";

/// What is fetched where no URL is given.
pub const DEFAULT_URL: &'static str = "https://dummyjson.com/quotes/1";

/// How many characters of a response are shown where a field is missing from it.
pub const EXCERPT: usize = 120;

/// What came of one check.
#[derive(Debug)]
pub struct Check {
    pub name: String,
    pub passed: bool,
    pub detail: String,
}

/// What came of one check, over characters.
#[verifier::ext_equal]
pub struct CheckText {
    pub name: Seq<char>,
    pub passed: bool,
    pub detail: Seq<char>,
}

impl View for Check {
    type V = CheckText;

    open spec fn view(&self) -> CheckText {
        CheckText { name: self.name@, passed: self.passed, detail: self.detail@ }
    }
}

/// `checks`, over characters.
pub open spec fn check_texts(checks: Seq<Check>) -> Seq<CheckText> {
    Seq::new(checks.len(), |i: int| checks[i]@)
}

/// How many characters of a response are disclosed: all but those that stand for an undisclosed byte.
pub open spec fn disclosed(recv: Seq<char>) -> nat
    decreases recv.len(),
{
    if recv.len() == 0 {
        0
    } else if recv.last() == 'X' {
        disclosed(recv.drop_last())
    } else {
        disclosed(recv.drop_last()) + 1
    }
}

/// Whether `narrow` shows, as far as both go, nothing but what `wide` shows at the same place.
pub open spec fn same_places(narrow: Seq<char>, wide: Seq<char>) -> bool {
    forall|i: int|
        0 <= i < narrow.len() && i < wide.len() ==> #[trigger] narrow[i] == 'X' || narrow[i]
            == wide[i]
}

/// Whether a field called `name` with a number in it stands in `recv` at index `i`.
pub open spec fn number_field_at(recv: Seq<char>, name: Seq<char>, i: int) -> bool {
    let key = seq!['"'] + name + seq!['"'];
    &&& text::occurs_at(recv, key, i)
    &&& exists|a: int, b: int|
        #![trigger recv[a], recv[b]]
        {
            &&& i + key.len() <= a < b < recv.len()
            &&& recv[a] == ':'
            &&& forall|k: int| i + key.len() <= k < b && k != a ==> text::whitespace(#[trigger] recv[k])
            &&& '0' <= recv[b] <= '9'
        }
}

/// Calls `regex::Regex::is_match` with the pattern of a JSON member called `name` whose value begins
/// with a decimal digit; there may be whitespace on both sides of the colon.
#[verifier::external_body]
pub(crate) fn has_number_field(recv: &str, name: &str) -> (r: bool)
    requires
        name@.len() <= 1000,
    ensures
        r == (exists|i: int| #[trigger] number_field_at(recv@, name@, i)),
{
    let pattern = format!("\"{}\"\\s*:\\s*[0-9]+", regex::escape(name));
    regex::Regex::new(&pattern).unwrap().is_match(recv)
}

/// How many characters of a response are disclosed.
pub fn revealed(recv: &str) -> (r: usize)
    ensures
        r == disclosed(recv@),
{
    let chars = text::chars_of(recv);
    let mut n: usize = 0;
    let mut i: usize = 0;
    while i < chars.len()
        invariant
            i <= chars.len(),
            chars@ == recv@,
            n <= i,
            n == disclosed(chars@.take(i as int)),
        decreases chars.len() - i,
    {
        assert(chars@.take(i + 1).drop_last() =~= chars@.take(i as int));
        if chars[i] != 'X' {
            n += 1;
        }
        i += 1;
    }
    assert(chars@.take(i as int) =~= chars@);
    n
}

/// Whether `narrow` shows, as far as both go, nothing but what `wide` shows at the same place.
pub fn same_offsets(narrow: &str, wide: &str) -> (r: bool)
    ensures
        r == same_places(narrow@, wide@),
{
    let n = text::chars_of(narrow);
    let w = text::chars_of(wide);
    let mut i: usize = 0;
    while i < n.len() && i < w.len()
        invariant
            n@ == narrow@,
            w@ == wide@,
            i <= n.len(),
            i <= w.len(),
            forall|j: int| 0 <= j < i ==> #[trigger] narrow@[j] == 'X' || narrow@[j] == wide@[j],
        decreases n.len() - i,
    {
        if n[i] != 'X' && n[i] != w[i] {
            assert(!(narrow@[i as int] == 'X' || narrow@[i as int] == wide@[i as int]));
            return false;
        }
        i += 1;
    }
    true
}

/// `n` in decimal notation, and a "B" for bytes.
pub open spec fn size_text(n: nat) -> Seq<char> {
    digits::decimal_of(n) + "B"@
}

/// `b` in words.
pub open spec fn bool_text(b: bool) -> Seq<char> {
    if b {
        "true"@
    } else {
        "false"@
    }
}

/// The checks of a narrower presentation against the one that it was opened from.
pub open spec fn view_checks(full: Verified, narrow: Verified) -> Seq<CheckText> {
    let full_len = encode_utf8(full.recv).len();
    let narrow_len = encode_utf8(narrow.recv).len();
    seq![
        CheckText {
            name: "the re-opened proof carries the same connection"@,
            passed: narrow.server_name == full.server_name && narrow.time_secs == full.time_secs,
            detail: narrow.server_name + " @ "@ + digits::decimal_of(narrow.time_secs as nat) + " vs "@
                + full.server_name + " @ "@ + digits::decimal_of(full.time_secs as nat),
        },
        CheckText {
            name: "and is signed by the same notary"@,
            passed: narrow.notary_key == full.notary_key,
            detail: narrow.notary_key + " vs "@ + full.notary_key,
        },
        CheckText {
            name: "which is the notary REP pins"@,
            passed: full.key_matches && narrow.key_matches,
            detail: "wide="@ + bool_text(full.key_matches) + " narrow="@ + bool_text(
                narrow.key_matches,
            ),
        },
        CheckText {
            name: "it reveals strictly less than the original"@,
            passed: disclosed(narrow.recv) < disclosed(full.recv),
            detail: "narrow="@ + size_text(disclosed(narrow.recv)) + " wide="@ + size_text(
                disclosed(full.recv),
            ),
        },
        CheckText {
            name: "and every byte it does reveal is the original byte at the same offset"@,
            passed: same_places(narrow.recv, full.recv) && narrow_len == full_len,
            detail: "len "@ + digits::decimal_of(narrow_len) + " vs "@ + digits::decimal_of(full_len),
        },
        CheckText {
            name: "the field that was asked for is present in the narrowed proof"@,
            passed: exists|i: int| #[trigger] number_field_at(narrow.recv, FIELD@, i),
            detail: narrow.recv.take(
                if narrow.recv.len() < EXCERPT {
                    narrow.recv.len() as int
                } else {
                    EXCERPT as int
                },
            ),
        },
    ]
}

/// What came of opening a presentation and of verifying it: the outer error is that of the opening.
pub type Opened = Result<Result<VerifiedPresentation, String>, String>;

/// How many characters a presentation discloses; none where it does not verify.
pub open spec fn disclosed_by(verified: Result<VerifiedPresentation, String>) -> nat {
    match verified {
        Ok(v) => disclosed(v.recv@),
        Err(_) => 0,
    }
}

/// Whether `message` says which bytes no commitment covers.
pub open spec fn names_the_bytes(message: Seq<char>) -> bool {
    ||| exists|i: int| #[trigger] text::occurs_at(message, "cover"@, i)
    ||| exists|i: int| #[trigger] text::occurs_at(message, "commitment"@, i)
}

/// The check that what was never committed to cannot be opened.
pub open spec fn refusal_check(opened: Opened) -> CheckText {
    match opened {
        Ok(verified) => CheckText {
            name: "opening a field that was never committed is refused"@,
            passed: false,
            detail: "it produced a proof revealing "@ + size_text(disclosed_by(verified))
                + " instead of failing"@,
        },
        Err(e) => CheckText {
            name: "opening a field that was never committed is refused, with the bytes named"@,
            passed: names_the_bytes(e@),
            detail: e@,
        },
    }
}

/// The check that everything but the status line can be left out; `narrow` is what the narrower
/// presentation discloses.
pub open spec fn floor_check(opened: Opened, narrow: nat) -> CheckText {
    match opened {
        Ok(Ok(v)) => CheckText {
            name: "and narrowing to the status line alone is allowed"@,
            passed: disclosed(v.recv@) < narrow && v.key_matches,
            detail: size_text(disclosed(v.recv@)),
        },
        Ok(Err(e)) => CheckText {
            name: "the minimal narrowing still verifies"@,
            passed: false,
            detail: e@,
        },
        Err(e) => CheckText {
            name: "narrowing to the status line alone is allowed"@,
            passed: false,
            detail: e@,
        },
    }
}

/// What came of building a presentation for each of several levels, the narrowest first.
pub type Levels = Result<Vec<Result<VerifiedPresentation, String>>, String>;

/// How many characters each of `levels` discloses.
pub open spec fn level_sizes(levels: Seq<Result<VerifiedPresentation, String>>) -> Seq<nat> {
    Seq::new(levels.len(), |i: int| disclosed_by(levels[i]))
}

/// `sizes` with commas in between.
pub open spec fn comma_list(sizes: Seq<nat>) -> Seq<char>
    decreases sizes.len(),
{
    if sizes.len() == 0 {
        Seq::empty()
    } else if sizes.len() == 1 {
        digits::decimal_of(sizes[0])
    } else {
        comma_list(sizes.drop_last()) + ", "@ + digits::decimal_of(sizes.last())
    }
}

/// The checks of the presentations for several levels.
pub open spec fn level_checks(levels: Levels) -> Seq<CheckText> {
    match levels {
        Ok(built) => {
            let sizes = level_sizes(built@);
            seq![
                CheckText {
                    name: "one session yields several levels, each a valid proof"@,
                    passed: sizes.len() == 2 && sizes[0] > 0 && sizes[1] > 0,
                    detail: "["@ + comma_list(sizes) + "]"@,
                },
                CheckText {
                    name: "and the narrow level reveals less than the wide one"@,
                    passed: sizes[0] < sizes[1],
                    detail: "narrow="@ + size_text(sizes[0]) + " wide="@ + size_text(sizes[1]),
                },
            ]
        },
        Err(e) => seq![
            CheckText { name: "building levels at proof time works"@, passed: false, detail: e@ },
        ],
    }
}

/// All checks, in their order.
pub open spec fn all_checks(
    full: Verified,
    narrow: Verified,
    uncommitted: Opened,
    floor: Opened,
    levels: Levels,
) -> Seq<CheckText> {
    view_checks(full, narrow) + seq![
        refusal_check(uncommitted),
        floor_check(floor, disclosed(narrow.recv)),
    ] + level_checks(levels)
}

/// `n` in decimal notation, and a "B" for bytes.
fn show_size(n: usize) -> (r: String)
    ensures
        r@ == size_text(n as nat),
{
    text::joined(digits::decimal(n as u64).as_str(), "B")
}

/// `b` in words.
fn show_bool(b: bool) -> (r: String)
    ensures
        r@ == bool_text(b),
{
    if b {
        "true".to_string()
    } else {
        "false".to_string()
    }
}

/// The first characters of `recv`.
fn excerpt(recv: &str) -> (r: String)
    ensures
        r@ == recv@.take(
            if recv@.len() < EXCERPT {
                recv@.len() as int
            } else {
                EXCERPT as int
            },
        ),
{
    let chars = text::chars_of(recv);
    let n: usize = if chars.len() < EXCERPT {
        chars.len()
    } else {
        EXCERPT
    };
    assert(chars@.subrange(0, n as int) =~= chars@.take(n as int));
    text::string_of(vstd::slice::slice_subrange(chars.as_slice(), 0, n))
}

/// Checks a narrower presentation against the one that it was opened from.
pub fn check_views(full: &VerifiedPresentation, narrow: &VerifiedPresentation) -> (r: Vec<Check>)
    ensures
        check_texts(r@) == view_checks(full@, narrow@),
{
    let mut checks: Vec<Check> = Vec::new();

    let mut detail = text::joined(narrow.server_name.as_str(), " @ ");
    detail.append(digits::decimal(narrow.time_secs).as_str());
    detail.append(" vs ");
    detail.append(full.server_name.as_str());
    detail.append(" @ ");
    detail.append(digits::decimal(full.time_secs).as_str());
    let same_server = text::same_text(narrow.server_name.as_str(), full.server_name.as_str());
    checks.push(
        Check {
            name: "the re-opened proof carries the same connection".to_string(),
            passed: same_server && narrow.time_secs == full.time_secs,
            detail,
        },
    );

    let mut detail = text::joined(narrow.notary_key.as_str(), " vs ");
    detail.append(full.notary_key.as_str());
    checks.push(
        Check {
            name: "and is signed by the same notary".to_string(),
            passed: text::same_text(narrow.notary_key.as_str(), full.notary_key.as_str()),
            detail,
        },
    );

    let mut detail = text::joined("wide=", show_bool(full.key_matches).as_str());
    detail.append(" narrow=");
    detail.append(show_bool(narrow.key_matches).as_str());
    checks.push(
        Check {
            name: "which is the notary REP pins".to_string(),
            passed: full.key_matches && narrow.key_matches,
            detail,
        },
    );

    let wide_size: usize = revealed(full.recv.as_str());
    let narrow_size: usize = revealed(narrow.recv.as_str());
    let mut detail = text::joined("narrow=", show_size(narrow_size).as_str());
    detail.append(" wide=");
    detail.append(show_size(wide_size).as_str());
    checks.push(
        Check {
            name: "it reveals strictly less than the original".to_string(),
            passed: narrow_size < wide_size,
            detail,
        },
    );

    let narrow_len: usize = narrow.recv.as_str().as_bytes().len();
    let full_len: usize = full.recv.as_str().as_bytes().len();
    let mut detail = text::joined("len ", digits::decimal(narrow_len as u64).as_str());
    detail.append(" vs ");
    detail.append(digits::decimal(full_len as u64).as_str());
    let same = same_offsets(narrow.recv.as_str(), full.recv.as_str());
    checks.push(
        Check {
            name: "and every byte it does reveal is the original byte at the same offset".to_string(),
            passed: same && narrow_len == full_len,
            detail,
        },
    );

    proof {
        reveal_strlit("id");
    }
    checks.push(
        Check {
            name: "the field that was asked for is present in the narrowed proof".to_string(),
            passed: has_number_field(narrow.recv.as_str(), FIELD),
            detail: excerpt(narrow.recv.as_str()),
        },
    );
    assert(check_texts(checks@) =~= view_checks(full@, narrow@));
    checks
}

/// How many characters a presentation discloses; none where it does not verify.
fn revealed_by(verified: &Result<VerifiedPresentation, String>) -> (r: usize)
    ensures
        r == disclosed_by(*verified),
{
    match verified {
        Ok(v) => revealed(v.recv.as_str()),
        Err(_) => 0,
    }
}

/// Checks that what was never committed to cannot be opened.
pub fn check_refusal(opened: &Opened) -> (r: Check)
    ensures
        r@ == refusal_check(*opened),
{
    match opened {
        Ok(verified) => {
            let mut detail = "it produced a proof revealing ".to_string();
            detail.append(show_size(revealed_by(verified)).as_str());
            detail.append(" instead of failing");
            Check {
                name: "opening a field that was never committed is refused".to_string(),
                passed: false,
                detail,
            }
        },
        Err(e) => {
            let message = text::chars_of(e.as_str());
            let cover = text::chars_of("cover");
            let commitment = text::chars_of("commitment");
            let named = text::chars_contain(message.as_slice(), cover.as_slice())
                || text::chars_contain(message.as_slice(), commitment.as_slice());
            Check {
                name: "opening a field that was never committed is refused, with the bytes named".to_string(),
                passed: named,
                detail: e.clone(),
            }
        },
    }
}

/// Checks that everything but the status line can be left out.
pub fn check_floor(opened: &Opened, narrow: usize) -> (r: Check)
    ensures
        r@ == floor_check(*opened, narrow as nat),
{
    match opened {
        Ok(Ok(v)) => {
            let size: usize = revealed(v.recv.as_str());
            Check {
                name: "and narrowing to the status line alone is allowed".to_string(),
                passed: size < narrow && v.key_matches,
                detail: show_size(size),
            }
        },
        Ok(Err(e)) => Check {
            name: "the minimal narrowing still verifies".to_string(),
            passed: false,
            detail: e.clone(),
        },
        Err(e) => Check {
            name: "narrowing to the status line alone is allowed".to_string(),
            passed: false,
            detail: e.clone(),
        },
    }
}

/// How many characters each of `levels` discloses, as a list.
fn list_levels(levels: &Vec<Result<VerifiedPresentation, String>>) -> (r: String)
    ensures
        r@ == comma_list(level_sizes(levels@)),
{
    let mut r = String::new();
    let mut i: usize = 0;
    let ghost sizes = level_sizes(levels@);
    assert(r@ =~= comma_list(sizes.take(0)));
    while i < levels.len()
        invariant
            i <= levels.len(),
            sizes == level_sizes(levels@),
            r@ == comma_list(sizes.take(i as int)),
        decreases levels.len() - i,
    {
        let ghost before = r@;
        let size = digits::decimal(revealed_by(&levels[i]) as u64);
        if i > 0 {
            r.append(", ");
        }
        r.append(size.as_str());
        proof {
            assert(sizes.take(i + 1).drop_last() =~= sizes.take(i as int));
            assert(sizes.take(i + 1).last() == sizes[i as int]);
            if i == 0 {
                assert(r@ =~= digits::decimal_of(sizes[0]));
            }
        }
        i += 1;
    }
    assert(sizes.take(i as int) =~= sizes);
    r
}

/// Checks the presentations for several levels.
pub fn check_levels(levels: &Levels) -> (r: Vec<Check>)
    requires
        levels matches Ok(built) ==> built@.len() >= 2,
    ensures
        check_texts(r@) == level_checks(*levels),
{
    let mut checks: Vec<Check> = Vec::new();
    match levels {
        Ok(built) => {
            let narrow: usize = revealed_by(&built[0]);
            let wide: usize = revealed_by(&built[1]);
            let mut detail = text::joined("[", list_levels(built).as_str());
            detail.append("]");
            checks.push(
                Check {
                    name: "one session yields several levels, each a valid proof".to_string(),
                    passed: built.len() == 2 && narrow > 0 && wide > 0,
                    detail,
                },
            );
            let mut detail = text::joined("narrow=", show_size(narrow).as_str());
            detail.append(" wide=");
            detail.append(show_size(wide).as_str());
            checks.push(
                Check {
                    name: "and the narrow level reveals less than the wide one".to_string(),
                    passed: narrow < wide,
                    detail,
                },
            );
        },
        Err(e) => {
            checks.push(
                Check {
                    name: "building levels at proof time works".to_string(),
                    passed: false,
                    detail: e.clone(),
                },
            );
        },
    }
    assert(check_texts(checks@) =~= level_checks(*levels));
    checks
}

/// Makes all checks, in their order.
pub fn run_checks(
    full: &VerifiedPresentation,
    narrow: &VerifiedPresentation,
    uncommitted: &Opened,
    floor: &Opened,
    levels: &Levels,
) -> (r: Vec<Check>)
    requires
        levels matches Ok(built) ==> built@.len() >= 2,
    ensures
        check_texts(r@) == all_checks(full@, narrow@, *uncommitted, *floor, *levels),
{
    let mut checks = check_views(full, narrow);
    let ghost views = checks@;
    checks.push(check_refusal(uncommitted));
    checks.push(check_floor(floor, revealed(narrow.recv.as_str())));
    let ghost before = checks@;
    let mut last = check_levels(levels);
    let ghost of_levels = last@;
    checks.append(&mut last);
    proof {
        assert(check_texts(before) =~= check_texts(views) + seq![
            refusal_check(*uncommitted),
            floor_check(*floor, disclosed(narrow@.recv)),
        ]);
        assert(check_texts(checks@) =~= check_texts(before) + check_texts(of_levels));
    }
    checks
}

/// The line that reports `check`.
pub open spec fn line_of(check: CheckText) -> Seq<char> {
    if check.passed {
        "  ok   "@ + check.name
    } else {
        "  FAIL "@ + check.name + ": "@ + check.detail
    }
}

/// The line that reports `check`.
pub fn check_line(check: &Check) -> (r: String)
    ensures
        r@ == line_of(check@),
{
    if check.passed {
        text::joined("  ok   ", check.name.as_str())
    } else {
        let mut r = text::joined("  FAIL ", check.name.as_str());
        r.append(": ");
        r.append(check.detail.as_str());
        r
    }
}

/// Whether all of `checks` passed.
pub open spec fn all_passed(checks: Seq<CheckText>) -> bool {
    forall|i: int| 0 <= i < checks.len() ==> (#[trigger] checks[i]).passed
}

/// The last line: whether opening again is sound, with what both presentations disclose.
pub open spec fn verdict_line(passed: bool, wide: nat, narrow: nat) -> Seq<char> {
    if passed {
        "\n✅ re-open verified: "@ + size_text(wide) + " → "@ + size_text(narrow)
            + " revealed, offline, no second proof"@
    } else {
        "\n❌ re-open is NOT sound; do not ship the disclosure-level path"@
    }
}

/// Concludes from `checks`: the last line, and whether all of them passed.
pub fn conclude(
    checks: &Vec<Check>,
    full: &VerifiedPresentation,
    narrow: &VerifiedPresentation,
) -> (r: (String, bool))
    ensures
        r.1 == all_passed(check_texts(checks@)),
        r.0@ == verdict_line(r.1, disclosed(full@.recv), disclosed(narrow@.recv)),
{
    let mut i: usize = 0;
    while i < checks.len()
        invariant
            i <= checks.len(),
            forall|j: int| 0 <= j < i ==> (#[trigger] check_texts(checks@)[j]).passed,
        decreases checks.len() - i,
    {
        if !checks[i].passed {
            assert(!check_texts(checks@)[i as int].passed);
            let line = "\n❌ re-open is NOT sound; do not ship the disclosure-level path".to_string();
            return (line, false);
        }
        i += 1;
    }
    let wide = show_size(revealed(full.recv.as_str()));
    let mut line = text::joined("\n✅ re-open verified: ", wide.as_str());
    line.append(" → ");
    line.append(show_size(revealed(narrow.recv.as_str())).as_str());
    line.append(" revealed, offline, no second proof");
    (line, true)
}

/// The request that the check makes.
pub fn probe_request(url: Option<String>) -> (r: HttpRequest)
    ensures
        r.url@ == (match url {
            Some(u) => u@,
            None => DEFAULT_URL@,
        }),
        r.method@ == "GET"@,
        crate::plan::header_texts(r.headers@) == seq![
            ("User-Agent"@, "rep-reopen/1.0"@),
            ("Accept"@, "application/json"@),
            ("Accept-Encoding"@, "identity"@),
            ("Connection"@, "close"@),
        ],
        r.body is None,
{
    let url = match url {
        Some(u) => u,
        None => DEFAULT_URL.to_string(),
    };
    let mut headers: Vec<HttpHeader> = Vec::new();
    headers.push(
        HttpHeader { name: "User-Agent".to_string(), value: "rep-reopen/1.0".to_string() },
    );
    headers.push(HttpHeader { name: "Accept".to_string(), value: "application/json".to_string() });
    headers.push(HttpHeader { name: "Accept-Encoding".to_string(), value: "identity".to_string() });
    headers.push(HttpHeader { name: "Connection".to_string(), value: "close".to_string() });
    assert(crate::plan::header_texts(headers@) =~= seq![
        ("User-Agent"@, "rep-reopen/1.0"@),
        ("Accept"@, "application/json"@),
        ("Accept-Encoding"@, "identity"@),
        ("Connection"@, "close"@),
    ]);
    HttpRequest { url, method: "GET".to_string(), headers, body: None }
}

/// A view that shows nothing but what another of the same length shows at the same place discloses no
/// more, and as much only where both are the same.
pub proof fn law_narrower_view_discloses_less(narrow: Seq<char>, wide: Seq<char>)
    requires
        narrow.len() == wide.len(),
        same_places(narrow, wide),
    ensures
        disclosed(narrow) <= disclosed(wide),
        disclosed(narrow) == disclosed(wide) <==> narrow == wide,
    decreases narrow.len(),
{
    if narrow.len() > 0 {
        let n = narrow.drop_last();
        let w = wide.drop_last();
        assert forall|i: int| 0 <= i < n.len() && i < w.len() implies #[trigger] n[i] == 'X' || n[i]
            == w[i] by {
            assert(narrow[i] == n[i] && wide[i] == w[i]);
        }
        law_narrower_view_discloses_less(n, w);
        let last = narrow.len() - 1;
        assert(narrow[last] == 'X' || narrow[last] == wide[last]);
        assert(narrow =~= n.push(narrow.last()));
        assert(wide =~= w.push(wide.last()));
        if narrow == wide {
            assert(n =~= w);
        }
    } else {
        assert(narrow =~= wide);
    }
}

/// Where all checks pass, the narrower presentation carries the same connection, key and pin, shows
/// strictly less, shows it at the same places and with the field that was asked for; what was never
/// committed to was refused; and the levels differ in what they disclose.
pub proof fn law_sound_check_means_narrower(
    full: Verified,
    narrow: Verified,
    uncommitted: Opened,
    floor: Opened,
    levels: Levels,
)
    requires
        all_passed(all_checks(full, narrow, uncommitted, floor, levels)),
    ensures
        narrow.server_name == full.server_name,
        narrow.time_secs == full.time_secs,
        narrow.notary_key == full.notary_key,
        full.key_matches,
        narrow.key_matches,
        disclosed(narrow.recv) < disclosed(full.recv),
        same_places(narrow.recv, full.recv),
        exists|i: int| #[trigger] number_field_at(narrow.recv, FIELD@, i),
        uncommitted matches Err(e) && names_the_bytes(e@),
        floor matches Ok(Ok(v)) && v.key_matches && disclosed(v.recv@) < disclosed(narrow.recv),
        levels matches Ok(built) && built@.len() == 2 && 0 < disclosed_by(built@[0])
            < disclosed_by(built@[1]),
{
    let checks = all_checks(full, narrow, uncommitted, floor, levels);
    let views = view_checks(full, narrow);
    assert(checks[0].passed && checks[0] == views[0]);
    assert(checks[1].passed && checks[1] == views[1]);
    assert(checks[2].passed && checks[2] == views[2]);
    assert(checks[3].passed && checks[3] == views[3]);
    assert(checks[4].passed && checks[4] == views[4]);
    assert(checks[5].passed && checks[5] == views[5]);
    assert(checks[6].passed && checks[6] == refusal_check(uncommitted));
    assert(checks[7].passed && checks[7] == floor_check(floor, disclosed(narrow.recv)));
    assert(checks[8].passed && checks[8] == level_checks(levels)[0]);
    if let Ok(built) = levels {
        assert(checks[9].passed && checks[9] == level_checks(levels)[1]);
    }
}

/// Every character but 'X' counts as disclosed, wherever it stands.
pub proof fn law_every_disclosed_character_counts(a: Seq<char>, b: Seq<char>, c: char)
    ensures
        disclosed(Seq::empty()) == 0,
        disclosed(seq!['X']) == 0,
        c != 'X' ==> disclosed(seq![c]) == 1,
        disclosed(a + b) == disclosed(a) + disclosed(b),
    decreases b.len(),
{
    reveal_with_fuel(disclosed, 2);
    assert(seq!['X'].drop_last() =~= Seq::empty());
    assert(seq![c].drop_last() =~= Seq::empty());
    if b.len() == 0 {
        assert(a + b =~= a);
    } else {
        law_every_disclosed_character_counts(a, b.drop_last(), c);
        assert((a + b).drop_last() =~= a + b.drop_last());
    }
}

/// A narrower view may hide what the wider one shows, and may show nothing else.
pub proof fn law_views_agree_place_by_place(narrow: Seq<char>, wide: Seq<char>, i: int)
    ensures
        same_places(narrow, wide) && 0 <= i < narrow.len() && i < wide.len() ==> narrow[i] == 'X'
            || narrow[i] == wide[i],
        !same_places(narrow, wide) ==> exists|k: int|
            0 <= k < narrow.len() && k < wide.len() && #[trigger] narrow[k] != 'X' && narrow[k]
                != wide[k],
{
}

/// A narrower presentation passes iff it carries the same connection, key and pin, shows strictly less,
/// shows it at the same places, and has the field in it. What fails is told with both sides.
pub proof fn law_a_narrower_presentation_passes(full: Verified, narrow: Verified)
    ensures
        ({
            let c = view_checks(full, narrow);
            let full_len = encode_utf8(full.recv).len();
            let narrow_len = encode_utf8(narrow.recv).len();
            &&& c.len() == 6
            &&& c[0].passed <==> narrow.server_name == full.server_name && narrow.time_secs
                == full.time_secs
            &&& c[1].passed <==> narrow.notary_key == full.notary_key
            &&& c[2].passed <==> full.key_matches && narrow.key_matches
            &&& c[3].passed <==> disclosed(narrow.recv) < disclosed(full.recv)
            &&& c[4].passed <==> narrow_len == full_len && forall|i: int|
                0 <= i < narrow.recv.len() && i < full.recv.len() ==> #[trigger] narrow.recv[i] == 'X'
                    || narrow.recv[i] == full.recv[i]
            &&& c[5].passed <==> exists|i: int| #[trigger] number_field_at(narrow.recv, "id"@, i)
            &&& c[0].name == "the re-opened proof carries the same connection"@
            &&& c[1].name == "and is signed by the same notary"@
            &&& c[2].name == "which is the notary REP pins"@
            &&& c[3].name == "it reveals strictly less than the original"@
            &&& c[4].name == "and every byte it does reveal is the original byte at the same offset"@
            &&& c[5].name == "the field that was asked for is present in the narrowed proof"@
            &&& c[0].detail == narrow.server_name + " @ "@ + digits::decimal_of(
                narrow.time_secs as nat,
            ) + " vs "@ + full.server_name + " @ "@ + digits::decimal_of(full.time_secs as nat)
            &&& c[1].detail == narrow.notary_key + " vs "@ + full.notary_key
            &&& c[2].detail == "wide="@ + (if full.key_matches {
                "true"@
            } else {
                "false"@
            }) + " narrow="@ + (if narrow.key_matches {
                "true"@
            } else {
                "false"@
            })
            &&& c[3].detail == "narrow="@ + (digits::decimal_of(disclosed(narrow.recv)) + "B"@)
                + " wide="@ + (digits::decimal_of(disclosed(full.recv)) + "B"@)
            &&& c[4].detail == "len "@ + digits::decimal_of(narrow_len) + " vs "@ + digits::decimal_of(
                full_len,
            )
            &&& narrow.recv.len() <= 120 ==> c[5].detail == narrow.recv
            &&& narrow.recv.len() > 120 ==> c[5].detail == narrow.recv.take(120)
        }),
{
    assert(narrow.recv.take(narrow.recv.len() as int) =~= narrow.recv);
}

/// Only a refusal that speaks of a commitment, or of what it covers, passes for one.
pub proof fn law_only_a_named_refusal_passes(
    opened: Opened,
    before: Seq<char>,
    behind: Seq<char>,
    message: Seq<char>,
)
    ensures
        names_the_bytes(before + "cover"@ + behind),
        names_the_bytes(before + "commitment"@ + behind),
        (forall|i: int| !#[trigger] text::occurs_at(message, "cover"@, i)) && (forall|i: int|
            !#[trigger] text::occurs_at(message, "commitment"@, i)) ==> !names_the_bytes(message),
        opened matches Err(e) ==> {
            &&& refusal_check(opened).passed <==> names_the_bytes(e@)
            &&& refusal_check(opened).detail == e@
            &&& refusal_check(opened).name
                == "opening a field that was never committed is refused, with the bytes named"@
        },
        opened matches Ok(verified) ==> {
            &&& !refusal_check(opened).passed
            &&& refusal_check(opened).name == "opening a field that was never committed is refused"@
            &&& verified matches Ok(v) ==> refusal_check(opened).detail
                == "it produced a proof revealing "@ + (digits::decimal_of(disclosed(v.recv@)) + "B"@)
                + " instead of failing"@
            &&& verified is Err ==> refusal_check(opened).detail == "it produced a proof revealing "@ + (
            digits::decimal_of(0) + "B"@) + " instead of failing"@
        },
{
    let a = before + "cover"@ + behind;
    assert(a.subrange(before.len() as int, before.len() as int + "cover"@.len()) =~= "cover"@);
    assert(text::occurs_at(a, "cover"@, before.len() as int));
    let b = before + "commitment"@ + behind;
    assert(b.subrange(before.len() as int, before.len() as int + "commitment"@.len()) =~= "commitment"@);
    assert(text::occurs_at(b, "commitment"@, before.len() as int));
}

/// Leaving out everything but the status line passes iff it opens, verifies with the expected key and
/// discloses less than the narrower presentation.
pub proof fn law_floor_passes_below_the_narrower(opened: Opened, narrow: nat)
    ensures
        floor_check(opened, narrow).passed <==> (opened matches Ok(Ok(v)) && disclosed(v.recv@) < narrow
            && v.key_matches),
        opened matches Ok(Ok(v)) ==> {
            &&& floor_check(opened, narrow).name == "and narrowing to the status line alone is allowed"@
            &&& floor_check(opened, narrow).detail == digits::decimal_of(disclosed(v.recv@)) + "B"@
        },
        opened matches Ok(Err(e)) ==> {
            &&& floor_check(opened, narrow).name == "the minimal narrowing still verifies"@
            &&& floor_check(opened, narrow).detail == e@
        },
        opened matches Err(e) ==> {
            &&& floor_check(opened, narrow).name == "narrowing to the status line alone is allowed"@
            &&& floor_check(opened, narrow).detail == e@
        },
{
}

/// Sizes are listed in order, with commas in between.
pub proof fn law_sizes_are_listed_in_order(sizes: Seq<nat>, n: nat)
    ensures
        comma_list(Seq::empty()) == Seq::<char>::empty(),
        comma_list(seq![n]) == digits::decimal_of(n),
        sizes.len() > 0 ==> comma_list(sizes.push(n)) == comma_list(sizes) + ", "@ + digits::decimal_of(
            n,
        ),
{
    assert(sizes.push(n).drop_last() =~= sizes);
}

/// Two levels pass iff both disclose something and the first discloses less than the second. Levels
/// that could not be built are told with the reason.
pub proof fn law_levels_pass_iff_they_differ(levels: Levels, a: nat, b: nat)
    ensures
        levels matches Err(e) ==> level_checks(levels) == seq![
            CheckText { name: "building levels at proof time works"@, passed: false, detail: e@ },
        ],
        levels matches Ok(built) ==> (built@.len() >= 2 && a == (match built@[0] {
            Ok(v) => disclosed(v.recv@),
            Err(_) => 0,
        }) && b == (match built@[1] {
            Ok(v) => disclosed(v.recv@),
            Err(_) => 0,
        }) ==> {
            let c = level_checks(levels);
            &&& c.len() == 2
            &&& c[0].passed <==> built@.len() == 2 && a > 0 && b > 0
            &&& c[1].passed <==> a < b
            &&& c[0].name == "one session yields several levels, each a valid proof"@
            &&& c[1].name == "and the narrow level reveals less than the wide one"@
            &&& c[0].detail == "["@ + comma_list(level_sizes(built@)) + "]"@
            &&& level_sizes(built@).len() == built@.len()
            &&& level_sizes(built@)[0] == a && level_sizes(built@)[1] == b
            &&& c[1].detail == "narrow="@ + (digits::decimal_of(a) + "B"@) + " wide="@ + (
            digits::decimal_of(b) + "B"@)
        }),
{
}

/// All checks are made, in order, and none is left out.
pub proof fn law_all_checks_are_made(
    full: Verified,
    narrow: Verified,
    uncommitted: Opened,
    floor: Opened,
    levels: Levels,
)
    ensures
        all_checks(full, narrow, uncommitted, floor, levels) == view_checks(full, narrow) + seq![
            refusal_check(uncommitted),
        ] + seq![floor_check(floor, disclosed(narrow.recv))] + level_checks(levels),
{
    assert(seq![refusal_check(uncommitted), floor_check(floor, disclosed(narrow.recv))] =~= seq![
        refusal_check(uncommitted),
    ] + seq![floor_check(floor, disclosed(narrow.recv))]);
    assert(all_checks(full, narrow, uncommitted, floor, levels) =~= view_checks(full, narrow) + seq![
        refusal_check(uncommitted),
    ] + seq![floor_check(floor, disclosed(narrow.recv))] + level_checks(levels));
}

/// A check that passed is reported by its name, and one that failed by its name and the detail. The
/// verdict is good iff none failed, and gives what both presentations disclose.
pub proof fn law_reports_tell_what_failed(
    check: CheckText,
    checks: Seq<CheckText>,
    i: int,
    wide: nat,
    narrow: nat,
)
    ensures
        check.passed ==> line_of(check) == "  ok   "@ + check.name,
        !check.passed ==> line_of(check) == "  FAIL "@ + check.name + ": "@ + check.detail,
        0 <= i < checks.len() && !checks[i].passed ==> !all_passed(checks),
        !all_passed(checks) ==> exists|k: int|
            0 <= k < checks.len() && !(#[trigger] checks[k]).passed,
        verdict_line(true, wide, narrow) == "\n✅ re-open verified: "@ + (digits::decimal_of(wide)
            + "B"@) + " → "@ + (digits::decimal_of(narrow) + "B"@)
            + " revealed, offline, no second proof"@,
        verdict_line(false, wide, narrow)
            == "\n❌ re-open is NOT sound; do not ship the disclosure-level path"@,
{
}

/// Checks say what they hold, one by one.
pub proof fn law_checks_say_what_they_hold(checks: Seq<Check>, i: int)
    requires
        0 <= i < checks.len(),
    ensures
        check_texts(checks).len() == checks.len(),
        check_texts(checks)[i].name == checks[i].name@,
        check_texts(checks)[i].passed == checks[i].passed,
        check_texts(checks)[i].detail == checks[i].detail@,
        checks[i]@ == check_texts(checks)[i],
{
}

} // verus!
