//! What a notary does behind a session: it takes the prover's request, and signs and sends an
//! attestation.
//!
//! [`Notary`] says which step is due and what goes into it; what came of the step goes back to it. The
//! only thing that an attestation says besides what the prover committed to is the host, under the
//! name `rep.host`, and only with a value that this side verified.
use crate::digits;
use crate::frame;
use crate::session::{Output, OutputText};
use crate::text;
use vstd::prelude::*;
use vstd::utf8::*;

verus! {

/// What kind of data a record of a TLS connection carries.
#[derive(Debug, Clone, Copy, PartialEq, Eq, Structural)]
pub enum RecordKind {
    ApplicationData,
    Other,
}

/// A record of a TLS connection.
#[derive(Debug, Clone, Copy, PartialEq, Eq, Structural)]
pub struct Record {
    pub kind: RecordKind,
    /// How long its ciphertext is.
    pub len: usize,
}

/// How many bytes of application data `records` carry.
pub open spec fn data_in(records: Seq<Record>) -> nat
    decreases records.len(),
{
    if records.len() == 0 {
        0
    } else {
        let last = records.last();
        data_in(records.drop_last()) + if last.kind == RecordKind::ApplicationData {
            last.len as nat
        } else {
            0
        }
    }
}

/// How many bytes of application data `records` carry, as an attestation gives it: in 32 bits, without
/// what does not fit in them.
pub fn transcript_length(records: &Vec<Record>) -> (r: u32)
    ensures
        r == data_in(records@) % 0x1_0000_0000,
{
    let mut sum: u64 = 0;
    let mut i: usize = 0;
    while i < records.len()
        invariant
            i <= records.len(),
            sum < 0x1_0000_0000,
            sum == data_in(records@.take(i as int)) % 0x1_0000_0000,
        decreases records.len() - i,
    {
        assert(records@.take(i + 1).drop_last() =~= records@.take(i as int));
        assert(records@.take(i + 1).last() == records@[i as int]);
        if records[i].kind == RecordKind::ApplicationData {
            let len: u64 = records[i].len as u64 % 0x1_0000_0000;
            sum = (sum + len) % 0x1_0000_0000;
        }
        i += 1;
    }
    assert(records@.take(i as int) =~= records@);
    sum as u32
}

/// The number that `bytes` give, the highest first.
pub open spec fn number_in(bytes: Seq<u8>) -> nat
    decreases bytes.len(),
{
    if bytes.len() == 0 {
        0
    } else {
        number_in(bytes.drop_last()) * 256 + bytes.last() as nat
    }
}

/// The order of the group that notaries sign in, secp256k1.
pub open spec fn group_order() -> int {
    0xffff_ffff_ffff_ffff_ffff_ffff_ffff_fffe_baae_dce6_af48_a03b_bfd2_5e8c_d036_4141int
}

/// Whether `bytes` are a key to sign with: a number from one up to the order of the group.
pub open spec fn is_signing_key(bytes: Seq<u8>) -> bool {
    0 < number_in(bytes) < group_order()
}

/// Calls `k256::ecdsa::SigningKey::from_bytes` and gives the key back as bytes: the bytes that it was
/// made from, where they are a number above zero and below the order of the group. For any others the
/// message of the error is handed out, which tells no cause.
#[verifier::external_body]
pub(crate) fn signing_key(bytes: [u8; 32]) -> (key: Result<Vec<u8>, String>)
    ensures
        key is Ok <==> is_signing_key(bytes@),
        key matches Ok(k) ==> k@ == bytes@,
        key matches Err(e) ==> e@ == "signature error"@,
{
    let key = k256::ecdsa::SigningKey::from_bytes(&bytes.into()).map_err(|e| e.to_string())?;
    Ok(key.to_bytes().to_vec())
}

/// The key that a notary signs with, from the text that it was given, or why there is none.
pub open spec fn key_in(given: Option<Seq<char>>) -> Result<Seq<u8>, Seq<char>> {
    match given {
        None => Err("NOTARY_SIGNING_KEY env not set"@),
        Some(t) => match digits::hex_bytes(text::trimmed(t)) {
            None => Err("NOTARY_SIGNING_KEY not valid hex: "@ + digits::hex_fault(text::trimmed(t))),
            Some(bytes) => if bytes.len() != 32 {
                Err("NOTARY_SIGNING_KEY must be 32 bytes"@)
            } else if !is_signing_key(bytes) {
                Err("Invalid secp256k1 key: signature error"@)
            } else {
                Ok(bytes)
            },
        },
    }
}

/// The first 32 of `bytes`.
fn array_of(bytes: &Vec<u8>) -> (r: [u8; 32])
    requires
        bytes@.len() == 32,
    ensures
        r@ == bytes@,
{
    let mut r: [u8; 32] = [0; 32];
    let mut i: usize = 0;
    while i < 32
        invariant
            i <= 32,
            bytes@.len() == 32,
            forall|j: int| 0 <= j < i ==> r@[j] == bytes@[j],
        decreases 32 - i,
    {
        r[i] = bytes[i];
        i += 1;
    }
    assert(r@ =~= bytes@);
    r
}

/// Reads the key that a notary signs with from the text that it was given.
pub fn load_signing_key(given: Option<&str>) -> (r: Result<Vec<u8>, String>)
    ensures
        ({
            let text = match given {
                Some(t) => Some(t@),
                None => None,
            };
            &&& r matches Ok(key) ==> key_in(text) == Ok::<_, Seq<char>>(key@)
            &&& r matches Err(e) ==> key_in(text) == Err::<Seq<u8>, _>(e@)
        }),
{
    let trimmed = match given {
        Some(t) => text::trim(t),
        None => return Err("NOTARY_SIGNING_KEY env not set".to_string()),
    };
    let bytes = match digits::hex_decode(trimmed.as_str()) {
        Ok(bytes) => bytes,
        Err(e) => return Err(text::joined("NOTARY_SIGNING_KEY not valid hex: ", e.as_str())),
    };
    if bytes.len() != 32 {
        return Err("NOTARY_SIGNING_KEY must be 32 bytes".to_string());
    }
    match signing_key(array_of(&bytes)) {
        Ok(key) => Ok(key),
        Err(e) => {
            proof {
                reveal_strlit("Invalid secp256k1 key: ");
                reveal_strlit("signature error");
                reveal_strlit("Invalid secp256k1 key: signature error");
                assert("Invalid secp256k1 key: "@ + "signature error"@
                    =~= "Invalid secp256k1 key: signature error"@);
            }
            Err(text::joined("Invalid secp256k1 key: ", e.as_str()))
        },
    }
}

/// Something that an attestation says besides the commitments.
#[derive(Debug)]
pub struct Extension {
    pub id: Vec<u8>,
    pub value: Vec<u8>,
}

/// Something that an attestation says, over bytes.
#[verifier::ext_equal]
pub struct ExtensionBytes {
    pub id: Seq<u8>,
    pub value: Seq<u8>,
}

impl View for Extension {
    type V = ExtensionBytes;

    open spec fn view(&self) -> ExtensionBytes {
        ExtensionBytes { id: self.id@, value: self.value@ }
    }
}

/// What the certificates of a session say of a host.
#[derive(Debug, Clone, Copy, PartialEq, Eq, Structural)]
pub enum CertificateAnswer {
    /// The server showed no certificate.
    NoCertificate,
    /// The host is no DNS name.
    InvalidName,
    /// The certificate does not hold for that host.
    NotCovered,
    /// The certificate holds for that host.
    Covered,
}

/// The name under which a host is attested.
pub open spec fn host_id() -> Seq<u8> {
    encode_utf8("rep.host"@)
}

/// Why a prover's wish for `extension` is refused, if it is. `observed` is the host that the prover
/// showed; where it showed none, the certificates decide, and `answer` is what they say of the value.
pub open spec fn objection(
    extension: ExtensionBytes,
    observed: Option<Seq<char>>,
    answer: CertificateAnswer,
) -> Option<Seq<char>> {
    if extension.id != host_id() {
        Some("only rep.host is accepted"@)
    } else if !valid_utf8(extension.value) {
        Some("rep.host is not utf-8"@)
    } else {
        match observed {
            Some(host) => if decode_utf8(extension.value) != host {
                Some("rep.host does not match the notarised host"@)
            } else {
                None
            },
            None => match answer {
                CertificateAnswer::NoCertificate => Some("no server certificate in this session"@),
                CertificateAnswer::InvalidName => Some("rep.host is not a valid DNS name"@),
                CertificateAnswer::NotCovered => Some(
                    "rep.host is not covered by the server certificate"@,
                ),
                CertificateAnswer::Covered => None,
            },
        }
    }
}

/// `extensions`, over bytes.
pub open spec fn extension_bytes(extensions: Seq<Extension>) -> Seq<ExtensionBytes> {
    Seq::new(extensions.len(), |i: int| extensions[i]@)
}

/// Why the prover's wish for `extensions` is refused, if it is: the first objection.
pub open spec fn first_objection(
    extensions: Seq<ExtensionBytes>,
    observed: Option<Seq<char>>,
    answers: Seq<CertificateAnswer>,
) -> Option<Seq<char>>
    decreases extensions.len(),
{
    if extensions.len() == 0 {
        None
    } else {
        let n = extensions.len() - 1;
        match first_objection(extensions.drop_last(), observed, answers) {
            Some(e) => Some(e),
            None => objection(extensions[n], observed, answers[n]),
        }
    }
}

/// Whether `a` and `b` hold the same bytes in the same order.
fn same_bytes(a: &[u8], b: &[u8]) -> (r: bool)
    ensures
        r == (a@ == b@),
{
    if a.len() != b.len() {
        return false;
    }
    let mut i: usize = 0;
    while i < a.len()
        invariant
            i <= a.len() == b.len(),
            forall|j: int| 0 <= j < i ==> a@[j] == b@[j],
        decreases a.len() - i,
    {
        if a[i] != b[i] {
            return false;
        }
        i += 1;
    }
    assert(a@ =~= b@);
    true
}

/// The name under which a host is attested.
pub fn host_extension_id() -> (r: Vec<u8>)
    ensures
        r@ == host_id(),
{
    vstd::slice::slice_to_vec("rep.host".as_bytes())
}

/// Why a prover's wish for `extension` is refused, if it is.
pub fn object_to(extension: &Extension, observed: Option<&str>, answer: CertificateAnswer) -> (r:
    Option<String>)
    ensures
        ({
            let host = match observed {
                Some(h) => Some(h@),
                None => None,
            };
            &&& r matches Some(e) ==> objection(extension@, host, answer) == Some(e@)
            &&& r is None ==> objection(extension@, host, answer) is None
        }),
{
    let id = host_extension_id();
    if !same_bytes(extension.id.as_slice(), id.as_slice()) {
        return Some("only rep.host is accepted".to_string());
    }
    let host = match text::from_utf8(vstd::slice::slice_to_vec(extension.value.as_slice())) {
        Ok(host) => host,
        Err(_) => return Some("rep.host is not utf-8".to_string()),
    };
    match observed {
        Some(observed) => if text::same_text(host.as_str(), observed) {
            None
        } else {
            Some("rep.host does not match the notarised host".to_string())
        },
        None => match answer {
            CertificateAnswer::NoCertificate => Some(
                "no server certificate in this session".to_string(),
            ),
            CertificateAnswer::InvalidName => Some("rep.host is not a valid DNS name".to_string()),
            CertificateAnswer::NotCovered => Some(
                "rep.host is not covered by the server certificate".to_string(),
            ),
            CertificateAnswer::Covered => None,
        },
    }
}

/// Accepts or refuses the extensions that a prover wishes for. `answers` holds, for each of them, what
/// the certificates say of its value.
pub fn validate_extensions(
    extensions: &Vec<Extension>,
    observed: Option<&str>,
    answers: &Vec<CertificateAnswer>,
) -> (r: Result<(), String>)
    requires
        answers@.len() == extensions@.len(),
    ensures
        ({
            let host = match observed {
                Some(h) => Some(h@),
                None => None,
            };
            let objected = first_objection(extension_bytes(extensions@), host, answers@);
            &&& r is Ok ==> objected is None
            &&& r matches Err(e) ==> objected == Some(e@)
        }),
{
    let ghost host = match observed {
        Some(h) => Some(h@),
        None => None,
    };
    let ghost all = extension_bytes(extensions@);
    let mut i: usize = 0;
    assert(first_objection(all.take(0), host, answers@) is None);
    while i < extensions.len()
        invariant
            i <= extensions.len(),
            answers@.len() == extensions@.len(),
            all == extension_bytes(extensions@),
            host == (match observed {
                Some(h) => Some(h@),
                None => None,
            }),
            first_objection(all.take(i as int), host, answers@) is None,
        decreases extensions.len() - i,
    {
        assert(all.take(i + 1).drop_last() =~= all.take(i as int));
        assert(all.take(i + 1)[i as int] == extensions@[i as int]@);
        if let Some(e) = object_to(&extensions[i], observed, answers[i]) {
            proof {
                lemma_objection_stays(all, i + 1, host, answers@);
            }
            return Err(e);
        }
        i += 1;
    }
    assert(all.take(i as int) =~= all);
    Ok(())
}

/// What was objected to first is so whatever follows.
proof fn lemma_objection_stays(
    extensions: Seq<ExtensionBytes>,
    n: int,
    observed: Option<Seq<char>>,
    answers: Seq<CertificateAnswer>,
)
    requires
        0 <= n <= extensions.len(),
        first_objection(extensions.take(n), observed, answers) is Some,
    ensures
        first_objection(extensions, observed, answers) == first_objection(
            extensions.take(n),
            observed,
            answers,
        ),
    decreases extensions.len(),
{
    if n < extensions.len() {
        let rest = extensions.drop_last();
        assert(rest.take(n) =~= extensions.take(n));
        lemma_objection_stays(rest, n, observed, answers);
    } else {
        assert(extensions.take(n) =~= extensions);
    }
}

/// What a notary adds to an attestation: the host, where the prover showed it. Where it did not, the
/// prover's own wish is in the attestation already.
pub open spec fn added(observed: Option<Seq<char>>) -> Option<ExtensionBytes> {
    match observed {
        Some(host) => Some(ExtensionBytes { id: host_id(), value: encode_utf8(host) }),
        None => None,
    }
}

/// An attestation says nothing but the host, and only one that this side verified: the host that the
/// prover showed, or else one that the certificates of the server cover. All that it says of the host,
/// whoever wished for it, agrees with what the prover showed.
pub proof fn law_only_the_verified_host_is_attested(
    extensions: Seq<ExtensionBytes>,
    observed: Option<Seq<char>>,
    answers: Seq<CertificateAnswer>,
    i: int,
)
    requires
        first_objection(extensions, observed, answers) is None,
        0 <= i < extensions.len(),
    ensures
        extensions[i].id == host_id(),
        observed is Some ==> Some(extensions[i]) == added(observed),
        observed is None ==> answers[i] == CertificateAnswer::Covered,
    decreases extensions.len(),
{
    let n = extensions.len() - 1;
    if i < n {
        law_only_the_verified_host_is_attested(extensions.drop_last(), observed, answers, i);
    } else if let Some(host) = observed {
        decode_utf8_encode_utf8(extensions[i].value);
    }
}

/// The steps behind a session, in their order.
#[derive(Debug, Clone, Copy, PartialEq, Eq, Structural)]
pub enum Step {
    /// Read the length of the prover's request.
    ReadLength,
    /// Read the request.
    ReadRequest,
    /// Read the request from its bytes.
    DeserializeRequest,
    /// Look up the key to sign with.
    LoadKey,
    /// Make a signer of the key.
    BuildSigner,
    /// Configure the attestation, with its rule for extensions.
    BuildConfig,
    /// Check that the server's certificate is bound as in TLS 1.2.
    CheckBinding,
    /// Accept the request.
    AcceptRequest,
    /// Build and sign the attestation.
    BuildAttestation,
    /// Write the attestation as bytes.
    SerializeAttestation,
    /// Send the length of those bytes.
    WriteLength,
    /// Send those bytes.
    WriteAttestation,
    /// Flush the socket.
    Flush,
    /// Close the socket; whether that succeeds does not matter.
    CloseSocket,
}

/// What came of a step.
#[derive(Debug)]
pub enum Event {
    /// It succeeded.
    Done,
    /// A length was read.
    Length([u8; 4]),
    /// The key to sign with, in hex, where one is set.
    Key(Option<String>),
    /// The attestation was written as bytes.
    Bytes(Vec<u8>),
    /// It failed, with a message.
    Failed(String),
}

/// What came of a step, over characters and bytes.
#[verifier::ext_equal]
pub enum EventText {
    Done,
    Length(Seq<u8>),
    Key(Option<Seq<char>>),
    Bytes(Seq<u8>),
    Failed(Seq<char>),
}

impl View for Event {
    type V = EventText;

    open spec fn view(&self) -> EventText {
        match self {
            Event::Done => EventText::Done,
            Event::Length(prefix) => EventText::Length(prefix@),
            Event::Key(given) => EventText::Key(text::text_in(*given)),
            Event::Bytes(bytes) => EventText::Bytes(bytes@),
            Event::Failed(e) => EventText::Failed(e@),
        }
    }
}

/// A notary behind a session.
#[derive(Debug)]
pub struct Notary {
    step: Step,
    host: Option<String>,
    request_len: usize,
    key: Vec<u8>,
    attestation: Vec<u8>,
}

/// A notary behind a session: the step that is due, and what the steps before brought.
#[verifier::ext_equal]
pub struct Progress {
    pub step: Step,
    /// The host that the prover showed.
    pub host: Option<Seq<char>>,
    /// How long the request is, once that was read.
    pub request_len: nat,
    /// The key to sign with, once it was looked up.
    pub key: Seq<u8>,
    /// The attestation, once it was written.
    pub attestation: Seq<u8>,
}

impl View for Notary {
    type V = Progress;

    closed spec fn view(&self) -> Progress {
        Progress {
            step: self.step,
            host: text::text_in(self.host),
            request_len: self.request_len as nat,
            key: self.key@,
            attestation: self.attestation@,
        }
    }
}

/// Where a notary stands after a step.
#[derive(Debug)]
pub enum Turn {
    /// Another step is due.
    Next(Notary),
    /// The attestation was sent; it has this many bytes.
    Finished(usize),
    /// The notarization came to nothing.
    Failed(String),
}

/// Where a notary stands after a step, over characters.
#[verifier::ext_equal]
pub enum TurnText {
    Next(Progress),
    Finished(nat),
    Failed(Seq<char>),
}

impl View for Turn {
    type V = TurnText;

    open spec fn view(&self) -> TurnText {
        match self {
            Turn::Next(notary) => TurnText::Next(notary@),
            Turn::Finished(len) => TurnText::Finished(*len as nat),
            Turn::Failed(e) => TurnText::Failed(e@),
        }
    }
}

/// The step behind `step`.
pub open spec fn following(step: Step) -> Option<Step> {
    match step {
        Step::ReadLength => Some(Step::ReadRequest),
        Step::ReadRequest => Some(Step::DeserializeRequest),
        Step::DeserializeRequest => Some(Step::LoadKey),
        Step::LoadKey => Some(Step::BuildSigner),
        Step::BuildSigner => Some(Step::BuildConfig),
        Step::BuildConfig => Some(Step::CheckBinding),
        Step::CheckBinding => Some(Step::AcceptRequest),
        Step::AcceptRequest => Some(Step::BuildAttestation),
        Step::BuildAttestation => Some(Step::SerializeAttestation),
        Step::SerializeAttestation => Some(Step::WriteLength),
        Step::WriteLength => Some(Step::WriteAttestation),
        Step::WriteAttestation => Some(Step::Flush),
        Step::Flush => Some(Step::CloseSocket),
        Step::CloseSocket => None,
    }
}

/// How many steps stand before `step`.
pub open spec fn place(step: Step) -> nat {
    match step {
        Step::ReadLength => 0,
        Step::ReadRequest => 1,
        Step::DeserializeRequest => 2,
        Step::LoadKey => 3,
        Step::BuildSigner => 4,
        Step::BuildConfig => 5,
        Step::CheckBinding => 6,
        Step::AcceptRequest => 7,
        Step::BuildAttestation => 8,
        Step::SerializeAttestation => 9,
        Step::WriteLength => 10,
        Step::WriteAttestation => 11,
        Step::Flush => 12,
        Step::CloseSocket => 13,
    }
}

/// How many steps there are.
pub open spec fn step_count() -> nat {
    14
}

/// The message of a failure of `step` with the message `e`.
pub open spec fn failure(step: Step, e: Seq<char>) -> Seq<char> {
    match step {
        Step::ReadLength => "Failed to read attestation request length: "@ + e,
        Step::ReadRequest => "Failed to read attestation request: "@ + e,
        Step::DeserializeRequest => "Failed to deserialize attestation request: "@ + e,
        Step::BuildSigner => "Failed to build signer: "@ + e,
        Step::BuildConfig => "Failed to build attestation config: "@ + e,
        Step::CheckBinding => "unsupported cert binding version"@,
        Step::AcceptRequest => "Failed to accept attestation request: "@ + e,
        Step::BuildAttestation => "Failed to build attestation: "@ + e,
        Step::SerializeAttestation => "Failed to serialize attestation: "@ + e,
        Step::WriteLength => "Failed to send attestation length: "@ + e,
        Step::WriteAttestation => "Failed to send attestation: "@ + e,
        Step::Flush => "Failed to flush attestation: "@ + e,
        Step::LoadKey | Step::CloseSocket => e,
    }
}

/// Whether `event` is what can come of `step`. That no key is set is no failure of looking it up.
pub open spec fn fits(step: Step, event: EventText) -> bool {
    match event {
        EventText::Failed(_) => step != Step::LoadKey,
        EventText::Length(prefix) => step == Step::ReadLength && prefix.len() == 4,
        EventText::Key(_) => step == Step::LoadKey,
        EventText::Bytes(_) => step == Step::SerializeAttestation,
        EventText::Done => step != Step::ReadLength && step != Step::LoadKey && step
            != Step::SerializeAttestation,
    }
}

/// A notary behind a session at whose end the prover showed `output`.
pub open spec fn begun(output: OutputText) -> Progress {
    Progress {
        step: Step::ReadLength,
        host: output.server_name,
        request_len: 0,
        key: Seq::empty(),
        attestation: Seq::empty(),
    }
}

/// Where `event` leads from `p`. Only the closing of the socket may fail.
pub open spec fn after(p: Progress, event: EventText) -> TurnText {
    match event {
        EventText::Failed(e) if p.step != Step::CloseSocket => TurnText::Failed(
            failure(p.step, e),
        ),
        EventText::Length(prefix) => TurnText::Next(
            Progress { step: Step::ReadRequest, request_len: frame::length_in(prefix), ..p },
        ),
        EventText::Key(given) => match key_in(given) {
            Ok(key) => TurnText::Next(Progress { step: Step::BuildSigner, key, ..p }),
            Err(e) => TurnText::Failed(e),
        },
        EventText::Bytes(bytes) => TurnText::Next(
            Progress { step: Step::WriteLength, attestation: bytes, ..p },
        ),
        _ => match following(p.step) {
            Some(step) => TurnText::Next(Progress { step, ..p }),
            None => TurnText::Finished(p.attestation.len()),
        },
    }
}

/// Where `events` lead from `p`. A notary that finished or failed stays as it is.
pub open spec fn course(p: Progress, events: Seq<EventText>) -> TurnText
    decreases events.len(),
{
    if events.len() == 0 {
        TurnText::Next(p)
    } else {
        match course(p, events.drop_last()) {
            TurnText::Next(q) => after(q, events.last()),
            end => end,
        }
    }
}

/// Whether each of `events` is what can come of the step that is due when it comes.
pub open spec fn all_fit(p: Progress, events: Seq<EventText>) -> bool
    decreases events.len(),
{
    events.len() > 0 ==> {
        &&& all_fit(p, events.drop_last())
        &&& course(p, events.drop_last()) matches TurnText::Next(q) ==> fits(q.step, events.last())
    }
}

/// The step behind `step`.
pub fn next_step(step: Step) -> (r: Option<Step>)
    ensures
        r == following(step),
{
    match step {
        Step::ReadLength => Some(Step::ReadRequest),
        Step::ReadRequest => Some(Step::DeserializeRequest),
        Step::DeserializeRequest => Some(Step::LoadKey),
        Step::LoadKey => Some(Step::BuildSigner),
        Step::BuildSigner => Some(Step::BuildConfig),
        Step::BuildConfig => Some(Step::CheckBinding),
        Step::CheckBinding => Some(Step::AcceptRequest),
        Step::AcceptRequest => Some(Step::BuildAttestation),
        Step::BuildAttestation => Some(Step::SerializeAttestation),
        Step::SerializeAttestation => Some(Step::WriteLength),
        Step::WriteLength => Some(Step::WriteAttestation),
        Step::WriteAttestation => Some(Step::Flush),
        Step::Flush => Some(Step::CloseSocket),
        Step::CloseSocket => None,
    }
}

/// The message of a failure of `step` with the message `e`.
pub fn step_error(step: Step, e: &str) -> (r: String)
    ensures
        r@ == failure(step, e@),
{
    match step {
        Step::ReadLength => text::joined("Failed to read attestation request length: ", e),
        Step::ReadRequest => text::joined("Failed to read attestation request: ", e),
        Step::DeserializeRequest => text::joined("Failed to deserialize attestation request: ", e),
        Step::BuildSigner => text::joined("Failed to build signer: ", e),
        Step::BuildConfig => text::joined("Failed to build attestation config: ", e),
        Step::CheckBinding => "unsupported cert binding version".to_string(),
        Step::AcceptRequest => text::joined("Failed to accept attestation request: ", e),
        Step::BuildAttestation => text::joined("Failed to build attestation: ", e),
        Step::SerializeAttestation => text::joined("Failed to serialize attestation: ", e),
        Step::WriteLength => text::joined("Failed to send attestation length: ", e),
        Step::WriteAttestation => text::joined("Failed to send attestation: ", e),
        Step::Flush => text::joined("Failed to flush attestation: ", e),
        Step::LoadKey | Step::CloseSocket => e.to_string(),
    }
}

impl Notary {
    /// A notary behind a session at whose end the prover showed `output`.
    pub fn new(output: Output) -> (r: Notary)
        ensures
            r@ == begun(output@),
    {
        Notary {
            step: Step::ReadLength,
            host: output.server_name,
            request_len: 0,
            key: Vec::new(),
            attestation: Vec::new(),
        }
    }

    /// The step that is due.
    pub fn step(&self) -> (r: Step)
        ensures
            r == self@.step,
    {
        self.step
    }

    /// The host that the prover showed.
    pub fn host(&self) -> (r: Option<&str>)
        ensures
            r matches Some(host) ==> self@.host == Some(host@),
            r is None ==> self@.host is None,
    {
        match &self.host {
            Some(host) => Some(host.as_str()),
            None => None,
        }
    }

    /// How long the prover's request is.
    pub fn request_len(&self) -> (r: usize)
        ensures
            r == self@.request_len,
    {
        self.request_len
    }

    /// The key to sign with.
    pub fn key(&self) -> (r: &[u8])
        ensures
            r@ == self@.key,
    {
        self.key.as_slice()
    }

    /// What the notary adds to the attestation.
    pub fn extension(&self) -> (r: Option<Extension>)
        ensures
            r matches Some(extension) ==> added(self@.host) == Some(extension@),
            r is None ==> added(self@.host) is None,
    {
        match &self.host {
            Some(host) => {
                let value = vstd::slice::slice_to_vec(host.as_str().as_bytes());
                Some(Extension { id: host_extension_id(), value })
            },
            None => None,
        }
    }

    /// What goes out before the attestation.
    pub fn attestation_prefix(&self) -> (r: [u8; 4])
        ensures
            r@ == frame::prefix_of(self@.attestation.len()),
    {
        frame::frame_prefix(self.attestation.len())
    }

    /// The attestation.
    pub fn attestation(&self) -> (r: &[u8])
        ensures
            r@ == self@.attestation,
    {
        self.attestation.as_slice()
    }

    /// Goes on with what came of the step that was due.
    pub fn advance(self, event: Event) -> (r: Turn)
        requires
            fits(self@.step, event@),
        ensures
            r@ == after(self@, event@),
    {
        let Notary { step, host, request_len, key, attestation } = self;
        match event {
            Event::Failed(e) => {
                if step != Step::CloseSocket {
                    return Turn::Failed(step_error(step, e.as_str()));
                }
            },
            Event::Length(prefix) => {
                let request_len = frame::frame_len(prefix);
                return Turn::Next(
                    Notary { step: Step::ReadRequest, host, request_len, key, attestation },
                );
            },
            Event::Key(given) => {
                let text = match &given {
                    Some(t) => Some(t.as_str()),
                    None => None,
                };
                return match load_signing_key(text) {
                    Ok(key) => Turn::Next(
                        Notary { step: Step::BuildSigner, host, request_len, key, attestation },
                    ),
                    Err(e) => Turn::Failed(e),
                };
            },
            Event::Bytes(attestation) => {
                return Turn::Next(
                    Notary { step: Step::WriteLength, host, request_len, key, attestation },
                );
            },
            Event::Done => {},
        }
        match next_step(step) {
            Some(step) => Turn::Next(Notary { step, host, request_len, key, attestation }),
            None => Turn::Finished(attestation.len()),
        }
    }
}

/// Whether only the closing of the socket failed, of the steps whose `events` came, and the key that
/// was looked up is one.
pub open spec fn none_failed(events: Seq<EventText>) -> bool {
    forall|i: int|
        0 <= i < events.len() ==> match #[trigger] events[i] {
            EventText::Failed(_) => i == place(Step::CloseSocket),
            EventText::Key(given) => key_in(given) is Ok,
            _ => true,
        }
}

/// Whether `p` holds what `events` brought.
pub open spec fn holds_results(p: Progress, output: OutputText, events: Seq<EventText>) -> bool {
    &&& p.host == output.server_name
    &&& place(p.step) == events.len()
    &&& events.len() > place(Step::ReadLength) ==> {
        &&& events[place(Step::ReadLength) as int] matches EventText::Length(prefix)
        &&& p.request_len == frame::length_in(prefix)
    }
    &&& events.len() > place(Step::LoadKey) ==> {
        &&& events[place(Step::LoadKey) as int] matches EventText::Key(given)
        &&& key_in(given) == Ok::<_, Seq<char>>(p.key)
    }
    &&& events.len() > place(Step::SerializeAttestation)
        ==> events[place(Step::SerializeAttestation) as int] == EventText::Bytes(p.attestation)
}

/// Whether a notary ends in the message `e` through the event at index `i`: all events before were
/// successes, and at this one a step failed or there was no key.
pub open spec fn ends_at(
    output: OutputText,
    events: Seq<EventText>,
    i: int,
    e: Seq<char>,
) -> bool {
    &&& 0 <= i < events.len()
    &&& none_failed(events.take(i))
    &&& course(begun(output), events.take(i)) matches TurnText::Next(p) && match events[i] {
        EventText::Failed(message) => p.step != Step::CloseSocket && e == failure(p.step, message),
        EventText::Key(given) => key_in(given) == Err::<Seq<u8>, _>(e),
        _ => false,
    }
}

proof fn lemma_one_step(p: Progress, output: OutputText, events: Seq<EventText>, event: EventText)
    requires
        none_failed(events),
        holds_results(p, output, events),
        fits(p.step, event),
        after(p, event) is Next,
    ensures
        none_failed(events.push(event)),
        holds_results(after(p, event)->Next_0, output, events.push(event)),
{
    let all = events.push(event);
    assert forall|i: int| 0 <= i < all.len() implies match #[trigger] all[i] {
        EventText::Failed(_) => i == place(Step::CloseSocket),
        EventText::Key(given) => key_in(given) is Ok,
        _ => true,
    } by {
        if i < events.len() {
            assert(events[i] == all[i]);
        }
    }
}

/// A notary takes its steps in their order, each after the success of all before it, and keeps what
/// they brought. It signs with the key that it was given, and it is done only when the attestation
/// has gone out behind its length.
pub proof fn law_steps_come_in_order(output: OutputText, events: Seq<EventText>)
    requires
        all_fit(begun(output), events),
    ensures
        match course(begun(output), events) {
            TurnText::Next(p) => none_failed(events) && holds_results(p, output, events),
            TurnText::Finished(len) => {
                &&& events.len() >= step_count()
                &&& none_failed(events.take(step_count() as int))
                &&& events[place(Step::SerializeAttestation) as int] matches EventText::Bytes(bytes)
                &&& len == bytes.len()
            },
            TurnText::Failed(e) => exists|i: int| #[trigger] ends_at(output, events, i, e),
        },
    decreases events.len(),
{
    if events.len() > 0 {
        let before = events.drop_last();
        let event = events.last();
        law_steps_come_in_order(output, before);
        assert(before.push(event) =~= events);
        match course(begun(output), before) {
            TurnText::Next(p) => {
                assert(fits(p.step, event));
                match after(p, event) {
                    TurnText::Next(_) => {
                        lemma_one_step(p, output, before, event);
                    },
                    TurnText::Finished(_) => {
                        assert(events.take(step_count() as int) =~= events);
                        assert forall|i: int| 0 <= i < events.len() implies match #[trigger] events[i] {
                            EventText::Failed(_) => i == place(Step::CloseSocket),
                            EventText::Key(given) => key_in(given) is Ok,
                            _ => true,
                        } by {
                            if i < before.len() {
                                assert(before[i] == events[i]);
                            }
                        }
                    },
                    TurnText::Failed(e) => {
                        assert(events.take(before.len() as int) =~= before);
                        assert(ends_at(output, events, before.len() as int, e));
                    },
                }
            },
            TurnText::Finished(_) => {
                assert(events.take(step_count() as int) =~= before.take(step_count() as int));
            },
            TurnText::Failed(e) => {
                let i = choose|i: int| #[trigger] ends_at(output, before, i, e);
                assert(events.take(i) =~= before.take(i));
                assert(ends_at(output, events, i, e));
            },
        }
    }
}

/// Where every step succeeds, but for the closing of the socket, which may fail, and a key is set, the
/// attestation is sent.
pub proof fn law_success_is_owed(output: OutputText, events: Seq<EventText>)
    requires
        all_fit(begun(output), events),
        events.len() == step_count(),
        none_failed(events),
    ensures
        course(begun(output), events) is Finished,
{
    law_steps_come_in_order(output, events);
    if let TurnText::Failed(e) = course(begun(output), events) {
        let i = choose|i: int| #[trigger] ends_at(output, events, i, e);
        let before = events.take(i);
        lemma_prefix_fits(begun(output), events, i);
        law_steps_come_in_order(output, before);
        assert(match events[i] {
            EventText::Failed(_) => i == place(Step::CloseSocket),
            EventText::Key(given) => key_in(given) is Ok,
            _ => true,
        });
    }
}

/// A notary is blind: whatever a prover shows of an exchange besides the host, it does the same.
pub proof fn law_notary_is_blind(a: OutputText, b: OutputText, events: Seq<EventText>)
    requires
        a.server_name == b.server_name,
    ensures
        course(begun(a), events) == course(begun(b), events),
{
}

/// What fits as a whole fits up to every index.
proof fn lemma_prefix_fits(p: Progress, events: Seq<EventText>, n: int)
    requires
        all_fit(p, events),
        0 <= n <= events.len(),
    ensures
        all_fit(p, events.take(n)),
    decreases events.len(),
{
    if n < events.len() {
        lemma_prefix_fits(p, events.drop_last(), n);
        assert(events.drop_last().take(n) =~= events.take(n));
    } else {
        assert(events.take(n) =~= events);
    }
}

/// A key that a notary was given in hex, with whatever whitespace around it, is the key that it signs
/// with.
pub proof fn law_given_key_signs(key: Seq<u8>, before: Seq<char>, behind: Seq<char>)
    requires
        key.len() == 32,
        is_signing_key(key),
        forall|i: int| 0 <= i < before.len() ==> text::whitespace(#[trigger] before[i]),
        forall|i: int| 0 <= i < behind.len() ==> text::whitespace(#[trigger] behind[i]),
    ensures
        key_in(Some(before + digits::hex_text(key) + behind)) == Ok::<_, Seq<char>>(key),
{
    digits::law_hex_reads_back(key);
    let hex = digits::hex_text(key);
    assert(key[0] as nat / 16 < 16 && key[31] as nat % 16 < 16);
    assert(!text::whitespace(hex[0]) && !text::whitespace(hex.last()));
    text::lemma_trimmed_is(before, hex, behind);
}

/// A host is attested under the name `rep.host`.
pub proof fn law_hosts_are_attested_under_their_name(observed: Option<Seq<char>>)
    ensures
        host_id() == seq![114u8, 101u8, 112u8, 46u8, 104u8, 111u8, 115u8, 116u8],
        observed matches Some(host) ==> added(observed) == Some(
            ExtensionBytes {
                id: seq![114u8, 101u8, 112u8, 46u8, 104u8, 111u8, 115u8, 116u8],
                value: encode_utf8(host),
            },
        ),
        observed is None ==> added(observed) is None,
{
    reveal_strlit("rep.host");
    let chars = "rep.host"@;
    assert(is_ascii_chars(chars));
    is_ascii_chars_encode_utf8(chars);
    let bytes = seq![114u8, 101u8, 112u8, 46u8, 104u8, 111u8, 115u8, 116u8];
    assert(encode_utf8(chars) =~= bytes) by {
        assert(chars[0] as u8 == 114 && chars[1] as u8 == 101 && chars[2] as u8 == 112 && chars[3] as u8
            == 46 && chars[4] as u8 == 104 && chars[5] as u8 == 111 && chars[6] as u8 == 115
            && chars[7] as u8 == 116);
        assert forall|i: int| 0 <= i < 8 implies #[trigger] encode_utf8(chars)[i] == bytes[i] by {
            assert(chars[i] as u8 == encode_utf8(chars)[i]);
        }
    }
}

/// A wish for the host that the prover showed is granted, and so is one for a host that the
/// certificates cover where it showed none. Every other wish is refused, with the reason.
pub proof fn law_the_verified_host_is_granted(
    extension: ExtensionBytes,
    observed: Option<Seq<char>>,
    answer: CertificateAnswer,
)
    ensures
        ({
            let o = objection(extension, observed, answer);
            let is_host = extension.id == seq![
                114u8,
                101u8,
                112u8,
                46u8,
                104u8,
                111u8,
                115u8,
                116u8,
            ];
            let is_text = valid_utf8(extension.value);
            let value = decode_utf8(extension.value);
            &&& !is_host ==> o == Some("only rep.host is accepted"@)
            &&& is_host && !is_text ==> o == Some("rep.host is not utf-8"@)
            &&& is_host && is_text && observed is Some && value == observed->0 ==> o is None
            &&& is_host && is_text && observed is Some && value != observed->0 ==> o == Some(
                "rep.host does not match the notarised host"@,
            )
            &&& is_host && is_text && observed is None ==> {
                &&& answer == CertificateAnswer::Covered ==> o is None
                &&& answer == CertificateAnswer::NoCertificate ==> o == Some(
                    "no server certificate in this session"@,
                )
                &&& answer == CertificateAnswer::InvalidName ==> o == Some(
                    "rep.host is not a valid DNS name"@,
                )
                &&& answer == CertificateAnswer::NotCovered ==> o == Some(
                    "rep.host is not covered by the server certificate"@,
                )
            }
        }),
{
    law_hosts_are_attested_under_their_name(observed);
}

/// Wishes are refused for the first of them that is, and granted where none is.
pub proof fn law_the_first_refused_wish_decides(
    extensions: Seq<ExtensionBytes>,
    observed: Option<Seq<char>>,
    answers: Seq<CertificateAnswer>,
    n: int,
)
    requires
        0 <= n <= extensions.len(),
        forall|i: int| 0 <= i < n ==> objection(#[trigger] extensions[i], observed, answers[i]) is None,
    ensures
        n == extensions.len() ==> first_objection(extensions, observed, answers) is None,
        n < extensions.len() ==> (objection(extensions[n], observed, answers[n]) matches Some(e)
            ==> first_objection(extensions, observed, answers) == Some(e)),
    decreases extensions.len(),
{
    if extensions.len() > 0 {
        let rest = extensions.drop_last();
        let m = if n < rest.len() {
            n
        } else {
            rest.len() as int
        };
        assert forall|i: int| 0 <= i < m implies objection(#[trigger] rest[i], observed, answers[i]) is None by {
            assert(rest[i] == extensions[i]);
        }
        law_the_first_refused_wish_decides(rest, observed, answers, m);
        let last = extensions.len() - 1;
        if n == extensions.len() {
            assert(objection(extensions[last], observed, answers[last]) is None);
        }
        if n < rest.len() {
            assert(rest[n] == extensions[n]);
        }
    }
}

/// Only application data counts, each record with its whole length, in whatever order they come.
pub proof fn law_application_data_adds_up(a: Seq<Record>, b: Seq<Record>, len: usize)
    ensures
        data_in(Seq::empty()) == 0,
        data_in(seq![Record { kind: RecordKind::ApplicationData, len }]) == len,
        data_in(seq![Record { kind: RecordKind::Other, len }]) == 0,
        data_in(a + b) == data_in(a) + data_in(b),
    decreases b.len(),
{
    reveal_with_fuel(data_in, 2);
    assert(seq![Record { kind: RecordKind::ApplicationData, len }].drop_last() =~= Seq::empty());
    assert(seq![Record { kind: RecordKind::Other, len }].drop_last() =~= Seq::empty());
    if b.len() == 0 {
        assert(a + b =~= a);
    } else {
        law_application_data_adds_up(a, b.drop_last(), len);
        assert((a + b).drop_last() =~= a + b.drop_last());
    }
}

/// A key is taken iff it was given in hex, with whitespace around it or not, is 32 bytes long, and is a
/// number above zero and below the order of secp256k1. Every other is refused, with the reason.
pub proof fn law_keys_are_taken_as_given(given: Option<Seq<char>>, t: Seq<char>, bytes: Seq<u8>)
    requires
        given matches Some(g) ==> t == text::trimmed(g),
    ensures
        given is None ==> key_in(given) == Err::<Seq<u8>, _>("NOTARY_SIGNING_KEY env not set"@),
        given is Some && digits::hex_bytes(t) is None ==> key_in(given) == Err::<Seq<u8>, _>(
            "NOTARY_SIGNING_KEY not valid hex: "@ + digits::hex_fault(t),
        ),
        given is Some && digits::hex_bytes(t) == Some(bytes) ==> {
            let n = number_in(bytes);
            &&& bytes.len() != 32 ==> key_in(given) == Err::<Seq<u8>, _>(
                "NOTARY_SIGNING_KEY must be 32 bytes"@,
            )
            &&& bytes.len() == 32 && (n == 0 || n
                >= 0xffff_ffff_ffff_ffff_ffff_ffff_ffff_fffe_baae_dce6_af48_a03b_bfd2_5e8c_d036_4141int)
                ==> key_in(given) == Err::<Seq<u8>, _>("Invalid secp256k1 key: signature error"@)
            &&& bytes.len() == 32 && 0 < n
                < 0xffff_ffff_ffff_ffff_ffff_ffff_ffff_fffe_baae_dce6_af48_a03b_bfd2_5e8c_d036_4141int
                ==> key_in(given) == Ok::<_, Seq<char>>(bytes)
        },
{
}

/// The number that bytes give has the highest byte first.
pub proof fn law_numbers_have_the_highest_byte_first(bytes: Seq<u8>, b: u8)
    ensures
        number_in(Seq::empty()) == 0,
        number_in(bytes.push(b)) == number_in(bytes) * 256 + b,
{
    assert(bytes.push(b).drop_last() =~= bytes);
}

/// The steps behind a session are these, in this order.
pub proof fn law_steps_are_these(k: int)
    ensures
        ({
            let steps = seq![
                Step::ReadLength,
                Step::ReadRequest,
                Step::DeserializeRequest,
                Step::LoadKey,
                Step::BuildSigner,
                Step::BuildConfig,
                Step::CheckBinding,
                Step::AcceptRequest,
                Step::BuildAttestation,
                Step::SerializeAttestation,
                Step::WriteLength,
                Step::WriteAttestation,
                Step::Flush,
                Step::CloseSocket,
            ];
            &&& step_count() == steps.len()
            &&& 0 <= k < steps.len() ==> place(steps[k]) == k
            &&& 0 <= k < steps.len() - 1 ==> following(steps[k]) == Some(steps[k + 1])
            &&& following(Step::CloseSocket) is None
        }),
{
}

/// Every step that fails is told by its own text, with the reason behind it.
pub proof fn law_failures_tell_their_step(e: Seq<char>)
    ensures
        failure(Step::ReadLength, e) == "Failed to read attestation request length: "@ + e,
        failure(Step::ReadRequest, e) == "Failed to read attestation request: "@ + e,
        failure(Step::DeserializeRequest, e) == "Failed to deserialize attestation request: "@ + e,
        failure(Step::BuildSigner, e) == "Failed to build signer: "@ + e,
        failure(Step::BuildConfig, e) == "Failed to build attestation config: "@ + e,
        failure(Step::CheckBinding, e) == "unsupported cert binding version"@,
        failure(Step::AcceptRequest, e) == "Failed to accept attestation request: "@ + e,
        failure(Step::BuildAttestation, e) == "Failed to build attestation: "@ + e,
        failure(Step::SerializeAttestation, e) == "Failed to serialize attestation: "@ + e,
        failure(Step::WriteLength, e) == "Failed to send attestation length: "@ + e,
        failure(Step::WriteAttestation, e) == "Failed to send attestation: "@ + e,
        failure(Step::Flush, e) == "Failed to flush attestation: "@ + e,
{
}

/// Every step takes the events that can come of it, and no others.
pub proof fn law_steps_take_their_events(step: Step, event: EventText)
    ensures
        event is Failed ==> (fits(step, event) <==> step != Step::LoadKey),
        event is Key ==> (fits(step, event) <==> step == Step::LoadKey),
        event matches EventText::Length(prefix) ==> (fits(step, event) <==> step == Step::ReadLength
            && prefix.len() == 4),
        event is Bytes ==> (fits(step, event) <==> step == Step::SerializeAttestation),
        event is Done ==> (fits(step, event) <==> step != Step::ReadLength && step != Step::LoadKey
            && step != Step::SerializeAttestation),
{
}

/// A success leads to the next step and changes nothing but what it brought: the length of the request,
/// the key, or the attestation. A failure ends the notary, but for that of the closing of the socket.
pub proof fn law_steps_keep_what_they_brought(p: Progress, event: EventText, output: OutputText)
    requires
        fits(p.step, event),
    ensures
        event matches EventText::Length(prefix) ==> after(p, event) == TurnText::Next(
            Progress {
                step: Step::ReadRequest,
                host: p.host,
                request_len: (prefix[0] * 0x100_0000 + prefix[1] * 0x1_0000 + prefix[2] * 0x100
                    + prefix[3]) as nat,
                key: p.key,
                attestation: p.attestation,
            },
        ),
        event matches EventText::Key(given) ==> match key_in(given) {
            Ok(key) => after(p, event) == TurnText::Next(
                Progress {
                    step: Step::BuildSigner,
                    host: p.host,
                    request_len: p.request_len,
                    key,
                    attestation: p.attestation,
                },
            ),
            Err(e) => after(p, event) == TurnText::Failed(e),
        },
        event matches EventText::Bytes(bytes) ==> after(p, event) == TurnText::Next(
            Progress {
                step: Step::WriteLength,
                host: p.host,
                request_len: p.request_len,
                key: p.key,
                attestation: bytes,
            },
        ),
        event is Done && p.step != Step::CloseSocket ==> after(p, event) == TurnText::Next(
            Progress {
                step: following(p.step)->0,
                host: p.host,
                request_len: p.request_len,
                key: p.key,
                attestation: p.attestation,
            },
        ),
        event matches EventText::Failed(e) ==> p.step != Step::CloseSocket ==> after(p, event)
            == TurnText::Failed(failure(p.step, e)),
        p.step == Step::CloseSocket ==> after(p, event) == TurnText::Finished(p.attestation.len()),
        begun(output) == (Progress {
            step: Step::ReadLength,
            host: output.server_name,
            request_len: 0,
            key: Seq::empty(),
            attestation: Seq::empty(),
        }),
{
}

/// Events and turns say what they hold.
pub proof fn law_events_say_what_they_hold(
    prefix: [u8; 4],
    bytes: Vec<u8>,
    given: String,
    len: usize,
    notary: Notary,
    extension: Extension,
)
    ensures
        Event::Done@ == EventText::Done,
        Event::Length(prefix)@ == EventText::Length(prefix@),
        Event::Key(Some(given))@ == EventText::Key(Some(given@)),
        Event::Key(None)@ == EventText::Key(None),
        Event::Bytes(bytes)@ == EventText::Bytes(bytes@),
        Event::Failed(given)@ == EventText::Failed(given@),
        Turn::Next(notary)@ == TurnText::Next(notary@),
        Turn::Finished(len)@ == TurnText::Finished(len as nat),
        Turn::Failed(given)@ == TurnText::Failed(given@),
        extension@.id == extension.id@,
        extension@.value == extension.value@,
{
}

/// Wishes are taken one by one, in order.
pub proof fn law_wishes_are_taken_one_by_one(extensions: Seq<Extension>, i: int)
    requires
        0 <= i < extensions.len(),
    ensures
        extension_bytes(extensions).len() == extensions.len(),
        extension_bytes(extensions)[i].id == extensions[i].id@,
        extension_bytes(extensions)[i].value == extensions[i].value@,
{
}

} // verus!
