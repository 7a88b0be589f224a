//! The course of a notarization, from the session with the notary to the presentation.
//!
//! Each step asks for something of the outside world: a connection, a computation together with the
//! notary, bytes on a socket. [`Notarization`] says which step is due and what goes into it; what came
//! of the step goes back to it.
use crate::disclosure;
use crate::disclosure::{Cut, Ranges};
use crate::errors::{cfg_err, conn_err, proof_err, ErrorText, TlsnError};
use crate::frame;
use crate::plan::{OutgoingRequest, Plan, PlanText};
use crate::text;
use vstd::prelude::*;

verus! {

/// The steps of a notarization, in their order.
#[derive(Debug, Clone, Copy, PartialEq, Eq, Structural)]
pub enum Step {
    /// Open the session with the notary.
    ConnectNotary,
    /// Configure the prover.
    BuildProverConfig,
    /// Create the prover in the session.
    CreateProver,
    /// Configure the joint computation, with the limits of the plan.
    BuildMpcConfig,
    /// Agree on the computation with the notary.
    Commit,
    /// Connect to the server.
    ConnectServer,
    /// Read the name of the server as a DNS name.
    NameServer,
    /// Configure TLS for that name.
    BuildTlsConfig,
    /// Begin TLS over the connection.
    ConnectTls,
    /// Begin HTTP over TLS.
    Handshake,
    /// Build the request of the plan.
    BuildRequest,
    /// Send the request and wait for the response.
    SendRequest,
    /// Wait for the task that runs the prover.
    JoinProver,
    /// Take the prover back, and with it the exchange.
    EndProver,
    /// Choose the ranges to commit to.
    BuildCommitments,
    /// Configure the request for an attestation.
    BuildRequestConfig,
    /// Configure the proof of the commitments.
    BuildProveConfig,
    /// Prove the commitments to the notary.
    Prove,
    /// Close the prover.
    CloseProver,
    /// Read the name of the server once more, for the attestation.
    NameAttestedServer,
    /// Take the certificates that the server showed.
    TakeCertificates,
    /// Take the signature of the server.
    TakeSignature,
    /// Build the request for an attestation.
    BuildAttestationRequest,
    /// Wait for the task that drives the session.
    JoinDriver,
    /// Take the socket back from the session.
    EndDriver,
    /// Write the request for an attestation as bytes.
    SerializeRequest,
    /// Send the length of those bytes.
    WriteLength,
    /// Send those bytes.
    WriteRequest,
    /// Flush the socket.
    Flush,
    /// Read the length of the attestation.
    ReadLength,
    /// Read the attestation.
    ReadAttestation,
    /// Close the socket; whether that succeeds does not matter.
    CloseSocket,
    /// Read the attestation from its bytes.
    DeserializeAttestation,
    /// Hold the attestation against what was asked for.
    Validate,
    /// Open the ranges that are shown.
    BuildTranscriptProof,
    /// Build the presentation.
    BuildPresentation,
    /// Write the presentation as bytes.
    SerializePresentation,
}

/// What came of a step.
#[derive(Debug)]
pub enum Event {
    /// It succeeded.
    Done,
    /// The prover came back with the exchange: what was sent, and how many bytes were received.
    Exchange { sent: Vec<u8>, received: usize },
    /// Something was written as bytes.
    Bytes(Vec<u8>),
    /// A length was read.
    Length([u8; 4]),
    /// It failed, with a message.
    Failed(String),
}

/// What came of a step, over characters and bytes.
#[verifier::ext_equal]
pub enum EventText {
    Done,
    Exchange { sent: Seq<u8>, received: usize },
    Bytes(Seq<u8>),
    Length(Seq<u8>),
    Failed(Seq<char>),
}

impl View for Event {
    type V = EventText;

    open spec fn view(&self) -> EventText {
        match self {
            Event::Done => EventText::Done,
            Event::Exchange { sent, received } => EventText::Exchange {
                sent: sent@,
                received: *received,
            },
            Event::Bytes(bytes) => EventText::Bytes(bytes@),
            Event::Length(prefix) => EventText::Length(prefix@),
            Event::Failed(e) => EventText::Failed(e@),
        }
    }
}

/// A notarization under way.
#[derive(Debug)]
pub struct Notarization {
    step: Step,
    plan: Plan,
    cut: Cut,
    request: Vec<u8>,
    attestation_len: usize,
}

/// A notarization under way: the step that is due, what was planned, and what the steps before brought.
#[verifier::ext_equal]
pub struct Progress {
    pub step: Step,
    pub plan: PlanText,
    /// Where the exchange is cut, once there was one.
    pub cut: Cut,
    /// The request for an attestation, once it was written.
    pub request: Seq<u8>,
    /// How long the attestation is, once that was read.
    pub attestation_len: nat,
}

impl View for Notarization {
    type V = Progress;

    closed spec fn view(&self) -> Progress {
        Progress {
            step: self.step,
            plan: self.plan@,
            cut: self.cut,
            request: self.request@,
            attestation_len: self.attestation_len as nat,
        }
    }
}

/// Where a notarization stands after a step.
#[derive(Debug)]
pub enum Turn {
    /// Another step is due.
    Next(Notarization),
    /// The presentation, as bytes.
    Finished(Vec<u8>),
    /// The notarization came to nothing.
    Failed(TlsnError),
}

/// Where a notarization stands after a step, over characters and bytes.
#[verifier::ext_equal]
pub enum TurnText {
    Next(Progress),
    Finished(Seq<u8>),
    Failed(ErrorText),
}

impl View for Turn {
    type V = TurnText;

    open spec fn view(&self) -> TurnText {
        match self {
            Turn::Next(n) => TurnText::Next(n@),
            Turn::Finished(bytes) => TurnText::Finished(bytes@),
            Turn::Failed(e) => TurnText::Failed(e@),
        }
    }
}

/// The step behind `step`.
pub open spec fn following(step: Step) -> Option<Step> {
    match step {
        Step::ConnectNotary => Some(Step::BuildProverConfig),
        Step::BuildProverConfig => Some(Step::CreateProver),
        Step::CreateProver => Some(Step::BuildMpcConfig),
        Step::BuildMpcConfig => Some(Step::Commit),
        Step::Commit => Some(Step::ConnectServer),
        Step::ConnectServer => Some(Step::NameServer),
        Step::NameServer => Some(Step::BuildTlsConfig),
        Step::BuildTlsConfig => Some(Step::ConnectTls),
        Step::ConnectTls => Some(Step::Handshake),
        Step::Handshake => Some(Step::BuildRequest),
        Step::BuildRequest => Some(Step::SendRequest),
        Step::SendRequest => Some(Step::JoinProver),
        Step::JoinProver => Some(Step::EndProver),
        Step::EndProver => Some(Step::BuildCommitments),
        Step::BuildCommitments => Some(Step::BuildRequestConfig),
        Step::BuildRequestConfig => Some(Step::BuildProveConfig),
        Step::BuildProveConfig => Some(Step::Prove),
        Step::Prove => Some(Step::CloseProver),
        Step::CloseProver => Some(Step::NameAttestedServer),
        Step::NameAttestedServer => Some(Step::TakeCertificates),
        Step::TakeCertificates => Some(Step::TakeSignature),
        Step::TakeSignature => Some(Step::BuildAttestationRequest),
        Step::BuildAttestationRequest => Some(Step::JoinDriver),
        Step::JoinDriver => Some(Step::EndDriver),
        Step::EndDriver => Some(Step::SerializeRequest),
        Step::SerializeRequest => Some(Step::WriteLength),
        Step::WriteLength => Some(Step::WriteRequest),
        Step::WriteRequest => Some(Step::Flush),
        Step::Flush => Some(Step::ReadLength),
        Step::ReadLength => Some(Step::ReadAttestation),
        Step::ReadAttestation => Some(Step::CloseSocket),
        Step::CloseSocket => Some(Step::DeserializeAttestation),
        Step::DeserializeAttestation => Some(Step::Validate),
        Step::Validate => Some(Step::BuildTranscriptProof),
        Step::BuildTranscriptProof => Some(Step::BuildPresentation),
        Step::BuildPresentation => Some(Step::SerializePresentation),
        Step::SerializePresentation => None,
    }
}

/// How many steps stand before `step`.
pub open spec fn place(step: Step) -> nat {
    match step {
        Step::ConnectNotary => 0,
        Step::BuildProverConfig => 1,
        Step::CreateProver => 2,
        Step::BuildMpcConfig => 3,
        Step::Commit => 4,
        Step::ConnectServer => 5,
        Step::NameServer => 6,
        Step::BuildTlsConfig => 7,
        Step::ConnectTls => 8,
        Step::Handshake => 9,
        Step::BuildRequest => 10,
        Step::SendRequest => 11,
        Step::JoinProver => 12,
        Step::EndProver => 13,
        Step::BuildCommitments => 14,
        Step::BuildRequestConfig => 15,
        Step::BuildProveConfig => 16,
        Step::Prove => 17,
        Step::CloseProver => 18,
        Step::NameAttestedServer => 19,
        Step::TakeCertificates => 20,
        Step::TakeSignature => 21,
        Step::BuildAttestationRequest => 22,
        Step::JoinDriver => 23,
        Step::EndDriver => 24,
        Step::SerializeRequest => 25,
        Step::WriteLength => 26,
        Step::WriteRequest => 27,
        Step::Flush => 28,
        Step::ReadLength => 29,
        Step::ReadAttestation => 30,
        Step::CloseSocket => 31,
        Step::DeserializeAttestation => 32,
        Step::Validate => 33,
        Step::BuildTranscriptProof => 34,
        Step::BuildPresentation => 35,
        Step::SerializePresentation => 36,
    }
}

/// How many steps a notarization has.
pub open spec fn step_count() -> nat {
    37
}

/// The error that a failure of `step` with the message `e` ends in, on the way to `host`.
pub open spec fn failure(step: Step, host: Seq<char>, e: Seq<char>) -> ErrorText {
    match step {
        Step::BuildProverConfig
        | Step::BuildMpcConfig
        | Step::BuildTlsConfig
        | Step::BuildCommitments
        | Step::BuildRequestConfig
        | Step::BuildProveConfig => ErrorText::ProofFailed("config: "@ + e),
        Step::ConnectServer => ErrorText::ConnectionFailed("server connect "@ + host + ": "@ + e),
        Step::NameServer => ErrorText::ConnectionFailed("bad server name"@),
        Step::Handshake => ErrorText::ConnectionFailed("http handshake: "@ + e),
        Step::BuildRequest => ErrorText::ConnectionFailed("build request: "@ + e),
        Step::SendRequest => ErrorText::ConnectionFailed("send request: "@ + e),
        Step::JoinProver => ErrorText::ProofFailed("prover join: "@ + e),
        Step::NameAttestedServer => ErrorText::ProofFailed("bad server name"@),
        Step::TakeCertificates => ErrorText::ProofFailed("no server cert chain"@),
        Step::TakeSignature => ErrorText::ProofFailed("no server signature"@),
        Step::JoinDriver => ErrorText::ProofFailed("driver join: "@ + e),
        Step::BuildAttestationRequest
        | Step::SerializeRequest
        | Step::DeserializeAttestation
        | Step::Validate
        | Step::BuildTranscriptProof
        | Step::BuildPresentation
        | Step::SerializePresentation => ErrorText::ProofFailed(e),
        _ => ErrorText::ConnectionFailed(e),
    }
}

/// Whether `event` is what can come of `step`.
pub open spec fn fits(step: Step, event: EventText) -> bool {
    match event {
        EventText::Failed(_) => true,
        EventText::Exchange { .. } => step == Step::EndProver,
        EventText::Bytes(_) => step == Step::SerializeRequest || step
            == Step::SerializePresentation,
        EventText::Length(prefix) => step == Step::ReadLength && prefix.len() == 4,
        EventText::Done => step != Step::EndProver && step != Step::SerializeRequest && step
            != Step::SerializePresentation && step != Step::ReadLength,
    }
}

/// The cut of an exchange in which `sent` went out and `received` bytes came back.
pub open spec fn cut_of(sent: Seq<u8>, received: usize) -> Cut {
    Cut { line_end: disclosure::line_length(sent) as usize, sent: sent.len() as usize, received }
}

/// A notarization in which nothing was done yet.
pub open spec fn begun(plan: PlanText) -> Progress {
    Progress {
        step: Step::ConnectNotary,
        plan,
        cut: Cut { line_end: 0, sent: 0, received: 0 },
        request: Seq::empty(),
        attestation_len: 0,
    }
}

/// What `event` brought to `p`, with the step `step` due.
pub open spec fn brought(p: Progress, event: EventText, step: Step) -> Progress {
    match event {
        EventText::Exchange { sent, received } => Progress { step, cut: cut_of(sent, received), ..p },
        EventText::Bytes(bytes) => Progress { step, request: bytes, ..p },
        EventText::Length(prefix) => Progress {
            step,
            attestation_len: frame::length_in(prefix),
            ..p
        },
        _ => Progress { step, ..p },
    }
}

/// Where `event` leads from `p`. Only the closing of the socket may fail.
pub open spec fn after(p: Progress, event: EventText) -> TurnText {
    match event {
        EventText::Failed(e) if p.step != Step::CloseSocket => TurnText::Failed(
            failure(p.step, p.plan.host, e),
        ),
        _ => match following(p.step) {
            Some(step) => TurnText::Next(brought(p, event, step)),
            None => match event {
                EventText::Bytes(bytes) => TurnText::Finished(bytes),
                _ => TurnText::Finished(Seq::empty()),
            },
        },
    }
}

/// Where `events` lead from `p`. A notarization that finished or failed stays as it is.
pub open spec fn course(p: Progress, events: Seq<EventText>) -> TurnText
    decreases events.len(),
{
    if events.len() == 0 {
        TurnText::Next(p)
    } else {
        match course(p, events.drop_last()) {
            TurnText::Next(q) => after(q, events.last()),
            end => end,
        }
    }
}

/// Whether each of `events` is what can come of the step that is due when it comes.
pub open spec fn all_fit(p: Progress, events: Seq<EventText>) -> bool
    decreases events.len(),
{
    events.len() > 0 ==> {
        &&& all_fit(p, events.drop_last())
        &&& course(p, events.drop_last()) matches TurnText::Next(q) ==> fits(q.step, events.last())
    }
}

/// The step behind `step`.
pub fn next_step(step: Step) -> (r: Option<Step>)
    ensures
        r == following(step),
{
    match step {
        Step::ConnectNotary => Some(Step::BuildProverConfig),
        Step::BuildProverConfig => Some(Step::CreateProver),
        Step::CreateProver => Some(Step::BuildMpcConfig),
        Step::BuildMpcConfig => Some(Step::Commit),
        Step::Commit => Some(Step::ConnectServer),
        Step::ConnectServer => Some(Step::NameServer),
        Step::NameServer => Some(Step::BuildTlsConfig),
        Step::BuildTlsConfig => Some(Step::ConnectTls),
        Step::ConnectTls => Some(Step::Handshake),
        Step::Handshake => Some(Step::BuildRequest),
        Step::BuildRequest => Some(Step::SendRequest),
        Step::SendRequest => Some(Step::JoinProver),
        Step::JoinProver => Some(Step::EndProver),
        Step::EndProver => Some(Step::BuildCommitments),
        Step::BuildCommitments => Some(Step::BuildRequestConfig),
        Step::BuildRequestConfig => Some(Step::BuildProveConfig),
        Step::BuildProveConfig => Some(Step::Prove),
        Step::Prove => Some(Step::CloseProver),
        Step::CloseProver => Some(Step::NameAttestedServer),
        Step::NameAttestedServer => Some(Step::TakeCertificates),
        Step::TakeCertificates => Some(Step::TakeSignature),
        Step::TakeSignature => Some(Step::BuildAttestationRequest),
        Step::BuildAttestationRequest => Some(Step::JoinDriver),
        Step::JoinDriver => Some(Step::EndDriver),
        Step::EndDriver => Some(Step::SerializeRequest),
        Step::SerializeRequest => Some(Step::WriteLength),
        Step::WriteLength => Some(Step::WriteRequest),
        Step::WriteRequest => Some(Step::Flush),
        Step::Flush => Some(Step::ReadLength),
        Step::ReadLength => Some(Step::ReadAttestation),
        Step::ReadAttestation => Some(Step::CloseSocket),
        Step::CloseSocket => Some(Step::DeserializeAttestation),
        Step::DeserializeAttestation => Some(Step::Validate),
        Step::Validate => Some(Step::BuildTranscriptProof),
        Step::BuildTranscriptProof => Some(Step::BuildPresentation),
        Step::BuildPresentation => Some(Step::SerializePresentation),
        Step::SerializePresentation => None,
    }
}

/// The error that a failure of `step` with the message `e` ends in, on the way to `host`.
pub fn step_error(step: Step, host: &str, e: &str) -> (r: TlsnError)
    ensures
        r@ == failure(step, host@, e@),
{
    match step {
        Step::BuildProverConfig
        | Step::BuildMpcConfig
        | Step::BuildTlsConfig
        | Step::BuildCommitments
        | Step::BuildRequestConfig
        | Step::BuildProveConfig => cfg_err(e),
        Step::ConnectServer => {
            let mut message = text::joined("server connect ", host);
            message.append(": ");
            message.append(e);
            conn_err(message.as_str())
        },
        Step::NameServer => conn_err("bad server name"),
        Step::Handshake => conn_err(text::joined("http handshake: ", e).as_str()),
        Step::BuildRequest => conn_err(text::joined("build request: ", e).as_str()),
        Step::SendRequest => conn_err(text::joined("send request: ", e).as_str()),
        Step::JoinProver => proof_err(text::joined("prover join: ", e).as_str()),
        Step::NameAttestedServer => proof_err("bad server name"),
        Step::TakeCertificates => proof_err("no server cert chain"),
        Step::TakeSignature => proof_err("no server signature"),
        Step::JoinDriver => proof_err(text::joined("driver join: ", e).as_str()),
        Step::BuildAttestationRequest
        | Step::SerializeRequest
        | Step::DeserializeAttestation
        | Step::Validate
        | Step::BuildTranscriptProof
        | Step::BuildPresentation
        | Step::SerializePresentation => proof_err(e),
        _ => conn_err(e),
    }
}

impl Notarization {
    /// A notarization in which nothing was done yet.
    pub fn new(plan: Plan) -> (r: Notarization)
        ensures
            r@ == begun(plan@),
    {
        Notarization {
            step: Step::ConnectNotary,
            plan,
            cut: Cut { line_end: 0, sent: 0, received: 0 },
            request: Vec::new(),
            attestation_len: 0,
        }
    }

    /// The step that is due.
    pub fn step(&self) -> (r: Step)
        ensures
            r == self@.step,
    {
        self.step
    }

    /// The server.
    pub fn host(&self) -> (r: &str)
        ensures
            r@ == self@.plan.host,
    {
        self.plan.host.as_str()
    }

    /// Where the notary takes sessions.
    pub fn notary_url(&self) -> (r: &str)
        ensures
            r@ == self@.plan.notary_url,
    {
        self.plan.notary_url.as_str()
    }

    /// How many bytes may be sent and received.
    pub fn limits(&self) -> (r: (u32, u32))
        ensures
            r == (self@.plan.max_sent_data, self@.plan.max_recv_data),
    {
        (self.plan.max_sent_data, self.plan.max_recv_data)
    }

    /// The request to the server.
    pub fn outgoing(&self) -> (r: &OutgoingRequest)
        ensures
            r@ == self@.plan.request,
    {
        &self.plan.request
    }

    /// The ranges to commit to.
    pub fn commitments(&self) -> (r: Ranges)
        ensures
            r.sent@ == disclosure::committed_sent(self@.cut),
            r.received@ == disclosure::committed_received(self@.cut),
    {
        disclosure::commitments(self.cut)
    }

    /// The ranges to show.
    pub fn openings(&self) -> (r: Ranges)
        ensures
            r.sent@ == disclosure::shown_sent(self@.cut),
            r.received@ == disclosure::shown_received(self@.cut),
    {
        disclosure::openings(self.cut)
    }

    /// What goes out before the request for an attestation.
    pub fn request_prefix(&self) -> (r: [u8; 4])
        ensures
            r@ == frame::prefix_of(self@.request.len()),
    {
        frame::frame_prefix(self.request.len())
    }

    /// The request for an attestation.
    pub fn attestation_request(&self) -> (r: &[u8])
        ensures
            r@ == self@.request,
    {
        self.request.as_slice()
    }

    /// How long the attestation is.
    pub fn attestation_len(&self) -> (r: usize)
        ensures
            r == self@.attestation_len,
    {
        self.attestation_len
    }

    /// Goes on with what came of the step that was due.
    pub fn advance(self, event: Event) -> (r: Turn)
        requires
            fits(self@.step, event@),
        ensures
            r@ == after(self@, event@),
    {
        let Notarization { step, plan, cut, request, attestation_len } = self;
        if let Event::Failed(e) = &event {
            if step != Step::CloseSocket {
                return Turn::Failed(step_error(step, plan.host.as_str(), e.as_str()));
            }
        }
        let step = match next_step(step) {
            Some(next) => next,
            None => {
                return match event {
                    Event::Bytes(bytes) => Turn::Finished(bytes),
                    _ => Turn::Finished(Vec::new()),
                };
            },
        };
        let next = match event {
            Event::Exchange { sent, received } => Notarization {
                step,
                plan,
                cut: disclosure::cut_exchange(sent.as_slice(), received),
                request,
                attestation_len,
            },
            Event::Bytes(bytes) => Notarization {
                step,
                plan,
                cut,
                request: bytes,
                attestation_len,
            },
            Event::Length(prefix) => Notarization {
                step,
                plan,
                cut,
                request,
                attestation_len: frame::frame_len(prefix),
            },
            _ => Notarization { step, plan, cut, request, attestation_len },
        };
        Turn::Next(next)
    }
}

/// Whether only the closing of the socket failed, of the steps whose `events` came.
pub open spec fn none_failed(events: Seq<EventText>) -> bool {
    forall|i: int|
        0 <= i < events.len() && #[trigger] events[i] is Failed ==> i == place(Step::CloseSocket)
}

/// Whether the first failure among `events` that matters is that of `step`, with the message `e`.
pub open spec fn fails_first(events: Seq<EventText>, step: Step, e: Seq<char>) -> bool {
    &&& step != Step::CloseSocket
    &&& place(step) < events.len()
    &&& events[place(step) as int] == EventText::Failed(e)
    &&& none_failed(events.take(place(step) as int))
}

/// Whether `p` holds what `events` brought.
pub open spec fn holds_results(p: Progress, plan: PlanText, events: Seq<EventText>) -> bool {
    &&& p.plan == plan
    &&& place(p.step) == events.len()
    &&& events.len() > place(Step::EndProver) ==> {
        &&& events[place(Step::EndProver) as int] matches EventText::Exchange { sent, received }
        &&& p.cut == cut_of(sent, received)
    }
    &&& events.len() > place(Step::SerializeRequest)
        ==> events[place(Step::SerializeRequest) as int] == EventText::Bytes(p.request)
    &&& events.len() > place(Step::ReadLength) ==> {
        &&& events[place(Step::ReadLength) as int] matches EventText::Length(prefix)
        &&& p.attestation_len == frame::length_in(prefix)
    }
}

proof fn lemma_one_step(p: Progress, plan: PlanText, events: Seq<EventText>, event: EventText)
    requires
        none_failed(events),
        holds_results(p, plan, events),
        fits(p.step, event),
        after(p, event) is Next,
    ensures
        none_failed(events.push(event)),
        holds_results(after(p, event)->Next_0, plan, events.push(event)),
{
    let all = events.push(event);
    assert forall|i: int| 0 <= i < all.len() && #[trigger] all[i] is Failed implies i == place(
        Step::CloseSocket,
    ) by {
        if i < events.len() {
            assert(events[i] == all[i]);
        }
    }
}

/// A notarization takes its steps in their order, each after the success of all before it, and keeps
/// what they brought. It ends in a presentation only after all steps, and in an error only through a
/// step that failed, whose error it is.
pub proof fn law_steps_come_in_order(plan: PlanText, events: Seq<EventText>)
    requires
        all_fit(begun(plan), events),
    ensures
        match course(begun(plan), events) {
            TurnText::Next(p) => none_failed(events) && holds_results(p, plan, events),
            TurnText::Finished(bytes) => {
                &&& events.len() >= step_count()
                &&& none_failed(events.take(step_count() as int))
                &&& events[step_count() - 1] == EventText::Bytes(bytes)
            },
            TurnText::Failed(error) => exists|step: Step, e: Seq<char>| #[trigger]
                fails_first(events, step, e) && error == failure(step, plan.host, e),
        },
    decreases events.len(),
{
    if events.len() > 0 {
        let before = events.drop_last();
        let n = before.len() as int;
        law_steps_come_in_order(plan, before);
        assert(before =~= events.take(n));
        match course(begun(plan), before) {
            TurnText::Next(p) => {
                assert(fits(p.step, events.last()));
                if let TurnText::Next(_) = after(p, events.last()) {
                    lemma_one_step(p, plan, before, events.last());
                    assert(before.push(events.last()) =~= events);
                }
                if let EventText::Failed(e) = events.last() {
                    if p.step != Step::CloseSocket {
                        assert(events.take(place(p.step) as int) =~= before);
                        assert(fails_first(events, p.step, e));
                    }
                }
                if following(p.step) is None {
                    assert(events.take(step_count() as int) =~= events);
                    assert forall|i: int| 0 <= i < n && #[trigger] events[i] is Failed implies i
                        == place(Step::CloseSocket) by {
                        assert(before[i] == events[i]);
                    }
                }
            },
            TurnText::Finished(_) => {
                assert(events.take(step_count() as int) =~= before.take(step_count() as int));
            },
            TurnText::Failed(error) => {
                let (step, e) = choose|step: Step, e: Seq<char>| #[trigger]
                    fails_first(before, step, e) && error == failure(step, plan.host, e);
                assert(events.take(place(step) as int) =~= before.take(place(step) as int));
                assert(fails_first(events, step, e));
            },
        }
    }
}

/// Where every step succeeds, but for the closing of the socket, which may fail, a presentation comes
/// out: the bytes that the last step wrote.
pub proof fn law_success_is_owed(plan: PlanText, events: Seq<EventText>)
    requires
        all_fit(begun(plan), events),
        events.len() == step_count(),
        none_failed(events),
    ensures
        course(begun(plan), events) is Finished,
        events.last() == EventText::Bytes(course(begun(plan), events)->Finished_0),
{
    law_steps_come_in_order(plan, events);
    if let TurnText::Failed(error) = course(begun(plan), events) {
        let (step, e) = choose|step: Step, e: Seq<char>| #[trigger]
            fails_first(events, step, e) && error == failure(step, plan.host, e);
        assert(events[place(step) as int] is Failed);
    }
}

/// The socket is closed only when the request has gone out and the attestation has come in: a
/// WebSocket that is closed carries nothing in either direction.
pub proof fn law_socket_closes_after_the_exchange(
    plan: PlanText,
    events: Seq<EventText>,
    p: Progress,
)
    requires
        all_fit(begun(plan), events),
        course(begun(plan), events) == TurnText::Next(p),
        p.step == Step::CloseSocket,
    ensures
        events.len() > place(Step::ReadAttestation) > place(Step::Flush) > place(
            Step::WriteRequest,
        ),
        forall|i: int| 0 <= i < events.len() ==> !(#[trigger] events[i] is Failed),
{
    law_steps_come_in_order(plan, events);
}

/// An exchange that fits in memory is cut where its request line ends.
pub proof fn law_cut_is_that_of_the_exchange(sent: Seq<u8>, received: usize)
    requires
        sent.len() <= usize::MAX,
    ensures
        disclosure::cuts(cut_of(sent, received), sent, received as nat),
{
    text::lemma_first_from(sent, disclosure::line_break(), 0);
}

/// The steps of a notarization are these, in this order.
pub proof fn law_steps_are_these(k: int)
    ensures
        ({
            let steps = seq![
                Step::ConnectNotary,
                Step::BuildProverConfig,
                Step::CreateProver,
                Step::BuildMpcConfig,
                Step::Commit,
                Step::ConnectServer,
                Step::NameServer,
                Step::BuildTlsConfig,
                Step::ConnectTls,
                Step::Handshake,
                Step::BuildRequest,
                Step::SendRequest,
                Step::JoinProver,
                Step::EndProver,
                Step::BuildCommitments,
                Step::BuildRequestConfig,
                Step::BuildProveConfig,
                Step::Prove,
                Step::CloseProver,
                Step::NameAttestedServer,
                Step::TakeCertificates,
                Step::TakeSignature,
                Step::BuildAttestationRequest,
                Step::JoinDriver,
                Step::EndDriver,
                Step::SerializeRequest,
                Step::WriteLength,
                Step::WriteRequest,
                Step::Flush,
                Step::ReadLength,
                Step::ReadAttestation,
                Step::CloseSocket,
                Step::DeserializeAttestation,
                Step::Validate,
                Step::BuildTranscriptProof,
                Step::BuildPresentation,
                Step::SerializePresentation,
            ];
            &&& step_count() == steps.len()
            &&& 0 <= k < steps.len() ==> place(steps[k]) == k
            &&& 0 <= k < steps.len() - 1 ==> following(steps[k]) == Some(steps[k + 1])
            &&& following(Step::SerializePresentation) is None
        }),
{
}

/// Every step that fails ends in its own error: a refused configuration, a failed connection or a failed
/// proof, with what was being done and the reason.
pub proof fn law_failures_tell_their_step(host: Seq<char>, e: Seq<char>)
    ensures
        failure(Step::ConnectNotary, host, e) == ErrorText::ConnectionFailed(e),
        failure(Step::BuildProverConfig, host, e) == ErrorText::ProofFailed("config: "@ + e),
        failure(Step::CreateProver, host, e) == ErrorText::ConnectionFailed(e),
        failure(Step::BuildMpcConfig, host, e) == ErrorText::ProofFailed("config: "@ + e),
        failure(Step::Commit, host, e) == ErrorText::ConnectionFailed(e),
        failure(Step::ConnectServer, host, e) == ErrorText::ConnectionFailed("server connect "@ + host + ": "@ + e),
        failure(Step::NameServer, host, e) == ErrorText::ConnectionFailed("bad server name"@),
        failure(Step::BuildTlsConfig, host, e) == ErrorText::ProofFailed("config: "@ + e),
        failure(Step::ConnectTls, host, e) == ErrorText::ConnectionFailed(e),
        failure(Step::Handshake, host, e) == ErrorText::ConnectionFailed("http handshake: "@ + e),
        failure(Step::BuildRequest, host, e) == ErrorText::ConnectionFailed("build request: "@ + e),
        failure(Step::SendRequest, host, e) == ErrorText::ConnectionFailed("send request: "@ + e),
        failure(Step::JoinProver, host, e) == ErrorText::ProofFailed("prover join: "@ + e),
        failure(Step::EndProver, host, e) == ErrorText::ConnectionFailed(e),
        failure(Step::BuildCommitments, host, e) == ErrorText::ProofFailed("config: "@ + e),
        failure(Step::BuildRequestConfig, host, e) == ErrorText::ProofFailed("config: "@ + e),
        failure(Step::BuildProveConfig, host, e) == ErrorText::ProofFailed("config: "@ + e),
        failure(Step::Prove, host, e) == ErrorText::ConnectionFailed(e),
        failure(Step::CloseProver, host, e) == ErrorText::ConnectionFailed(e),
        failure(Step::NameAttestedServer, host, e) == ErrorText::ProofFailed("bad server name"@),
        failure(Step::TakeCertificates, host, e) == ErrorText::ProofFailed("no server cert chain"@),
        failure(Step::TakeSignature, host, e) == ErrorText::ProofFailed("no server signature"@),
        failure(Step::BuildAttestationRequest, host, e) == ErrorText::ProofFailed(e),
        failure(Step::JoinDriver, host, e) == ErrorText::ProofFailed("driver join: "@ + e),
        failure(Step::EndDriver, host, e) == ErrorText::ConnectionFailed(e),
        failure(Step::SerializeRequest, host, e) == ErrorText::ProofFailed(e),
        failure(Step::WriteLength, host, e) == ErrorText::ConnectionFailed(e),
        failure(Step::WriteRequest, host, e) == ErrorText::ConnectionFailed(e),
        failure(Step::Flush, host, e) == ErrorText::ConnectionFailed(e),
        failure(Step::ReadLength, host, e) == ErrorText::ConnectionFailed(e),
        failure(Step::ReadAttestation, host, e) == ErrorText::ConnectionFailed(e),
        failure(Step::DeserializeAttestation, host, e) == ErrorText::ProofFailed(e),
        failure(Step::Validate, host, e) == ErrorText::ProofFailed(e),
        failure(Step::BuildTranscriptProof, host, e) == ErrorText::ProofFailed(e),
        failure(Step::BuildPresentation, host, e) == ErrorText::ProofFailed(e),
        failure(Step::SerializePresentation, host, e) == ErrorText::ProofFailed(e),
{
}

/// Every step takes the events that can come of it, and no others.
pub proof fn law_steps_take_their_events(step: Step, event: EventText)
    ensures
        event is Failed ==> fits(step, event),
        event is Exchange ==> (fits(step, event) <==> step == Step::EndProver),
        event is Bytes ==> (fits(step, event) <==> step == Step::SerializeRequest || step
            == Step::SerializePresentation),
        event matches EventText::Length(prefix) ==> (fits(step, event) <==> step == Step::ReadLength
            && prefix.len() == 4),
        event is Done ==> (fits(step, event) <==> step != Step::EndProver && step
            != Step::SerializeRequest && step != Step::SerializePresentation && step
            != Step::ReadLength),
{
}

/// A success leads to the next step and changes nothing but what it brought: where the exchange is cut,
/// the request for an attestation, or the length of the attestation. The bytes of the presentation come
/// out as they were written. A failure ends the notarization, but for that of the closing of the socket.
pub proof fn law_steps_keep_what_they_brought(p: Progress, event: EventText, plan: PlanText)
    requires
        fits(p.step, event),
    ensures
        event matches EventText::Exchange { sent, received } ==> sent.len() <= usize::MAX ==> (after(
            p,
            event,
        ) matches TurnText::Next(q) && {
            &&& q.step == Step::BuildCommitments
            &&& q.plan == p.plan && q.request == p.request && q.attestation_len == p.attestation_len
            &&& q.cut.line_end == disclosure::line_length(sent)
            &&& q.cut.sent == sent.len()
            &&& q.cut.received == received
        }),
        event matches EventText::Bytes(bytes) ==> {
            &&& p.step == Step::SerializeRequest ==> after(p, event) == TurnText::Next(
                Progress {
                    step: Step::WriteLength,
                    plan: p.plan,
                    cut: p.cut,
                    request: bytes,
                    attestation_len: p.attestation_len,
                },
            )
            &&& p.step == Step::SerializePresentation ==> after(p, event) == TurnText::Finished(bytes)
        },
        event matches EventText::Length(prefix) ==> after(p, event) == TurnText::Next(
            Progress {
                step: Step::ReadAttestation,
                plan: p.plan,
                cut: p.cut,
                request: p.request,
                attestation_len: (prefix[0] * 0x100_0000 + prefix[1] * 0x1_0000 + prefix[2] * 0x100
                    + prefix[3]) as nat,
            },
        ),
        event is Done || p.step == Step::CloseSocket ==> after(p, event) == TurnText::Next(
            Progress {
                step: following(p.step)->0,
                plan: p.plan,
                cut: p.cut,
                request: p.request,
                attestation_len: p.attestation_len,
            },
        ),
        event matches EventText::Failed(e) ==> p.step != Step::CloseSocket ==> after(p, event)
            == TurnText::Failed(failure(p.step, p.plan.host, e)),
        begun(plan).step == Step::ConnectNotary,
        begun(plan).plan == plan,
{
    if let EventText::Exchange { sent, received } = event {
        if sent.len() <= usize::MAX {
            law_cut_is_that_of_the_exchange(sent, received);
        }
    }
}

/// Events and turns say what they hold.
pub proof fn law_events_say_what_they_hold(
    bytes: Vec<u8>,
    received: usize,
    prefix: [u8; 4],
    e: String,
    error: TlsnError,
    n: Notarization,
)
    ensures
        Event::Done@ == EventText::Done,
        (Event::Exchange { sent: bytes, received })@ == (EventText::Exchange {
            sent: bytes@,
            received,
        }),
        Event::Bytes(bytes)@ == EventText::Bytes(bytes@),
        Event::Length(prefix)@ == EventText::Length(prefix@),
        Event::Failed(e)@ == EventText::Failed(e@),
        Turn::Next(n)@ == TurnText::Next(n@),
        Turn::Finished(bytes)@ == TurnText::Finished(bytes@),
        Turn::Failed(error)@ == TurnText::Failed(error@),
{
}

} // verus!
