//! The course of a session with a prover, as a verifier and a notary take part in it: from the
//! prover's commitment to the socket that the session gives back.
//!
//! Each step asks for something of the outside world. [`Session`] says which step is due and what goes
//! into it; what came of the step goes back to it. A prover that asks for more than the limits allow is
//! refused before the session accepts anything.
use crate::digits;
use crate::text;
use vstd::prelude::*;

verus! {

/// On whose behalf a session runs.
#[derive(Debug, Clone, Copy, PartialEq, Eq, Structural)]
pub enum Role {
    /// The prover shows the verifier what was exchanged.
    Verifier,
    /// The notary signs what the prover commits to, without seeing it.
    Notary,
}

/// How many bytes a prover may send and receive.
#[derive(Debug, Clone, Copy, PartialEq, Eq, Structural)]
pub struct Limits {
    pub max_sent_data: usize,
    pub max_recv_data: usize,
}

/// What a prover commits to at the start of a session.
#[derive(Debug)]
pub enum Commitment {
    /// The prover connects to the server, and the keys are split between both sides.
    Mpc(Limits),
    /// This side connects to the server and relays what it cannot read.
    Proxy { host: String },
}

/// What a prover commits to, over characters.
#[verifier::ext_equal]
pub enum CommitmentText {
    Mpc(Limits),
    Proxy { host: Seq<char> },
}

impl View for Commitment {
    type V = CommitmentText;

    open spec fn view(&self) -> CommitmentText {
        match self {
            Commitment::Mpc(asked) => CommitmentText::Mpc(*asked),
            Commitment::Proxy { host } => CommitmentText::Proxy { host: host@ },
        }
    }
}

/// What a prover shows of an exchange. A zero byte stands for one that is not shown.
#[derive(Debug)]
pub struct ShownBytes {
    pub sent: Vec<u8>,
    pub received: Vec<u8>,
}

/// What a prover shows at the end of a session.
#[derive(Debug)]
pub struct Output {
    pub server_name: Option<String>,
    pub transcript: Option<ShownBytes>,
}

/// What a prover shows at the end of a session, over characters.
#[verifier::ext_equal]
pub struct OutputText {
    pub server_name: Option<Seq<char>>,
    pub transcript: Option<(Seq<u8>, Seq<u8>)>,
}

impl View for Output {
    type V = OutputText;

    open spec fn view(&self) -> OutputText {
        OutputText {
            server_name: text::text_in(self.server_name),
            transcript: match self.transcript {
                Some(shown) => Some((shown.sent@, shown.received@)),
                None => None,
            },
        }
    }
}

/// The steps of a session, in their order.
#[derive(Debug, Clone, Copy, PartialEq, Eq, Structural)]
pub enum Step {
    /// Configure this side.
    BuildConfig,
    /// Create this side in the session.
    CreateVerifier,
    /// Wait for the prover's commitment.
    Commit,
    /// Connect to the server, where this side relays.
    ConnectServer,
    /// Accept the commitment.
    Accept,
    /// Run the connection.
    Run,
    /// Check the proof.
    Verify,
    /// Accept the proof and take what it shows.
    AcceptOutput,
    /// Close this side.
    Close,
    /// Wait for the task that drives the session.
    JoinDriver,
    /// Take the socket back from the session.
    EndDriver,
}

/// What came of a step.
#[derive(Debug)]
pub enum Event {
    /// It succeeded.
    Done,
    /// The prover committed.
    Committed(Commitment),
    /// The proof holds and shows this.
    Shown(Output),
    /// It failed, with a message.
    Failed(String),
}

/// What came of a step, over characters.
#[verifier::ext_equal]
pub enum EventText {
    Done,
    Committed(CommitmentText),
    Shown(OutputText),
    Failed(Seq<char>),
}

impl View for Event {
    type V = EventText;

    open spec fn view(&self) -> EventText {
        match self {
            Event::Done => EventText::Done,
            Event::Committed(c) => EventText::Committed(c@),
            Event::Shown(output) => EventText::Shown(output@),
            Event::Failed(e) => EventText::Failed(e@),
        }
    }
}

/// A session under way.
#[derive(Debug)]
pub struct Session {
    role: Role,
    limits: Limits,
    step: Step,
    server: Option<String>,
    output: Output,
}

/// A session under way: the step that is due, and what the steps before brought.
#[verifier::ext_equal]
pub struct Progress {
    pub role: Role,
    pub limits: Limits,
    pub step: Step,
    /// The address of the server, where this side relays.
    pub server: Option<Seq<char>>,
    pub output: OutputText,
}

impl View for Session {
    type V = Progress;

    closed spec fn view(&self) -> Progress {
        Progress {
            role: self.role,
            limits: self.limits,
            step: self.step,
            server: text::text_in(self.server),
            output: self.output@,
        }
    }
}

/// Where a session stands after a step.
#[derive(Debug)]
pub enum Turn {
    /// Another step is due.
    Next(Session),
    /// The session is over; this is what the prover showed.
    Finished(Output),
    /// The session came to nothing.
    Failed(String),
}

/// Where a session stands after a step, over characters.
#[verifier::ext_equal]
pub enum TurnText {
    Next(Progress),
    Finished(OutputText),
    Failed(Seq<char>),
}

impl View for Turn {
    type V = TurnText;

    open spec fn view(&self) -> TurnText {
        match self {
            Turn::Next(s) => TurnText::Next(s@),
            Turn::Finished(output) => TurnText::Finished(output@),
            Turn::Failed(e) => TurnText::Failed(e@),
        }
    }
}

/// Where the server `host` is reached.
pub open spec fn address_of(host: Seq<char>) -> Seq<char> {
    host + ":443"@
}

/// Whether a prover asks for no more than `limits` allow.
pub open spec fn within(limits: Limits, c: CommitmentText) -> bool {
    c matches CommitmentText::Mpc(asked) ==> asked.max_sent_data <= limits.max_sent_data
        && asked.max_recv_data <= limits.max_recv_data
}

/// The answer to a prover that asks for more than `limits` allow.
pub open spec fn refusal(role: Role, limits: Limits, asked: Limits) -> Seq<char> {
    let sent = digits::decimal_of(asked.max_sent_data as nat);
    let recv = digits::decimal_of(asked.max_recv_data as nat);
    let max_sent = digits::decimal_of(limits.max_sent_data as nat);
    let max_recv = digits::decimal_of(limits.max_recv_data as nat);
    match role {
        Role::Verifier => if asked.max_sent_data > limits.max_sent_data {
            "Prover requested max_sent_data "@ + sent + " exceeds limit "@ + max_sent
        } else {
            "Prover requested max_recv_data "@ + recv + " exceeds limit "@ + max_recv
        },
        Role::Notary => "Prover exceeds limits: sent "@ + sent + "/"@ + max_sent + ", recv "@ + recv
            + "/"@ + max_recv,
    }
}

/// The step behind `step` of a session in which this side relays.
pub open spec fn following(step: Step) -> Option<Step> {
    match step {
        Step::BuildConfig => Some(Step::CreateVerifier),
        Step::CreateVerifier => Some(Step::Commit),
        Step::Commit => Some(Step::ConnectServer),
        Step::ConnectServer => Some(Step::Accept),
        Step::Accept => Some(Step::Run),
        Step::Run => Some(Step::Verify),
        Step::Verify => Some(Step::AcceptOutput),
        Step::AcceptOutput => Some(Step::Close),
        Step::Close => Some(Step::JoinDriver),
        Step::JoinDriver => Some(Step::EndDriver),
        Step::EndDriver => None,
    }
}

/// What stands before the message of a failure of `step`; `server` is the address of the server.
pub open spec fn blame(role: Role, step: Step, server: Option<Seq<char>>) -> Seq<char> {
    match step {
        Step::BuildConfig => "Failed to build verifier config: "@,
        Step::CreateVerifier => "Failed to create verifier: "@,
        Step::Commit => "Commitment failed: "@,
        Step::ConnectServer => "Failed to connect to target server "@ + (match server {
            Some(addr) => addr,
            None => Seq::empty(),
        }) + ": "@,
        Step::Accept => "Accept failed: "@,
        Step::Run => "Run failed: "@,
        Step::Verify => "Verification failed: "@,
        Step::AcceptOutput => "Accept verification failed: "@,
        Step::Close => "Failed to close verifier: "@,
        Step::JoinDriver => match role {
            Role::Verifier => "Driver task failed: "@,
            Role::Notary => "Driver join failed: "@,
        },
        Step::EndDriver => "Session driver error: "@,
    }
}

/// Whether `event` is what can come of `step`.
pub open spec fn fits(step: Step, event: EventText) -> bool {
    match event {
        EventText::Failed(_) => true,
        EventText::Committed(_) => step == Step::Commit,
        EventText::Shown(_) => step == Step::AcceptOutput,
        EventText::Done => step != Step::Commit && step != Step::AcceptOutput,
    }
}

/// A session in which nothing was done yet.
pub open spec fn begun(role: Role, limits: Limits) -> Progress {
    Progress {
        role,
        limits,
        step: Step::BuildConfig,
        server: None,
        output: OutputText { server_name: None, transcript: None },
    }
}

/// Where `event` leads from `p`.
pub open spec fn after(p: Progress, event: EventText) -> TurnText {
    match event {
        EventText::Failed(e) => TurnText::Failed(blame(p.role, p.step, p.server) + e),
        EventText::Committed(CommitmentText::Mpc(asked)) => if within(
            p.limits,
            CommitmentText::Mpc(asked),
        ) {
            TurnText::Next(Progress { step: Step::Accept, ..p })
        } else {
            TurnText::Failed(refusal(p.role, p.limits, asked))
        },
        EventText::Committed(CommitmentText::Proxy { host }) => TurnText::Next(
            Progress { step: Step::ConnectServer, server: Some(address_of(host)), ..p },
        ),
        EventText::Shown(output) => TurnText::Next(Progress { step: Step::Close, output, ..p }),
        EventText::Done => match following(p.step) {
            Some(step) => TurnText::Next(Progress { step, ..p }),
            None => TurnText::Finished(p.output),
        },
    }
}

/// Where `events` lead from `p`. A session that finished or failed stays as it is.
pub open spec fn course(p: Progress, events: Seq<EventText>) -> TurnText
    decreases events.len(),
{
    if events.len() == 0 {
        TurnText::Next(p)
    } else {
        match course(p, events.drop_last()) {
            TurnText::Next(q) => after(q, events.last()),
            end => end,
        }
    }
}

/// Whether each of `events` is what can come of the step that is due when it comes.
pub open spec fn all_fit(p: Progress, events: Seq<EventText>) -> bool
    decreases events.len(),
{
    events.len() > 0 ==> {
        &&& all_fit(p, events.drop_last())
        &&& course(p, events.drop_last()) matches TurnText::Next(q) ==> fits(q.step, events.last())
    }
}

/// Where the server `host` is reached.
pub fn server_address(host: &str) -> (r: String)
    ensures
        r@ == address_of(host@),
{
    text::joined(host, ":443")
}

/// `before`, `n`, `between` and `m` in a row.
fn with_numbers(before: &str, n: usize, between: &str, m: usize) -> (r: String)
    ensures
        r@ == before@ + digits::decimal_of(n as nat) + between@ + digits::decimal_of(m as nat),
{
    let mut r = text::joined(before, digits::decimal(n as u64).as_str());
    r.append(between);
    r.append(digits::decimal(m as u64).as_str());
    r
}

/// The answer to a prover that asks for `asked`: none where `limits` allow it.
pub fn refuse(role: Role, limits: Limits, asked: Limits) -> (r: Option<String>)
    ensures
        r is None <==> within(limits, CommitmentText::Mpc(asked)),
        r matches Some(e) ==> e@ == refusal(role, limits, asked),
{
    if asked.max_sent_data <= limits.max_sent_data && asked.max_recv_data <= limits.max_recv_data {
        return None;
    }
    match role {
        Role::Verifier => if asked.max_sent_data > limits.max_sent_data {
            Some(
                with_numbers(
                    "Prover requested max_sent_data ",
                    asked.max_sent_data,
                    " exceeds limit ",
                    limits.max_sent_data,
                ),
            )
        } else {
            Some(
                with_numbers(
                    "Prover requested max_recv_data ",
                    asked.max_recv_data,
                    " exceeds limit ",
                    limits.max_recv_data,
                ),
            )
        },
        Role::Notary => {
            let mut r = with_numbers(
                "Prover exceeds limits: sent ",
                asked.max_sent_data,
                "/",
                limits.max_sent_data,
            );
            r.append(", recv ");
            r.append(digits::decimal(asked.max_recv_data as u64).as_str());
            r.append("/");
            r.append(digits::decimal(limits.max_recv_data as u64).as_str());
            Some(r)
        },
    }
}

/// The step behind `step` of a session in which this side relays.
pub fn next_step(step: Step) -> (r: Option<Step>)
    ensures
        r == following(step),
{
    match step {
        Step::BuildConfig => Some(Step::CreateVerifier),
        Step::CreateVerifier => Some(Step::Commit),
        Step::Commit => Some(Step::ConnectServer),
        Step::ConnectServer => Some(Step::Accept),
        Step::Accept => Some(Step::Run),
        Step::Run => Some(Step::Verify),
        Step::Verify => Some(Step::AcceptOutput),
        Step::AcceptOutput => Some(Step::Close),
        Step::Close => Some(Step::JoinDriver),
        Step::JoinDriver => Some(Step::EndDriver),
        Step::EndDriver => None,
    }
}

/// The message of a failure of `step` with the message `e`; `server` is the address of the server.
pub fn step_error(role: Role, step: Step, server: &Option<String>, e: &str) -> (r: String)
    ensures
        r@ == blame(role, step, text::text_in(*server)) + e@,
{
    let mut r = match step {
        Step::BuildConfig => "Failed to build verifier config: ".to_string(),
        Step::CreateVerifier => "Failed to create verifier: ".to_string(),
        Step::Commit => "Commitment failed: ".to_string(),
        Step::ConnectServer => {
            let mut r = "Failed to connect to target server ".to_string();
            match server {
                Some(addr) => r.append(addr.as_str()),
                None => {
                    assert(r@ + Seq::<char>::empty() =~= r@);
                },
            }
            r.append(": ");
            r
        },
        Step::Accept => "Accept failed: ".to_string(),
        Step::Run => "Run failed: ".to_string(),
        Step::Verify => "Verification failed: ".to_string(),
        Step::AcceptOutput => "Accept verification failed: ".to_string(),
        Step::Close => "Failed to close verifier: ".to_string(),
        Step::JoinDriver => match role {
            Role::Verifier => "Driver task failed: ".to_string(),
            Role::Notary => "Driver join failed: ".to_string(),
        },
        Step::EndDriver => "Session driver error: ".to_string(),
    };
    r.append(e);
    r
}

impl Session {
    /// A session in which nothing was done yet.
    pub fn new(role: Role, limits: Limits) -> (r: Session)
        ensures
            r@ == begun(role, limits),
    {
        Session {
            role,
            limits,
            step: Step::BuildConfig,
            server: None,
            output: Output { server_name: None, transcript: None },
        }
    }

    /// The step that is due.
    pub fn step(&self) -> (r: Step)
        ensures
            r == self@.step,
    {
        self.step
    }

    /// The address of the server, where this side relays.
    pub fn server(&self) -> (r: Option<&str>)
        ensures
            r matches Some(addr) ==> self@.server == Some(addr@),
            r is None ==> self@.server is None,
    {
        match &self.server {
            Some(addr) => Some(addr.as_str()),
            None => None,
        }
    }

    /// Goes on with what came of the step that was due.
    pub fn advance(self, event: Event) -> (r: Turn)
        requires
            fits(self@.step, event@),
        ensures
            r@ == after(self@, event@),
    {
        let Session { role, limits, step, server, output } = self;
        match event {
            Event::Failed(e) => Turn::Failed(step_error(role, step, &server, e.as_str())),
            Event::Committed(Commitment::Mpc(asked)) => match refuse(role, limits, asked) {
                Some(e) => Turn::Failed(e),
                None => Turn::Next(Session { role, limits, step: Step::Accept, server, output }),
            },
            Event::Committed(Commitment::Proxy { host }) => {
                let server = Some(server_address(host.as_str()));
                Turn::Next(Session { role, limits, step: Step::ConnectServer, server, output })
            },
            Event::Shown(output) => Turn::Next(
                Session { role, limits, step: Step::Close, server, output },
            ),
            Event::Done => match next_step(step) {
                Some(next) => Turn::Next(Session { role, limits, step: next, server, output }),
                None => Turn::Finished(output),
            },
        }
    }
}

/// How many steps stand before `step` in a session in which this side relays.
pub open spec fn place(step: Step) -> int {
    match step {
        Step::BuildConfig => 0,
        Step::CreateVerifier => 1,
        Step::Commit => 2,
        Step::ConnectServer => 3,
        Step::Accept => 4,
        Step::Run => 5,
        Step::Verify => 6,
        Step::AcceptOutput => 7,
        Step::Close => 8,
        Step::JoinDriver => 9,
        Step::EndDriver => 10,
    }
}

/// How many steps of a session with the commitment `c` there are before `place`: only where this side
/// relays is there a server to connect to.
pub open spec fn steps_before(place: int, c: CommitmentText) -> int {
    if c is Mpc && place > 3 {
        place - 1
    } else {
        place
    }
}

/// Where the server of a session with the commitment `c` is reached, if this side connects to it.
pub open spec fn server_of(c: CommitmentText) -> Option<Seq<char>> {
    match c {
        CommitmentText::Mpc(_) => None,
        CommitmentText::Proxy { host } => Some(address_of(host)),
    }
}

/// The commitment among `events`, once it came.
pub open spec fn commitment_in(events: Seq<EventText>) -> CommitmentText {
    events[2]->Committed_0
}

/// Whether `p` is where the successes `events` lead from the start.
pub open spec fn holds_results(
    p: Progress,
    role: Role,
    limits: Limits,
    events: Seq<EventText>,
) -> bool {
    let c = commitment_in(events);
    let shown = steps_before(place(Step::AcceptOutput), c);
    &&& p.role == role && p.limits == limits
    &&& events.len() <= 2 ==> p == (Progress { step: p.step, ..begun(role, limits) }) && place(p.step)
        == events.len()
    &&& events.len() > 2 ==> {
        &&& events[2] is Committed
        &&& within(limits, c)
        &&& p.server == server_of(c)
        &&& p.step == Step::ConnectServer ==> c is Proxy
        &&& place(p.step) > 2
        &&& events.len() == steps_before(place(p.step), c)
        &&& events.len() > shown ==> events[shown] == EventText::Shown(p.output)
    }
}

/// Whether none of `events` is a failure.
pub open spec fn none_failed(events: Seq<EventText>) -> bool {
    forall|i: int| 0 <= i < events.len() ==> !(#[trigger] events[i] is Failed)
}

/// Whether a session ends in the message `e` through the event at index `i`: all events before were
/// successes, and at this one a step failed or a prover asked for too much.
pub open spec fn ends_at(
    role: Role,
    limits: Limits,
    events: Seq<EventText>,
    i: int,
    e: Seq<char>,
) -> bool {
    &&& 0 <= i < events.len()
    &&& none_failed(events.take(i))
    &&& course(begun(role, limits), events.take(i)) matches TurnText::Next(p) && match events[i] {
        EventText::Failed(message) => e == blame(role, p.step, p.server) + message,
        EventText::Committed(CommitmentText::Mpc(asked)) => {
            &&& !within(limits, CommitmentText::Mpc(asked))
            &&& e == refusal(role, limits, asked)
        },
        _ => false,
    }
}

proof fn lemma_one_step(
    p: Progress,
    role: Role,
    limits: Limits,
    events: Seq<EventText>,
    event: EventText,
)
    requires
        none_failed(events),
        holds_results(p, role, limits, events),
        fits(p.step, event),
        after(p, event) is Next,
    ensures
        none_failed(events.push(event)),
        holds_results(after(p, event)->Next_0, role, limits, events.push(event)),
{
    let all = events.push(event);
    assert forall|i: int| 0 <= i < all.len() implies !(#[trigger] all[i] is Failed) by {
        if i < events.len() {
            assert(events[i] == all[i]);
        }
    }
    if events.len() > 2 {
        assert(all[2] == events[2]);
    }
}

/// A session takes its steps in their order, each after the success of all before it. Nothing is
/// accepted from a prover that asks for more than the limits allow, and a server is connected to only
/// where the prover asks this side to relay. A session is over only after all its steps.
pub proof fn law_steps_come_in_order(role: Role, limits: Limits, events: Seq<EventText>)
    requires
        all_fit(begun(role, limits), events),
    ensures
        match course(begun(role, limits), events) {
            TurnText::Next(p) => none_failed(events) && holds_results(p, role, limits, events),
            TurnText::Finished(output) => {
                let c = commitment_in(events);
                let count = steps_before(place(Step::EndDriver), c) + 1;
                &&& events.len() >= count
                &&& none_failed(events.take(count))
                &&& events[2] is Committed
                &&& within(limits, c)
                &&& events[steps_before(place(Step::AcceptOutput), c)] == EventText::Shown(output)
            },
            TurnText::Failed(e) => exists|i: int| #[trigger] ends_at(role, limits, events, i, e),
        },
    decreases events.len(),
{
    if events.len() > 0 {
        let before = events.drop_last();
        let event = events.last();
        law_steps_come_in_order(role, limits, before);
        assert(before.push(event) =~= events);
        match course(begun(role, limits), before) {
            TurnText::Next(p) => {
                assert(fits(p.step, event));
                match after(p, event) {
                    TurnText::Next(_) => {
                        lemma_one_step(p, role, limits, before, event);
                    },
                    TurnText::Finished(_) => {
                        assert(events[2] == before[2]);
                        assert(events.take(events.len() as int) =~= events);
                        assert forall|i: int| 0 <= i < events.len() implies !(#[trigger] events[i]
                            is Failed) by {
                            if i < before.len() {
                                assert(before[i] == events[i]);
                            }
                        }
                    },
                    TurnText::Failed(e) => {
                        assert(events.take(before.len() as int) =~= before);
                        assert(ends_at(role, limits, events, before.len() as int, e));
                    },
                }
            },
            TurnText::Finished(_) => {
                let count = steps_before(place(Step::EndDriver), commitment_in(before)) + 1;
                assert(events[2] == before[2]);
                assert(events.take(count) =~= before.take(count));
            },
            TurnText::Failed(e) => {
                let i = choose|i: int| #[trigger] ends_at(role, limits, before, i, e);
                assert(events.take(i) =~= before.take(i));
                assert(ends_at(role, limits, events, i, e));
            },
        }
    }
}

/// What fits as a whole fits up to every index.
proof fn lemma_prefix_fits(p: Progress, events: Seq<EventText>, n: int)
    requires
        all_fit(p, events),
        0 <= n <= events.len(),
    ensures
        all_fit(p, events.take(n)),
    decreases events.len(),
{
    if n < events.len() {
        lemma_prefix_fits(p, events.drop_last(), n);
        assert(events.drop_last().take(n) =~= events.take(n));
    } else {
        assert(events.take(n) =~= events);
    }
}

/// A session whose steps all succeed, with a prover that asks for no more than the limits allow, comes
/// to its end with what the prover showed.
pub proof fn law_success_is_owed(role: Role, limits: Limits, events: Seq<EventText>)
    requires
        all_fit(begun(role, limits), events),
        none_failed(events),
        events[2] is Committed,
        within(limits, commitment_in(events)),
        events.len() == steps_before(place(Step::EndDriver), commitment_in(events)) + 1,
    ensures
        course(begun(role, limits), events) is Finished,
        events[steps_before(place(Step::AcceptOutput), commitment_in(events))] == EventText::Shown(
            course(begun(role, limits), events)->Finished_0,
        ),
{
    let start = begun(role, limits);
    law_steps_come_in_order(role, limits, events);
    if let TurnText::Failed(e) = course(start, events) {
        let i = choose|i: int| #[trigger] ends_at(role, limits, events, i, e);
        let before = events.take(i);
        assert(!(events[i] is Failed));
        lemma_prefix_fits(start, events, i);
        lemma_prefix_fits(start, events, i + 1);
        assert(events.take(i + 1).drop_last() =~= before);
        assert(events.take(i + 1).last() == events[i]);
        law_steps_come_in_order(role, limits, before);
        assert(before.len() == 2);
    }
}

/// The steps of a session are these, in this order. Only a session in which this side relays connects
/// to a server.
pub proof fn law_steps_are_these(k: int)
    ensures
        ({
            let steps = seq![
                Step::BuildConfig,
                Step::CreateVerifier,
                Step::Commit,
                Step::ConnectServer,
                Step::Accept,
                Step::Run,
                Step::Verify,
                Step::AcceptOutput,
                Step::Close,
                Step::JoinDriver,
                Step::EndDriver,
            ];
            &&& 0 <= k < steps.len() ==> place(steps[k]) == k
            &&& 0 <= k < steps.len() - 1 ==> following(steps[k]) == Some(steps[k + 1])
            &&& following(Step::EndDriver) is None
        }),
{
}

/// Every step that fails is told by its own text, for the server by its address.
pub proof fn law_failures_tell_their_step(role: Role, server: Option<Seq<char>>, addr: Seq<char>)
    ensures
        blame(role, Step::BuildConfig, server) == "Failed to build verifier config: "@,
        blame(role, Step::CreateVerifier, server) == "Failed to create verifier: "@,
        blame(role, Step::Commit, server) == "Commitment failed: "@,
        server == Some(addr) ==> blame(role, Step::ConnectServer, server)
            == "Failed to connect to target server "@ + addr + ": "@,
        blame(role, Step::Accept, server) == "Accept failed: "@,
        blame(role, Step::Run, server) == "Run failed: "@,
        blame(role, Step::Verify, server) == "Verification failed: "@,
        blame(role, Step::AcceptOutput, server) == "Accept verification failed: "@,
        blame(role, Step::Close, server) == "Failed to close verifier: "@,
        blame(Role::Verifier, Step::JoinDriver, server) == "Driver task failed: "@,
        blame(Role::Notary, Step::JoinDriver, server) == "Driver join failed: "@,
        blame(role, Step::EndDriver, server) == "Session driver error: "@,
{
}

/// Every step takes the events that can come of it, and no others.
pub proof fn law_steps_take_their_events(step: Step, event: EventText)
    ensures
        event is Failed ==> fits(step, event),
        event is Committed ==> (fits(step, event) <==> step == Step::Commit),
        event is Shown ==> (fits(step, event) <==> step == Step::AcceptOutput),
        event is Done ==> (fits(step, event) <==> step != Step::Commit && step != Step::AcceptOutput),
{
}

/// A prover may send and receive up to the limits, both of them counted, and is refused as soon as it
/// asks for more of one. The answer names what it asked for and what it may have.
pub proof fn law_limits_hold_for_both_directions(limits: Limits, asked: Limits, host: Seq<char>)
    ensures
        within(limits, CommitmentText::Mpc(asked)) <==> asked.max_sent_data <= limits.max_sent_data
            && asked.max_recv_data <= limits.max_recv_data,
        within(limits, CommitmentText::Proxy { host }),
        asked.max_sent_data > limits.max_sent_data ==> refusal(Role::Verifier, limits, asked)
            == "Prover requested max_sent_data "@ + digits::decimal_of(asked.max_sent_data as nat)
            + " exceeds limit "@ + digits::decimal_of(limits.max_sent_data as nat),
        asked.max_sent_data <= limits.max_sent_data ==> refusal(Role::Verifier, limits, asked)
            == "Prover requested max_recv_data "@ + digits::decimal_of(asked.max_recv_data as nat)
            + " exceeds limit "@ + digits::decimal_of(limits.max_recv_data as nat),
        refusal(Role::Notary, limits, asked) == "Prover exceeds limits: sent "@ + digits::decimal_of(
            asked.max_sent_data as nat,
        ) + "/"@ + digits::decimal_of(limits.max_sent_data as nat) + ", recv "@ + digits::decimal_of(
            asked.max_recv_data as nat,
        ) + "/"@ + digits::decimal_of(limits.max_recv_data as nat),
{
}

/// A success leads to the next step and changes nothing but what it brought. A prover within the limits
/// is accepted; one that asks this side to relay gets its server connected to, at the port of HTTPS;
/// what it shows at the end is what comes out.
pub proof fn law_steps_keep_what_they_brought(
    p: Progress,
    event: EventText,
    role: Role,
    limits: Limits,
)
    requires
        fits(p.step, event),
    ensures
        event matches EventText::Committed(CommitmentText::Mpc(asked)) ==> {
            &&& asked.max_sent_data <= p.limits.max_sent_data && asked.max_recv_data
                <= p.limits.max_recv_data ==> after(p, event) == TurnText::Next(
                Progress {
                    role: p.role,
                    limits: p.limits,
                    step: Step::Accept,
                    server: p.server,
                    output: p.output,
                },
            )
            &&& asked.max_sent_data > p.limits.max_sent_data || asked.max_recv_data
                > p.limits.max_recv_data ==> after(p, event) == TurnText::Failed(
                refusal(p.role, p.limits, asked),
            )
        },
        event matches EventText::Committed(CommitmentText::Proxy { host }) ==> after(p, event)
            == TurnText::Next(
            Progress {
                role: p.role,
                limits: p.limits,
                step: Step::ConnectServer,
                server: Some(host + ":443"@),
                output: p.output,
            },
        ),
        event matches EventText::Shown(output) ==> after(p, event) == TurnText::Next(
            Progress {
                role: p.role,
                limits: p.limits,
                step: Step::Close,
                server: p.server,
                output,
            },
        ),
        event is Done && p.step != Step::EndDriver ==> after(p, event) == TurnText::Next(
            Progress {
                role: p.role,
                limits: p.limits,
                step: following(p.step)->0,
                server: p.server,
                output: p.output,
            },
        ),
        event is Done && p.step == Step::EndDriver ==> after(p, event) == TurnText::Finished(p.output),
        event matches EventText::Failed(e) ==> after(p, event) == TurnText::Failed(
            blame(p.role, p.step, p.server) + e,
        ),
        begun(role, limits) == (Progress {
            role,
            limits,
            step: Step::BuildConfig,
            server: None,
            output: OutputText { server_name: None, transcript: None },
        }),
{
}

/// Commitments, outputs, events and turns say what they hold.
pub proof fn law_events_say_what_they_hold(
    asked: Limits,
    s: String,
    shown: ShownBytes,
    output: Output,
    c: Commitment,
    session: Session,
)
    ensures
        Commitment::Mpc(asked)@ == CommitmentText::Mpc(asked),
        (Commitment::Proxy { host: s })@ == (CommitmentText::Proxy { host: s@ }),
        output.server_name matches Some(name) ==> output@.server_name == Some(name@),
        output.server_name is None ==> output@.server_name is None,
        output.transcript matches Some(t) ==> output@.transcript == Some((t.sent@, t.received@)),
        output.transcript is None ==> output@.transcript is None,
        Event::Done@ == EventText::Done,
        Event::Committed(c)@ == EventText::Committed(c@),
        Event::Shown(output)@ == EventText::Shown(output@),
        Event::Failed(s)@ == EventText::Failed(s@),
        Turn::Next(session)@ == TurnText::Next(session@),
        Turn::Finished(output)@ == TurnText::Finished(output@),
        Turn::Failed(s)@ == TurnText::Failed(s@),
{
}

} // verus!
