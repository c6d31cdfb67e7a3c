//! Whether a launch target runs and its primary endpoint answers.
use vstd::prelude::*;
use vstd::string::*;
use vstd::utf8::*;

use crate::browser_url::{
    accepted_url, checked_text, parsed_url, validate_browser_url, HostText, UrlHost, UrlParts,
    UrlText,
};
use crate::ip_text::IpAddress;
use crate::lossy_text::{exact, exact_text};
use crate::numbers::{
    decimal, decimal_round_trip, digit_value, lemma_decimal_digits, number_value, parse_number,
    push_decimal,
};
use crate::ordered::{lemma_all_seen, lemma_seen};
use crate::portboard_error::{failure, ErrorText, PortboardError};
use crate::text::{
    characters, is_text, is_white_space, rows, same_text, split_words, words,
    words_part_at_white_space,
};

verus! {

/// The longest time that a probe takes, in nanoseconds.
pub const PROBE_BUDGET: u64 = 500000000;

/// The longest time that one connection may take, in nanoseconds.
pub const CONNECT_BUDGET: u64 = 250000000;

/// How many bytes of a status line are read.
pub const STATUS_LINE_LIMIT: usize = 4096;

/// The longest pause between two looks at a target, in nanoseconds.
pub const PAUSE: u64 = 100000000;

/// The addresses, in order, to which a probe tries to connect, the port, and what it sends.
#[derive(Debug, PartialEq, Eq)]
pub struct ProbePlan {
    pub addresses: Vec<IpAddress>,
    pub port: u16,
    pub request: String,
}

/// What a probe does.
pub struct PlanText {
    pub addresses: Seq<IpAddress>,
    pub port: u16,
    pub request: Seq<char>,
}

impl View for ProbePlan {
    type V = PlanText;

    open spec fn view(&self) -> PlanText {
        PlanText { addresses: self.addresses@, port: self.port, request: self.request@ }
    }
}

/// The loopback address of the older family.
pub open spec fn is_ipv4_localhost(address: IpAddress) -> bool {
    address matches IpAddress::V4(octets) && octets@ =~= seq![127u8, 0, 0, 1]
}

/// The loopback address of the newer family.
pub open spec fn is_ipv6_localhost(address: IpAddress) -> bool {
    address matches IpAddress::V6(groups) && groups@ =~= seq![0u16, 0, 0, 0, 0, 0, 0, 1]
}

/// Whether some addresses are those that a host stands for: an address stands for itself, and
/// the name `localhost` for the loopback addresses of both families.
pub open spec fn stands_for(addresses: Seq<IpAddress>, host: HostText) -> bool {
    match host {
        HostText::Address(address) => addresses == seq![address],
        HostText::Domain(_) => addresses.len() == 2 && is_ipv4_localhost(addresses[0])
            && is_ipv6_localhost(addresses[1]),
    }
}

/// The request that a probe sends.
pub open spec fn probe_request(url: UrlText, host: Seq<char>, port: u16) -> Seq<char> {
    let path = match url.query {
        Some(query) => url.path + "?"@ + query,
        None => url.path,
    };
    "GET "@ + path + " HTTP/1.1\r\nHost: "@ + host + ":"@ + decimal(port as nat)
        + "\r\nConnection: close\r\n\r\n"@
}

/// Why there is no probe of a URL, given what its check gave.
pub open spec fn probe_refusal(checked: Result<UrlText, ErrorText>) -> Option<ErrorText> {
    match checked {
        Err(error) => Some(error),
        Ok(url) => if url.scheme != "http"@ {
            Some(
                failure(
                    "Portboard readiness does not support HTTPS; use an http:// primary endpoint (HTTPS remains supported for browser links)"@,
                ),
            )
        } else if url.port is None {
            Some(failure("Portboard readiness URL has no port"@))
        } else {
            match url.host {
                None => Some(failure("Portboard readiness URL has no host"@)),
                Some(HostText::Domain(name)) => if name != "localhost"@ {
                    Some(
                        failure(
                            "Portboard readiness does not resolve DNS names; use an IP literal or localhost"@,
                        ),
                    )
                } else if url.host_text is None {
                    Some(failure("missing host"@))
                } else {
                    None
                },
                Some(HostText::Address(_)) => if url.host_text is None {
                    Some(failure("missing host"@))
                } else {
                    None
                },
            }
        },
    }
}

/// Whether a plan probes a URL: it connects to what the host stands for, and asks for the path
/// and query under the host as the URL writes it.
pub open spec fn probes_url(plan: PlanText, url: UrlText) -> bool {
    &&& url.host is Some && stands_for(plan.addresses, url.host->0)
    &&& url.port == Some(plan.port)
    &&& url.host_text is Some && plan.request == probe_request(url, url.host_text->0, plan.port)
}

/// Whether a result is the plan for a URL, or the reason why there is none.
pub open spec fn plans_probe(
    result: Result<ProbePlan, PortboardError>,
    checked: Result<UrlText, ErrorText>,
) -> bool {
    match result {
        Ok(plan) => probe_refusal(checked) is None && checked is Ok && probes_url(
            plan@,
            checked->Ok_0,
        ),
        Err(error) => probe_refusal(checked) == Some(error@),
    }
}

/// Plans the probe of a URL, given what its check gave. No name is ever resolved: that has no
/// cancellable deadline. Local development endpoints must use an IP literal or the exact
/// localhost name.
pub fn plan_probe(checked: Result<UrlParts, PortboardError>) -> (result: Result<
    ProbePlan,
    PortboardError,
>)
    ensures
        plans_probe(result, checked_text(checked)),
{
    let url = match checked {
        Ok(url) => url,
        Err(error) => {
            return Err(error);
        },
    };
    if !same_text(url.scheme.as_str(), "http") {
        return Err(
            PortboardError::new(
                "Portboard readiness does not support HTTPS; use an http:// primary endpoint (HTTPS remains supported for browser links)".to_owned(),
            ),
        );
    }
    let port: u16 = match url.port {
        Some(port) => port,
        None => {
            return Err(PortboardError::new("Portboard readiness URL has no port".to_owned()));
        },
    };
    let mut addresses: Vec<IpAddress> = Vec::new();
    match &url.host {
        None => {
            return Err(PortboardError::new("Portboard readiness URL has no host".to_owned()));
        },
        Some(UrlHost::Address(address)) => {
            addresses.push(*address);
            proof {
                assert(addresses@ =~= seq![*address]);
            }
        },
        Some(UrlHost::Domain(name)) => {
            if !same_text(name.as_str(), "localhost") {
                return Err(
                    PortboardError::new(
                        "Portboard readiness does not resolve DNS names; use an IP literal or localhost".to_owned(),
                    ),
                );
            }
            let four: [u8; 4] = [127, 0, 0, 1];
            let six: [u16; 8] = [0, 0, 0, 0, 0, 0, 0, 1];
            proof {
                assert(four@ =~= seq![127u8, 0, 0, 1]);
                assert(six@ =~= seq![0u16, 0, 0, 0, 0, 0, 0, 1]);
            }
            addresses.push(IpAddress::V4(four));
            addresses.push(IpAddress::V6(six));
        },
    }
    let host = match &url.host_text {
        Some(host) => host,
        None => {
            return Err(PortboardError::new("missing host".to_owned()));
        },
    };
    let mut path = url.path.clone();
    match &url.query {
        Some(query) => {
            path.append("?");
            path.append(query.as_str());
        },
        None => {},
    }
    let mut request = "GET ".to_owned();
    request.append(path.as_str());
    request.append(" HTTP/1.1\r\nHost: ");
    request.append(host.as_str());
    request.append(":");
    push_decimal(&mut request, port as u64);
    request.append("\r\nConnection: close\r\n\r\n");
    Ok(ProbePlan { addresses, port, request })
}

/// Plans the probe of an endpoint.
pub fn probe_plan(endpoint_url: &str) -> (result: Result<ProbePlan, PortboardError>)
    ensures
        plans_probe(result, accepted_url(endpoint_url@, parsed_url(endpoint_url@))),
{
    let checked = validate_browser_url(endpoint_url);
    plan_probe(checked)
}

/// Whether a status line announces success or a redirection in a version that is understood.
pub open spec fn line_is_ready(line: Seq<u8>) -> bool {
    match exact(line) {
        None => false,
        Some(text) => {
            let parts = words(text);
            parts.len() >= 2 && (parts[0] == "HTTP/1.0"@ || parts[0] == "HTTP/1.1"@) && (
            match number_value(parts[1], 10, u16::MAX as nat) {
                Some(code) => 200 <= code <= 399,
                None => false,
            })
        },
    }
}

/// Whether a text is a status line that announces success or a redirection.
pub fn text_is_ready(text: &str) -> (result: bool)
    ensures
        result == ({
            let parts = words(text@);
            parts.len() >= 2 && (parts[0] == "HTTP/1.0"@ || parts[0] == "HTTP/1.1"@) && (
            match number_value(parts[1], 10, u16::MAX as nat) {
                Some(code) => 200 <= code <= 399,
                None => false,
            })
        }),
{
    let source = characters(text);
    let parts = split_words(source.as_slice());
    proof {
        assert(rows(parts@).len() == parts.len());
    }
    if parts.len() < 2 {
        return false;
    }
    proof {
        assert(rows(parts@)[0] == parts@[0]@);
        assert(rows(parts@)[1] == parts@[1]@);
    }
    if !is_text(parts[0].as_slice(), "HTTP/1.0") && !is_text(parts[0].as_slice(), "HTTP/1.1") {
        return false;
    }
    match parse_number(parts[1].as_slice(), 10, u16::MAX as u64) {
        Some(code) => 200 <= code && code <= 399,
        None => false,
    }
}

/// Reads a status line.
pub fn status_line_is_ready(line: &[u8]) -> (result: bool)
    ensures
        result == line_is_ready(line@),
{
    match exact_text(line) {
        Some(text) => text_is_ready(text.as_str()),
        None => false,
    }
}

/// How far a probe has come.
#[derive(Clone, Copy, Debug, PartialEq, Eq, Structural)]
pub enum ProbeStage {
    /// It connects to the address at an index.
    Connecting(usize),
    /// So many bytes of the request are sent.
    Writing(usize),
    /// The status line is read.
    Reading,
    /// The endpoint is ready or not.
    Answered(bool),
}

/// A probe under way: what it does, how far it has come, and what was read.
#[derive(Debug, PartialEq, Eq)]
pub struct Probe {
    pub plan: ProbePlan,
    pub stage: ProbeStage,
    pub line: Vec<u8>,
}

/// What a probe does next. Times are in nanoseconds.
#[derive(Clone, Copy, Debug, PartialEq, Eq, Structural)]
pub enum ProbeAction {
    Connect { index: usize, timeout: u64 },
    Write { from: usize, timeout: u64 },
    Read { timeout: u64 },
    Answer(bool),
}

/// What an action of a probe gave.
#[derive(Clone, Copy, Debug, PartialEq, Eq, Structural)]
pub enum ProbeEvent {
    Connected,
    Wrote(usize),
    Byte(u8),
    Failed,
}

/// The lesser of two times.
pub open spec fn earlier(left: u64, right: u64) -> u64 {
    if left < right {
        left
    } else {
        right
    }
}

fn earlier_of(left: u64, right: u64) -> (result: u64)
    ensures
        result == earlier(left, right),
{
    if left < right {
        left
    } else {
        right
    }
}

/// What a probe does next, with some time left. A probe whose time is over is not ready.
pub open spec fn probe_action(
    plan: PlanText,
    stage: ProbeStage,
    read: nat,
    remaining: u64,
) -> ProbeAction {
    match stage {
        ProbeStage::Answered(ready) => ProbeAction::Answer(ready),
        _ => if remaining == 0 {
            ProbeAction::Answer(false)
        } else {
            match stage {
                ProbeStage::Connecting(index) => if index < plan.addresses.len() {
                    ProbeAction::Connect { index, timeout: earlier(remaining, CONNECT_BUDGET) }
                } else {
                    ProbeAction::Answer(false)
                },
                ProbeStage::Writing(from) => ProbeAction::Write { from, timeout: remaining },
                _ => if read < STATUS_LINE_LIMIT {
                    ProbeAction::Read { timeout: remaining }
                } else {
                    ProbeAction::Answer(false)
                },
            }
        },
    }
}

/// How far a probe has come after an event, and what was read by then. A connection that fails
/// leads to the next address; whatever else fails ends the probe.
pub open spec fn probe_after(
    plan: PlanText,
    stage: ProbeStage,
    line: Seq<u8>,
    event: ProbeEvent,
) -> (ProbeStage, Seq<u8>) {
    match (stage, event) {
        (ProbeStage::Connecting(_), ProbeEvent::Connected) => (ProbeStage::Writing(0), line),
        (ProbeStage::Connecting(index), ProbeEvent::Failed) => if index < plan.addresses.len() {
            (ProbeStage::Connecting((index + 1) as usize), line)
        } else {
            (ProbeStage::Answered(false), line)
        },
        (ProbeStage::Writing(from), ProbeEvent::Wrote(count)) => if count == 0 || from + count
            > encode_utf8(plan.request).len() {
            (ProbeStage::Answered(false), line)
        } else if from + count == encode_utf8(plan.request).len() {
            (ProbeStage::Reading, line)
        } else {
            (ProbeStage::Writing((from + count) as usize), line)
        },
        (ProbeStage::Reading, ProbeEvent::Byte(byte)) => if byte == 0x0A {
            (ProbeStage::Answered(line_is_ready(line.push(byte))), line.push(byte))
        } else if line.len() + 1 >= STATUS_LINE_LIMIT {
            (ProbeStage::Answered(false), line.push(byte))
        } else {
            (ProbeStage::Reading, line.push(byte))
        },
        (ProbeStage::Answered(ready), _) => (ProbeStage::Answered(ready), line),
        _ => (ProbeStage::Answered(false), line),
    }
}

impl Probe {
    /// A probe that has not begun.
    pub fn new(plan: ProbePlan) -> (result: Self)
        ensures
            result.plan@ == plan@,
            result.stage == ProbeStage::Connecting(0),
            result.line@ == Seq::<u8>::empty(),
    {
        Probe { plan, stage: ProbeStage::Connecting(0), line: Vec::new() }
    }

    /// What is done next, with some time left.
    pub fn action(&self, remaining: u64) -> (result: ProbeAction)
        ensures
            result == probe_action(self.plan@, self.stage, self.line@.len(), remaining),
    {
        match self.stage {
            ProbeStage::Answered(ready) => ProbeAction::Answer(ready),
            ProbeStage::Connecting(index) => {
                if remaining == 0 || index >= self.plan.addresses.len() {
                    ProbeAction::Answer(false)
                } else {
                    ProbeAction::Connect { index, timeout: earlier_of(remaining, CONNECT_BUDGET) }
                }
            },
            ProbeStage::Writing(from) => {
                if remaining == 0 {
                    ProbeAction::Answer(false)
                } else {
                    ProbeAction::Write { from, timeout: remaining }
                }
            },
            ProbeStage::Reading => {
                if remaining == 0 || self.line.len() >= STATUS_LINE_LIMIT {
                    ProbeAction::Answer(false)
                } else {
                    ProbeAction::Read { timeout: remaining }
                }
            },
        }
    }

    /// Goes on after an event.
    pub fn observe(&mut self, event: ProbeEvent)
        ensures
            final(self).plan == old(self).plan,
            (final(self).stage, final(self).line@) == probe_after(
                old(self).plan@,
                old(self).stage,
                old(self).line@,
                event,
            ),
    {
        let ghost before = self.line@;
        match (self.stage, event) {
            (ProbeStage::Connecting(_), ProbeEvent::Connected) => {
                self.stage = ProbeStage::Writing(0);
            },
            (ProbeStage::Connecting(index), ProbeEvent::Failed) => {
                if index < self.plan.addresses.len() {
                    self.stage = ProbeStage::Connecting(index + 1);
                } else {
                    self.stage = ProbeStage::Answered(false);
                }
            },
            (ProbeStage::Writing(from), ProbeEvent::Wrote(count)) => {
                let length: usize = self.plan.request.as_str().as_bytes().len();
                if count == 0 || from > length || count > length - from {
                    self.stage = ProbeStage::Answered(false);
                } else if count == length - from {
                    self.stage = ProbeStage::Reading;
                } else {
                    self.stage = ProbeStage::Writing(from + count);
                }
            },
            (ProbeStage::Reading, ProbeEvent::Byte(byte)) => {
                self.line.push(byte);
                if byte == 0x0A {
                    self.stage = ProbeStage::Answered(status_line_is_ready(self.line.as_slice()));
                } else if self.line.len() >= STATUS_LINE_LIMIT {
                    self.stage = ProbeStage::Answered(false);
                } else {
                    self.stage = ProbeStage::Reading;
                }
            },
            (ProbeStage::Answered(ready), _) => {
                self.stage = ProbeStage::Answered(ready);
            },
            _ => {
                self.stage = ProbeStage::Answered(false);
            },
        }
    }
}

/// How much time a probe has before a deadline.
pub fn probe_budget(until_deadline: u64) -> (result: u64)
    ensures
        result == earlier(until_deadline, PROBE_BUDGET),
{
    earlier_of(until_deadline, PROBE_BUDGET)
}

/// Where a probe stands after some events.
pub open spec fn probe_run(plan: PlanText, events: Seq<ProbeEvent>) -> (ProbeStage, Seq<u8>)
    decreases events.len(),
{
    if events.len() == 0 {
        (ProbeStage::Connecting(0), Seq::empty())
    } else {
        let (stage, line) = probe_run(plan, events.drop_last());
        probe_after(plan, stage, line, events.last())
    }
}

/// An endpoint is ready only where it sent a whole status line that says so, and no probe reads
/// more than the limit.
pub proof fn readiness_is_announced(plan: PlanText, events: Seq<ProbeEvent>)
    ensures
        probe_run(plan, events).1.len() <= STATUS_LINE_LIMIT,
        probe_run(plan, events).0 == ProbeStage::Answered(true) ==> line_is_ready(
            probe_run(plan, events).1,
        ) && probe_run(plan, events).1.len() > 0 && probe_run(plan, events).1.last() == 0x0A,
        probe_run(plan, events).0 == ProbeStage::Reading ==> probe_run(plan, events).1.len()
            < STATUS_LINE_LIMIT,
        probe_run(plan, events).0 is Connecting || probe_run(plan, events).0 is Writing
            ==> probe_run(plan, events).1.len() == 0,
    decreases events.len(),
{
    if events.len() > 0 {
        readiness_is_announced(plan, events.drop_last());
    }
}

/// What is waited for.
#[derive(Clone, Copy, Debug, PartialEq, Eq, Structural)]
pub enum WaitGoal {
    /// A process of the target.
    Process,
    /// A process of the target and, where it publishes metadata, its primary endpoint.
    Endpoint { publishes: bool },
}

/// How far a wait has come: what is to be done next.
#[derive(Clone, Copy, Debug, PartialEq, Eq, Structural)]
pub enum WaitStep {
    /// Look at the clock.
    BeginRound,
    /// Look for the processes of the target, then at the clock.
    Scan,
    /// Load the metadata of the target.
    LoadMetadata,
    /// Probe the primary endpoint.
    ProbeEndpoint,
    /// Look at the clock.
    EndRound,
    /// Pause for so many nanoseconds.
    Pause { nanoseconds: u64 },
    /// What was waited for is there; whether it has an endpoint.
    Ready { has_endpoint: bool },
    /// The deadline passed during a round.
    Expired,
    /// The deadline passed at the end of a round.
    TimedOut,
    /// The metadata names no primary endpoint.
    NoPrimary,
}

/// What a step of a wait gave. Times are in nanoseconds before the deadline.
#[derive(Clone, Copy, Debug, PartialEq, Eq, Structural)]
pub enum WaitEvent {
    Clock { remaining: u64 },
    Scanned { found: bool, remaining: u64 },
    NoMetadata,
    Metadata { has_primary: bool },
    Probed { ready: bool },
    Paused,
}

/// What is done next. An event that does not belong to the step leaves it as it is.
pub open spec fn wait_after(goal: WaitGoal, step: WaitStep, event: WaitEvent) -> WaitStep {
    match (step, event) {
        (WaitStep::BeginRound, WaitEvent::Clock { remaining }) => if remaining == 0 {
            WaitStep::Expired
        } else {
            WaitStep::Scan
        },
        (WaitStep::Scan, WaitEvent::Scanned { found, remaining }) => if remaining == 0 {
            WaitStep::Expired
        } else if !found {
            WaitStep::EndRound
        } else if goal == (WaitGoal::Endpoint { publishes: true }) {
            WaitStep::LoadMetadata
        } else {
            WaitStep::Ready { has_endpoint: false }
        },
        (WaitStep::LoadMetadata, WaitEvent::NoMetadata) => WaitStep::EndRound,
        (WaitStep::LoadMetadata, WaitEvent::Metadata { has_primary }) => if has_primary {
            WaitStep::ProbeEndpoint
        } else {
            WaitStep::NoPrimary
        },
        (WaitStep::ProbeEndpoint, WaitEvent::Probed { ready }) => if ready {
            WaitStep::Ready { has_endpoint: true }
        } else {
            WaitStep::EndRound
        },
        (WaitStep::EndRound, WaitEvent::Clock { remaining }) => if remaining == 0 {
            WaitStep::TimedOut
        } else {
            WaitStep::Pause { nanoseconds: earlier(PAUSE, remaining) }
        },
        (WaitStep::Pause { .. }, WaitEvent::Paused) => WaitStep::BeginRound,
        _ => step,
    }
}

impl WaitStep {
    fn after(self, goal: WaitGoal, event: WaitEvent) -> (result: Self)
        ensures
            result == wait_after(goal, self, event),
    {
        match (self, event) {
            (WaitStep::BeginRound, WaitEvent::Clock { remaining }) => {
                if remaining == 0 {
                    WaitStep::Expired
                } else {
                    WaitStep::Scan
                }
            },
            (WaitStep::Scan, WaitEvent::Scanned { found, remaining }) => {
                if remaining == 0 {
                    WaitStep::Expired
                } else if !found {
                    WaitStep::EndRound
                } else {
                    match goal {
                        WaitGoal::Endpoint { publishes: true } => WaitStep::LoadMetadata,
                        _ => WaitStep::Ready { has_endpoint: false },
                    }
                }
            },
            (WaitStep::LoadMetadata, WaitEvent::NoMetadata) => WaitStep::EndRound,
            (WaitStep::LoadMetadata, WaitEvent::Metadata { has_primary }) => {
                if has_primary {
                    WaitStep::ProbeEndpoint
                } else {
                    WaitStep::NoPrimary
                }
            },
            (WaitStep::ProbeEndpoint, WaitEvent::Probed { ready }) => {
                if ready {
                    WaitStep::Ready { has_endpoint: true }
                } else {
                    WaitStep::EndRound
                }
            },
            (WaitStep::EndRound, WaitEvent::Clock { remaining }) => {
                if remaining == 0 {
                    WaitStep::TimedOut
                } else {
                    WaitStep::Pause { nanoseconds: earlier_of(PAUSE, remaining) }
                }
            },
            (WaitStep::Pause { .. }, WaitEvent::Paused) => WaitStep::BeginRound,
            (step, _) => step,
        }
    }
}

/// Waits for a target process and its primary HTTP endpoint to accept a request, where the
/// target publishes one: says what is done next.
pub fn wait_for_launch_target_ready(publishes: bool, step: WaitStep, event: WaitEvent) -> (result:
    WaitStep)
    ensures
        result == wait_after(WaitGoal::Endpoint { publishes }, step, event),
{
    step.after(WaitGoal::Endpoint { publishes }, event)
}

/// Waits until a target's final configured process signature becomes visible: says what is done
/// next.
pub fn wait_for_launch_target_process(step: WaitStep, event: WaitEvent) -> (result: WaitStep)
    ensures
        result == wait_after(WaitGoal::Process, step, event),
{
    step.after(WaitGoal::Process, event)
}

/// Why a wait failed, where it did.
pub open spec fn wait_failure(
    goal: WaitGoal,
    step: WaitStep,
    target_id: Seq<char>,
    seconds: u64,
) -> Option<ErrorText> {
    let target = "Portboard launch target `"@ + target_id;
    match step {
        WaitStep::Expired => Some(failure(target + "` readiness deadline expired"@)),
        WaitStep::TimedOut => Some(
            failure(
                target + (match goal {
                    WaitGoal::Process => "` process did not appear within "@,
                    WaitGoal::Endpoint { .. } => "` did not become ready within "@,
                }) + decimal(seconds as nat) + " seconds"@,
            ),
        ),
        WaitStep::NoPrimary => Some(
            failure(target + "` runtime metadata has no primary endpoint"@),
        ),
        _ => None,
    }
}

/// What an optional error says.
pub open spec fn optional_error(value: Option<PortboardError>) -> Option<ErrorText> {
    match value {
        Some(error) => Some(error@),
        None => None,
    }
}

/// Says why a wait failed, where it did.
pub fn describe_wait(goal: WaitGoal, step: WaitStep, target_id: &str, seconds: u64) -> (result:
    Option<PortboardError>)
    ensures
        optional_error(result) == wait_failure(goal, step, target_id@, seconds),
{
    let mut message = "Portboard launch target `".to_owned();
    message.append(target_id);
    match step {
        WaitStep::Expired => {
            message.append("` readiness deadline expired");
            Some(PortboardError::new(message))
        },
        WaitStep::TimedOut => {
            match goal {
                WaitGoal::Process => {
                    message.append("` process did not appear within ");
                },
                WaitGoal::Endpoint { .. } => {
                    message.append("` did not become ready within ");
                },
            }
            push_decimal(&mut message, seconds);
            message.append(" seconds");
            Some(PortboardError::new(message))
        },
        WaitStep::NoPrimary => {
            message.append("` runtime metadata has no primary endpoint");
            Some(PortboardError::new(message))
        },
        _ => None,
    }
}

/// Where a wait stands after some events.
pub open spec fn wait_run(goal: WaitGoal, events: Seq<WaitEvent>) -> WaitStep
    decreases events.len(),
{
    if events.len() == 0 {
        WaitStep::BeginRound
    } else {
        wait_after(goal, wait_run(goal, events.drop_last()), events.last())
    }
}

/// Whether an event shows a process of the target before the deadline.
pub open spec fn shows_process(event: WaitEvent) -> bool {
    event matches WaitEvent::Scanned { found, remaining } && found && remaining > 0
}

/// A wait ends well only where a process was found before the deadline and, for a target that
/// publishes metadata, its primary endpoint answered.
pub proof fn waits_end_well_for_a_reason(goal: WaitGoal, events: Seq<WaitEvent>)
    ensures
        wait_run(goal, events) is LoadMetadata || wait_run(goal, events) is ProbeEndpoint
            || wait_run(goal, events) is Ready || wait_run(goal, events) is NoPrimary
            ==> exists|i: int| 0 <= i < events.len() && shows_process(#[trigger] events[i]),
        wait_run(goal, events) == (WaitStep::Ready { has_endpoint: true }) ==> events.contains(
            WaitEvent::Probed { ready: true },
        ),
        wait_run(goal, events) == (WaitStep::Ready { has_endpoint: false }) ==> goal != (
        WaitGoal::Endpoint { publishes: true }),
    decreases events.len(),
{
    if events.len() > 0 {
        let fewer = events.drop_last();
        waits_end_well_for_a_reason(goal, fewer);
        if exists|i: int| 0 <= i < fewer.len() && shows_process(#[trigger] fewer[i]) {
            let i = choose|i: int| 0 <= i < fewer.len() && shows_process(#[trigger] fewer[i]);
            assert(shows_process(events[i]));
        }
        if shows_process(events.last()) {
            assert(shows_process(events[events.len() - 1]));
        }
        lemma_seen(events, WaitEvent::Probed { ready: true });
    }
}

/// Whether an event is a look at the clock that left no time.
pub open spec fn shows_no_time(event: WaitEvent) -> bool {
    match event {
        WaitEvent::Clock { remaining } => remaining == 0,
        WaitEvent::Scanned { remaining, .. } => remaining == 0,
        _ => false,
    }
}

/// A wait gives up for time only after a look at the clock that left none: as long as every look
/// leaves time, it goes on. Each other end has its reason too: metadata without a primary
/// endpoint, a primary endpoint that answered, or a process where no endpoint is published. A
/// pause is never longer than a tenth of a second, nor than the time that was left.
pub proof fn waits_give_up_for_a_reason(goal: WaitGoal, events: Seq<WaitEvent>)
    ensures
        match wait_run(goal, events) {
            WaitStep::Expired => exists|event: WaitEvent| #[trigger]
                events.contains(event) && shows_no_time(event),
            WaitStep::TimedOut => events.contains(WaitEvent::Clock { remaining: 0 }),
            WaitStep::NoPrimary => goal == (WaitGoal::Endpoint { publishes: true })
                && events.contains(WaitEvent::Metadata { has_primary: false }),
            WaitStep::ProbeEndpoint => goal == (WaitGoal::Endpoint { publishes: true })
                && events.contains(WaitEvent::Metadata { has_primary: true }),
            WaitStep::Ready { has_endpoint: true } => goal == (WaitGoal::Endpoint {
                publishes: true,
            }) && events.contains(WaitEvent::Metadata { has_primary: true }) && events.contains(
                WaitEvent::Probed { ready: true },
            ),
            WaitStep::Ready { has_endpoint: false } => goal != (WaitGoal::Endpoint {
                publishes: true,
            }) && exists|remaining: u64|
                remaining > 0 && #[trigger] events.contains(
                    WaitEvent::Scanned { found: true, remaining },
                ),
            WaitStep::LoadMetadata => goal == (WaitGoal::Endpoint { publishes: true }),
            WaitStep::Pause { nanoseconds } => 0 < nanoseconds <= 100_000_000
                && exists|remaining: u64|
                nanoseconds <= remaining && #[trigger] events.contains(
                    WaitEvent::Clock { remaining },
                ),
            _ => true,
        },
        (forall|i: int| 0 <= i < events.len() ==> !shows_no_time(#[trigger] events[i])) ==> !(
        wait_run(goal, events) is Expired || wait_run(goal, events) is TimedOut),
    decreases events.len(),
{
    if events.len() > 0 {
        waits_give_up_for_a_reason(goal, events.drop_last());
        lemma_all_seen(events);
        match events.last() {
            WaitEvent::Clock { remaining } => {
                assert(events.contains(WaitEvent::Clock { remaining }));
            },
            WaitEvent::Scanned { found, remaining } => {
                assert(events.contains(WaitEvent::Scanned { found, remaining }));
            },
            _ => {},
        }
    }
    if forall|i: int| 0 <= i < events.len() ==> !shows_no_time(#[trigger] events[i]) {
        assert forall|event: WaitEvent| #[trigger] events.contains(event) implies !shows_no_time(
            event,
        ) by {
            let at = choose|at: int| 0 <= at < events.len() && events[at] == event;
            assert(!shows_no_time(events[at]));
        }
        assert(shows_no_time(WaitEvent::Clock { remaining: 0 }));
    }
}

/// A round that finds no process, no metadata or no answer, while every look at the clock leaves
/// time, is followed by a pause and by a new round.
pub proof fn unsuccessful_rounds_are_repeated(
    goal: WaitGoal,
    first: u64,
    second: u64,
    third: u64,
    found: bool,
    has_metadata: bool,
)
    requires
        first > 0,
        second > 0,
        third > 0,
        found ==> goal == (WaitGoal::Endpoint { publishes: true }),
    ensures
        ({
            let scanning = wait_after(
                goal,
                WaitStep::BeginRound,
                WaitEvent::Clock { remaining: first },
            );
            let scanned = wait_after(
                goal,
                scanning,
                WaitEvent::Scanned { found, remaining: second },
            );
            let ended = if !found {
                scanned
            } else if !has_metadata {
                wait_after(goal, scanned, WaitEvent::NoMetadata)
            } else {
                wait_after(
                    goal,
                    wait_after(goal, scanned, WaitEvent::Metadata { has_primary: true }),
                    WaitEvent::Probed { ready: false },
                )
            };
            let pausing = wait_after(goal, ended, WaitEvent::Clock { remaining: third });
            &&& pausing == (WaitStep::Pause {
                nanoseconds: if third < 100_000_000 {
                    third
                } else {
                    100_000_000
                },
            })
            &&& wait_after(goal, pausing, WaitEvent::Paused) == WaitStep::BeginRound
        }),
{
}

/// A wait is over where a process was found in time and no endpoint is published, or where the
/// published primary endpoint answered; it fails where the metadata names no primary endpoint,
/// and where a look at the clock leaves no time.
pub proof fn waits_come_to_their_end(goal: WaitGoal, first: u64, second: u64, ready: bool)
    requires
        first > 0,
        second > 0,
    ensures
        ({
            let begun = wait_after(
                goal,
                WaitStep::BeginRound,
                WaitEvent::Clock { remaining: first },
            );
            let found = wait_after(
                goal,
                begun,
                WaitEvent::Scanned { found: true, remaining: second },
            );
            let absent = wait_after(
                goal,
                begun,
                WaitEvent::Scanned { found: false, remaining: second },
            );
            let probing = wait_after(goal, found, WaitEvent::Metadata { has_primary: true });
            &&& goal != (WaitGoal::Endpoint { publishes: true }) ==> found == (WaitStep::Ready {
                has_endpoint: false,
            })
            &&& goal == (WaitGoal::Endpoint { publishes: true }) ==> wait_after(
                goal,
                probing,
                WaitEvent::Probed { ready: true },
            ) == (WaitStep::Ready { has_endpoint: true }) && wait_after(
                goal,
                found,
                WaitEvent::Metadata { has_primary: false },
            ) == WaitStep::NoPrimary
            &&& wait_after(goal, WaitStep::BeginRound, WaitEvent::Clock { remaining: 0 })
                == WaitStep::Expired
            &&& wait_after(goal, begun, WaitEvent::Scanned { found: ready, remaining: 0 })
                == WaitStep::Expired
            &&& wait_after(goal, absent, WaitEvent::Clock { remaining: 0 }) == WaitStep::TimedOut
        }),
{
}

/// Whether an event is what a step of a wait asks for.
pub open spec fn answers_wait(step: WaitStep, event: WaitEvent) -> bool {
    match step {
        WaitStep::BeginRound | WaitStep::EndRound => event is Clock,
        WaitStep::Scan => event is Scanned,
        WaitStep::LoadMetadata => event is NoMetadata || event is Metadata,
        WaitStep::ProbeEndpoint => event is Probed,
        WaitStep::Pause { .. } => event is Paused,
        WaitStep::Ready { .. } | WaitStep::Expired | WaitStep::TimedOut | WaitStep::NoPrimary
            => false,
    }
}

/// A wait moves on exactly where the event is the one that its step asks for: what comes out of
/// turn changes nothing, and an end is the end. It fails exactly where the time was over or
/// there was no primary endpoint.
pub proof fn waits_move_in_turn(
    goal: WaitGoal,
    step: WaitStep,
    event: WaitEvent,
    target_id: Seq<char>,
    seconds: u64,
)
    ensures
        wait_after(goal, step, event) != step <==> answers_wait(step, event),
        wait_failure(goal, step, target_id, seconds) is Some <==> step is Expired
            || step is TimedOut || step is NoPrimary,
{
}

/// What a probe goes through while nothing connects.
pub open spec fn failed_connections(failures: nat) -> Seq<ProbeEvent> {
    Seq::new(failures, |i: int| ProbeEvent::Failed)
}

/// What a probe goes through that connects after some failures, sends its request in one piece
/// and then reads some bytes.
pub open spec fn probe_events(failures: nat, sent: usize, bytes: Seq<u8>) -> Seq<ProbeEvent> {
    failed_connections(failures).push(ProbeEvent::Connected).push(
        ProbeEvent::Wrote(sent),
    ) + Seq::new(bytes.len(), |i: int| ProbeEvent::Byte(bytes[i]))
}

/// A probe tries one address behind another until one connects, sends its request, and answers
/// with what the first line says that it reads, however many addresses failed before. It answers
/// that the endpoint is not ready where 4096 bytes do not end the line.
pub proof fn probes_answer_with_the_status_line(plan: PlanText, failures: nat, line: Seq<u8>)
    requires
        failures < plan.addresses.len() <= usize::MAX,
        0 < encode_utf8(plan.request).len() <= usize::MAX,
        0 < line.len() <= 4096,
        forall|i: int| 0 <= i < line.len() - 1 ==> #[trigger] line[i] != 0x0A,
    ensures
        ({
            let sent = encode_utf8(plan.request).len() as usize;
            let (stage, read) = probe_run(plan, probe_events(failures, sent, line));
            &&& read == line
            &&& line.last() == 0x0A ==> stage == ProbeStage::Answered(line_is_ready(line))
            &&& line.last() != 0x0A && line.len() < 4096 ==> stage == ProbeStage::Reading
            &&& line.last() != 0x0A && line.len() == 4096 ==> stage == ProbeStage::Answered(false)
        }),
{
    let sent = encode_utf8(plan.request).len() as usize;
    lemma_probe_reads(plan, failures, sent, line, line.len() - 1);
    let all = probe_events(failures, sent, line);
    let fewer = probe_events(failures, sent, line.take(line.len() - 1));
    assert(all.drop_last() =~= fewer);
    assert(all.last() == ProbeEvent::Byte(line.last()));
    assert(line.take(line.len() - 1).push(line.last()) =~= line);
}

proof fn lemma_probe_reads(
    plan: PlanText,
    failures: nat,
    sent: usize,
    line: Seq<u8>,
    count: int,
)
    requires
        failures < plan.addresses.len() <= usize::MAX,
        0 < encode_utf8(plan.request).len() <= usize::MAX,
        sent == encode_utf8(plan.request).len(),
        0 <= count < line.len() <= 4096,
        forall|i: int| 0 <= i < line.len() - 1 ==> #[trigger] line[i] != 0x0A,
    ensures
        probe_run(plan, probe_events(failures, sent, line.take(count))) == (
            ProbeStage::Reading,
            line.take(count),
        ),
    decreases count,
{
    let events = probe_events(failures, sent, line.take(count));
    if count == 0 {
        let failed = failed_connections(failures);
        lemma_probe_connects(plan, failures);
        let connected = failed.push(ProbeEvent::Connected);
        let wrote = connected.push(ProbeEvent::Wrote(sent));
        assert(connected.drop_last() =~= failed);
        assert(wrote.drop_last() =~= connected);
        assert(probe_run(plan, connected) == (ProbeStage::Writing(0), Seq::<u8>::empty()));
        assert(probe_run(plan, wrote) == (ProbeStage::Reading, Seq::<u8>::empty()));
        assert(events =~= wrote);
        assert(line.take(0) =~= Seq::<u8>::empty());
    } else {
        lemma_probe_reads(plan, failures, sent, line, count - 1);
        assert(events.drop_last() =~= probe_events(failures, sent, line.take(count - 1)));
        assert(events.last() == ProbeEvent::Byte(line[count - 1]));
        assert(line.take(count - 1).push(line[count - 1]) =~= line.take(count));
    }
}

proof fn lemma_probe_connects(plan: PlanText, failures: nat)
    requires
        failures <= plan.addresses.len() <= usize::MAX,
    ensures
        probe_run(plan, failed_connections(failures)) == (
            ProbeStage::Connecting(failures as usize),
            Seq::<u8>::empty(),
        ),
    decreases failures,
{
    let events = failed_connections(failures);
    if failures > 0 {
        let fewer = (failures - 1) as nat;
        lemma_probe_connects(plan, fewer);
        assert(events.drop_last() =~= failed_connections(fewer));
    }
}

/// A probe connects to each of its addresses in turn, as long as there is time, and answers that
/// the endpoint is not ready where the last one failed too.
pub proof fn probes_try_every_address(plan: PlanText, failures: nat, remaining: u64)
    requires
        failures <= plan.addresses.len() <= usize::MAX,
        remaining > 0,
    ensures
        ({
            let (stage, read) = probe_run(plan, failed_connections(failures));
            probe_action(plan, stage, read.len(), remaining) == if failures < plan.addresses.len() {
                ProbeAction::Connect {
                    index: failures as usize,
                    timeout: if remaining < 250_000_000 {
                        remaining
                    } else {
                        250_000_000
                    },
                }
            } else {
                ProbeAction::Answer(false)
            }
        }),
{
    lemma_probe_connects(plan, failures);
}

/// A probe sends what is left of its request, and reads only once all of it is sent; a write that
/// sends nothing, a failure behind the connection and whatever comes out of turn make the answer
/// that the endpoint is not ready. An answer stays.
pub proof fn broken_probes_are_not_ready(
    plan: PlanText,
    from: usize,
    count: usize,
    line: Seq<u8>,
    ready: bool,
    event: ProbeEvent,
)
    requires
        from < encode_utf8(plan.request).len() <= usize::MAX,
    ensures
        ({
            let whole = encode_utf8(plan.request).len();
            let wrote = probe_after(
                plan,
                ProbeStage::Writing(from),
                line,
                ProbeEvent::Wrote(count),
            );
            &&& wrote.0 == ProbeStage::Reading <==> from + count == whole
            &&& 0 < count && from + count < whole ==> wrote == (
                ProbeStage::Writing((from + count) as usize),
                line,
            )
            &&& count == 0 || from + count > whole ==> wrote.0 == ProbeStage::Answered(false)
            &&& !(event is Wrote) ==> probe_after(
                plan,
                ProbeStage::Writing(from),
                line,
                event,
            ).0 == ProbeStage::Answered(false)
            &&& !(event is Byte) ==> probe_after(plan, ProbeStage::Reading, line, event).0
                == ProbeStage::Answered(false)
            &&& probe_after(plan, ProbeStage::Answered(ready), line, event) == (
                ProbeStage::Answered(ready),
                line,
            )
        }),
{
}

/// A probe whose time is over answers that the endpoint is not ready, unless it was answered
/// before; while there is time it sends the rest of the request or reads on, and waits no longer
/// than the time that is left.
pub proof fn probes_keep_to_their_time(
    plan: PlanText,
    stage: ProbeStage,
    read: nat,
    remaining: u64,
    from: usize,
    ready: bool,
)
    ensures
        !(stage is Answered) ==> probe_action(plan, stage, read, 0) == ProbeAction::Answer(false),
        probe_action(plan, ProbeStage::Answered(ready), read, remaining) == ProbeAction::Answer(
            ready,
        ),
        remaining > 0 ==> probe_action(plan, ProbeStage::Writing(from), read, remaining) == (
        ProbeAction::Write { from, timeout: remaining }),
        remaining > 0 && read < 4096 ==> probe_action(plan, ProbeStage::Reading, read, remaining)
            == (ProbeAction::Read { timeout: remaining }),
        read >= 4096 ==> probe_action(plan, ProbeStage::Reading, read, remaining)
            == ProbeAction::Answer(false),
        probe_action(plan, stage, read, remaining) matches ProbeAction::Connect { timeout, .. }
            ==> 0 < timeout <= remaining,
{
}

/// A status line announces that an endpoint is ready exactly where it names HTTP/1.0 or HTTP/1.1
/// and a code from 200 to 399, whatever follows behind white space.
pub proof fn successful_codes_are_ready(
    line: Seq<u8>,
    version: Seq<char>,
    code: u16,
    rest: Seq<char>,
)
    requires
        version.len() > 0,
        forall|i: int| 0 <= i < version.len() ==> !is_white_space(#[trigger] version[i]),
        rest.len() == 0 || is_white_space(rest[0]),
        exact(line) == Some(version + seq![' '] + (decimal(code as nat) + rest)),
    ensures
        line_is_ready(line) <==> (version == "HTTP/1.0"@ || version == "HTTP/1.1"@) && 200 <= code
            <= 399,
{
    let digits = decimal(code as nat);
    lemma_decimal_digits(code as nat);
    assert forall|i: int| 0 <= i < digits.len() implies !is_white_space(#[trigger] digits[i]) by {
        assert(digit_value(digits[i], 10) is Some);
    }
    decimal_round_trip(code as nat, u16::MAX as nat);
    let behind = digits + rest;
    let text = version + seq![' '] + behind;
    words_part_at_white_space(version, ' ', behind);
    words_part_at_white_space(digits, ' ', Seq::empty());
    if rest.len() > 0 {
        words_part_at_white_space(digits, rest[0], rest.skip(1));
        assert(behind =~= digits + seq![rest[0]] + rest.skip(1));
    } else {
        assert(behind =~= digits);
    }
    let parts = words(text);
    assert(parts.len() >= 2 && parts[0] == version && parts[1] == digits);
}

/// A probe is planned exactly for an HTTP URL with a port and a host that is an address or
/// `localhost`: nothing is resolved, and nothing is encrypted.
pub proof fn only_plain_local_urls_are_probed(checked: Result<UrlText, ErrorText>)
    ensures
        probe_refusal(checked) is None <==> checked is Ok && checked->Ok_0.scheme == "http"@
            && checked->Ok_0.port is Some && checked->Ok_0.host_text is Some
            && match checked->Ok_0.host {
            Some(HostText::Domain(name)) => name == "localhost"@,
            Some(HostText::Address(_)) => true,
            None => false,
        },
        checked matches Err(error) ==> probe_refusal(checked) == Some(error),
{
}

/// A probe that is planned goes to the address of its URL, or for `localhost` to the loopback
/// addresses of both families, and to its port.
pub proof fn probes_go_to_their_url(result: Result<ProbePlan, PortboardError>, url: UrlText)
    requires
        plans_probe(result, Ok(url)),
        result is Ok,
    ensures
        url.port == Some(result->Ok_0@.port),
        match url.host {
            Some(HostText::Address(address)) => result->Ok_0@.addresses == seq![address],
            Some(HostText::Domain(_)) => {
                let addresses = result->Ok_0@.addresses;
                &&& addresses.len() == 2
                &&& addresses[0] is V4 && addresses[0]->V4_0@ == seq![127u8, 0, 0, 1]
                &&& addresses[1] is V6 && addresses[1]->V6_0@ == seq![0u16, 0, 0, 0, 0, 0, 0, 1]
            },
            None => false,
        },
{
}

/// A probe asks for the path of its URL and, behind a question mark, for the query where there is
/// one, in a request line that the version ends.
pub proof fn probes_ask_for_path_and_query(url: UrlText, host: Seq<char>, port: u16)
    ensures
        ({
            let asked = match url.query {
                Some(query) => url.path + seq!['?'] + query,
                None => url.path,
            };
            let line = "GET "@ + asked + " HTTP/1.1"@;
            &&& probe_request(url, host, port).take(line.len() as int) == line
            &&& probe_request(url, host, port).skip(line.len() as int) == "\r\nHost: "@ + host
                + ":"@ + decimal(port as nat) + "\r\nConnection: close\r\n\r\n"@
        }),
{
    reveal_strlit("?");
    reveal_strlit(" HTTP/1.1\r\nHost: ");
    reveal_strlit(" HTTP/1.1");
    reveal_strlit("\r\nHost: ");
    let asked = match url.query {
        Some(query) => url.path + seq!['?'] + query,
        None => url.path,
    };
    let line = "GET "@ + asked + " HTTP/1.1"@;
    let rest = "\r\nHost: "@ + host + ":"@ + decimal(port as nat)
        + "\r\nConnection: close\r\n\r\n"@;
    assert("?"@ =~= seq!['?']);
    assert(" HTTP/1.1\r\nHost: "@ =~= " HTTP/1.1"@ + "\r\nHost: "@);
    assert(probe_request(url, host, port) =~= line + rest);
    assert((line + rest).take(line.len() as int) =~= line);
    assert((line + rest).skip(line.len() as int) =~= rest);
}

/// A probe takes half a second at most, and never longer than the deadline allows.
pub proof fn probes_end_before_the_deadline(until_deadline: u64)
    ensures
        earlier(until_deadline, PROBE_BUDGET) <= until_deadline,
        earlier(until_deadline, PROBE_BUDGET) <= 500_000_000,
        earlier(until_deadline, PROBE_BUDGET) == until_deadline || earlier(
            until_deadline,
            PROBE_BUDGET,
        ) == 500_000_000,
{
}

} // verus!
