//! The local dashboard: who may ask for what, and what is answered.
use vstd::prelude::*;
use vstd::string::*;

use crate::bounded_http::{field_is, header_texts, HeaderText, Request, RequestHeader, RequestText};
use crate::browser_url::{listener_browser_url, listener_url};
use crate::current_workspace_status::{CurrentLaunchTargetStatus, WorktreeLaunchTargetInspection};
use crate::ip_text::{
    is_loopback, loopback, socket_text, write_socket, IpAddress, SocketAddress,
};
use crate::numbers::{
    decimal, decimal_round_trip, hex_bytes, hex_text, number_value, parse_number, push_decimal,
};
use crate::ordered::{increasing, keys, lemma_all_seen, lemma_seen, sorted_distinct};
use crate::portboard_error::{error_chain, failure, refusal, ErrorText, PortboardError};
use crate::process_endpoints::{endpoint_texts, EndpointText, ProcessEndpoint};
use crate::text::{
    after_prefix, ascii_lower_text, ascii_lowered_text, before_suffix, characters, holds_text,
    optional_text, prefixes_are_taken_off, same_but_for_ascii_case, same_text, split_at_first,
    split_first, strip_prefix, strip_suffix, suffixes_are_taken_off, text_of, texts,
    texts_part_at_the_first_separator,
};

verus! {

/// Where the dashboard listens unless it is told otherwise.
pub const DEFAULT_BIND_ADDRESS: &'static str = "127.0.0.1:9777";

/// How many timestamped run logs are retained per launch target.
pub const LOGS_TO_KEEP: usize = 5;

/// Whether a name that resolved to some addresses is of this machine only.
pub open spec fn binds_loopback(resolved: Option<Seq<SocketAddress>>) -> bool {
    match resolved {
        Some(addresses) => addresses.len() > 0 && forall|i: int|
            0 <= i < addresses.len() ==> is_loopback((#[trigger] addresses[i]).ip),
        None => false,
    }
}

/// What an optional list of addresses is.
pub open spec fn optional_addresses(value: Option<Vec<SocketAddress>>) -> Option<
    Seq<SocketAddress>,
> {
    match value {
        Some(addresses) => Some(addresses@),
        None => None,
    }
}

/// Whether the addresses that a bind address resolved to all belong to this machine only.
pub fn is_loopback_bind_address(resolved: &Option<Vec<SocketAddress>>) -> (result: bool)
    ensures
        result == binds_loopback(optional_addresses(*resolved)),
{
    match resolved {
        None => false,
        Some(addresses) => {
            let mut index: usize = 0;
            while index < addresses.len()
                invariant
                    index <= addresses.len(),
                    optional_addresses(*resolved) == Some(addresses@),
                    forall|i: int|
                        0 <= i < index ==> is_loopback((#[trigger] addresses@[i]).ip),
                decreases addresses.len() - index,
            {
                if !loopback(&addresses[index].ip) {
                    return false;
                }
                index += 1;
            }
            addresses.len() > 0
        },
    }
}

/// Why an address is not bound: the dashboard is for this machine only.
pub open spec fn bind_refusal(
    bind_address: Seq<char>,
    resolved: Option<Seq<SocketAddress>>,
) -> Option<ErrorText> {
    if binds_loopback(resolved) {
        None
    } else {
        Some(
            failure(
                "Portboard dashboard only binds to loopback addresses; got `"@ + bind_address
                    + "`"@,
            ),
        )
    }
}

/// Refuses to bind anything but addresses of this machine.
pub fn check_bind_address(bind_address: &str, resolved: &Option<Vec<SocketAddress>>) -> (result:
    Result<(), PortboardError>)
    ensures
        refusal(result) == bind_refusal(bind_address@, optional_addresses(*resolved)),
{
    if is_loopback_bind_address(resolved) {
        return Ok(());
    }
    let mut message = "Portboard dashboard only binds to loopback addresses; got `".to_owned();
    message.append(bind_address);
    message.append("`");
    Err(PortboardError::new(message))
}

/// Whether a host is one under which the dashboard may be asked: the bind address as it was
/// given, or one of the addresses it resolved to.
pub open spec fn names_dashboard(
    host: Seq<char>,
    bind_address: Seq<char>,
    resolved: Seq<SocketAddress>,
) -> bool {
    ||| host == ascii_lower_text(bind_address)
    ||| exists|i: int|
        0 <= i < resolved.len() && host == ascii_lower_text(
            socket_text(#[trigger] resolved[i]),
        )
}

/// Whether a list holds the hosts of a dashboard, in order and each once.
pub open spec fn lists_hosts(
    list: Seq<Seq<char>>,
    bind_address: Seq<char>,
    resolved: Seq<SocketAddress>,
) -> bool {
    &&& increasing::<String>(list)
    &&& forall|host: Seq<char>| #[trigger]
        list.contains(host) <==> names_dashboard(host, bind_address, resolved)
}

/// The hosts under which the dashboard may be asked. Fails where the bind address could not be
/// resolved.
pub fn allowed_host_headers(
    bind_address: &str,
    resolved: Result<Vec<SocketAddress>, String>,
) -> (result: Result<Vec<String>, PortboardError>)
    ensures
        match (result, resolved) {
            (Ok(hosts), Ok(addresses)) => lists_hosts(texts(hosts@), bind_address@, addresses@),
            (Err(error), Err(cause)) => error@ == (ErrorText {
                message: "Portboard could not resolve "@ + bind_address@,
                cause: Some(cause@),
            }),
            _ => false,
        },
{
    let addresses = match resolved {
        Ok(addresses) => addresses,
        Err(cause) => {
            let mut message = "Portboard could not resolve ".to_owned();
            message.append(bind_address);
            return Err(PortboardError::with_cause(message, cause));
        },
    };
    let mut hosts: Vec<String> = Vec::new();
    hosts.push(ascii_lowered_text(bind_address));
    let mut index: usize = 0;
    proof {
        assert(texts(hosts@)[0] == ascii_lower_text(bind_address@));
        assert forall|host: Seq<char>| #[trigger]
            texts(hosts@).contains(host) <==> names_dashboard(
                host,
                bind_address@,
                addresses@.take(0),
            ) by {
            if host == ascii_lower_text(bind_address@) {
                assert(texts(hosts@)[0] == host);
            }
        }
    }
    while index < addresses.len()
        invariant
            index <= addresses.len(),
            forall|host: Seq<char>| #[trigger]
                texts(hosts@).contains(host) <==> names_dashboard(
                    host,
                    bind_address@,
                    addresses@.take(index as int),
                ),
        decreases addresses.len() - index,
    {
        let written = write_socket(&addresses[index]);
        let lowered = ascii_lowered_text(written.as_str());
        let ghost before = texts(hosts@);
        let ghost added = lowered@;
        hosts.push(lowered);
        proof {
            let fewer = addresses@.take(index as int);
            let more = addresses@.take(index + 1);
            assert(texts(hosts@) =~= before.push(added));
            assert forall|host: Seq<char>| #[trigger]
                texts(hosts@).contains(host) <==> names_dashboard(host, bind_address@, more) by {
                if before.contains(host) {
                    let at = choose|at: int| 0 <= at < before.len() && before[at] == host;
                    assert(before.push(added)[at] == host);
                    if host != ascii_lower_text(bind_address@) {
                        let i = choose|i: int|
                            0 <= i < fewer.len() && host == ascii_lower_text(
                                socket_text(#[trigger] fewer[i]),
                            );
                        assert(more[i] == fewer[i]);
                    }
                }
                if host == added {
                    assert(before.push(added)[before.len() as int] == host);
                    assert(more[index as int] == addresses@[index as int]);
                }
                if names_dashboard(host, bind_address@, more) && host != added {
                    if host != ascii_lower_text(bind_address@) {
                        let i = choose|i: int|
                            0 <= i < more.len() && host == ascii_lower_text(
                                socket_text(#[trigger] more[i]),
                            );
                        assert(fewer[i] == more[i]);
                    }
                    assert(names_dashboard(host, bind_address@, fewer));
                    assert(before.contains(host));
                }
            }
        }
        index += 1;
    }
    let ghost unsorted = texts(hosts@);
    proof {
        assert(addresses@.take(addresses.len() as int) =~= addresses@);
        assert(keys(hosts@) =~= unsorted);
    }
    let result = sorted_distinct(hosts);
    proof {
        assert(keys(result@) =~= texts(result@));
    }
    Ok(result)
}

/// The value of the first header of a name, whatever the case of its letters.
pub open spec fn header_value(headers: Seq<HeaderText>, name: Seq<char>) -> Option<Seq<char>>
    decreases headers.len(),
{
    if headers.len() == 0 {
        None
    } else if same_but_for_ascii_case(headers[0].field, name) {
        Some(headers[0].value)
    } else {
        header_value(headers.drop_first(), name)
    }
}

/// What an optional text slice is.
pub open spec fn optional_slice(value: Option<&str>) -> Option<Seq<char>> {
    match value {
        Some(text) => Some(text@),
        None => None,
    }
}

fn find_header<'a>(headers: &'a Vec<RequestHeader>, name: &str) -> (result: Option<&'a str>)
    ensures
        optional_slice(result) == header_value(header_texts(headers@), name@),
{
    let ghost all = header_texts(headers@);
    let mut index: usize = 0;
    proof {
        assert(all.skip(0) =~= all);
    }
    while index < headers.len()
        invariant
            index <= headers.len(),
            all == header_texts(headers@),
            header_value(all, name@) == header_value(all.skip(index as int), name@),
        decreases headers.len() - index,
    {
        proof {
            assert(all.skip(index as int)[0] == headers@[index as int]@);
            assert(all.skip(index as int).drop_first() =~= all.skip(index + 1));
        }
        if field_is(headers[index].field.as_str(), name) {
            return Some(headers[index].value.as_str());
        }
        index += 1;
    }
    None
}

/// Whether a request is addressed to an allowed host.
pub open spec fn asks_allowed_host(request: RequestText, allowed: Seq<Seq<char>>) -> bool {
    match header_value(request.headers, "Host"@) {
        Some(host) => allowed.contains(ascii_lower_text(host)),
        None => false,
    }
}

pub fn has_allowed_host(request: &Request, allowed_hosts: &Vec<String>) -> (result: bool)
    ensures
        result == asks_allowed_host(request@, texts(allowed_hosts@)),
{
    match find_header(&request.headers, "Host") {
        Some(host) => {
            let lowered = ascii_lowered_text(host);
            holds_text(allowed_hosts, lowered.as_str())
        },
        None => false,
    }
}

/// Whether a request holds the token of the dashboard.
pub open spec fn holds_token(request: RequestText, token: Seq<char>) -> bool {
    header_value(request.headers, "X-Portboard-Token"@) == Some(token)
}

pub fn has_request_token(request: &Request, expected: &str) -> (result: bool)
    ensures
        result == holds_token(request@, expected@),
{
    match find_header(&request.headers, "X-Portboard-Token") {
        Some(token) => same_text(token, expected),
        None => false,
    }
}

/// What is done with a request.
#[derive(Debug, PartialEq, Eq)]
pub enum Route {
    /// It is addressed to a host that is not allowed.
    WrongHost,
    /// It would change something and does not hold the token.
    WrongToken,
    /// It may change something and goes to the worker that does so.
    Queue,
    /// The page is sent.
    Page,
    /// The status of all targets is sent.
    Status,
    /// A target is started.
    Open(String),
    /// A target is stopped.
    Stop(String),
    /// There is nothing of that name.
    NotFound,
}

/// What is done with a request.
pub enum RouteText {
    WrongHost,
    WrongToken,
    Queue,
    Page,
    Status,
    Open(Seq<char>),
    Stop(Seq<char>),
    NotFound,
}

impl View for Route {
    type V = RouteText;

    open spec fn view(&self) -> RouteText {
        match *self {
            Route::WrongHost => RouteText::WrongHost,
            Route::WrongToken => RouteText::WrongToken,
            Route::Queue => RouteText::Queue,
            Route::Page => RouteText::Page,
            Route::Status => RouteText::Status,
            Route::Open(target_id) => RouteText::Open(target_id@),
            Route::Stop(target_id) => RouteText::Stop(target_id@),
            Route::NotFound => RouteText::NotFound,
        }
    }
}

/// The path of a request: what stands before its query.
pub open spec fn path_of(url: Seq<char>) -> Seq<char> {
    match split_first(url, '?') {
        Some((path, _)) => path,
        None => url,
    }
}

/// What an authorized request asks for.
pub open spec fn asked_for(method: Seq<char>, path: Seq<char>) -> RouteText {
    if method == "GET"@ && path == "/"@ {
        RouteText::Page
    } else if method == "GET"@ && path == "/api/status"@ {
        RouteText::Status
    } else if method == "POST"@ {
        match (after_prefix(path, "/api/open/"@), after_prefix(path, "/api/stop/"@)) {
            (Some(target_id), _) => RouteText::Open(target_id),
            (None, Some(target_id)) => RouteText::Stop(target_id),
            (None, None) => RouteText::NotFound,
        }
    } else {
        RouteText::NotFound
    }
}

/// What is done with a request. The host is looked at first, then the token of a request that
/// would change something; where changes have a worker of their own, they go there.
pub open spec fn routed(
    request: RequestText,
    token: Seq<char>,
    allowed: Seq<Seq<char>>,
    has_worker: bool,
) -> RouteText {
    if !asks_allowed_host(request, allowed) {
        RouteText::WrongHost
    } else if request.method == "POST"@ && !holds_token(request, token) {
        RouteText::WrongToken
    } else if request.method == "POST"@ && has_worker {
        RouteText::Queue
    } else {
        asked_for(request.method, path_of(request.url))
    }
}

fn route_path(method: &str, path: &Vec<char>) -> (result: Route)
    ensures
        result@ == asked_for(method@, path@),
{
    if same_text(method, "GET") {
        proof {
            reveal_strlit("GET");
            reveal_strlit("POST");
            assert("GET"@.len() != "POST"@.len());
        }
        if crate::text::is_text(path.as_slice(), "/") {
            return Route::Page;
        }
        if crate::text::is_text(path.as_slice(), "/api/status") {
            return Route::Status;
        }
        return Route::NotFound;
    }
    if !same_text(method, "POST") {
        return Route::NotFound;
    }
    match strip_prefix(path.as_slice(), "/api/open/") {
        Some(target_id) => Route::Open(text_of(target_id.as_slice())),
        None => match strip_prefix(path.as_slice(), "/api/stop/") {
            Some(target_id) => Route::Stop(text_of(target_id.as_slice())),
            None => Route::NotFound,
        },
    }
}

/// Decides what is done with a request. Authorization comes before anything that changes
/// something, also where that is handed to a worker.
pub fn handle_request(
    request: &Request,
    token: &str,
    allowed_hosts: &Vec<String>,
    has_worker: bool,
) -> (result: Route)
    ensures
        result@ == routed(request@, token@, texts(allowed_hosts@), has_worker),
{
    if !has_allowed_host(request, allowed_hosts) {
        return Route::WrongHost;
    }
    let changes = same_text(request.method(), "POST");
    if changes && !has_request_token(request, token) {
        return Route::WrongToken;
    }
    if changes && has_worker {
        return Route::Queue;
    }
    let url = characters(request.url());
    match split_at_first(url.as_slice(), '?') {
        Some((path, _)) => route_path(request.method(), &path),
        None => route_path(request.method(), &url),
    }
}

/// Nothing is changed for a request that is not addressed to an allowed host and does not hold
/// the token: it is neither started, stopped nor queued.
pub proof fn changes_are_authorized(
    request: RequestText,
    token: Seq<char>,
    allowed: Seq<Seq<char>>,
    has_worker: bool,
)
    ensures
        (routed(request, token, allowed, has_worker) is Open || routed(
            request,
            token,
            allowed,
            has_worker,
        ) is Stop || routed(request, token, allowed, has_worker) is Queue) ==> request.method
            == "POST"@ && asks_allowed_host(request, allowed) && holds_token(request, token),
        routed(request, token, allowed, has_worker) is Page || routed(
            request,
            token,
            allowed,
            has_worker,
        ) is Status ==> asks_allowed_host(request, allowed),
{
    reveal_strlit("GET");
    reveal_strlit("POST");
    assert("GET"@.len() != "POST"@.len());
}

/// What the worker does with a request is what would have been done without one: handing a
/// request over loses nothing of it.
pub proof fn queued_requests_keep_their_meaning(
    request: RequestText,
    token: Seq<char>,
    allowed: Seq<Seq<char>>,
)
    ensures
        routed(request, token, allowed, true) is Queue ==> routed(request, token, allowed, false)
            == asked_for(request.method, path_of(request.url)),
        !(routed(request, token, allowed, true) is Queue) ==> routed(request, token, allowed, true)
            == routed(request, token, allowed, false),
{
}

/// A short answer: a status code and a message.
#[derive(Debug, PartialEq, Eq)]
pub struct Reply {
    pub status: u16,
    pub message: String,
}

/// What a short answer says.
pub open spec fn says(reply: Reply, status: u16, message: Seq<char>) -> bool {
    reply.status == status && reply.message@ == message
}

/// The answer to a request that is refused or asks for nothing there is.
pub fn refused_reply(route: &Route) -> (result: Option<Reply>)
    ensures
        match (result, route@) {
            (Some(reply), RouteText::WrongHost) => says(reply, 421, "invalid Host header"@),
            (Some(reply), RouteText::WrongToken) => says(
                reply,
                403,
                "missing or invalid X-Portboard-Token"@,
            ),
            (Some(reply), RouteText::NotFound) => says(reply, 404, "not found"@),
            (Some(_), _) => false,
            (None, RouteText::WrongHost) => false,
            (None, RouteText::WrongToken) => false,
            (None, RouteText::NotFound) => false,
            (None, _) => true,
        },
{
    match route {
        Route::WrongHost => Some(Reply { status: 421, message: "invalid Host header".to_owned() }),
        Route::WrongToken => Some(
            Reply { status: 403, message: "missing or invalid X-Portboard-Token".to_owned() },
        ),
        Route::NotFound => Some(Reply { status: 404, message: "not found".to_owned() }),
        _ => None,
    }
}

/// The answer to a change that the worker cannot take.
pub fn queue_full_reply() -> (result: Reply)
    ensures
        says(result, 503, "dashboard mutation queue is full or unavailable"@),
{
    Reply {
        status: 503,
        message: "dashboard mutation queue is full or unavailable".to_owned(),
    }
}

/// The answer to a request that failed.
pub fn failed_reply(error: &PortboardError) -> (result: Reply)
    ensures
        says(result, 500, error_chain(error@)),
{
    Reply { status: 500, message: error.chain() }
}

/// The status of one target with the URLs of its listeners.
#[derive(Debug, PartialEq, Eq)]
pub struct DashboardTargetStatus {
    pub listener_urls: Vec<String>,
    pub status: CurrentLaunchTargetStatus,
}

/// What the dashboard shows.
#[derive(Debug, PartialEq, Eq)]
pub struct DashboardStatus {
    pub worktree_root: String,
    pub findings: Vec<String>,
    pub targets: Vec<DashboardTargetStatus>,
}

/// The URLs of some listeners.
pub open spec fn listener_urls(endpoints: Seq<EndpointText>) -> Seq<Seq<char>> {
    Seq::new(endpoints.len(), |i: int| listener_url(endpoints[i].address, endpoints[i].port))
}

fn urls_of_listeners(endpoints: &Vec<ProcessEndpoint>) -> (result: Vec<String>)
    ensures
        texts(result@) == listener_urls(endpoint_texts(endpoints@)),
{
    let ghost shown = listener_urls(endpoint_texts(endpoints@));
    let mut result: Vec<String> = Vec::new();
    let mut index: usize = 0;
    proof {
        assert(texts(result@) =~= shown.take(0));
    }
    while index < endpoints.len()
        invariant
            index <= endpoints.len(),
            shown == listener_urls(endpoint_texts(endpoints@)),
            texts(result@) == shown.take(index as int),
        decreases endpoints.len() - index,
    {
        let ghost before = texts(result@);
        let url = listener_browser_url(endpoints[index].address.as_str(), endpoints[index].port);
        let ghost added = url@;
        result.push(url);
        index += 1;
        proof {
            assert(texts(result@) =~= before.push(added));
            assert(endpoint_texts(endpoints@)[index - 1] == endpoints@[index - 1]@);
            assert(shown.take(index as int) =~= before.push(added));
        }
    }
    proof {
        assert(shown.take(shown.len() as int) =~= shown);
    }
    result
}

/// Takes together what the dashboard shows of an inspection.
pub fn dashboard_status(
    worktree_root: String,
    inspection: WorktreeLaunchTargetInspection,
) -> (result: DashboardStatus)
    ensures
        result.worktree_root@ == worktree_root@,
        result.findings == inspection.findings,
        result.targets@.len() == inspection.statuses@.len(),
        forall|i: int|
            0 <= i < result.targets@.len() ==> (#[trigger] result.targets@[i]).status@
                == inspection.statuses@[i]@ && texts(result.targets@[i].listener_urls@)
                == listener_urls(inspection.statuses@[i]@.endpoints),
{
    let mut targets: Vec<DashboardTargetStatus> = Vec::new();
    let statuses = &inspection.statuses;
    let mut index: usize = 0;
    while index < statuses.len()
        invariant
            index <= statuses.len(),
            statuses == &inspection.statuses,
            targets@.len() == index,
            forall|i: int|
                0 <= i < targets@.len() ==> (#[trigger] targets@[i]).status@ == statuses@[i]@
                    && texts(targets@[i].listener_urls@) == listener_urls(
                    statuses@[i]@.endpoints,
                ),
        decreases statuses.len() - index,
    {
        targets.push(
            DashboardTargetStatus {
                listener_urls: urls_of_listeners(&statuses[index].endpoints),
                status: statuses[index].clone(),
            },
        );
        index += 1;
    }
    DashboardStatus { worktree_root, findings: inspection.findings, targets }
}

/// How far the start of a target has come: what is to be done next.
#[derive(Clone, Copy, Debug, PartialEq, Eq, Structural)]
pub enum StartStep {
    /// Look at the child that was started for the target before.
    InspectChild,
    /// Forget that child and find the target in the manifest.
    FindTarget,
    /// Lock the target and look for its runs.
    LockAndScan,
    /// Look for a reservation of the target.
    CheckReservation,
    /// Start the target, and reserve it for what was started.
    Launch,
    /// Answer.
    Answer(StartOutcome),
}

/// What came of the start of a target.
#[derive(Clone, Copy, Debug, PartialEq, Eq, Structural)]
pub enum StartOutcome {
    /// It was running already, with the log of an earlier start where that one still runs.
    AlreadyRunning { pid: u32, has_own_log: bool },
    /// Someone else is starting it.
    Starting,
    /// It was started.
    Started { pid: u32 },
}

/// What a step of the start of a target gave.
#[derive(Clone, Copy, Debug, PartialEq, Eq, Structural)]
pub enum StartEvent {
    /// There is no earlier child.
    NoChild,
    /// There is an earlier child: whether it runs, and whether its group has members or could
    /// not be looked at.
    Child { pid: u32, running: bool, group_lives: bool },
    /// The target is configured.
    Found,
    /// No run of the target was found.
    NothingRuns,
    /// A run of the target was found.
    Runs { pid: u32 },
    /// Whether the target is reserved.
    Reservation { active: bool },
    /// The target was started.
    Launched { pid: u32 },
}

/// What is done next. An event that does not belong to the step leaves it as it is.
pub open spec fn start_after(step: StartStep, event: StartEvent) -> StartStep {
    match (step, event) {
        (StartStep::InspectChild, StartEvent::NoChild) => StartStep::FindTarget,
        (
            StartStep::InspectChild,
            StartEvent::Child { pid, running, group_lives },
        ) => if running || group_lives {
            StartStep::Answer(StartOutcome::AlreadyRunning { pid, has_own_log: true })
        } else {
            StartStep::FindTarget
        },
        (StartStep::FindTarget, StartEvent::Found) => StartStep::LockAndScan,
        (StartStep::LockAndScan, StartEvent::NothingRuns) => StartStep::CheckReservation,
        (StartStep::LockAndScan, StartEvent::Runs { pid }) => StartStep::Answer(
            StartOutcome::AlreadyRunning { pid, has_own_log: false },
        ),
        (StartStep::CheckReservation, StartEvent::Reservation { active }) => if active {
            StartStep::Answer(StartOutcome::Starting)
        } else {
            StartStep::Launch
        },
        (StartStep::Launch, StartEvent::Launched { pid }) => StartStep::Answer(
            StartOutcome::Started { pid },
        ),
        _ => step,
    }
}

impl StartStep {
    /// What is done first.
    pub fn first() -> (result: Self)
        ensures
            result == StartStep::InspectChild,
    {
        StartStep::InspectChild
    }

    /// What is done next.
    pub fn after(self, event: StartEvent) -> (result: Self)
        ensures
            result == start_after(self, event),
    {
        match (self, event) {
            (StartStep::InspectChild, StartEvent::NoChild) => StartStep::FindTarget,
            (StartStep::InspectChild, StartEvent::Child { pid, running, group_lives }) => {
                if running || group_lives {
                    StartStep::Answer(StartOutcome::AlreadyRunning { pid, has_own_log: true })
                } else {
                    StartStep::FindTarget
                }
            },
            (StartStep::FindTarget, StartEvent::Found) => StartStep::LockAndScan,
            (StartStep::LockAndScan, StartEvent::NothingRuns) => StartStep::CheckReservation,
            (StartStep::LockAndScan, StartEvent::Runs { pid }) => StartStep::Answer(
                StartOutcome::AlreadyRunning { pid, has_own_log: false },
            ),
            (StartStep::CheckReservation, StartEvent::Reservation { active }) => {
                if active {
                    StartStep::Answer(StartOutcome::Starting)
                } else {
                    StartStep::Launch
                }
            },
            (StartStep::Launch, StartEvent::Launched { pid }) => StartStep::Answer(
                StartOutcome::Started { pid },
            ),
            (step, _) => step,
        }
    }
}

/// Where the start of a target stands after some events.
pub open spec fn start_steps(events: Seq<StartEvent>) -> StartStep
    decreases events.len(),
{
    if events.len() == 0 {
        StartStep::InspectChild
    } else {
        start_after(start_steps(events.drop_last()), events.last())
    }
}

/// A target is started only where, under its lock, no run was found and it was not reserved.
pub proof fn starts_need_a_clear_field(events: Seq<StartEvent>)
    requires
        start_steps(events) == StartStep::Launch || start_steps(events) matches StartStep::Answer(
            StartOutcome::Started { .. },
        ),
    ensures
        events.contains(StartEvent::NothingRuns),
        events.contains(StartEvent::Reservation { active: false }),
    decreases events.len(),
{
    if events.len() > 0 {
        let before = start_steps(events.drop_last());
        if before == StartStep::Launch || before matches StartStep::Answer(
            StartOutcome::Started { .. },
        ) {
            starts_need_a_clear_field(events.drop_last());
            lemma_seen(events, StartEvent::NothingRuns);
            lemma_seen(events, StartEvent::Reservation { active: false });
        } else {
            assert(before == StartStep::CheckReservation);
            assert(events[events.len() - 1] == StartEvent::Reservation { active: false });
            lemma_scanned(events.drop_last());
            lemma_seen(events, StartEvent::NothingRuns);
        }
    }
}

proof fn lemma_scanned(events: Seq<StartEvent>)
    requires
        start_steps(events) == StartStep::CheckReservation,
    ensures
        events.contains(StartEvent::NothingRuns),
    decreases events.len(),
{
    if events.len() > 0 {
        if start_steps(events.drop_last()) == StartStep::CheckReservation {
            lemma_scanned(events.drop_last());
            lemma_seen(events, StartEvent::NothingRuns);
        } else {
            assert(events[events.len() - 1] == StartEvent::NothingRuns);
        }
    }
}

impl StartOutcome {
    /// The word for an outcome.
    pub fn word(self) -> (result: &'static str)
        ensures
            result@ == (match self {
                StartOutcome::AlreadyRunning { .. } => "already_running"@,
                StartOutcome::Starting => "starting"@,
                StartOutcome::Started { .. } => "started"@,
            }),
    {
        match self {
            StartOutcome::AlreadyRunning { .. } => "already_running",
            StartOutcome::Starting => "starting",
            StartOutcome::Started { .. } => "started",
        }
    }

    /// The process that an outcome is about.
    pub fn pid(self) -> (result: Option<u32>)
        ensures
            result == (match self {
                StartOutcome::AlreadyRunning { pid, .. } => Some(pid),
                StartOutcome::Starting => None,
                StartOutcome::Started { pid } => Some(pid),
            }),
    {
        match self {
            StartOutcome::AlreadyRunning { pid, .. } => Some(pid),
            StartOutcome::Starting => None,
            StartOutcome::Started { pid } => Some(pid),
        }
    }
}

/// The name of the log of one run.
pub open spec fn log_name(target_id: Seq<char>, stamp: nat) -> Seq<char> {
    target_id + "."@ + decimal(stamp) + ".log"@
}

/// The name under which the newest log of a target is found.
pub open spec fn current_log_name(target_id: Seq<char>) -> Seq<char> {
    target_id + ".log"@
}

pub fn stamped_log_name(target_id: &str, stamp: u64) -> (result: String)
    ensures
        result@ == log_name(target_id@, stamp as nat),
{
    let mut name = target_id.to_owned();
    name.append(".");
    push_decimal(&mut name, stamp);
    name.append(".log");
    name
}

pub fn stable_log_name(target_id: &str) -> (result: String)
    ensures
        result@ == current_log_name(target_id@),
{
    let mut name = target_id.to_owned();
    name.append(".log");
    name
}

proof fn lemma_log_names_differ(target_id: Seq<char>, left: nat, right: nat)
    requires
        log_name(target_id, left) == log_name(target_id, right),
    ensures
        left == right,
{
    reveal_strlit(".");
    reveal_strlit(".log");
    let from = target_id.len() + 1;
    let name = log_name(target_id, left);
    assert(name.subrange(from as int, name.len() - 4) =~= decimal(left));
    assert(log_name(target_id, right).subrange(
        from as int,
        log_name(target_id, right).len() - 4,
    ) =~= decimal(right));
    crate::numbers::lemma_decimal_digits(left);
    crate::numbers::lemma_decimal_digits(right);
}

/// As many names are needed to take stamps as stamps are taken.
proof fn lemma_taken_stamps(
    names: Seq<Seq<char>>,
    target_id: Seq<char>,
    first: nat,
    count: nat,
)
    requires
        forall|i: int|
            0 <= i < count ==> names.contains(#[trigger] log_name(target_id, (first + i) as nat)),
    ensures
        count <= names.len(),
{
    let taken = Seq::new(count, |i: int| log_name(target_id, (first + i) as nat));
    assert forall|i: int, j: int| 0 <= i < taken.len() && 0 <= j < taken.len() && i != j implies taken[i]
        != taken[j] by {
        if taken[i] == taken[j] {
            lemma_log_names_differ(target_id, (first + i) as nat, (first + j) as nat);
        }
    }
    taken.unique_seq_to_set();
    names.lemma_cardinality_of_set();
    assert forall|name: Seq<char>| taken.to_set().contains(name) implies names.to_set().contains(
    name) by {
        let i = choose|i: int| 0 <= i < taken.len() && taken[i] == name;
        assert(names.contains(log_name(target_id, (first + i) as nat)));
    }
    vstd::set_lib::lemma_len_subset(taken.to_set(), names.to_set());
}

/// The first stamp from a time on whose log does not exist yet.
pub fn free_log_stamp(names: &Vec<String>, target_id: &str, now: u64) -> (result: u64)
    requires
        now + names@.len() < u64::MAX,
    ensures
        now <= result,
        !texts(names@).contains(log_name(target_id@, result as nat)),
        forall|stamp: nat|
            now <= stamp < result ==> texts(names@).contains(
                #[trigger] log_name(target_id@, stamp),
            ),
{
    let mut stamp: u64 = now;
    let mut name = stamped_log_name(target_id, stamp);
    while holds_text(names, name.as_str())
        invariant
            now + names@.len() < u64::MAX,
            now <= stamp <= now + names@.len(),
            name@ == log_name(target_id@, stamp as nat),
            forall|taken: nat|
                now <= taken < stamp ==> texts(names@).contains(
                    #[trigger] log_name(target_id@, taken),
                ),
        decreases now + names@.len() - stamp,
    {
        proof {
            let all = texts(names@);
            let count = (stamp + 1 - now) as nat;
            assert forall|i: int| 0 <= i < count implies all.contains(
                #[trigger] log_name(target_id@, (now + i) as nat),
            ) by {
                if now + i == stamp {
                    assert(all.contains(name@));
                }
            }
            lemma_taken_stamps(all, target_id@, now as nat, count);
        }
        stamp = stamp + 1;
        name = stamped_log_name(target_id, stamp);
    }
    stamp
}

/// The stamp in the name of a log of a target.
pub open spec fn stamp_in_name(name: Seq<char>, target_id: Seq<char>) -> Option<nat> {
    match after_prefix(name, target_id + "."@) {
        Some(rest) => match before_suffix(rest, ".log"@) {
            Some(stamp) => number_value(stamp, 10, u64::MAX as nat),
            None => None,
        },
        None => None,
    }
}

fn read_stamp(name: &str, target_id: &str) -> (result: Option<u64>)
    ensures
        crate::numbers::optional_number(result) == stamp_in_name(name@, target_id@),
{
    let mut prefix = target_id.to_owned();
    prefix.append(".");
    let source = characters(name);
    match strip_prefix(source.as_slice(), prefix.as_str()) {
        Some(rest) => match strip_suffix(rest.as_slice(), ".log") {
            Some(stamp) => parse_number(stamp.as_slice(), 10, u64::MAX),
            None => None,
        },
        None => None,
    }
}

/// Whether some name carries a stamp of a target.
pub open spec fn some_name_has(
    names: Seq<Seq<char>>,
    target_id: Seq<char>,
    stamp: u64,
) -> bool {
    exists|i: int|
        0 <= i < names.len() && stamp_in_name(#[trigger] names[i], target_id) == Some(
            stamp as nat,
        )
}

/// Whether a list holds the stamps that some names carry, in order and each once.
pub open spec fn lists_stamps(
    stamps: Seq<u64>,
    names: Seq<Seq<char>>,
    target_id: Seq<char>,
) -> bool {
    &&& increasing::<u64>(stamps)
    &&& forall|stamp: u64| #[trigger]
        stamps.contains(stamp) <==> some_name_has(names, target_id, stamp)
}

/// Collects the numeric stamps of one target's timestamped run logs.
pub fn timestamped_log_stamps(names: &Vec<String>, target_id: &str) -> (result: Vec<u64>)
    ensures
        lists_stamps(result@, texts(names@), target_id@),
{
    let ghost all = texts(names@);
    let mut stamps: Vec<u64> = Vec::new();
    let mut index: usize = 0;
    while index < names.len()
        invariant
            index <= names.len(),
            all == texts(names@),
            forall|stamp: u64| #[trigger]
                stamps@.contains(stamp) <==> some_name_has(
                    all.take(index as int),
                    target_id@,
                    stamp,
                ),
        decreases names.len() - index,
    {
        let ghost fewer = all.take(index as int);
        let ghost more = all.take(index + 1);
        let ghost before = stamps@;
        let found = read_stamp(names[index].as_str(), target_id);
        match found {
            Some(stamp) => {
                stamps.push(stamp);
            },
            None => {},
        }
        proof {
            assert(more[index as int] == names@[index as int]@);
            assert forall|stamp: u64| #[trigger]
                stamps@.contains(stamp) <==> some_name_has(more, target_id@, stamp) by {
                if before.contains(stamp) {
                    let at = choose|at: int| 0 <= at < before.len() && before[at] == stamp;
                    assert(stamps@[at] == stamp);
                    let i = choose|i: int|
                        0 <= i < fewer.len() && stamp_in_name(#[trigger] fewer[i], target_id@)
                            == Some(stamp as nat);
                    assert(more[i] == fewer[i]);
                }
                if found == Some(stamp) {
                    assert(stamps@[before.len() as int] == stamp);
                    assert(stamp_in_name(more[index as int], target_id@) == Some(stamp as nat));
                }
                if some_name_has(more, target_id@, stamp) && found != Some(stamp) {
                    let i = choose|i: int|
                        0 <= i < more.len() && stamp_in_name(#[trigger] more[i], target_id@)
                            == Some(stamp as nat);
                    assert(i < index);
                    assert(fewer[i] == more[i]);
                    assert(some_name_has(fewer, target_id@, stamp));
                }
            }
        }
        index += 1;
    }
    let ghost unsorted = stamps@;
    proof {
        assert(all.take(all.len() as int) =~= all);
        assert(keys(stamps@) =~= stamps@);
    }
    let result = sorted_distinct(stamps);
    proof {
        assert(keys(result@) =~= result@);
    }
    result
}

/// The names of the logs with some stamps.
pub open spec fn log_names(target_id: Seq<char>, stamps: Seq<u64>) -> Seq<Seq<char>> {
    Seq::new(stamps.len(), |i: int| log_name(target_id, stamps[i] as nat))
}

/// How many of a number of logs are removed so that only so many remain.
pub open spec fn surplus(count: nat, keep: nat) -> nat {
    if count > keep {
        (count - keep) as nat
    } else {
        0
    }
}

/// Whether some names are those of the oldest logs, so that only the newest remain.
pub open spec fn prunes_oldest(
    pruned: Seq<Seq<char>>,
    names: Seq<Seq<char>>,
    target_id: Seq<char>,
    keep: nat,
) -> bool {
    exists|stamps: Seq<u64>| #[trigger]
        lists_stamps(stamps, names, target_id) && pruned == log_names(
            target_id,
            stamps.take(surplus(stamps.len(), keep) as int),
        )
}

/// Names the oldest timestamped run logs, so that only the newest `keep` remain.
pub fn prune_old_logs(names: &Vec<String>, target_id: &str, keep: usize) -> (result: Vec<String>)
    ensures
        prunes_oldest(texts(result@), texts(names@), target_id@, keep as nat),
{
    let stamps = timestamped_log_stamps(names, target_id);
    let cutoff: usize = if stamps.len() > keep {
        stamps.len() - keep
    } else {
        0
    };
    let ghost shown = log_names(target_id@, stamps@.take(cutoff as int));
    let mut result: Vec<String> = Vec::new();
    let mut index: usize = 0;
    proof {
        assert(texts(result@) =~= shown.take(0));
    }
    while index < cutoff
        invariant
            index <= cutoff <= stamps.len(),
            shown == log_names(target_id@, stamps@.take(cutoff as int)),
            texts(result@) == shown.take(index as int),
        decreases cutoff - index,
    {
        let ghost before = texts(result@);
        let name = stamped_log_name(target_id, stamps[index]);
        let ghost added = name@;
        result.push(name);
        index += 1;
        proof {
            assert(texts(result@) =~= before.push(added));
            assert(shown.take(index as int) =~= before.push(added));
        }
    }
    proof {
        assert(shown.take(shown.len() as int) =~= shown);
        assert(lists_stamps(stamps@, texts(names@), target_id@));
    }
    result
}

/// Of the logs of a target as many remain as are to be kept, or all where there are fewer, and
/// each that remains is newer than each that is removed.
pub proof fn newest_logs_remain(
    stamps: Seq<u64>,
    names: Seq<Seq<char>>,
    target_id: Seq<char>,
    keep: nat,
)
    requires
        lists_stamps(stamps, names, target_id),
    ensures
        stamps.len() - surplus(stamps.len(), keep) == (if stamps.len() < keep {
            stamps.len() as int
        } else {
            keep as int
        }),
        forall|i: int, j: int|
            0 <= i < surplus(stamps.len(), keep) <= j < stamps.len() ==> #[trigger] stamps[i]
                < #[trigger] stamps[j],
{
    assert forall|i: int, j: int|
        0 <= i < surplus(stamps.len(), keep) <= j < stamps.len() implies #[trigger] stamps[i]
        < #[trigger] stamps[j] by {
        assert(<u64 as crate::ordered::Ranked>::precedes(stamps[i], stamps[j]));
    }
}

/// The name of the newest log of a target: the stable name where it leads to a file, else the
/// newest timestamped one.
pub open spec fn is_newest_log(
    found: Option<Seq<char>>,
    names: Seq<Seq<char>>,
    target_id: Seq<char>,
    stable_exists: bool,
) -> bool {
    if stable_exists {
        found == Some(current_log_name(target_id))
    } else {
        exists|stamps: Seq<u64>| #[trigger]
            lists_stamps(stamps, names, target_id) && found == (if stamps.len() == 0 {
                None
            } else {
                Some(log_name(target_id, stamps.last() as nat))
            })
    }
}

/// Returns the newest dashboard-owned run log for one target, preferring the
/// stable symlink and falling back to the newest timestamped file.
pub fn newest_dashboard_log(names: &Vec<String>, target_id: &str, stable_exists: bool) -> (result:
    Option<String>)
    ensures
        is_newest_log(optional_text(result), texts(names@), target_id@, stable_exists),
{
    if stable_exists {
        return Some(stable_log_name(target_id));
    }
    let stamps = timestamped_log_stamps(names, target_id);
    proof {
        assert(lists_stamps(stamps@, texts(names@), target_id@));
    }
    if stamps.len() == 0 {
        None
    } else {
        Some(stamped_log_name(target_id, stamps[stamps.len() - 1]))
    }
}

/// Writes a token of random bytes.
pub fn request_token(random: &[u8]) -> (result: String)
    ensures
        result@ == hex_bytes(random@),
        result@.len() == 2 * random@.len(),
{
    proof {
        crate::numbers::lemma_hex_bytes_length(random@);
    }
    hex_text(random)
}

/// What the `Debug` form of a string is.
pub uninterp spec fn debug_of(text: Seq<char>) -> Seq<char>;

/// The `Debug` form of a string in the standard library: a function of the text alone, which
/// has only a name here.
#[verifier::external_body]
pub(crate) fn debug_text(text: &str) -> (result: String)
    ensures
        result@ == debug_of(text@),
{
    format!("{text:?}")
}

/// What stands on the page before the token.
pub const PAGE_HEAD: &'static str = r#"<!doctype html>
<html lang="en">
<head>
<meta charset="utf-8">
<meta name="viewport" content="width=device-width,initial-scale=1">
<title>Portboard</title>
<style>
:root { color-scheme: dark; font-family: ui-monospace, monospace; }
body { max-width: 900px; margin: 3rem auto; padding: 0 1rem; background: #101216; color: #e6e8ee; }
h1 { font-size: 1.4rem; }
.target { display: grid; grid-template-columns: 1fr auto auto; gap: 1rem; align-items: center; padding: .9rem 0; border-bottom: 1px solid #2a2e38; }
.state { color: #9da6b8; }
button { font: inherit; padding: .4rem .7rem; }
#error { color: #ff8f8f; white-space: pre-wrap; }
</style>
</head>
<body>
<h1>Portboard</h1>
<p id="error" role="alert"></p>
<main id="targets">Loading…</main>
<script>
const token = "#;

/// What stands on the page behind the token.
pub const PAGE_TAIL: &'static str = r#";
const targetList = document.querySelector('#targets');
const errorBox = document.querySelector('#error');
async function api(path, options = {}) {
  options.headers = {...(options.headers || {}), 'X-Portboard-Token': token};
  const response = await fetch(path, options);
  if (!response.ok) throw new Error(await response.text());
  return response.json();
}
async function refresh() {
  try {
    const data = await api('/api/status');
    errorBox.textContent = (data.findings || []).join('\n');
    targetList.replaceChildren(...data.targets.map(target => {
      const row = document.createElement('section'); row.className = 'target';
      const label = document.createElement('strong'); label.textContent = target.label;
      const state = document.createElement('span'); state.className = 'state';
      const endpoints = target.named_endpoints.length
        ? target.named_endpoints.map(endpoint => `${endpoint.id} ${endpoint.url}`).join(', ')
        : target.listener_urls.join(', ');
      const detail = endpoints ? `${target.state} · ${endpoints}` : target.state;
      if (target.duplicate) {
        state.style.color = '#ff8f8f';
        state.textContent = `duplicate! (${detail})`;
      } else {
        state.textContent = detail;
      }
      const button = document.createElement('button');
      const running = target.state === 'running';
      button.textContent = running ? 'Stop' : 'Start';
      button.onclick = async () => {
        button.disabled = true;
        try {
          await api(`/api/${running ? 'stop' : 'open'}/${target.id}`, {method:'POST'});
          await refresh();
        } catch (error) { errorBox.textContent = error.message; button.disabled = false; }
      };
      row.append(label, state, button); return row;
    }));
  } catch (error) { errorBox.textContent = error.message; }
}
refresh(); setInterval(refresh, 2000);
</script>
</body>
</html>"#;

/// Writes the page around a token as its script writes it.
pub fn page_around(token: &str) -> (result: String)
    ensures
        result@ == PAGE_HEAD@ + token@ + PAGE_TAIL@,
{
    let mut page = PAGE_HEAD.to_owned();
    page.append(token);
    page.append(PAGE_TAIL);
    page
}

/// Writes the page with the token of the dashboard.
pub fn dashboard_html(token: &str) -> (result: String)
    ensures
        result@ == PAGE_HEAD@ + debug_of(token@) + PAGE_TAIL@,
{
    let written = debug_text(token);
    page_around(written.as_str())
}

/// Each answer to a start has its reason among the events: a target is said to run only with the
/// process that was seen, to be starting only where somebody holds its reservation, and to be
/// started only with what was launched once no run was found and nobody else was starting it.
pub proof fn starts_report_what_was_seen(events: Seq<StartEvent>)
    ensures
        match start_steps(events) {
            StartStep::InspectChild | StartStep::FindTarget => true,
            StartStep::LockAndScan => events.contains(StartEvent::Found),
            StartStep::CheckReservation => events.contains(StartEvent::Found) && events.contains(
                StartEvent::NothingRuns,
            ),
            StartStep::Launch => events.contains(StartEvent::NothingRuns) && events.contains(
                StartEvent::Reservation { active: false },
            ),
            StartStep::Answer(StartOutcome::AlreadyRunning { pid, has_own_log }) => !has_own_log
                ==> events.contains(StartEvent::Found) && events.contains(StartEvent::Runs { pid }),
            StartStep::Answer(StartOutcome::Starting) => events.contains(StartEvent::NothingRuns)
                && events.contains(StartEvent::Reservation { active: true }),
            StartStep::Answer(StartOutcome::Started { pid }) => events.contains(
                StartEvent::NothingRuns,
            ) && events.contains(StartEvent::Reservation { active: false }) && events.contains(
                StartEvent::Launched { pid },
            ),
        },
        start_steps(events) is FindTarget ==> events.contains(StartEvent::NoChild) || exists|
            pid: u32,
        | #[trigger]
            events.contains(StartEvent::Child { pid, running: false, group_lives: false }),
        start_steps(events) matches StartStep::Answer(
            StartOutcome::AlreadyRunning { pid, has_own_log },
        ) ==> has_own_log ==> events.contains(
            StartEvent::Child { pid, running: true, group_lives: true },
        ) || events.contains(StartEvent::Child { pid, running: true, group_lives: false })
            || events.contains(StartEvent::Child { pid, running: false, group_lives: true }),
    decreases events.len(),
{
    if events.len() > 0 {
        starts_report_what_was_seen(events.drop_last());
        lemma_all_seen(events);
        match events.last() {
            StartEvent::Child { pid, running, group_lives } => {
                assert(events.contains(StartEvent::Child { pid, running, group_lives }));
                if !running && !group_lives {
                    assert(events.contains(
                        StartEvent::Child { pid, running: false, group_lives: false },
                    ));
                }
            },
            _ => {},
        }
    }
}

/// A start comes to its answer for everything that can be seen on the way: the earlier child
/// where it or its group lives, a run where one is found, and otherwise, unless somebody else is
/// starting the target, what is launched.
pub proof fn starts_come_to_their_answer(
    has_child: bool,
    child: u32,
    running: bool,
    group_lives: bool,
    run: Option<u32>,
    active: bool,
    launched: u32,
)
    ensures
        ({
            let inspected = start_after(
                StartStep::InspectChild,
                if has_child {
                    StartEvent::Child { pid: child, running, group_lives }
                } else {
                    StartEvent::NoChild
                },
            );
            let scanned = start_after(
                start_after(inspected, StartEvent::Found),
                match run {
                    Some(pid) => StartEvent::Runs { pid },
                    None => StartEvent::NothingRuns,
                },
            );
            let checked = start_after(scanned, StartEvent::Reservation { active });
            let answered = start_after(checked, StartEvent::Launched { pid: launched });
            let child_lives = has_child && (running || group_lives);
            &&& child_lives ==> inspected == StartStep::Answer(
                StartOutcome::AlreadyRunning { pid: child, has_own_log: true },
            )
            &&& !child_lives && run is Some ==> scanned == StartStep::Answer(
                StartOutcome::AlreadyRunning { pid: run->0, has_own_log: false },
            )
            &&& !child_lives && run is None && active ==> checked == StartStep::Answer(
                StartOutcome::Starting,
            )
            &&& !child_lives && run is None && !active ==> checked == StartStep::Launch && answered
                == StartStep::Answer(StartOutcome::Started { pid: launched })
        }),
{
}

/// A start moves on exactly where the event is one that its step asks for: what comes out of turn
/// changes nothing, and an answer is the end.
pub proof fn starts_move_in_turn(step: StartStep, event: StartEvent)
    ensures
        start_after(step, event) != step <==> match step {
            StartStep::InspectChild => event is NoChild || event is Child,
            StartStep::FindTarget => event is Found,
            StartStep::LockAndScan => event is NothingRuns || event is Runs,
            StartStep::CheckReservation => event is Reservation,
            StartStep::Launch => event is Launched,
            StartStep::Answer(_) => false,
        },
{
}

/// The dashboard is bound to an address exactly where it stands for one or more addresses, each
/// of which reaches this machine only: 127.x.x.x or ::1.
pub proof fn only_loopback_addresses_are_bound(
    bind_address: Seq<char>,
    resolved: Option<Seq<SocketAddress>>,
)
    ensures
        bind_refusal(bind_address, resolved) is None <==> resolved is Some && resolved->0.len() > 0
            && forall|i: int|
            0 <= i < resolved->0.len() ==> match (#[trigger] resolved->0[i]).ip {
                IpAddress::V4(octets) => octets@[0] == 127,
                IpAddress::V6(groups) => groups@ == seq![0u16, 0, 0, 0, 0, 0, 0, 1],
            },
{
    if let Some(addresses) = resolved {
        assert forall|i: int| 0 <= i < addresses.len() implies (is_loopback(
            (#[trigger] addresses[i]).ip,
        ) <==> match addresses[i].ip {
            IpAddress::V4(octets) => octets@[0] == 127,
            IpAddress::V6(groups) => groups@ == seq![0u16, 0, 0, 0, 0, 0, 0, 1],
        }) by {
            match addresses[i].ip {
                IpAddress::V4(_) => {},
                IpAddress::V6(groups) => {
                    assert(groups@ =~= seq![0u16, 0, 0, 0, 0, 0, 0, 1] <==> groups@ == seq![
                        0u16,
                        0,
                        0,
                        0,
                        0,
                        0,
                        0,
                        1,
                    ]);
                },
            }
        }
    }
}

/// The dashboard answers to the address that it was bound by and to each address that stands for
/// it, in small letters, and to nothing else.
pub proof fn dashboards_answer_to_their_addresses(
    list: Seq<Seq<char>>,
    bind_address: Seq<char>,
    resolved: Seq<SocketAddress>,
)
    requires
        lists_hosts(list, bind_address, resolved),
    ensures
        list.contains(ascii_lower_text(bind_address)),
        forall|i: int|
            0 <= i < resolved.len() ==> list.contains(
                ascii_lower_text(socket_text(#[trigger] resolved[i])),
            ),
        forall|k: int|
            0 <= k < list.len() ==> #[trigger] list[k] == ascii_lower_text(bind_address) || exists|
                i: int,
            |
                0 <= i < resolved.len() && list[k] == ascii_lower_text(
                    socket_text(#[trigger] resolved[i]),
                ),
{
    assert(names_dashboard(ascii_lower_text(bind_address), bind_address, resolved));
    assert forall|i: int| 0 <= i < resolved.len() implies list.contains(
        ascii_lower_text(socket_text(#[trigger] resolved[i])),
    ) by {
        assert(names_dashboard(
            ascii_lower_text(socket_text(resolved[i])),
            bind_address,
            resolved,
        ));
    }
    assert forall|k: int| 0 <= k < list.len() implies #[trigger] list[k] == ascii_lower_text(
        bind_address,
    ) || exists|i: int|
        0 <= i < resolved.len() && list[k] == ascii_lower_text(
            socket_text(#[trigger] resolved[i]),
        ) by {
        assert(list.contains(list[k]));
        assert(names_dashboard(list[k], bind_address, resolved));
    }
}

/// The value of a header is that of the first field of that name, whatever the case of its
/// letters, and there is none only where no field has the name.
pub proof fn the_first_field_counts(headers: Seq<HeaderText>, name: Seq<char>)
    ensures
        match header_value(headers, name) {
            Some(value) => exists|i: int|
                0 <= i < headers.len() && (#[trigger] headers[i]).value == value
                    && same_but_for_ascii_case(headers[i].field, name) && forall|j: int|
                    0 <= j < i ==> !same_but_for_ascii_case((#[trigger] headers[j]).field, name),
            None => forall|i: int|
                0 <= i < headers.len() ==> !same_but_for_ascii_case(
                    (#[trigger] headers[i]).field,
                    name,
                ),
        },
    decreases headers.len(),
{
    if headers.len() > 0 {
        if same_but_for_ascii_case(headers[0].field, name) {
            assert(headers[0].value == headers[0].value);
        } else {
            let rest = headers.drop_first();
            the_first_field_counts(rest, name);
            match header_value(rest, name) {
                Some(value) => {
                    let i = choose|i: int|
                        0 <= i < rest.len() && (#[trigger] rest[i]).value == value
                            && same_but_for_ascii_case(rest[i].field, name) && forall|j: int|
                            0 <= j < i ==> !same_but_for_ascii_case(
                                (#[trigger] rest[j]).field,
                                name,
                            );
                    assert(headers[i + 1] == rest[i]);
                    assert forall|j: int| 0 <= j < i + 1 implies !same_but_for_ascii_case(
                        (#[trigger] headers[j]).field,
                        name,
                    ) by {
                        if j > 0 {
                            assert(headers[j] == rest[j - 1]);
                        }
                    }
                },
                None => {
                    assert forall|i: int| 0 <= i < headers.len() implies !same_but_for_ascii_case(
                        (#[trigger] headers[i]).field,
                        name,
                    ) by {
                        if i > 0 {
                            assert(headers[i] == rest[i - 1]);
                        }
                    }
                },
            }
        }
    }
}

/// Whether the first `Host` field of a request names one of the hosts that are allowed.
pub open spec fn comes_to_allowed_host(request: RequestText, allowed: Seq<Seq<char>>) -> bool {
    exists|host: Seq<char>| #[trigger]
        allowed.contains(ascii_lower_text(host)) && header_value(request.headers, "Host"@) == Some(
            host,
        )
}

/// A request is refused for its host exactly where no allowed one is named, and for its token
/// exactly where it would change something without holding it; whatever would change something
/// is otherwise queued where there is a worker.
pub proof fn requests_are_checked_in_order(
    request: RequestText,
    token: Seq<char>,
    allowed: Seq<Seq<char>>,
    has_worker: bool,
)
    ensures
        routed(request, token, allowed, has_worker) is WrongHost <==> !comes_to_allowed_host(
            request,
            allowed,
        ),
        routed(request, token, allowed, has_worker) is WrongToken <==> comes_to_allowed_host(
            request,
            allowed,
        ) && request.method == "POST"@ && header_value(request.headers, "X-Portboard-Token"@)
            != Some(token),
        routed(request, token, allowed, has_worker) is Queue <==> has_worker
            && comes_to_allowed_host(request, allowed) && request.method == "POST"@
            && header_value(request.headers, "X-Portboard-Token"@) == Some(token),
{
}

/// What a request that passed asks for is told by its path, whatever query follows: the page, the
/// status, or the start or stop of the target that the rest of the path names.
pub proof fn paths_name_what_is_asked_for(
    request: RequestText,
    token: Seq<char>,
    allowed: Seq<Seq<char>>,
    path: Seq<char>,
    query: Seq<char>,
    target_id: Seq<char>,
)
    requires
        comes_to_allowed_host(request, allowed),
        request.method == "POST"@ ==> header_value(request.headers, "X-Portboard-Token"@) == Some(
            token,
        ),
        !path.contains('?'),
        request.url == path || request.url == path + seq!['?'] + query,
    ensures
        ({
            let route = routed(request, token, allowed, false);
            &&& route is Page <==> request.method == "GET"@ && path == "/"@
            &&& route is Status <==> request.method == "GET"@ && path == "/api/status"@
            &&& route == RouteText::Open(target_id) <==> request.method == "POST"@ && path
                == "/api/open/"@ + target_id
            &&& route == RouteText::Stop(target_id) <==> request.method == "POST"@ && path
                == "/api/stop/"@ + target_id
            &&& !(route is WrongHost || route is WrongToken || route is Queue)
        }),
{
    texts_part_at_the_first_separator(path, '?', query);
    assert(path_of(request.url) == path);
    prefixes_are_taken_off(path, "/api/open/"@, target_id);
    prefixes_are_taken_off(path, "/api/stop/"@, target_id);
    reveal_strlit("GET");
    reveal_strlit("POST");
    assert("GET"@.len() != "POST"@.len());
    reveal_strlit("/");
    reveal_strlit("/api/status");
    assert("/"@.len() != "/api/status"@.len());
    reveal_strlit("/api/open/");
    reveal_strlit("/api/stop/");
    if let Some(rest) = after_prefix(path, "/api/open/"@) {
        prefixes_are_taken_off(path, "/api/open/"@, rest);
        assert(path[5] == 'o');
    }
    if let Some(rest) = after_prefix(path, "/api/stop/"@) {
        prefixes_are_taken_off(path, "/api/stop/"@, rest);
        assert(path[5] == 's');
    }
}

/// The stamp of a log is the number that stands in its name between that of the target and the
/// ending; any other name has none.
pub proof fn stamps_stand_in_log_names(name: Seq<char>, target_id: Seq<char>, stamp: nat)
    ensures
        stamp_in_name(name, target_id) == Some(stamp) <==> exists|digits: Seq<char>|
            name == target_id + "."@ + digits + ".log"@ && #[trigger] number_value(
                digits,
                10,
                u64::MAX as nat,
            ) == Some(stamp),
{
    let prefix = target_id + "."@;
    if let Some(rest) = after_prefix(name, prefix) {
        prefixes_are_taken_off(name, prefix, rest);
        if let Some(digits) = before_suffix(rest, ".log"@) {
            suffixes_are_taken_off(rest, digits, ".log"@);
            assert(name =~= target_id + "."@ + digits + ".log"@);
        }
    }
    assert forall|digits: Seq<char>|
        name == target_id + "."@ + digits + ".log"@ && #[trigger] number_value(
            digits,
            10,
            u64::MAX as nat,
        ) == Some(stamp) implies stamp_in_name(name, target_id) == Some(stamp) by {
        let rest = digits + ".log"@;
        assert(name =~= prefix + rest);
        prefixes_are_taken_off(name, prefix, rest);
        suffixes_are_taken_off(rest, digits, ".log"@);
    }
}

/// Old logs are removed down to the number that is kept, and nothing newer than a log that is
/// kept is removed: whatever is removed carries a stamp of the target's logs, and every stamp
/// that is not removed is greater.
pub proof fn old_logs_are_removed_first(
    pruned: Seq<Seq<char>>,
    names: Seq<Seq<char>>,
    target_id: Seq<char>,
    keep: nat,
    index: int,
)
    requires
        prunes_oldest(pruned, names, target_id, keep),
    ensures
        exists|stamps: Seq<u64>| #[trigger]
            lists_stamps(stamps, names, target_id) && (stamps.len() <= keep ==> pruned.len() == 0)
                && (stamps.len() > keep ==> pruned.len() == stamps.len() - keep) && (0 <= index
                < pruned.len() ==> pruned[index] == target_id + "."@ + decimal(
                stamps[index] as nat,
            ) + ".log"@ && forall|kept: int|
                pruned.len() <= kept < stamps.len() ==> stamps[index] < #[trigger] stamps[kept]),
{
    let stamps = choose|stamps: Seq<u64>| #[trigger]
        lists_stamps(stamps, names, target_id) && pruned == log_names(
            target_id,
            stamps.take(surplus(stamps.len(), keep) as int),
        );
    newest_logs_remain(stamps, names, target_id, keep);
}

/// The log that is shown is the current one where it exists, else the one with the greatest
/// stamp; there is none only where no name carries a stamp.
pub proof fn the_newest_log_is_shown(
    found: Option<Seq<char>>,
    names: Seq<Seq<char>>,
    target_id: Seq<char>,
    stable_exists: bool,
)
    requires
        is_newest_log(found, names, target_id, stable_exists),
    ensures
        stable_exists ==> found == Some(target_id + ".log"@),
        !stable_exists ==> match found {
            None => forall|i: int|
                0 <= i < names.len() ==> stamp_in_name(#[trigger] names[i], target_id) is None,
            Some(name) => exists|newest: u64|
                name == #[trigger] log_name(target_id, newest as nat) && some_name_has(
                    names,
                    target_id,
                    newest,
                ) && forall|stamp: u64| #[trigger]
                    some_name_has(names, target_id, stamp) ==> stamp <= newest,
        },
{
    if !stable_exists {
        let stamps = choose|stamps: Seq<u64>| #[trigger]
            lists_stamps(stamps, names, target_id) && found == (if stamps.len() == 0 {
                None
            } else {
                Some(log_name(target_id, stamps.last() as nat))
            });
        if stamps.len() == 0 {
            assert forall|i: int| 0 <= i < names.len() implies stamp_in_name(
                #[trigger] names[i],
                target_id,
            ) is None by {
                if let Some(stamp) = stamp_in_name(names[i], target_id) {
                    assert(stamp <= u64::MAX);
                    assert(some_name_has(names, target_id, stamp as u64));
                    assert(stamps.contains(stamp as u64));
                }
            }
        } else {
            let newest = stamps.last();
            assert(stamps.contains(newest));
            assert forall|stamp: u64| #[trigger]
                some_name_has(names, target_id, stamp) implies stamp <= newest by {
                assert(stamps.contains(stamp));
                let at = choose|at: int| 0 <= at < stamps.len() && stamps[at] == stamp;
                if at < stamps.len() - 1 {
                    assert(<u64 as crate::ordered::Ranked>::precedes(
                        stamps[at],
                        stamps[stamps.len() - 1],
                    ));
                }
            }
            assert(found == Some(log_name(target_id, newest as nat)));
        }
    }
}

/// The dashboard shows the URL of each listener, in order.
pub proof fn every_listener_has_a_url(endpoints: Seq<EndpointText>, index: int)
    requires
        0 <= index < endpoints.len(),
    ensures
        listener_urls(endpoints).len() == endpoints.len(),
        listener_urls(endpoints)[index] == listener_url(
            endpoints[index].address,
            endpoints[index].port,
        ),
{
}

/// The name of a log carries its stamp: it is read back as it was written, and names of different
/// stamps differ from each other and from that of the current log.
pub proof fn log_names_carry_their_stamp(target_id: Seq<char>, stamp: u64, other: u64)
    ensures
        stamp_in_name(log_name(target_id, stamp as nat), target_id) == Some(stamp as nat),
        stamp != other ==> log_name(target_id, stamp as nat) != log_name(target_id, other as nat),
        log_name(target_id, stamp as nat) != current_log_name(target_id),
{
    decimal_round_trip(stamp as nat, u64::MAX as nat);
    decimal_round_trip(other as nat, u64::MAX as nat);
    let digits = decimal(stamp as nat);
    assert(log_name(target_id, stamp as nat) == target_id + "."@ + digits + ".log"@);
    assert(number_value(digits, 10, u64::MAX as nat) == Some(stamp as nat));
    stamps_stand_in_log_names(log_name(target_id, stamp as nat), target_id, stamp as nat);
    let others = decimal(other as nat);
    assert(number_value(others, 10, u64::MAX as nat) == Some(other as nat));
    stamps_stand_in_log_names(log_name(target_id, other as nat), target_id, other as nat);
    reveal_strlit(".");
    assert(log_name(target_id, stamp as nat).len() > current_log_name(target_id).len());
}

} // verus!
