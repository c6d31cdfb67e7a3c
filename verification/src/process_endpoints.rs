//! Listening sockets and the processes that own them.
use vstd::prelude::*;
use vstd::string::*;

use crate::ip_text::{local_address, parse_local_address};
use crate::launch_target_processes::{
    ancestry, chains_follow_every_parent, follow_ancestry, holds_pid, is_parent, leads_upwards,
    run_texts, LaunchTargetProcess, ParentLink, RunText, CHAIN_LIMIT,
};
use crate::numbers::{number_value, optional_number, parse_number};
use crate::ordered::{increasing, keys, rank_texts, sorted_distinct, text_precedes, Rank, Ranked};
use crate::text::{
    after_prefix, before_suffix, characters, is_text, lines_of, optional_text,
    prefixes_are_taken_off, rows, split_lines, split_words, strip_prefix, strip_suffix,
    suffixes_are_taken_off, text_of, texts, words,
};

verus! {

/// A listening TCP endpoint owned by a launch-target process or descendant.
#[derive(Debug, PartialEq, Eq, PartialOrd, Ord, Hash)]
pub struct ProcessEndpoint {
    pub protocol: &'static str,
    pub address: String,
    pub port: u16,
}

/// What a listening endpoint is.
pub struct EndpointText {
    pub protocol: Seq<char>,
    pub address: Seq<char>,
    pub port: u16,
}

impl View for ProcessEndpoint {
    type V = EndpointText;

    open spec fn view(&self) -> EndpointText {
        EndpointText { protocol: self.protocol@, address: self.address@, port: self.port }
    }
}

/// What every endpoint of a list is.
pub open spec fn endpoint_texts(endpoints: Seq<ProcessEndpoint>) -> Seq<EndpointText> {
    Seq::new(endpoints.len(), |i: int| endpoints[i]@)
}

impl Clone for ProcessEndpoint {
    fn clone(&self) -> (result: Self)
        ensures
            result@ == self@,
    {
        ProcessEndpoint { protocol: self.protocol, address: self.address.clone(), port: self.port }
    }
}

/// Copies a list of endpoints.
pub fn copy_endpoints(source: &Vec<ProcessEndpoint>) -> (result: Vec<ProcessEndpoint>)
    ensures
        endpoint_texts(result@) == endpoint_texts(source@),
{
    let mut result: Vec<ProcessEndpoint> = Vec::new();
    let mut index: usize = 0;
    while index < source.len()
        invariant
            index <= source.len(),
            endpoint_texts(result@) == endpoint_texts(source@).take(index as int),
        decreases source.len() - index,
    {
        let ghost before = endpoint_texts(result@);
        result.push(source[index].clone());
        index += 1;
        proof {
            assert(endpoint_texts(result@) =~= before.push(source@[index - 1]@));
            assert(endpoint_texts(source@).take(index as int) =~= before.push(source@[index - 1]@));
        }
    }
    proof {
        assert(endpoint_texts(source@).take(source@.len() as int) =~= endpoint_texts(source@));
    }
    result
}

/// Endpoints are ordered by protocol, then by address text, then by port.
pub open spec fn endpoint_precedes(left: EndpointText, right: EndpointText) -> bool {
    if left.protocol != right.protocol {
        text_precedes(left.protocol, right.protocol)
    } else if left.address != right.address {
        text_precedes(left.address, right.address)
    } else {
        left.port < right.port
    }
}

impl Ranked for ProcessEndpoint {
    type Key = EndpointText;

    open spec fn key(&self) -> EndpointText {
        self@
    }

    open spec fn precedes(left: EndpointText, right: EndpointText) -> bool {
        endpoint_precedes(left, right)
    }

    proof fn precedes_total(left: EndpointText, right: EndpointText) {
        crate::ordered::lemma_text_precedes_total(left.protocol, right.protocol);
        crate::ordered::lemma_text_precedes_total(left.address, right.address);
    }

    proof fn precedes_strict(left: EndpointText, right: EndpointText) {
        crate::ordered::lemma_text_precedes_strict(left.protocol, right.protocol);
        crate::ordered::lemma_text_precedes_strict(left.address, right.address);
    }

    proof fn precedes_transitive(first: EndpointText, second: EndpointText, third: EndpointText) {
        if first.protocol != second.protocol && second.protocol != third.protocol {
            crate::ordered::lemma_text_precedes_transitive(
                first.protocol,
                second.protocol,
                third.protocol,
            );
            crate::ordered::lemma_text_precedes_strict(first.protocol, second.protocol);
        } else if first.protocol == second.protocol && second.protocol == third.protocol {
            if first.address != second.address && second.address != third.address {
                crate::ordered::lemma_text_precedes_transitive(
                    first.address,
                    second.address,
                    third.address,
                );
                crate::ordered::lemma_text_precedes_strict(first.address, second.address);
            }
        }
    }

    fn rank(&self, other: &Self) -> (result: Rank) {
        proof {
            crate::ordered::lemma_text_precedes_strict(self@.protocol, other@.protocol);
            crate::ordered::lemma_text_precedes_strict(self@.address, other@.address);
        }
        match rank_texts(self.protocol, other.protocol) {
            Rank::Before => {
                proof {
                    crate::ordered::lemma_text_precedes_strict(self@.protocol, self@.protocol);
                }
                Rank::Before
            },
            Rank::Behind => {
                proof {
                    crate::ordered::lemma_text_precedes_strict(other@.protocol, other@.protocol);
                }
                Rank::Behind
            },
            Rank::Same => match rank_texts(self.address.as_str(), other.address.as_str()) {
                Rank::Before => {
                    proof {
                        crate::ordered::lemma_text_precedes_strict(self@.address, self@.address);
                    }
                    Rank::Before
                },
                Rank::Behind => {
                    proof {
                        crate::ordered::lemma_text_precedes_strict(other@.address, other@.address);
                    }
                    Rank::Behind
                },
                Rank::Same => if self.port < other.port {
                    Rank::Before
                } else if self.port == other.port {
                    Rank::Same
                } else {
                    Rank::Behind
                },
            },
        }
    }
}

/// The sockets that one process holds open.
#[derive(Debug, PartialEq, Eq)]
pub struct SocketHolder {
    pub pid: u32,
    pub inodes: Vec<u64>,
}

/// Who holds which socket, and the kernel's tables of TCP sockets where they exist.
#[derive(Debug, PartialEq, Eq)]
pub struct SocketSnapshot {
    pub links: Vec<ParentLink>,
    pub holders: Vec<SocketHolder>,
    pub tcp: Option<String>,
    pub tcp6: Option<String>,
}

/// The number of the socket that an open descriptor refers to.
pub open spec fn socket_inode(link: Seq<char>) -> Option<nat> {
    match after_prefix(link, "socket:["@) {
        Some(rest) => match before_suffix(rest, "]"@) {
            Some(number) => number_value(number, 10, u64::MAX as nat),
            None => None,
        },
        None => None,
    }
}

/// The numbers of the sockets among the first `count` open descriptors.
pub open spec fn socket_inodes(links: Seq<Seq<char>>, count: int) -> Seq<u64>
    decreases count,
{
    if count <= 0 {
        Seq::empty()
    } else {
        match socket_inode(links[count - 1]) {
            Some(inode) => socket_inodes(links, count - 1).push(inode as u64),
            None => socket_inodes(links, count - 1),
        }
    }
}

fn read_socket_inode(link: &str) -> (result: Option<u64>)
    ensures
        optional_number(result) == socket_inode(link@),
{
    let source = characters(link);
    match strip_prefix(source.as_slice(), "socket:[") {
        Some(rest) => match strip_suffix(rest.as_slice(), "]") {
            Some(number) => parse_number(number.as_slice(), 10, u64::MAX),
            None => None,
        },
        None => None,
    }
}

/// Reads the socket numbers out of what the open descriptors of a process refer to.
pub fn process_socket_inodes(links: &Vec<String>) -> (result: Vec<u64>)
    ensures
        result@ == socket_inodes(texts(links@), links@.len() as int),
{
    let ghost shown = texts(links@);
    let mut result: Vec<u64> = Vec::new();
    let mut index: usize = 0;
    while index < links.len()
        invariant
            index <= links.len(),
            shown == texts(links@),
            result@ == socket_inodes(shown, index as int),
        decreases links.len() - index,
    {
        proof {
            assert(shown[index as int] == links@[index as int]@);
        }
        match read_socket_inode(links[index].as_str()) {
            Some(inode) => {
                result.push(inode);
            },
            None => {},
        }
        index += 1;
    }
    result
}

/// The first pid of a chain that stands in a list.
pub open spec fn innermost_of(chain: Seq<u32>, list: Seq<u32>) -> Option<u32>
    decreases chain.len(),
{
    if chain.len() == 0 {
        None
    } else if list.contains(chain[0]) {
        Some(chain[0])
    } else {
        innermost_of(chain.drop_first(), list)
    }
}

/// The root whose tree holds a process: itself, or its nearest ancestor that is one.
pub open spec fn root_above(links: Seq<ParentLink>, roots: Seq<u32>, pid: u32) -> Option<u32> {
    innermost_of(ancestry(links, pid, CHAIN_LIMIT as nat), roots)
}

/// Walks the parent chain from `pid` and returns the root process whose tree
/// contains it, or `None` when the chain leaves every root.
pub fn owning_root(pid: u32, roots: &Vec<u32>, links: &Vec<ParentLink>) -> (result: Option<u32>)
    ensures
        result == root_above(links@, roots@, pid),
{
    let chain = follow_ancestry(links, pid);
    let mut index: usize = 0;
    proof {
        assert(chain@.skip(0) =~= chain@);
    }
    while index < chain.len()
        invariant
            index <= chain.len(),
            innermost_of(chain@, roots@) == innermost_of(chain@.skip(index as int), roots@),
            chain@ == ancestry(links@, pid, CHAIN_LIMIT as nat),
        decreases chain.len() - index,
    {
        proof {
            assert(chain@.skip(index as int)[0] == chain@[index as int]);
            assert(chain@.skip(index as int).drop_first() =~= chain@.skip(index + 1));
        }
        if holds_pid(roots, chain[index]) {
            return Some(chain[index]);
        }
        index += 1;
    }
    None
}

/// The root whose tree holds a socket: that of the last holder listed that is in any.
pub open spec fn socket_owner(
    holders: Seq<SocketHolder>,
    links: Seq<ParentLink>,
    roots: Seq<u32>,
    inode: u64,
) -> Option<u32>
    decreases holders.len(),
{
    if holders.len() == 0 {
        None
    } else if holders.last().inodes@.contains(inode) && root_above(
        links,
        roots,
        holders.last().pid,
    ) is Some {
        root_above(links, roots, holders.last().pid)
    } else {
        socket_owner(holders.drop_last(), links, roots, inode)
    }
}

fn holds_inode(inodes: &Vec<u64>, inode: u64) -> (result: bool)
    ensures
        result == inodes@.contains(inode),
{
    let mut index: usize = 0;
    while index < inodes.len()
        invariant
            index <= inodes.len(),
            forall|i: int| 0 <= i < index ==> #[trigger] inodes@[i] != inode,
        decreases inodes.len() - index,
    {
        if inodes[index] == inode {
            return true;
        }
        index += 1;
    }
    false
}

fn find_socket_owner(snapshot: &SocketSnapshot, roots: &Vec<u32>, inode: u64) -> (result: Option<
    u32,
>)
    ensures
        result == socket_owner(snapshot.holders@, snapshot.links@, roots@, inode),
{
    let holders = &snapshot.holders;
    let mut index: usize = holders.len();
    proof {
        assert(holders@.take(holders.len() as int) =~= holders@);
    }
    while index > 0
        invariant
            index <= holders.len(),
            holders == &snapshot.holders,
            socket_owner(holders@, snapshot.links@, roots@, inode) == socket_owner(
                holders@.take(index as int),
                snapshot.links@,
                roots@,
                inode,
            ),
        decreases index,
    {
        proof {
            assert(holders@.take(index as int).last() == holders@[index - 1]);
            assert(holders@.take(index as int).drop_last() =~= holders@.take(index - 1));
        }
        if holds_inode(&holders[index - 1].inodes, inode) {
            match owning_root(holders[index - 1].pid, roots, &snapshot.links) {
                Some(root) => {
                    return Some(root);
                },
                None => {},
            }
        }
        index -= 1;
    }
    None
}

/// A listening socket of the kernel's tables.
pub struct ListenerText {
    pub inode: u64,
    pub address: Seq<char>,
    pub port: u16,
}

/// The listening socket that a table line shows: the fourth field tells the state, the tenth
/// the socket and the second its local address.
pub open spec fn table_listener(line: Seq<char>, ipv6: bool) -> Option<ListenerText> {
    let fields = words(line);
    if fields.len() < 10 || fields[3] != "0A"@ {
        None
    } else {
        match (number_value(fields[9], 10, u64::MAX as nat), local_address(fields[1], ipv6)) {
            (Some(inode), Some((address, port))) => Some(
                ListenerText { inode: inode as u64, address, port },
            ),
            _ => None,
        }
    }
}

/// The listening sockets in the first `count` lines of a table, whose first line is a heading.
pub open spec fn table_listeners(lines: Seq<Seq<char>>, ipv6: bool, count: int) -> Seq<ListenerText>
    decreases count,
{
    if count <= 1 {
        Seq::empty()
    } else {
        match table_listener(lines[count - 1], ipv6) {
            Some(listener) => table_listeners(lines, ipv6, count - 1).push(listener),
            None => table_listeners(lines, ipv6, count - 1),
        }
    }
}

/// The listening sockets of a table, none where it does not exist.
pub open spec fn optional_table(table: Option<Seq<char>>, ipv6: bool) -> Seq<ListenerText> {
    match table {
        Some(contents) => table_listeners(
            lines_of(contents),
            ipv6,
            lines_of(contents).len() as int,
        ),
        None => Seq::empty(),
    }
}

/// The listening sockets of a snapshot.
pub open spec fn snapshot_listeners(snapshot: SocketSnapshot) -> Seq<ListenerText> {
    optional_table(optional_text(snapshot.tcp), false) + optional_table(
        optional_text(snapshot.tcp6),
        true,
    )
}

/// A listening socket of the kernel's tables.
struct TcpListener {
    inode: u64,
    address: String,
    port: u16,
}

spec fn listener_text(listener: TcpListener) -> ListenerText {
    ListenerText { inode: listener.inode, address: listener.address@, port: listener.port }
}

spec fn listener_texts(list: Seq<TcpListener>) -> Seq<ListenerText> {
    Seq::new(list.len(), |i: int| listener_text(list[i]))
}

fn read_table_line(line: &Vec<char>, ipv6: bool) -> (result: Option<TcpListener>)
    ensures
        match (result, table_listener(line@, ipv6)) {
            (Some(listener), Some(expected)) => listener_text(listener) == expected,
            (None, None) => true,
            _ => false,
        },
{
    let fields = split_words(line.as_slice());
    proof {
        assert(rows(fields@).len() == fields.len());
    }
    if fields.len() < 10 {
        return None;
    }
    proof {
        assert(rows(fields@)[1] == fields@[1]@);
        assert(rows(fields@)[3] == fields@[3]@);
        assert(rows(fields@)[9] == fields@[9]@);
    }
    if !is_text(fields[3].as_slice(), "0A") {
        return None;
    }
    let local = text_of(fields[1].as_slice());
    match (
        parse_number(fields[9].as_slice(), 10, u64::MAX),
        parse_local_address(local.as_str(), ipv6),
    ) {
        (Some(inode), Some((address, port))) => Some(TcpListener { inode, address, port }),
        _ => None,
    }
}

fn push_table(listeners: &mut Vec<TcpListener>, table: &Option<String>, ipv6: bool)
    ensures
        listener_texts(final(listeners)@) == listener_texts(old(listeners)@) + optional_table(
            optional_text(*table),
            ipv6,
        ),
{
    let ghost before = listener_texts(listeners@);
    match table {
        None => {
            proof {
                assert(before + Seq::<ListenerText>::empty() =~= before);
            }
        },
        Some(contents) => {
            let source = characters(contents.as_str());
            let lines = split_lines(source.as_slice());
            let ghost shown = lines_of(contents@);
            proof {
                assert(rows(lines@).len() == lines.len());
                assert(before + Seq::<ListenerText>::empty() =~= before);
            }
            let mut index: usize = 1;
            if lines.len() == 0 {
                return;
            }
            while index < lines.len()
                invariant
                    1 <= index <= lines.len(),
                    rows(lines@) == shown,
                    shown.len() == lines.len(),
                    listener_texts(listeners@) == before + table_listeners(
                        shown,
                        ipv6,
                        index as int,
                    ),
                decreases lines.len() - index,
            {
                proof {
                    assert(shown[index as int] == lines@[index as int]@);
                }
                match read_table_line(&lines[index], ipv6) {
                    Some(listener) => {
                        let ghost earlier = listener_texts(listeners@);
                        let ghost added = listener_text(listener);
                        listeners.push(listener);
                        proof {
                            assert(listener_texts(listeners@) =~= earlier.push(added));
                            assert(earlier.push(added) =~= before + table_listeners(
                                shown,
                                ipv6,
                                index as int,
                            ).push(added));
                        }
                    },
                    None => {},
                }
                index += 1;
            }
        },
    }
}

/// The endpoint that a listening socket is.
pub open spec fn listener_endpoint(listener: ListenerText) -> EndpointText {
    EndpointText { protocol: "tcp"@, address: listener.address, port: listener.port }
}

/// The endpoints, among some listening sockets, whose owner is one root.
pub open spec fn owned_endpoints(
    listeners: Seq<ListenerText>,
    snapshot: SocketSnapshot,
    roots: Seq<u32>,
    root: u32,
) -> Seq<EndpointText>
    decreases listeners.len(),
{
    if listeners.len() == 0 {
        Seq::empty()
    } else {
        let before = owned_endpoints(listeners.drop_last(), snapshot, roots, root);
        if socket_owner(snapshot.holders@, snapshot.links@, roots, listeners.last().inode) == Some(
            root,
        ) {
            before.push(listener_endpoint(listeners.last()))
        } else {
            before
        }
    }
}

/// The endpoints of a snapshot whose owner is one root.
pub open spec fn root_endpoints(
    snapshot: SocketSnapshot,
    roots: Seq<u32>,
    root: u32,
) -> Seq<EndpointText> {
    owned_endpoints(snapshot_listeners(snapshot), snapshot, roots, root)
}

/// Whether a list holds what another holds, in order and each once.
pub open spec fn sorts_endpoints(sorted: Seq<EndpointText>, list: Seq<EndpointText>) -> bool {
    &&& increasing::<ProcessEndpoint>(sorted)
    &&& forall|endpoint: EndpointText| #[trigger]
        sorted.contains(endpoint) <==> list.contains(endpoint)
}

fn sort_endpoints(list: Vec<ProcessEndpoint>) -> (result: Vec<ProcessEndpoint>)
    ensures
        sorts_endpoints(endpoint_texts(result@), endpoint_texts(list@)),
        (result@.len() == 0) == (list@.len() == 0),
{
    let ghost before = endpoint_texts(list@);
    proof {
        assert(keys(list@) =~= before);
    }
    let ghost unsorted = list@;
    let result = sorted_distinct(list);
    proof {
        assert(keys(result@) =~= endpoint_texts(result@));
        if unsorted.len() > 0 {
            assert(before.contains(before[0]));
            assert(keys(result@).contains(before[0]));
        }
        if result@.len() > 0 {
            assert(keys(result@).contains(keys(result@)[0]));
            assert(before.contains(keys(result@)[0]));
        }
    }
    result
}

/// The endpoints that the tree of one root process owns.
#[derive(Debug, PartialEq, Eq)]
pub struct EndpointGroup {
    pub pid: u32,
    pub endpoints: Vec<ProcessEndpoint>,
}

/// The roots among the first `count` that own some endpoint, each once.
pub open spec fn owning_roots(snapshot: SocketSnapshot, roots: Seq<u32>, count: int) -> Seq<u32>
    decreases count,
{
    if count <= 0 {
        Seq::empty()
    } else {
        let before = owning_roots(snapshot, roots, count - 1);
        let root = roots[count - 1];
        if root_endpoints(snapshot, roots, root).len() > 0 && !roots.take(count - 1).contains(
            root,
        ) {
            before.push(root)
        } else {
            before
        }
    }
}

/// The pids of some groups.
pub open spec fn group_pids(groups: Seq<EndpointGroup>) -> Seq<u32> {
    Seq::new(groups.len(), |i: int| groups[i].pid)
}

/// Whether groups attribute the listeners of a snapshot to their roots: one group for each root
/// that owns some, with its endpoints sorted and each once.
pub open spec fn attributes_listeners(
    groups: Seq<EndpointGroup>,
    snapshot: SocketSnapshot,
    roots: Seq<u32>,
) -> bool {
    &&& group_pids(groups) == owning_roots(snapshot, roots, roots.len() as int)
    &&& forall|i: int|
        0 <= i < groups.len() ==> sorts_endpoints(
            endpoint_texts((#[trigger] groups[i]).endpoints@),
            root_endpoints(snapshot, roots, groups[i].pid),
        )
}

fn collect_owned(
    listeners: &Vec<TcpListener>,
    snapshot: &SocketSnapshot,
    roots: &Vec<u32>,
    root: u32,
) -> (result: Vec<ProcessEndpoint>)
    ensures
        endpoint_texts(result@) == owned_endpoints(
            listener_texts(listeners@),
            *snapshot,
            roots@,
            root,
        ),
{
    let ghost shown = listener_texts(listeners@);
    let mut result: Vec<ProcessEndpoint> = Vec::new();
    let mut index: usize = 0;
    proof {
        assert(endpoint_texts(result@) =~= Seq::<EndpointText>::empty());
    }
    while index < listeners.len()
        invariant
            index <= listeners.len(),
            shown == listener_texts(listeners@),
            endpoint_texts(result@) == owned_endpoints(
                shown.take(index as int),
                *snapshot,
                roots@,
                root,
            ),
        decreases listeners.len() - index,
    {
        proof {
            assert(shown.take(index + 1).drop_last() =~= shown.take(index as int));
            assert(shown.take(index + 1).last() == listener_text(listeners@[index as int]));
        }
        let listener = &listeners[index];
        match find_socket_owner(snapshot, roots, listener.inode) {
            Some(owner) => {
                if owner == root {
                    let ghost before = endpoint_texts(result@);
                    result.push(
                        ProcessEndpoint {
                            protocol: "tcp",
                            address: listener.address.clone(),
                            port: listener.port,
                        },
                    );
                    proof {
                        assert(endpoint_texts(result@) =~= before.push(
                            listener_endpoint(shown[index as int]),
                        ));
                    }
                }
            },
            None => {},
        }
        index += 1;
    }
    proof {
        assert(shown.take(shown.len() as int) =~= shown);
    }
    result
}

fn read_listeners(snapshot: &SocketSnapshot) -> (result: Vec<TcpListener>)
    ensures
        listener_texts(result@) == snapshot_listeners(*snapshot),
{
    let mut listeners: Vec<TcpListener> = Vec::new();
    proof {
        assert(listener_texts(listeners@) =~= Seq::<ListenerText>::empty());
    }
    push_table(&mut listeners, &snapshot.tcp, false);
    push_table(&mut listeners, &snapshot.tcp6, true);
    proof {
        assert(listener_texts(listeners@) =~= snapshot_listeners(*snapshot));
    }
    listeners
}

/// Discovers Linux TCP listeners and attributes every endpoint to the root
/// process whose tree (the process itself or one of its descendants) owns the
/// socket. Roots with no listeners are absent from the result.
pub fn find_process_endpoints_by_process(roots: &Vec<u32>, snapshot: &SocketSnapshot) -> (result:
    Vec<EndpointGroup>)
    ensures
        attributes_listeners(result@, *snapshot, roots@),
{
    let listeners = read_listeners(snapshot);
    let mut result: Vec<EndpointGroup> = Vec::new();
    let mut earlier: Vec<u32> = Vec::new();
    let mut index: usize = 0;
    proof {
        assert(group_pids(result@) =~= Seq::<u32>::empty());
        assert(roots@.take(0) =~= earlier@);
    }
    while index < roots.len()
        invariant
            index <= roots.len(),
            listener_texts(listeners@) == snapshot_listeners(*snapshot),
            earlier@ == roots@.take(index as int),
            group_pids(result@) == owning_roots(*snapshot, roots@, index as int),
            forall|i: int|
                0 <= i < result@.len() ==> sorts_endpoints(
                    endpoint_texts((#[trigger] result@[i]).endpoints@),
                    root_endpoints(*snapshot, roots@, result@[i].pid),
                ),
        decreases roots.len() - index,
    {
        let root: u32 = roots[index];
        if !holds_pid(&earlier, root) {
            let owned = collect_owned(&listeners, snapshot, roots, root);
            proof {
                assert(endpoint_texts(owned@).len() == owned@.len());
            }
            if owned.len() > 0 {
                let ghost before = group_pids(result@);
                let endpoints = sort_endpoints(owned);
                result.push(EndpointGroup { pid: root, endpoints });
                proof {
                    assert(group_pids(result@) =~= before.push(root));
                }
            }
        }
        earlier.push(root);
        index += 1;
        proof {
            assert(roots@.take(index as int) =~= roots@.take(index - 1).push(root));
        }
    }
    result
}

/// Whether some root owns an endpoint.
pub open spec fn some_root_owns(
    snapshot: SocketSnapshot,
    roots: Seq<u32>,
    endpoint: EndpointText,
) -> bool {
    exists|root: u32|
        roots.contains(root) && #[trigger] root_endpoints(snapshot, roots, root).contains(endpoint)
}

/// The pids of some runs.
pub open spec fn run_pids(runs: Seq<RunText>) -> Seq<u32> {
    Seq::new(runs.len(), |i: int| runs[i].pid)
}

/// Collects the pids of some runs.
pub fn pids_of_runs(runs: &Vec<LaunchTargetProcess>) -> (result: Vec<u32>)
    ensures
        result@ == run_pids(run_texts(runs@)),
{
    let ghost shown = run_pids(run_texts(runs@));
    let mut result: Vec<u32> = Vec::new();
    let mut index: usize = 0;
    while index < runs.len()
        invariant
            index <= runs.len(),
            shown == run_pids(run_texts(runs@)),
            result@ == shown.take(index as int),
        decreases runs.len() - index,
    {
        result.push(runs[index].pid);
        index += 1;
        proof {
            assert(shown.take(index as int) =~= shown.take(index - 1).push(runs@[index - 1].pid));
        }
    }
    proof {
        assert(shown.take(shown.len() as int) =~= shown);
    }
    result
}

/// Whether a list holds, in order and each once, the endpoints that some root owns.
pub open spec fn lists_owned_endpoints(
    list: Seq<EndpointText>,
    snapshot: SocketSnapshot,
    roots: Seq<u32>,
) -> bool {
    &&& increasing::<ProcessEndpoint>(list)
    &&& forall|endpoint: EndpointText| #[trigger]
        list.contains(endpoint) <==> some_root_owns(snapshot, roots, endpoint)
}

/// Discovers Linux TCP listeners owned by matching processes and their child
/// process trees.
pub fn find_process_endpoints(
    processes: &Vec<LaunchTargetProcess>,
    snapshot: &SocketSnapshot,
) -> (result: Vec<ProcessEndpoint>)
    ensures
        lists_owned_endpoints(
            endpoint_texts(result@),
            *snapshot,
            run_pids(run_texts(processes@)),
        ),
{
    let roots = pids_of_runs(processes);
    let listeners = read_listeners(snapshot);
    let mut all: Vec<ProcessEndpoint> = Vec::new();
    let mut index: usize = 0;
    while index < roots.len()
        invariant
            index <= roots.len(),
            listener_texts(listeners@) == snapshot_listeners(*snapshot),
            forall|endpoint: EndpointText| #[trigger]
                endpoint_texts(all@).contains(endpoint) <==> exists|i: int|
                    0 <= i < index && root_endpoints(
                        *snapshot,
                        roots@,
                        #[trigger] roots@[i],
                    ).contains(endpoint),
        decreases roots.len() - index,
    {
        let mut owned = collect_owned(&listeners, snapshot, &roots, roots[index]);
        let ghost before = endpoint_texts(all@);
        let ghost added = endpoint_texts(owned@);
        let ghost first = all@;
        let ghost second = owned@;
        all.append(&mut owned);
        proof {
            assert(all@ == first + second);
            assert(endpoint_texts(all@) =~= before + added);
            assert forall|endpoint: EndpointText| #[trigger]
                endpoint_texts(all@).contains(endpoint) <==> before.contains(endpoint)
                    || added.contains(endpoint) by {
                if before.contains(endpoint) {
                    let at = choose|at: int| 0 <= at < before.len() && before[at] == endpoint;
                    assert((before + added)[at] == endpoint);
                }
                if added.contains(endpoint) {
                    let at = choose|at: int| 0 <= at < added.len() && added[at] == endpoint;
                    assert((before + added)[before.len() + at] == endpoint);
                }
                if (before + added).contains(endpoint) {
                    let at = choose|at: int|
                        0 <= at < (before + added).len() && (before + added)[at] == endpoint;
                    if at < before.len() {
                        assert(before[at] == endpoint);
                    } else {
                        assert(added[at - before.len()] == endpoint);
                    }
                }
            }
            assert(added == root_endpoints(*snapshot, roots@, roots@[index as int]));
        }
        index += 1;
    }
    let ghost unsorted = endpoint_texts(all@);
    let result = sort_endpoints(all);
    proof {
        assert forall|endpoint: EndpointText| #[trigger]
            endpoint_texts(result@).contains(endpoint) <==> some_root_owns(
                *snapshot,
                roots@,
                endpoint,
            ) by {
            assert(endpoint_texts(result@).contains(endpoint) <==> unsorted.contains(endpoint));
            if some_root_owns(*snapshot, roots@, endpoint) {
                let root = choose|root: u32|
                    roots@.contains(root) && #[trigger] root_endpoints(
                        *snapshot,
                        roots@,
                        root,
                    ).contains(endpoint);
                let i = choose|i: int| 0 <= i < roots@.len() && roots@[i] == root;
                assert(root_endpoints(*snapshot, roots@, roots@[i]).contains(endpoint));
            }
            if unsorted.contains(endpoint) {
                let i = choose|i: int|
                    0 <= i < roots@.len() && root_endpoints(
                        *snapshot,
                        roots@,
                        #[trigger] roots@[i],
                    ).contains(endpoint);
                assert(roots@.contains(roots@[i]));
            }
        }
    }
    result
}

/// The group of a root, none where it owns nothing.
pub open spec fn endpoints_of_pid(groups: Seq<EndpointGroup>, pid: u32) -> Seq<EndpointText>
    decreases groups.len(),
{
    if groups.len() == 0 {
        Seq::empty()
    } else if groups[0].pid == pid {
        endpoint_texts(groups[0].endpoints@)
    } else {
        endpoints_of_pid(groups.drop_first(), pid)
    }
}

/// Looks the endpoints of a root up.
pub fn group_of_pid(groups: &Vec<EndpointGroup>, pid: u32) -> (result: Vec<ProcessEndpoint>)
    ensures
        endpoint_texts(result@) == endpoints_of_pid(groups@, pid),
{
    let mut index: usize = 0;
    proof {
        assert(groups@.skip(0) =~= groups@);
    }
    while index < groups.len()
        invariant
            index <= groups.len(),
            endpoints_of_pid(groups@, pid) == endpoints_of_pid(groups@.skip(index as int), pid),
        decreases groups.len() - index,
    {
        proof {
            assert(groups@.skip(index as int)[0] == groups@[index as int]);
            assert(groups@.skip(index as int).drop_first() =~= groups@.skip(index + 1));
        }
        if groups[index].pid == pid {
            return copy_endpoints(&groups[index].endpoints);
        }
        index += 1;
    }
    let result: Vec<ProcessEndpoint> = Vec::new();
    proof {
        assert(endpoint_texts(result@) =~= Seq::<EndpointText>::empty());
    }
    result
}

/// A listener is attributed to a root only where a process in the tree of that root holds its
/// socket.
pub proof fn owners_hold_their_sockets(
    holders: Seq<SocketHolder>,
    links: Seq<ParentLink>,
    roots: Seq<u32>,
    inode: u64,
)
    ensures
        socket_owner(holders, links, roots, inode) matches Some(root) ==> roots.contains(root)
            && exists|i: int|
            0 <= i < holders.len() && (#[trigger] holders[i]).inodes@.contains(inode) && root_above(
                links,
                roots,
                holders[i].pid,
            ) == Some(root) && ancestry(links, holders[i].pid, CHAIN_LIMIT as nat).contains(root),
    decreases holders.len(),
{
    if holders.len() > 0 {
        let last = holders.last();
        if last.inodes@.contains(inode) && root_above(links, roots, last.pid) is Some {
            lemma_innermost(ancestry(links, last.pid, CHAIN_LIMIT as nat), roots);
            assert(holders[holders.len() - 1] == last);
        } else {
            owners_hold_their_sockets(holders.drop_last(), links, roots, inode);
            if socket_owner(holders, links, roots, inode) is Some {
                let root = socket_owner(holders, links, roots, inode)->0;
                let i = choose|i: int|
                    0 <= i < holders.drop_last().len() && (
                    #[trigger] holders.drop_last()[i]).inodes@.contains(inode) && root_above(
                        links,
                        roots,
                        holders.drop_last()[i].pid,
                    ) == Some(root) && ancestry(
                        links,
                        holders.drop_last()[i].pid,
                        CHAIN_LIMIT as nat,
                    ).contains(root);
                assert(holders[i] == holders.drop_last()[i]);
            }
        }
    }
}

proof fn lemma_innermost(chain: Seq<u32>, list: Seq<u32>)
    ensures
        innermost_of(chain, list) matches Some(root) ==> list.contains(root) && chain.contains(root),
    decreases chain.len(),
{
    if chain.len() > 0 {
        if list.contains(chain[0]) {
            assert(chain.contains(chain[0]));
        } else {
            lemma_innermost(chain.drop_first(), list);
            if innermost_of(chain, list) is Some {
                let root = innermost_of(chain, list)->0;
                let at = choose|at: int|
                    0 <= at < chain.drop_first().len() && chain.drop_first()[at] == root;
                assert(chain[at + 1] == root);
            }
        }
    }
}

/// A process is attributed to the first root on its whole way up, however many parents lie
/// between within the limit: itself, or the nearest ancestor that is one.
pub proof fn roots_own_whatever_leads_up_to_them(
    links: Seq<ParentLink>,
    roots: Seq<u32>,
    path: Seq<u32>,
)
    requires
        leads_upwards(links, path),
        roots.contains(path.last()),
        forall|i: int| 0 <= i < path.len() - 1 ==> !roots.contains(#[trigger] path[i]),
    ensures
        root_above(links, roots, path[0]) == Some(path.last()),
{
    chains_follow_every_parent(links, path);
    let chain = ancestry(links, path[0], CHAIN_LIMIT as nat);
    assert(path =~= chain.subrange(0, path.len() as int));
    assert forall|i: int| 0 <= i < path.len() - 1 implies !roots.contains(#[trigger] chain[i]) by {
        assert(path[i] == chain[i]);
    }
    lemma_innermost_at(chain, roots, path.len() - 1);
}

proof fn lemma_innermost_at(chain: Seq<u32>, list: Seq<u32>, index: int)
    requires
        0 <= index < chain.len(),
        list.contains(chain[index]),
        forall|i: int| 0 <= i < index ==> !list.contains(#[trigger] chain[i]),
    ensures
        innermost_of(chain, list) == Some(chain[index]),
    decreases index,
{
    if index > 0 {
        assert(!list.contains(chain[0]));
        let rest = chain.drop_first();
        assert forall|i: int| 0 <= i < index - 1 implies !list.contains(#[trigger] rest[i]) by {
            assert(rest[i] == chain[i + 1]);
        }
        lemma_innermost_at(rest, list, index - 1);
    }
}

/// A process is attributed to no root only where nothing on the whole way up from it is one.
pub proof fn unowned_processes_have_no_root_above(
    links: Seq<ParentLink>,
    roots: Seq<u32>,
    path: Seq<u32>,
    index: int,
)
    requires
        leads_upwards(links, path),
        root_above(links, roots, path[0]) is None,
        0 <= index < path.len(),
    ensures
        !roots.contains(path[index]),
    decreases index,
{
    assert forall|i: int| 0 <= i < index implies !roots.contains(#[trigger] path[i]) by {
        unowned_processes_have_no_root_above(links, roots, path, i);
    }
    if roots.contains(path[index]) {
        let shorter = path.take(index + 1);
        assert forall|i: int| 0 <= i < shorter.len() - 1 implies is_parent(
            links,
            #[trigger] shorter[i],
            shorter[i + 1],
        ) && shorter[i + 1] > 1 && shorter[i + 1] != shorter[i] by {
            assert(is_parent(links, path[i], path[i + 1]));
        }
        assert forall|i: int| 0 <= i < shorter.len() - 1 implies !roots.contains(
            #[trigger] shorter[i],
        ) by {
            assert(shorter[i] == path[i]);
        }
        roots_own_whatever_leads_up_to_them(links, roots, shorter);
    }
}

/// A socket belongs to the root above the last listed process that holds it: where the way up
/// from that process reaches a root, the socket is attributed to the first one.
pub proof fn held_sockets_are_attributed(
    holders: Seq<SocketHolder>,
    links: Seq<ParentLink>,
    roots: Seq<u32>,
    inode: u64,
    index: int,
    path: Seq<u32>,
)
    requires
        0 <= index < holders.len(),
        holders[index].inodes@.contains(inode),
        path.len() > 0 && path[0] == holders[index].pid,
        leads_upwards(links, path),
        roots.contains(path.last()),
        forall|i: int| 0 <= i < path.len() - 1 ==> !roots.contains(#[trigger] path[i]),
    ensures
        socket_owner(holders, links, roots, inode) is Some,
        (forall|j: int|
            index < j < holders.len() ==> !(#[trigger] holders[j]).inodes@.contains(inode))
            ==> socket_owner(holders, links, roots, inode) == Some(path.last()),
    decreases holders.len(),
{
    roots_own_whatever_leads_up_to_them(links, roots, path);
    if index < holders.len() - 1 {
        let last = holders[holders.len() - 1];
        let fewer = holders.drop_last();
        held_sockets_are_attributed(fewer, links, roots, inode, index, path);
        if forall|j: int|
            index < j < holders.len() ==> !(#[trigger] holders[j]).inodes@.contains(inode) {
            assert(!last.inodes@.contains(inode));
            assert forall|j: int| index < j < fewer.len() implies !(
            #[trigger] fewer[j]).inodes@.contains(inode) by {
                assert(fewer[j] == holders[j]);
            }
        }
    }
}

/// The endpoints of a root are those of the listeners whose socket it owns, and no others.
pub proof fn endpoints_are_of_owned_listeners(
    listeners: Seq<ListenerText>,
    snapshot: SocketSnapshot,
    roots: Seq<u32>,
    root: u32,
    endpoint: EndpointText,
)
    ensures
        owned_endpoints(listeners, snapshot, roots, root).contains(endpoint) <==> exists|i: int|
            0 <= i < listeners.len() && endpoint.protocol == "tcp"@ && (
            #[trigger] listeners[i]).address == endpoint.address && listeners[i].port
                == endpoint.port && socket_owner(
                snapshot.holders@,
                snapshot.links@,
                roots,
                listeners[i].inode,
            ) == Some(root),
    decreases listeners.len(),
{
    if listeners.len() > 0 {
        let fewer = listeners.drop_last();
        let last = listeners.len() - 1;
        endpoints_are_of_owned_listeners(fewer, snapshot, roots, root, endpoint);
        let before = owned_endpoints(fewer, snapshot, roots, root);
        let after = owned_endpoints(listeners, snapshot, roots, root);
        if before.contains(endpoint) {
            let at = choose|at: int| 0 <= at < before.len() && before[at] == endpoint;
            assert(after[at] == endpoint);
            let i = choose|i: int|
                0 <= i < fewer.len() && endpoint.protocol == "tcp"@ && (
                #[trigger] fewer[i]).address == endpoint.address && fewer[i].port == endpoint.port
                    && socket_owner(
                    snapshot.holders@,
                    snapshot.links@,
                    roots,
                    fewer[i].inode,
                ) == Some(root);
            assert(listeners[i] == fewer[i]);
        } else {
            if after.contains(endpoint) {
                let at = choose|at: int| 0 <= at < after.len() && after[at] == endpoint;
                if at < before.len() {
                    assert(before[at] == endpoint);
                }
                assert(listeners[last].address == endpoint.address);
            }
            assert forall|i: int|
                0 <= i < listeners.len() && endpoint.protocol == "tcp"@ && (
                #[trigger] listeners[i]).address == endpoint.address && listeners[i].port
                    == endpoint.port && socket_owner(
                    snapshot.holders@,
                    snapshot.links@,
                    roots,
                    listeners[i].inode,
                ) == Some(root) implies after.contains(endpoint) by {
                if i < last {
                    assert(fewer[i] == listeners[i]);
                } else {
                    assert(after[before.len() as int] == endpoint);
                }
            }
        }
    }
}

/// Groups that attribute the listeners of a snapshot hold, under a root, exactly the endpoints of
/// the listeners whose socket that root owns; no root has two groups, and none is empty.
pub proof fn groups_hold_owned_listeners(
    groups: Seq<EndpointGroup>,
    snapshot: SocketSnapshot,
    roots: Seq<u32>,
    root: u32,
    endpoint: EndpointText,
)
    requires
        attributes_listeners(groups, snapshot, roots),
    ensures
        roots.contains(root) && root_endpoints(snapshot, roots, root).contains(endpoint)
            <==> exists|i: int|
            0 <= i < groups.len() && (#[trigger] groups[i]).pid == root && endpoint_texts(
                groups[i].endpoints@,
            ).contains(endpoint),
        forall|i: int, j: int|
            0 <= i < j < groups.len() ==> (#[trigger] groups[i]).pid != (#[trigger] groups[j]).pid,
{
    let pids = group_pids(groups);
    let count = roots.len() as int;
    lemma_owning_roots(snapshot, roots, count, root);
    assert(roots.take(count) =~= roots);
    if roots.contains(root) && root_endpoints(snapshot, roots, root).contains(endpoint) {
        assert(pids.contains(root));
        let i = choose|i: int| 0 <= i < pids.len() && pids[i] == root;
        assert(groups[i].pid == root);
        assert(endpoint_texts(groups[i].endpoints@).contains(endpoint));
    }
    if exists|i: int|
        0 <= i < groups.len() && (#[trigger] groups[i]).pid == root && endpoint_texts(
            groups[i].endpoints@,
        ).contains(endpoint) {
        let i = choose|i: int|
            0 <= i < groups.len() && (#[trigger] groups[i]).pid == root && endpoint_texts(
                groups[i].endpoints@,
            ).contains(endpoint);
        assert(pids[i] == root);
        assert(pids.contains(root));
        assert(root_endpoints(snapshot, roots, root).contains(endpoint));
    }
    assert forall|i: int, j: int| 0 <= i < j < groups.len() implies (#[trigger] groups[i]).pid != (
    #[trigger] groups[j]).pid by {
        assert(pids[i] != pids[j]);
    }
}

proof fn lemma_owning_roots(snapshot: SocketSnapshot, roots: Seq<u32>, count: int, root: u32)
    requires
        0 <= count <= roots.len(),
    ensures
        owning_roots(snapshot, roots, count).contains(root) <==> roots.take(count).contains(root)
            && root_endpoints(snapshot, roots, root).len() > 0,
        forall|i: int, j: int|
            0 <= i < j < owning_roots(snapshot, roots, count).len() ==> owning_roots(
                snapshot,
                roots,
                count,
            )[i] != owning_roots(snapshot, roots, count)[j],
        forall|i: int|
            0 <= i < owning_roots(snapshot, roots, count).len() ==> roots.take(count).contains(
                #[trigger] owning_roots(snapshot, roots, count)[i],
            ),
    decreases count,
{
    if count > 0 {
        lemma_owning_roots(snapshot, roots, count - 1, root);
        let before = owning_roots(snapshot, roots, count - 1);
        let after = owning_roots(snapshot, roots, count);
        let earlier = roots.take(count - 1);
        let now = roots.take(count);
        assert(now =~= earlier.push(roots[count - 1]));
        assert forall|pid: u32| earlier.contains(pid) implies #[trigger] now.contains(pid) by {
            let at = choose|at: int| 0 <= at < earlier.len() && earlier[at] == pid;
            assert(now[at] == pid);
        }
        assert(now[count - 1] == roots[count - 1]);
        assert(now.contains(roots[count - 1]));
        if before.contains(root) {
            let at = choose|at: int| 0 <= at < before.len() && before[at] == root;
            assert(after[at] == root);
        }
        if now.contains(root) && !earlier.contains(root) {
            let at = choose|at: int| 0 <= at < now.len() && now[at] == root;
            if at < count - 1 {
                assert(earlier[at] == root);
            }
            if after.len() > before.len() {
                assert(after[before.len() as int] == root);
            }
        }
        if after.contains(root) && !before.contains(root) {
            let at = choose|at: int| 0 <= at < after.len() && after[at] == root;
            if at < before.len() {
                assert(before[at] == root);
            }
        }
        assert forall|i: int| 0 <= i < after.len() implies now.contains(#[trigger] after[i]) by {
            if i < before.len() {
                assert(earlier.contains(before[i]));
                assert(now.contains(before[i]));
            }
        }
        assert forall|i: int, j: int| 0 <= i < j < after.len() implies after[i] != after[j] by {
            if j < before.len() {
                assert(before[i] != before[j]);
            } else {
                assert(earlier.contains(before[i]));
            }
        }
    }
}

/// The listeners of a table are what its lines below the heading show, and nothing else: a line
/// counts where it has ten fields or more, its fourth says that the socket listens, its tenth is
/// the number of the socket and its second a local address.
pub proof fn tables_list_listening_sockets(
    lines: Seq<Seq<char>>,
    ipv6: bool,
    count: int,
    listener: ListenerText,
)
    requires
        0 <= count <= lines.len(),
    ensures
        table_listeners(lines, ipv6, count).contains(listener) <==> exists|i: int|
            1 <= i < count && words(#[trigger] lines[i]).len() >= 10 && words(lines[i])[3] == "0A"@
                && number_value(words(lines[i])[9], 10, u64::MAX as nat) == Some(
                listener.inode as nat,
            ) && local_address(words(lines[i])[1], ipv6) == Some(
                (listener.address, listener.port),
            ),
    decreases count,
{
    if count > 1 {
        let last = count - 1;
        tables_list_listening_sockets(lines, ipv6, last, listener);
        let before = table_listeners(lines, ipv6, last);
        let after = table_listeners(lines, ipv6, count);
        lemma_value_is_bounded(words(lines[last])[9], 10, u64::MAX as nat);
        if before.contains(listener) {
            let at = choose|at: int| 0 <= at < before.len() && before[at] == listener;
            assert(after[at] == listener);
        } else {
            if after.contains(listener) {
                let at = choose|at: int| 0 <= at < after.len() && after[at] == listener;
                if at < before.len() {
                    assert(before[at] == listener);
                }
                assert(words(lines[last]).len() >= 10);
            }
            if table_listener(lines[last], ipv6) == Some(listener) {
                assert(after[before.len() as int] == listener);
            }
        }
    }
}

proof fn lemma_value_is_bounded(text: Seq<char>, radix: nat, limit: nat)
    ensures
        number_value(text, radix, limit) matches Some(value) ==> value <= limit,
{
}

/// The sockets of a process are the numbers that stand in its descriptors between `socket:[` and
/// `]`, and no others.
pub proof fn socket_numbers_stand_in_descriptors(links: Seq<Seq<char>>, count: int, inode: u64)
    requires
        0 <= count <= links.len(),
    ensures
        socket_inodes(links, count).contains(inode) <==> exists|i: int, number: Seq<char>|
            0 <= i < count && #[trigger] links[i] == "socket:["@ + number + "]"@
                && #[trigger] number_value(number, 10, u64::MAX as nat) == Some(inode as nat),
    decreases count,
{
    if count > 0 {
        let last = count - 1;
        socket_numbers_stand_in_descriptors(links, last, inode);
        let before = socket_inodes(links, last);
        let after = socket_inodes(links, count);
        lemma_socket_inode(links[last], inode);
        if before.contains(inode) {
            let at = choose|at: int| 0 <= at < before.len() && before[at] == inode;
            assert(after[at] == inode);
        } else {
            if after.contains(inode) {
                let at = choose|at: int| 0 <= at < after.len() && after[at] == inode;
                if at < before.len() {
                    assert(before[at] == inode);
                }
                assert(socket_inode(links[last]) is Some);
                let number = links[last].subrange(8, links[last].len() - 1);
                assert(number_value(number, 10, u64::MAX as nat) == Some(inode as nat));
            }
            assert forall|i: int, number: Seq<char>|
                0 <= i < count && #[trigger] links[i] == "socket:["@ + number + "]"@
                    && #[trigger] number_value(number, 10, u64::MAX as nat) == Some(
                    inode as nat,
                ) implies after.contains(inode) by {
                if i == last {
                    lemma_socket_number(links[last], number, inode);
                    assert(after[before.len() as int] == inode);
                }
            }
        }
    }
}

proof fn lemma_socket_inode(link: Seq<char>, inode: u64)
    ensures
        socket_inode(link) matches Some(found) ==> found <= u64::MAX && link.len() >= 9 && link
            == "socket:["@ + link.subrange(8, link.len() - 1) + "]"@ && number_value(
            link.subrange(8, link.len() - 1),
            10,
            u64::MAX as nat,
        ) == Some(found),
{
    reveal_strlit("socket:[");
    reveal_strlit("]");
    match after_prefix(link, "socket:["@) {
        Some(rest) => {
            match before_suffix(rest, "]"@) {
                Some(number) => {
                    assert(link =~= "socket:["@ + rest);
                    assert(rest =~= number + "]"@);
                    assert(number =~= link.subrange(8, link.len() - 1));
                    assert(link =~= "socket:["@ + number + "]"@);
                },
                None => {},
            }
        },
        None => {},
    }
}

proof fn lemma_socket_number(link: Seq<char>, number: Seq<char>, inode: u64)
    requires
        link == "socket:["@ + number + "]"@,
        number_value(number, 10, u64::MAX as nat) == Some(inode as nat),
    ensures
        socket_inode(link) == Some(inode as nat),
{
    let rest = number + "]"@;
    assert(link =~= "socket:["@ + rest);
    prefixes_are_taken_off(link, "socket:["@, rest);
    suffixes_are_taken_off(rest, number, "]"@);
}

/// Endpoints of one protocol are ordered by their address as a text, and those of one address by
/// their port.
pub proof fn endpoints_are_ordered_by_address_and_port(
    protocol: Seq<char>,
    address: Seq<char>,
    other: Seq<char>,
    left: u16,
    right: u16,
)
    ensures
        endpoint_precedes(
            EndpointText { protocol, address, port: left },
            EndpointText { protocol, address, port: right },
        ) <==> left < right,
        address != other ==> (endpoint_precedes(
            EndpointText { protocol, address, port: left },
            EndpointText { protocol, address: other, port: right },
        ) <==> text_precedes(address, other)),
{
}

/// The endpoints of a root are found in its group, and nothing is found where it has none.
pub proof fn groups_are_found_by_pid(groups: Seq<EndpointGroup>, pid: u32)
    ensures
        (forall|i: int| 0 <= i < groups.len() ==> (#[trigger] groups[i]).pid != pid)
            ==> endpoints_of_pid(groups, pid).len() == 0,
        forall|i: int|
            0 <= i < groups.len() && (#[trigger] groups[i]).pid == pid && (forall|j: int|
                0 <= j < i ==> (#[trigger] groups[j]).pid != pid) ==> endpoints_of_pid(groups, pid)
                == endpoint_texts(groups[i].endpoints@),
    decreases groups.len(),
{
    if groups.len() > 0 {
        let rest = groups.drop_first();
        groups_are_found_by_pid(rest, pid);
        if groups[0].pid != pid {
            if forall|i: int| 0 <= i < groups.len() ==> (#[trigger] groups[i]).pid != pid {
                assert forall|i: int| 0 <= i < rest.len() implies (#[trigger] rest[i]).pid
                    != pid by {
                    assert(rest[i] == groups[i + 1]);
                }
            }
            assert forall|i: int|
                0 <= i < groups.len() && (#[trigger] groups[i]).pid == pid && (forall|j: int|
                    0 <= j < i ==> (#[trigger] groups[j]).pid != pid) implies endpoints_of_pid(
                groups,
                pid,
            ) == endpoint_texts(groups[i].endpoints@) by {
                assert(i > 0);
                assert(rest[i - 1] == groups[i]);
                assert forall|j: int| 0 <= j < i - 1 implies (#[trigger] rest[j]).pid != pid by {
                    assert(rest[j] == groups[j + 1]);
                }
            }
        } else {
            assert forall|i: int|
                0 <= i < groups.len() && (#[trigger] groups[i]).pid == pid && (forall|j: int|
                    0 <= j < i ==> (#[trigger] groups[j]).pid != pid) implies endpoints_of_pid(
                groups,
                pid,
            ) == endpoint_texts(groups[i].endpoints@) by {
                if i > 0 {
                    assert(groups[0].pid != pid);
                }
            }
        }
    }
}

/// The listeners of a snapshot are those of both tables, each read by the family of its own; a
/// table that does not exist has none.
pub proof fn both_tables_are_read(snapshot: SocketSnapshot, listener: ListenerText)
    ensures
        snapshot_listeners(snapshot).contains(listener) <==> (snapshot.tcp is Some
            && table_listeners(
            lines_of(snapshot.tcp->0@),
            false,
            lines_of(snapshot.tcp->0@).len() as int,
        ).contains(listener)) || (snapshot.tcp6 is Some && table_listeners(
            lines_of(snapshot.tcp6->0@),
            true,
            lines_of(snapshot.tcp6->0@).len() as int,
        ).contains(listener)),
{
    let first = optional_table(optional_text(snapshot.tcp), false);
    let second = optional_table(optional_text(snapshot.tcp6), true);
    let both = first + second;
    if first.contains(listener) {
        let at = choose|at: int| 0 <= at < first.len() && first[at] == listener;
        assert(both[at] == listener);
    }
    if second.contains(listener) {
        let at = choose|at: int| 0 <= at < second.len() && second[at] == listener;
        assert(both[first.len() + at] == listener);
    }
    if both.contains(listener) {
        let at = choose|at: int| 0 <= at < both.len() && both[at] == listener;
        if at < first.len() {
            assert(first[at] == listener);
        } else {
            assert(second[at - first.len()] == listener);
        }
    }
}

/// The endpoints of some runs are those that one of them owns, each once and in order.
pub proof fn owned_endpoints_are_listed_once(
    list: Seq<EndpointText>,
    snapshot: SocketSnapshot,
    roots: Seq<u32>,
    endpoint: EndpointText,
)
    requires
        lists_owned_endpoints(list, snapshot, roots),
    ensures
        list.contains(endpoint) <==> exists|root: u32|
            roots.contains(root) && #[trigger] root_endpoints(snapshot, roots, root).contains(
                endpoint,
            ),
        forall|i: int, j: int|
            0 <= i < j < list.len() ==> endpoint_precedes(#[trigger] list[i], #[trigger] list[j])
                && list[i] != list[j],
{
    assert(list.contains(endpoint) <==> some_root_owns(snapshot, roots, endpoint));
    assert forall|i: int, j: int| 0 <= i < j < list.len() implies endpoint_precedes(
        #[trigger] list[i],
        #[trigger] list[j],
    ) && list[i] != list[j] by {
        assert(<ProcessEndpoint as Ranked>::precedes(list[i], list[j]));
        ProcessEndpoint::precedes_strict(list[i], list[j]);
    }
}

/// A list of endpoints that was sorted holds what it held before, each once, and none behind one
/// that it precedes.
pub proof fn sorted_endpoints_are_in_order(
    sorted: Seq<EndpointText>,
    list: Seq<EndpointText>,
    endpoint: EndpointText,
)
    requires
        sorts_endpoints(sorted, list),
    ensures
        sorted.contains(endpoint) <==> list.contains(endpoint),
        forall|i: int, j: int|
            0 <= i < j < sorted.len() ==> endpoint_precedes(
                #[trigger] sorted[i],
                #[trigger] sorted[j],
            ),
{
    assert forall|i: int, j: int| 0 <= i < j < sorted.len() implies endpoint_precedes(
        #[trigger] sorted[i],
        #[trigger] sorted[j],
    ) by {
        assert(<ProcessEndpoint as Ranked>::precedes(sorted[i], sorted[j]));
    }
}

} // verus!
