//! Runtime metadata that a running launch target publishes.
use vstd::prelude::*;
use vstd::string::*;

use crate::browser_url::{
    accepted_url, checked_text, parsed_url, validate_browser_url, UrlParts, UrlText,
};
use crate::launch_target_config::{is_plain_identifier, plain_identifier, LaunchTarget, TargetText};
use crate::launch_target_processes::{
    run_identity, run_texts, LaunchTargetProcess, RunText,
};
use crate::numbers::{decimal, push_decimal};
use crate::path_text::{below, lies_below};
use crate::portboard_error::{error_chain, failure, refusal, ErrorText, PortboardError};
use crate::process_identity::ProcessIdentity;
use crate::text::{
    blank, contains_control, copy_optional, has_control, holds_text, is_blank, optional_text,
    same_text, texts,
};

verus! {

/// Browser-ready named endpoint published by a running launch target.
#[derive(Debug, PartialEq, Eq)]
pub struct RuntimeEndpoint {
    pub id: String,
    pub url: String,
    pub primary: bool,
    /// Optional project-owned lifecycle for a supervised endpoint, such as the
    /// `starting`, `running`, or `failed` state of an optional model server.
    /// Portboard carries it through JSON output but does not interpret it.
    pub status: Option<String>,
}

/// Versioned runtime metadata published by a project-owned process supervisor.
#[derive(Debug, PartialEq, Eq)]
pub struct LaunchTargetRuntimeMetadata {
    pub version: u32,
    pub target_id: String,
    pub pid: u32,
    pub started_at: String,
    pub endpoints: Vec<RuntimeEndpoint>,
}

/// What a named endpoint is.
pub struct NamedText {
    pub id: Seq<char>,
    pub url: Seq<char>,
    pub primary: bool,
    pub status: Option<Seq<char>>,
}

/// What runtime metadata says.
pub struct MetadataText {
    pub version: u32,
    pub target_id: Seq<char>,
    pub pid: u32,
    pub started_at: Seq<char>,
    pub endpoints: Seq<NamedText>,
}

impl View for RuntimeEndpoint {
    type V = NamedText;

    open spec fn view(&self) -> NamedText {
        NamedText {
            id: self.id@,
            url: self.url@,
            primary: self.primary,
            status: optional_text(self.status),
        }
    }
}

/// What every endpoint of a list is.
pub open spec fn named_texts(endpoints: Seq<RuntimeEndpoint>) -> Seq<NamedText> {
    Seq::new(endpoints.len(), |i: int| endpoints[i]@)
}

impl View for LaunchTargetRuntimeMetadata {
    type V = MetadataText;

    open spec fn view(&self) -> MetadataText {
        MetadataText {
            version: self.version,
            target_id: self.target_id@,
            pid: self.pid,
            started_at: self.started_at@,
            endpoints: named_texts(self.endpoints@),
        }
    }
}

impl Clone for RuntimeEndpoint {
    fn clone(&self) -> (result: Self)
        ensures
            result@ == self@,
    {
        RuntimeEndpoint {
            id: self.id.clone(),
            url: self.url.clone(),
            primary: self.primary,
            status: copy_optional(&self.status),
        }
    }
}

/// Copies a list of named endpoints.
pub fn copy_named(source: &Vec<RuntimeEndpoint>) -> (result: Vec<RuntimeEndpoint>)
    ensures
        named_texts(result@) == named_texts(source@),
{
    let mut result: Vec<RuntimeEndpoint> = Vec::new();
    let mut index: usize = 0;
    while index < source.len()
        invariant
            index <= source.len(),
            named_texts(result@) == named_texts(source@).take(index as int),
        decreases source.len() - index,
    {
        let ghost before = named_texts(result@);
        result.push(source[index].clone());
        index += 1;
        proof {
            assert(named_texts(result@) =~= before.push(source@[index - 1]@));
            assert(named_texts(source@).take(index as int) =~= before.push(source@[index - 1]@));
        }
    }
    proof {
        assert(named_texts(source@).take(source@.len() as int) =~= named_texts(source@));
    }
    result
}

/// The first endpoint of a list that is designated as primary.
pub open spec fn first_primary(endpoints: Seq<NamedText>) -> Option<NamedText>
    decreases endpoints.len(),
{
    if endpoints.len() == 0 {
        None
    } else if endpoints[0].primary {
        Some(endpoints[0])
    } else {
        first_primary(endpoints.drop_first())
    }
}

/// What an optional endpoint is.
pub open spec fn optional_named(value: Option<&RuntimeEndpoint>) -> Option<NamedText> {
    match value {
        Some(endpoint) => Some(endpoint@),
        None => None,
    }
}

/// Looks for the first endpoint that is designated as primary.
pub fn find_primary(endpoints: &Vec<RuntimeEndpoint>) -> (result: Option<&RuntimeEndpoint>)
    ensures
        optional_named(result) == first_primary(named_texts(endpoints@)),
{
    let ghost all = named_texts(endpoints@);
    let mut index: usize = 0;
    proof {
        assert(all.skip(0) =~= all);
    }
    while index < endpoints.len()
        invariant
            index <= endpoints.len(),
            all == named_texts(endpoints@),
            first_primary(all) == first_primary(all.skip(index as int)),
        decreases endpoints.len() - index,
    {
        proof {
            assert(all.skip(index as int)[0] == endpoints@[index as int]@);
            assert(all.skip(index as int).drop_first() =~= all.skip(index + 1));
        }
        if endpoints[index].primary {
            return Some(&endpoints[index]);
        }
        index += 1;
    }
    None
}

/// The first endpoint of a list with an identifier.
pub open spec fn first_named(endpoints: Seq<NamedText>, id: Seq<char>) -> Option<NamedText>
    decreases endpoints.len(),
{
    if endpoints.len() == 0 {
        None
    } else if endpoints[0].id == id {
        Some(endpoints[0])
    } else {
        first_named(endpoints.drop_first(), id)
    }
}

/// Looks for the first endpoint with an identifier.
pub fn find_named<'a>(endpoints: &'a Vec<RuntimeEndpoint>, id: &str) -> (result: Option<
    &'a RuntimeEndpoint,
>)
    ensures
        optional_named(result) == first_named(named_texts(endpoints@), id@),
{
    let ghost all = named_texts(endpoints@);
    let mut index: usize = 0;
    proof {
        assert(all.skip(0) =~= all);
    }
    while index < endpoints.len()
        invariant
            index <= endpoints.len(),
            all == named_texts(endpoints@),
            first_named(all, id@) == first_named(all.skip(index as int), id@),
        decreases endpoints.len() - index,
    {
        proof {
            assert(all.skip(index as int)[0] == endpoints@[index as int]@);
            assert(all.skip(index as int).drop_first() =~= all.skip(index + 1));
        }
        if same_text(endpoints[index].id.as_str(), id) {
            return Some(&endpoints[index]);
        }
        index += 1;
    }
    None
}

impl LaunchTargetRuntimeMetadata {
    /// Returns the one endpoint designated as the default browser destination.
    pub fn primary_endpoint(&self) -> (result: Option<&RuntimeEndpoint>)
        ensures
            optional_named(result) == first_primary(self@.endpoints),
    {
        find_primary(&self.endpoints)
    }
}

/// A message about one endpoint of a metadata file.
pub open spec fn about_endpoint(id: Seq<char>, path: Seq<char>, rest: Seq<char>) -> Seq<char> {
    "Portboard runtime endpoint `"@ + id + "` at "@ + path + rest
}

fn endpoint_message(id: &str, path: &str, rest: &str) -> (result: String)
    ensures
        result@ == about_endpoint(id@, path@, rest@),
{
    let mut message = "Portboard runtime endpoint `".to_owned();
    message.append(id);
    message.append("` at ");
    message.append(path);
    message.append(rest);
    message
}

/// Why an endpoint is refused by its URL, given what the check of the URL gave, or its status.
pub open spec fn endpoint_refusal(
    endpoint: NamedText,
    path: Seq<char>,
    checked: Result<UrlText, ErrorText>,
) -> Option<ErrorText> {
    match checked {
        Err(error) => Some(
            ErrorText {
                message: about_endpoint(endpoint.id, path, " has an invalid URL"@),
                cause: Some(error_chain(error)),
            },
        ),
        Ok(url) => if !(url.scheme == "http"@ || url.scheme == "https"@) || url.host_text is None {
            Some(failure(about_endpoint(endpoint.id, path, " needs an HTTP or HTTPS URL"@)))
        } else {
            match endpoint.status {
                Some(status) => if is_blank(status) || has_control(status) {
                    Some(failure(about_endpoint(endpoint.id, path, " has an empty status"@)))
                } else {
                    None
                },
                None => None,
            }
        },
    }
}

/// Checks the URL and status of an endpoint, given what the check of the URL gave.
pub fn validate_runtime_endpoint(
    endpoint: &RuntimeEndpoint,
    path: &str,
    checked: Result<UrlParts, PortboardError>,
) -> (result: Result<(), PortboardError>)
    ensures
        refusal(result) == endpoint_refusal(endpoint@, path@, checked_text(checked)),
{
    let url = match checked {
        Err(error) => {
            return Err(
                PortboardError::with_cause(
                    endpoint_message(endpoint.id.as_str(), path, " has an invalid URL"),
                    error.chain(),
                ),
            );
        },
        Ok(url) => url,
    };
    if !(same_text(url.scheme.as_str(), "http") || same_text(url.scheme.as_str(), "https"))
        || url.host_text.is_none() {
        return Err(
            PortboardError::new(
                endpoint_message(endpoint.id.as_str(), path, " needs an HTTP or HTTPS URL"),
            ),
        );
    }
    match &endpoint.status {
        Some(status) => {
            if blank(status.as_str()) || contains_control(status.as_str()) {
                Err(
                    PortboardError::new(
                        endpoint_message(endpoint.id.as_str(), path, " has an empty status"),
                    ),
                )
            } else {
                Ok(())
            }
        },
        None => Ok(()),
    }
}

/// The identifiers of a list of endpoints.
pub open spec fn endpoint_ids(endpoints: Seq<NamedText>) -> Seq<Seq<char>> {
    Seq::new(endpoints.len(), |i: int| endpoints[i].id)
}

/// Why the first `count` endpoints are refused: the first fault of the first faulty one.
pub open spec fn endpoints_refusal(
    endpoints: Seq<NamedText>,
    path: Seq<char>,
    count: int,
) -> Option<ErrorText>
    decreases count,
{
    if count <= 0 {
        None
    } else if endpoints_refusal(endpoints, path, count - 1) is Some {
        endpoints_refusal(endpoints, path, count - 1)
    } else if !is_plain_identifier(endpoints[count - 1].id) {
        Some(failure(about_endpoint_id(endpoints[count - 1].id, path)))
    } else if endpoint_ids(endpoints).take(count - 1).contains(endpoints[count - 1].id) {
        Some(
            failure(
                "Portboard runtime metadata at "@ + path + " has duplicate endpoint id `"@
                    + endpoints[count - 1].id + "`"@,
            ),
        )
    } else {
        endpoint_refusal(
            endpoints[count - 1],
            path,
            accepted_url(endpoints[count - 1].url, parsed_url(endpoints[count - 1].url)),
        )
    }
}

/// The message about an endpoint identifier.
pub open spec fn about_endpoint_id(id: Seq<char>, path: Seq<char>) -> Seq<char> {
    "Portboard runtime endpoint id `"@ + id + "` at "@ + path + " is invalid"@
}

/// The number of primary endpoints among the first `count`.
pub open spec fn primary_count(endpoints: Seq<NamedText>, count: int) -> nat
    decreases count,
{
    if count <= 0 {
        0
    } else {
        primary_count(endpoints, count - 1) + if endpoints[count - 1].primary {
            1nat
        } else {
            0nat
        }
    }
}

/// Why metadata is refused for a target.
pub open spec fn metadata_refusal(
    target: TargetText,
    metadata: MetadataText,
    path: Seq<char>,
) -> Option<ErrorText> {
    let count = metadata.endpoints.len() as int;
    if metadata.version != 1 {
        Some(
            failure(
                "Portboard runtime metadata version "@ + decimal(metadata.version as nat)
                    + " is unsupported at "@ + path + "; expected version 1"@,
            ),
        )
    } else if metadata.target_id != target.id {
        Some(
            failure(
                "Portboard runtime metadata at "@ + path + " belongs to target `"@
                    + metadata.target_id + "`, expected `"@ + target.id + "`"@,
            ),
        )
    } else if is_blank(metadata.started_at) {
        Some(failure("Portboard runtime metadata at "@ + path + " has an empty startedAt"@))
    } else if endpoints_refusal(metadata.endpoints, path, count) is Some {
        endpoints_refusal(metadata.endpoints, path, count)
    } else if primary_count(metadata.endpoints, count) > 1 {
        Some(
            failure(
                "Portboard runtime metadata at "@ + path + " has more than one primary endpoint"@,
            ),
        )
    } else {
        None
    }
}

proof fn lemma_endpoint_refusal_stays(
    endpoints: Seq<NamedText>,
    path: Seq<char>,
    few: int,
    many: int,
)
    requires
        0 <= few <= many,
        endpoints_refusal(endpoints, path, few) is Some,
    ensures
        endpoints_refusal(endpoints, path, many) == endpoints_refusal(endpoints, path, few),
    decreases many - few,
{
    if few < many {
        lemma_endpoint_refusal_stays(endpoints, path, few, many - 1);
    }
}

/// Checks that metadata belongs to a target and names each endpoint well.
pub fn validate_runtime_metadata(
    target: &LaunchTarget,
    metadata: &LaunchTargetRuntimeMetadata,
    path: &str,
) -> (result: Result<(), PortboardError>)
    ensures
        refusal(result) == metadata_refusal(target@, metadata@, path@),
{
    if metadata.version != 1 {
        let mut message = "Portboard runtime metadata version ".to_owned();
        push_decimal(&mut message, metadata.version as u64);
        message.append(" is unsupported at ");
        message.append(path);
        message.append("; expected version 1");
        return Err(PortboardError::new(message));
    }
    if !same_text(metadata.target_id.as_str(), target.id.as_str()) {
        let mut message = "Portboard runtime metadata at ".to_owned();
        message.append(path);
        message.append(" belongs to target `");
        message.append(metadata.target_id.as_str());
        message.append("`, expected `");
        message.append(target.id.as_str());
        message.append("`");
        return Err(PortboardError::new(message));
    }
    if blank(metadata.started_at.as_str()) {
        let mut message = "Portboard runtime metadata at ".to_owned();
        message.append(path);
        message.append(" has an empty startedAt");
        return Err(PortboardError::new(message));
    }
    let endpoints = &metadata.endpoints;
    let ghost named = metadata@.endpoints;
    let mut seen: Vec<String> = Vec::new();
    let mut primaries: usize = 0;
    let mut index: usize = 0;
    proof {
        assert(texts(seen@) =~= endpoint_ids(named).take(0));
    }
    while index < endpoints.len()
        invariant
            index <= endpoints.len(),
            endpoints == &metadata.endpoints,
            named == metadata@.endpoints,
            named.len() == endpoints.len(),
            metadata.version == 1,
            metadata@.target_id == target@.id,
            !is_blank(metadata@.started_at),
            endpoints_refusal(named, path@, index as int) is None,
            texts(seen@) == endpoint_ids(named).take(index as int),
            primaries == primary_count(named, index as int),
            primaries <= index,
        decreases endpoints.len() - index,
    {
        let endpoint = &endpoints[index];
        proof {
            assert(named[index as int] == endpoint@);
        }
        if !plain_identifier(endpoint.id.as_str()) {
            let mut message = "Portboard runtime endpoint id `".to_owned();
            message.append(endpoint.id.as_str());
            message.append("` at ");
            message.append(path);
            message.append(" is invalid");
            proof {
                lemma_endpoint_refusal_stays(named, path@, index + 1, named.len() as int);
            }
            return Err(PortboardError::new(message));
        }
        if holds_text(&seen, endpoint.id.as_str()) {
            let mut message = "Portboard runtime metadata at ".to_owned();
            message.append(path);
            message.append(" has duplicate endpoint id `");
            message.append(endpoint.id.as_str());
            message.append("`");
            proof {
                lemma_endpoint_refusal_stays(named, path@, index + 1, named.len() as int);
            }
            return Err(PortboardError::new(message));
        }
        let checked = validate_browser_url(endpoint.url.as_str());
        match validate_runtime_endpoint(endpoint, path, checked) {
            Err(error) => {
                proof {
                    lemma_endpoint_refusal_stays(named, path@, index + 1, named.len() as int);
                }
                return Err(error);
            },
            Ok(_) => {},
        }
        let ghost before = texts(seen@);
        seen.push(endpoint.id.clone());
        if endpoint.primary {
            primaries += 1;
        }
        index += 1;
        proof {
            assert(texts(seen@) =~= before.push(endpoint.id@));
            assert(endpoint_ids(named).take(index as int) =~= before.push(endpoint.id@));
        }
    }
    if primaries > 1 {
        let mut message = "Portboard runtime metadata at ".to_owned();
        message.append(path);
        message.append(" has more than one primary endpoint");
        return Err(PortboardError::new(message));
    }
    Ok(())
}

/// Whether some of the live identities has a pid and stands among the members of a run.
pub open spec fn live_member(
    members: Seq<ProcessIdentity>,
    live: Seq<ProcessIdentity>,
    pid: u32,
) -> bool {
    exists|i: int|
        0 <= i < members.len() && (#[trigger] members[i]).pid == pid && live.contains(members[i])
}

/// Whether a run authorizes metadata that names a pid: its outermost process is live, and the
/// pid is that process or a live member that shows the signature.
pub open spec fn authorizes(run: RunText, live: Seq<ProcessIdentity>, pid: u32) -> bool {
    live.contains(run_identity(run)) && (run.pid == pid || live_member(
        run.metadata_members,
        live,
        pid,
    ))
}

/// Whether some run authorizes metadata that names a pid.
pub open spec fn some_run_authorizes(
    runs: Seq<RunText>,
    live: Seq<ProcessIdentity>,
    pid: u32,
) -> bool {
    exists|i: int| 0 <= i < runs.len() && authorizes(#[trigger] runs[i], live, pid)
}

fn holds_identity(list: &Vec<ProcessIdentity>, identity: ProcessIdentity) -> (result: bool)
    ensures
        result == list@.contains(identity),
{
    let mut index: usize = 0;
    while index < list.len()
        invariant
            index <= list.len(),
            forall|i: int| 0 <= i < index ==> #[trigger] list@[i] != identity,
        decreases list.len() - index,
    {
        if list[index] == identity {
            return true;
        }
        index += 1;
    }
    false
}

fn run_authorizes(
    run: &LaunchTargetProcess,
    live: &Vec<ProcessIdentity>,
    pid: u32,
) -> (result: bool)
    ensures
        result == authorizes(run@, live@, pid),
{
    if !holds_identity(live, run.identity()) {
        return false;
    }
    if run.pid == pid {
        return true;
    }
    let mut index: usize = 0;
    while index < run.metadata_members.len()
        invariant
            index <= run.metadata_members.len(),
            live@.contains(run_identity(run@)),
            run.pid != pid,
            forall|i: int|
                0 <= i < index ==> (#[trigger] run.metadata_members@[i]).pid != pid
                    || !live@.contains(run.metadata_members@[i]),
        decreases run.metadata_members.len() - index,
    {
        let member = run.metadata_members[index];
        if member.pid == pid && holds_identity(live, member) {
            proof {
                assert(run@.metadata_members[index as int].pid == pid);
            }
            return true;
        }
        index += 1;
    }
    false
}

fn any_run_authorizes(
    runs: &Vec<LaunchTargetProcess>,
    live: &Vec<ProcessIdentity>,
    pid: u32,
) -> (result: bool)
    ensures
        result == some_run_authorizes(run_texts(runs@), live@, pid),
{
    let mut index: usize = 0;
    while index < runs.len()
        invariant
            index <= runs.len(),
            forall|i: int|
                0 <= i < index ==> !authorizes(#[trigger] run_texts(runs@)[i], live@, pid),
        decreases runs.len() - index,
    {
        if run_authorizes(&runs[index], live, pid) {
            proof {
                assert(authorizes(run_texts(runs@)[index as int], live@, pid));
            }
            return true;
        }
        index += 1;
    }
    false
}

/// How many bytes a metadata file may hold.
pub const RUNTIME_FILE_LIMIT: u64 = 1048576;

/// What reading a metadata file gave.
#[derive(Debug, PartialEq, Eq)]
pub enum RuntimeFile {
    /// It was not read.
    NotRead,
    /// It does not exist.
    Missing,
    /// It is no regular file.
    Irregular,
    /// It could not be read, with what the system said.
    Unreadable(String),
    /// It was read: how many bytes it holds, up to one past the limit, and what the parser
    /// made of them.
    Read(u64, Result<LaunchTargetRuntimeMetadata, String>),
}

/// What looking for a metadata file gave.
#[derive(Debug, PartialEq, Eq)]
pub enum RuntimeFileObservation {
    /// Its path does not exist.
    PathMissing,
    /// Its path could not be resolved, with what the system said.
    PathUnresolved(String),
    /// The worktree could not be resolved, with what the system said.
    RootUnresolved(String),
    /// The resolved path, as bytes and for display, the resolved worktree, and the file.
    Resolved { path: Vec<u8>, display: String, root: Vec<u8>, file: RuntimeFile },
}

/// Whether metadata is looked for at all.
pub open spec fn wants_metadata(target: TargetText, runs: Seq<RunText>) -> bool {
    runs.len() > 0 && target.runtime_file is Some
}

/// Whether the metadata file of a target is looked for: something runs, and a file is
/// configured.
pub fn runtime_file_wanted(target: &LaunchTarget, runs: &Vec<LaunchTargetProcess>) -> (result: bool)
    ensures
        result == wants_metadata(target@, run_texts(runs@)),
{
    proof {
        assert(run_texts(runs@).len() == runs.len());
    }
    runs.len() > 0 && target.runtime_file.is_some()
}

/// Whether a resolved metadata file may be read: it lies in the worktree.
pub fn runtime_file_readable(path: &[u8], root: &[u8]) -> (result: bool)
    ensures
        result == lies_below(path@, root@),
{
    below(path, root)
}

/// A failure to read a metadata file.
pub open spec fn unreadable_metadata(display: Seq<char>, cause: Seq<char>) -> ErrorText {
    ErrorText {
        message: "Portboard runtime metadata could not read "@ + display,
        cause: Some(cause),
    }
}

fn unreadable(display: &str, cause: String) -> (result: PortboardError)
    ensures
        result@ == unreadable_metadata(display@, cause@),
{
    let mut message = "Portboard runtime metadata could not read ".to_owned();
    message.append(display);
    PortboardError::with_cause(message, cause)
}

/// What is made of a metadata file that was found in the worktree.
pub open spec fn read_metadata(
    target: TargetText,
    runs: Seq<RunText>,
    live: Seq<ProcessIdentity>,
    display: Seq<char>,
    file: RuntimeFile,
) -> Result<Option<MetadataText>, ErrorText> {
    match file {
        RuntimeFile::NotRead => Ok(None),
        RuntimeFile::Missing => Ok(None),
        RuntimeFile::Irregular => Err(
            unreadable_metadata(display, "Portboard runtime metadata must be a regular file"@),
        ),
        RuntimeFile::Unreadable(cause) => Err(unreadable_metadata(display, cause@)),
        RuntimeFile::Read(bytes, parsed) => if bytes > RUNTIME_FILE_LIMIT {
            Err(unreadable_metadata(display, "Portboard runtime metadata exceeds 1 MiB"@))
        } else {
            match parsed {
                Err(cause) => Err(
                    ErrorText {
                        message: "Portboard runtime metadata is invalid at "@ + display,
                        cause: Some(cause@),
                    },
                ),
                Ok(metadata) => match metadata_refusal(target, metadata@, display) {
                    Some(error) => Err(error),
                    None => if some_run_authorizes(runs, live, metadata.pid) {
                        Ok(Some(metadata@))
                    } else {
                        Ok(None)
                    },
                },
            }
        },
    }
}

/// The metadata of a target, from what looking for its file gave and which of the identities
/// of its runs are live.
pub open spec fn loaded_metadata(
    target: TargetText,
    runs: Seq<RunText>,
    live: Seq<ProcessIdentity>,
    observed: RuntimeFileObservation,
) -> Result<Option<MetadataText>, ErrorText> {
    if !wants_metadata(target, runs) {
        Ok(None)
    } else {
        match observed {
            RuntimeFileObservation::PathMissing => Ok(None),
            RuntimeFileObservation::PathUnresolved(cause) => Err(
                ErrorText {
                    message: "Portboard runtime metadata path cannot be resolved"@,
                    cause: Some(cause@),
                },
            ),
            RuntimeFileObservation::RootUnresolved(cause) => Err(failure(cause@)),
            RuntimeFileObservation::Resolved { path, display, root, file } => if !lies_below(
                path@,
                root@,
            ) {
                Err(failure("Portboard runtime metadata must remain inside the worktree"@))
            } else {
                read_metadata(target, runs, live, display@, file)
            },
        }
    }
}

/// What loading metadata gave, as text.
pub open spec fn load_text(
    result: Result<Option<LaunchTargetRuntimeMetadata>, PortboardError>,
) -> Result<Option<MetadataText>, ErrorText> {
    match result {
        Ok(Some(metadata)) => Ok(Some(metadata@)),
        Ok(None) => Ok(None),
        Err(error) => Err(error@),
    }
}

/// Loads runtime metadata only when it belongs to the target's current live process.
pub fn load_launch_target_runtime_metadata(
    target: &LaunchTarget,
    processes: &Vec<LaunchTargetProcess>,
    live: &Vec<ProcessIdentity>,
    observed: RuntimeFileObservation,
) -> (result: Result<Option<LaunchTargetRuntimeMetadata>, PortboardError>)
    ensures
        load_text(result) == loaded_metadata(target@, run_texts(processes@), live@, observed),
{
    if !runtime_file_wanted(target, processes) {
        return Ok(None);
    }
    match observed {
        RuntimeFileObservation::PathMissing => Ok(None),
        RuntimeFileObservation::PathUnresolved(cause) => Err(
            PortboardError::with_cause(
                "Portboard runtime metadata path cannot be resolved".to_owned(),
                cause,
            ),
        ),
        RuntimeFileObservation::RootUnresolved(cause) => Err(PortboardError::new(cause)),
        RuntimeFileObservation::Resolved { path, display, root, file } => {
            if !runtime_file_readable(path.as_slice(), root.as_slice()) {
                return Err(
                    PortboardError::new(
                        "Portboard runtime metadata must remain inside the worktree".to_owned(),
                    ),
                );
            }
            match file {
                RuntimeFile::NotRead => Ok(None),
                RuntimeFile::Missing => Ok(None),
                RuntimeFile::Irregular => Err(
                    unreadable(
                        display.as_str(),
                        "Portboard runtime metadata must be a regular file".to_owned(),
                    ),
                ),
                RuntimeFile::Unreadable(cause) => Err(unreadable(display.as_str(), cause)),
                RuntimeFile::Read(bytes, parsed) => {
                    if bytes > RUNTIME_FILE_LIMIT {
                        return Err(
                            unreadable(
                                display.as_str(),
                                "Portboard runtime metadata exceeds 1 MiB".to_owned(),
                            ),
                        );
                    }
                    match parsed {
                        Err(cause) => {
                            let mut message =
                                "Portboard runtime metadata is invalid at ".to_owned();
                            message.append(display.as_str());
                            Err(PortboardError::with_cause(message, cause))
                        },
                        Ok(metadata) => {
                            match validate_runtime_metadata(target, &metadata, display.as_str()) {
                                Err(error) => Err(error),
                                Ok(_) => if any_run_authorizes(processes, live, metadata.pid) {
                                    Ok(Some(metadata))
                                } else {
                                    Ok(None)
                                },
                            }
                        },
                    }
                },
            }
        },
    }
}

/// Metadata is handed out only for a target with a live run: it names the target, and its pid
/// is the outermost process of a live run or a live process of it that shows the signature.
pub proof fn metadata_belongs_to_a_live_run(
    target: TargetText,
    runs: Seq<RunText>,
    live: Seq<ProcessIdentity>,
    observed: RuntimeFileObservation,
)
    ensures
        loaded_metadata(target, runs, live, observed) matches Ok(Some(metadata))
            ==> metadata.target_id == target.id && metadata.version == 1 && exists|i: int|
            0 <= i < runs.len() && live.contains(run_identity(#[trigger] runs[i])) && authorizes(
                runs[i],
                live,
                metadata.pid,
            ),
{
    match loaded_metadata(target, runs, live, observed) {
        Ok(Some(metadata)) => {
            let i = choose|i: int|
                0 <= i < runs.len() && authorizes(#[trigger] runs[i], live, metadata.pid);
            assert(live.contains(run_identity(runs[i])));
        },
        _ => {},
    }
}

/// Accepted metadata names its endpoints apart, each with an acceptable URL, and at most one is
/// primary.
pub proof fn accepted_metadata(target: TargetText, metadata: MetadataText, path: Seq<char>)
    requires
        metadata_refusal(target, metadata, path) is None,
    ensures
        endpoint_ids(metadata.endpoints).no_duplicates(),
        forall|i: int|
            0 <= i < metadata.endpoints.len() ==> is_plain_identifier(
                (#[trigger] metadata.endpoints[i]).id,
            ) && accepted_url(metadata.endpoints[i].url, parsed_url(metadata.endpoints[i].url)) is Ok
                && !has_control(metadata.endpoints[i].url),
        primary_count(metadata.endpoints, metadata.endpoints.len() as int) <= 1,
{
    let endpoints = metadata.endpoints;
    lemma_endpoints_accepted(endpoints, path, endpoints.len() as int);
    assert forall|i: int, j: int|
        0 <= i < endpoints.len() && 0 <= j < endpoints.len() && i != j implies endpoint_ids(
        endpoints,
    )[i] != endpoint_ids(endpoints)[j] by {
        let low = if i < j { i } else { j };
        let high = if i < j { j } else { i };
        if endpoint_ids(endpoints)[i] == endpoint_ids(endpoints)[j] {
            assert(endpoint_ids(endpoints).take(high)[low] == endpoints[high].id);
        }
    }
}

proof fn lemma_endpoints_accepted(endpoints: Seq<NamedText>, path: Seq<char>, count: int)
    requires
        0 <= count <= endpoints.len(),
        endpoints_refusal(endpoints, path, count) is None,
    ensures
        forall|i: int|
            0 <= i < count ==> is_plain_identifier((#[trigger] endpoints[i]).id) && !endpoint_ids(
                endpoints,
            ).take(i).contains(endpoints[i].id) && accepted_url(
                endpoints[i].url,
                parsed_url(endpoints[i].url),
            ) is Ok && !has_control(endpoints[i].url),
    decreases count,
{
    if count > 0 {
        lemma_endpoints_accepted(endpoints, path, count - 1);
    }
}

/// The primary endpoint is the first one that is marked as such, and there is none only where no
/// endpoint is.
pub proof fn the_first_primary_counts(endpoints: Seq<NamedText>)
    ensures
        match first_primary(endpoints) {
            Some(endpoint) => exists|i: int|
                0 <= i < endpoints.len() && #[trigger] endpoints[i] == endpoint && endpoint.primary
                    && forall|j: int| 0 <= j < i ==> !(#[trigger] endpoints[j]).primary,
            None => forall|i: int| 0 <= i < endpoints.len() ==> !(#[trigger] endpoints[i]).primary,
        },
    decreases endpoints.len(),
{
    if endpoints.len() > 0 {
        if endpoints[0].primary {
            assert(endpoints[0] == endpoints[0]);
        } else {
            let rest = endpoints.drop_first();
            the_first_primary_counts(rest);
            match first_primary(rest) {
                Some(endpoint) => {
                    let i = choose|i: int|
                        0 <= i < rest.len() && #[trigger] rest[i] == endpoint && endpoint.primary
                            && forall|j: int| 0 <= j < i ==> !(#[trigger] rest[j]).primary;
                    assert(endpoints[i + 1] == endpoint);
                    assert forall|j: int| 0 <= j < i + 1 implies !(
                    #[trigger] endpoints[j]).primary by {
                        if j > 0 {
                            assert(endpoints[j] == rest[j - 1]);
                        }
                    }
                },
                None => {
                    assert forall|i: int| 0 <= i < endpoints.len() implies !(
                    #[trigger] endpoints[i]).primary by {
                        if i > 0 {
                            assert(endpoints[i] == rest[i - 1]);
                        }
                    }
                },
            }
        }
    }
}

/// An endpoint is found by its name: the first one that has it, and none only where no endpoint
/// does.
pub proof fn endpoints_are_found_by_name(endpoints: Seq<NamedText>, id: Seq<char>)
    ensures
        match first_named(endpoints, id) {
            Some(endpoint) => exists|i: int|
                0 <= i < endpoints.len() && #[trigger] endpoints[i] == endpoint && endpoint.id == id
                    && forall|j: int| 0 <= j < i ==> (#[trigger] endpoints[j]).id != id,
            None => forall|i: int| 0 <= i < endpoints.len() ==> (#[trigger] endpoints[i]).id != id,
        },
    decreases endpoints.len(),
{
    if endpoints.len() > 0 {
        if endpoints[0].id == id {
            assert(endpoints[0] == endpoints[0]);
        } else {
            let rest = endpoints.drop_first();
            endpoints_are_found_by_name(rest, id);
            match first_named(rest, id) {
                Some(endpoint) => {
                    let i = choose|i: int|
                        0 <= i < rest.len() && #[trigger] rest[i] == endpoint && endpoint.id == id
                            && forall|j: int| 0 <= j < i ==> (#[trigger] rest[j]).id != id;
                    assert(endpoints[i + 1] == endpoint);
                    assert forall|j: int| 0 <= j < i + 1 implies (#[trigger] endpoints[j]).id
                        != id by {
                        if j > 0 {
                            assert(endpoints[j] == rest[j - 1]);
                        }
                    }
                },
                None => {
                    assert forall|i: int| 0 <= i < endpoints.len() implies (
                    #[trigger] endpoints[i]).id != id by {
                        if i > 0 {
                            assert(endpoints[i] == rest[i - 1]);
                        }
                    }
                },
            }
        }
    }
}

/// Whether an endpoint may be shown: its name is plain, its address is an accepted HTTP or HTTPS
/// one with a host, and its status, if it has one, says something that a terminal can show.
pub open spec fn is_showable(endpoint: NamedText) -> bool {
    &&& is_plain_identifier(endpoint.id)
    &&& accepted_url(endpoint.url, parsed_url(endpoint.url)) matches Ok(url) && (url.scheme
        == "http"@ || url.scheme == "https"@) && url.host_text is Some
    &&& endpoint.status matches Some(status) ==> !is_blank(status) && !has_control(status)
}

/// Metadata is accepted exactly where it is of the first version, names its target, says when it
/// was started, each of its endpoints may be shown and has a name of its own, and no two of them
/// are primary.
pub proof fn metadata_is_accepted_where_it_is_sound(
    target: TargetText,
    metadata: MetadataText,
    path: Seq<char>,
)
    ensures
        metadata_refusal(target, metadata, path) is None <==> metadata.version == 1
            && metadata.target_id == target.id && !is_blank(metadata.started_at) && (forall|i: int|
            0 <= i < metadata.endpoints.len() ==> is_showable(#[trigger] metadata.endpoints[i])) && (
        forall|i: int, j: int|
            0 <= i < j < metadata.endpoints.len() ==> (#[trigger] metadata.endpoints[i]).id != (
            #[trigger] metadata.endpoints[j]).id && !(metadata.endpoints[i].primary
                && metadata.endpoints[j].primary)),
{
    let endpoints = metadata.endpoints;
    let count = endpoints.len() as int;
    lemma_endpoints_showable(endpoints, path, count);
    lemma_primaries(endpoints, count);
    if forall|i: int, j: int|
        0 <= i < j < endpoints.len() ==> (#[trigger] endpoints[i]).id != (#[trigger] endpoints[j]).id
            && !(endpoints[i].primary && endpoints[j].primary) {
        assert forall|i: int, j: int| 0 <= i < j < count implies (#[trigger] endpoints[i]).id != (
        #[trigger] endpoints[j]).id by {
            assert(!(endpoints[i].primary && endpoints[j].primary));
        }
        assert forall|i: int, j: int| 0 <= i < j < count implies !((#[trigger] endpoints[i]).primary
            && (#[trigger] endpoints[j]).primary) by {
            assert(endpoints[i].id != endpoints[j].id);
        }
    }
}

proof fn lemma_endpoints_showable(endpoints: Seq<NamedText>, path: Seq<char>, count: int)
    requires
        0 <= count <= endpoints.len(),
    ensures
        endpoints_refusal(endpoints, path, count) is None <==> (forall|i: int|
            0 <= i < count ==> is_showable(#[trigger] endpoints[i])) && (forall|i: int, j: int|
            0 <= i < j < count ==> (#[trigger] endpoints[i]).id != (#[trigger] endpoints[j]).id),
    decreases count,
{
    if count > 0 {
        let last = count - 1;
        lemma_endpoints_showable(endpoints, path, last);
        let earlier = endpoint_ids(endpoints).take(last);
        if earlier.contains(endpoints[last].id) {
            let at = choose|at: int| 0 <= at < earlier.len() && earlier[at] == endpoints[last].id;
            assert(endpoints[at].id == endpoints[last].id);
        } else {
            assert forall|i: int| 0 <= i < last implies (#[trigger] endpoints[i]).id
                != endpoints[last].id by {
                assert(earlier[i] == endpoints[i].id);
                assert(earlier.contains(earlier[i]));
            }
        }
        if endpoints_refusal(endpoints, path, count) is None {
            assert forall|i: int, j: int| 0 <= i < j < count implies (#[trigger] endpoints[i]).id
                != (#[trigger] endpoints[j]).id by {
                if j == last {
                    assert(!earlier.contains(endpoints[last].id));
                }
            }
        }
    }
}

proof fn lemma_primaries(endpoints: Seq<NamedText>, count: int)
    requires
        0 <= count <= endpoints.len(),
    ensures
        primary_count(endpoints, count) == 0 <==> forall|i: int|
            0 <= i < count ==> !(#[trigger] endpoints[i]).primary,
        primary_count(endpoints, count) <= 1 <==> forall|i: int, j: int|
            0 <= i < j < count ==> !((#[trigger] endpoints[i]).primary && (
            #[trigger] endpoints[j]).primary),
    decreases count,
{
    if count > 0 {
        let last = count - 1;
        lemma_primaries(endpoints, last);
        if primary_count(endpoints, count) > 1 && primary_count(endpoints, last) <= 1 {
            assert(primary_count(endpoints, last) == 1);
            let i = choose|i: int| 0 <= i < last && (#[trigger] endpoints[i]).primary;
            assert(endpoints[i].primary && endpoints[last].primary);
        }
        if primary_count(endpoints, count) <= 1 {
            assert forall|i: int, j: int| 0 <= i < j < count implies !((
            #[trigger] endpoints[i]).primary && (#[trigger] endpoints[j]).primary) by {
                if j == last && endpoints[last].primary {
                    assert(primary_count(endpoints, last) == 0);
                }
            }
        }
    }
}

/// Whether the process that wrote metadata belongs to a run that still lives: it is the process
/// that began the run, or one of its members that lives too.
pub open spec fn writer_lives(runs: Seq<RunText>, live: Seq<ProcessIdentity>, pid: u32) -> bool {
    exists|i: int|
        0 <= i < runs.len() && live.contains(
            ProcessIdentity { pid: (#[trigger] runs[i]).pid, start_time: runs[i].start_time },
        ) && (runs[i].pid == pid || exists|member: ProcessIdentity| #[trigger]
            runs[i].metadata_members.contains(member) && member.pid == pid && live.contains(
                member,
            ))
}

proof fn lemma_writer_lives(runs: Seq<RunText>, live: Seq<ProcessIdentity>, pid: u32)
    ensures
        some_run_authorizes(runs, live, pid) <==> writer_lives(runs, live, pid),
{
    if some_run_authorizes(runs, live, pid) {
        let i = choose|i: int| 0 <= i < runs.len() && authorizes(#[trigger] runs[i], live, pid);
        let members = runs[i].metadata_members;
        if runs[i].pid != pid {
            let k = choose|k: int|
                0 <= k < members.len() && (#[trigger] members[k]).pid == pid && live.contains(
                    members[k],
                );
            assert(members.contains(members[k]));
        }
        assert(live.contains(
            ProcessIdentity { pid: runs[i].pid, start_time: runs[i].start_time },
        ));
    }
    if writer_lives(runs, live, pid) {
        let i = choose|i: int|
            0 <= i < runs.len() && live.contains(
                ProcessIdentity { pid: (#[trigger] runs[i]).pid, start_time: runs[i].start_time },
            ) && (runs[i].pid == pid || exists|member: ProcessIdentity| #[trigger]
                runs[i].metadata_members.contains(member) && member.pid == pid && live.contains(
                    member,
                ));
        let members = runs[i].metadata_members;
        if runs[i].pid != pid {
            let member = choose|member: ProcessIdentity| #[trigger]
                members.contains(member) && member.pid == pid && live.contains(member);
            let k = choose|k: int| 0 <= k < members.len() && members[k] == member;
            assert(members[k].pid == pid && live.contains(members[k]));
        }
        assert(authorizes(runs[i], live, pid));
    }
}

/// Metadata is handed out exactly where the target publishes some and runs, its file lies in the
/// worktree, holds at most 1 MiB, was parsed, is sound, and was written by a run that lives.
pub proof fn metadata_is_loaded_where_a_live_run_wrote_it(
    target: TargetText,
    runs: Seq<RunText>,
    live: Seq<ProcessIdentity>,
    observed: RuntimeFileObservation,
    found: MetadataText,
)
    ensures
        loaded_metadata(target, runs, live, observed) == Ok::<_, ErrorText>(Some(found)) <==> (
        runs.len() > 0 && target.runtime_file is Some && match observed {
            RuntimeFileObservation::Resolved {
                path,
                display,
                root,
                file: RuntimeFile::Read(bytes, Ok(metadata)),
            } => lies_below(path@, root@) && bytes <= 0x10_0000 && metadata@ == found
                && metadata_refusal(target, found, display@) is None && writer_lives(
                runs,
                live,
                found.pid,
            ),
            _ => false,
        }),
        loaded_metadata(target, runs, live, observed) is Err ==> runs.len() > 0
            && target.runtime_file is Some,
{
    lemma_writer_lives(runs, live, found.pid);
    match observed {
        RuntimeFileObservation::Resolved {
            path,
            display,
            root,
            file: RuntimeFile::Read(bytes, Ok(metadata)),
        } => {
            lemma_writer_lives(runs, live, metadata.pid);
            assert(metadata@.pid == metadata.pid);
        },
        _ => {},
    }
}

/// The metadata of a target that publishes some and runs is an error exactly where its path or the
/// worktree cannot be resolved, it lies outside, is no regular file, cannot be read, is too large,
/// was not parsed or is not sound. A file that is not there is none.
pub proof fn unusable_metadata_is_an_error(
    target: TargetText,
    runs: Seq<RunText>,
    live: Seq<ProcessIdentity>,
    observed: RuntimeFileObservation,
)
    requires
        runs.len() > 0,
        target.runtime_file is Some,
    ensures
        loaded_metadata(target, runs, live, observed) is Err <==> match observed {
            RuntimeFileObservation::PathMissing => false,
            RuntimeFileObservation::PathUnresolved(_) | RuntimeFileObservation::RootUnresolved(_)
                => true,
            RuntimeFileObservation::Resolved { path, display, root, file } => !lies_below(
                path@,
                root@,
            ) || match file {
                RuntimeFile::NotRead | RuntimeFile::Missing => false,
                RuntimeFile::Irregular | RuntimeFile::Unreadable(_) => true,
                RuntimeFile::Read(bytes, parsed) => bytes > 0x10_0000 || match parsed {
                    Err(_) => true,
                    Ok(metadata) => metadata_refusal(target, metadata@, display@) is Some,
                },
            },
        },
{
}

} // verus!
