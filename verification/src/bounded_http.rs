//! Small header-only HTTP transport for the dashboard's bodyless API.
//! No body reader, worker threads, or unbounded request queue.
use vstd::prelude::*;
use vstd::string::*;

use crate::lossy_text::{exact, exact_text};
use crate::text::{
    ascii_lowered_text, characters, contains_control, has_control, is_blank, is_text,
    is_white_space, optional_text, pieces_at, rows, same_but_for_ascii_case, split_at_each,
    split_first, text_of, texts_part_at_the_first_separator, trimmed, trimming_leaves_the_text,
};

verus! {

/// How many connections may wait for the end of their head.
pub const CONNECTION_LIMIT: usize = 16;

/// How many bytes a head may hold.
pub const HEADER_LIMIT: usize = 8192;

/// One header of a request.
#[derive(Debug, PartialEq, Eq)]
pub struct RequestHeader {
    pub field: String,
    pub value: String,
}

/// The head of a request.
#[derive(Debug, PartialEq, Eq)]
pub struct Request {
    pub method: String,
    pub url: String,
    pub headers: Vec<RequestHeader>,
}

/// What a header says.
pub struct HeaderText {
    pub field: Seq<char>,
    pub value: Seq<char>,
}

/// What the head of a request says.
pub struct RequestText {
    pub method: Seq<char>,
    pub url: Seq<char>,
    pub headers: Seq<HeaderText>,
}

impl View for RequestHeader {
    type V = HeaderText;

    open spec fn view(&self) -> HeaderText {
        HeaderText { field: self.field@, value: self.value@ }
    }
}

/// What every header of a list says.
pub open spec fn header_texts(headers: Seq<RequestHeader>) -> Seq<HeaderText> {
    Seq::new(headers.len(), |i: int| headers[i]@)
}

impl View for Request {
    type V = RequestText;

    open spec fn view(&self) -> RequestText {
        RequestText {
            method: self.method@,
            url: self.url@,
            headers: header_texts(self.headers@),
        }
    }
}

/// What an optional request says.
pub open spec fn optional_request(value: Option<Request>) -> Option<RequestText> {
    match value {
        Some(request) => Some(request@),
        None => None,
    }
}

/// A text of ASCII characters only.
pub open spec fn is_ascii_text(text: Seq<char>) -> bool {
    forall|i: int| 0 <= i < text.len() ==> (#[trigger] text[i] as u32) < 0x80
}

/// A text in which no white space stands.
pub open spec fn has_no_white_space(text: Seq<char>) -> bool {
    forall|i: int| 0 <= i < text.len() ==> !is_white_space(#[trigger] text[i])
}

/// The header that a line writes: a field without white space, a colon, and a value that is
/// trimmed; both of ASCII characters.
pub open spec fn header_of(line: Seq<char>) -> Option<HeaderText> {
    match split_first(line, ':') {
        Some((field, rest)) => if has_no_white_space(field) && is_ascii_text(field)
            && is_ascii_text(trimmed(rest)) {
            Some(HeaderText { field, value: trimmed(rest) })
        } else {
            None
        },
        None => None,
    }
}

/// What an optional header says.
pub open spec fn optional_header(value: Option<RequestHeader>) -> Option<HeaderText> {
    match value {
        Some(header) => Some(header@),
        None => None,
    }
}

/// `Header::from_str` of the `tiny_http` crate, with the field and the value taken out of its
/// result: it splits at the first colon, refuses a field with white space or beyond ASCII,
/// trims the value and refuses one beyond ASCII.
#[verifier::external_body]
pub(crate) fn parse_header(line: &str) -> (result: Option<RequestHeader>)
    ensures
        optional_header(result) == header_of(line@),
{
    match line.parse::<tiny_http::Header>() {
        Ok(header) => Some(RequestHeader {
            field: header.field.as_str().as_str().to_owned(),
            value: header.value.as_str().to_owned(),
        }),
        Err(()) => None,
    }
}

/// `Method::from_str` of the `tiny_http` crate, with the name of the method taken out of its
/// result: every ASCII text is the name of a method, and nothing else is.
#[verifier::external_body]
pub(crate) fn parse_method(name: &str) -> (result: Option<String>)
    ensures
        optional_text(result) == (if is_ascii_text(name@) {
            Some(name@)
        } else {
            None
        }),
{
    match name.parse::<tiny_http::Method>() {
        Ok(method) => Some(method.as_str().to_owned()),
        Err(()) => None,
    }
}

/// The lines of a head, which are separated by a carriage return and a line feed.
pub open spec fn head_lines(text: Seq<char>) -> Seq<Seq<char>>
    decreases text.len(),
{
    if text.len() == 0 {
        seq![Seq::<char>::empty()]
    } else if text.len() >= 2 && text[0] == '\r' && text[1] == '\n' {
        seq![Seq::<char>::empty()] + head_lines(text.skip(2))
    } else {
        let rest = head_lines(text.skip(1));
        seq![seq![text[0]] + rest[0]] + rest.skip(1)
    }
}

proof fn lemma_head_lines(text: Seq<char>)
    ensures
        head_lines(text).len() > 0,
    decreases text.len(),
{
    if text.len() >= 2 && text[0] == '\r' && text[1] == '\n' {
        lemma_head_lines(text.skip(2));
    } else if text.len() > 0 {
        lemma_head_lines(text.skip(1));
    }
}

/// What stands before the lines of a text on the line that it continues.
spec fn continued(current: Seq<char>, lines: Seq<Seq<char>>) -> Seq<Seq<char>> {
    seq![current + lines[0]] + lines.skip(1)
}

fn split_head(text: &[char]) -> (result: Vec<Vec<char>>)
    ensures
        rows(result@) == head_lines(text@),
        result.len() > 0,
{
    let mut result: Vec<Vec<char>> = Vec::new();
    let mut current: Vec<char> = Vec::new();
    let mut index: usize = 0;
    proof {
        lemma_head_lines(text@);
        assert(text@.skip(0) =~= text@);
        assert(current@ + head_lines(text@)[0] =~= head_lines(text@)[0]);
        assert(rows(result@) + continued(current@, head_lines(text@)) =~= head_lines(text@));
    }
    while index < text.len()
        invariant
            index <= text.len(),
            rows(result@) + continued(current@, head_lines(text@.skip(index as int)))
                == head_lines(text@),
        decreases text.len() - index,
    {
        let ghost rest = text@.skip(index as int);
        let ghost before = rows(result@);
        let ghost line = current@;
        if index + 1 < text.len() && text[index] == '\r' && text[index + 1] == '\n' {
            let ghost others = head_lines(rest.skip(2));
            proof {
                lemma_head_lines(rest.skip(2));
                assert(rest.skip(2) =~= text@.skip(index + 2));
                assert(head_lines(rest) == seq![Seq::<char>::empty()] + others);
            }
            result.push(current);
            current = Vec::new();
            index += 2;
            proof {
                assert(rows(result@) =~= before.push(line));
                assert(line + Seq::<char>::empty() =~= line);
                assert(Seq::<char>::empty() + others[0] =~= others[0]);
                assert(continued(line, seq![Seq::<char>::empty()] + others) =~= seq![line]
                    + others);
                assert(continued(current@, others) =~= others);
                assert(before.push(line) + others =~= before + (seq![line] + others));
            }
        } else {
            let ghost others = head_lines(rest.skip(1));
            proof {
                lemma_head_lines(rest.skip(1));
                assert(rest.skip(1) =~= text@.skip(index + 1));
            }
            current.push(text[index]);
            proof {
                let first = seq![rest[0]] + others[0];
                assert(current@ + others[0] =~= line + first);
                assert(continued(current@, others) =~= continued(line, head_lines(rest)));
            }
            index += 1;
        }
    }
    let ghost before = rows(result@);
    let ghost line = current@;
    proof {
        assert(text@.skip(index as int).len() == 0);
        assert(line + Seq::<char>::empty() =~= line);
        assert(continued(line, seq![Seq::<char>::empty()]) =~= seq![line]);
    }
    result.push(current);
    proof {
        assert(rows(result@) =~= before + seq![line]);
    }
    result
}

/// The headers that the lines from an index on write, where each of them writes one.
pub open spec fn headers_of(lines: Seq<Seq<char>>, count: int) -> Option<Seq<HeaderText>>
    decreases count,
{
    if count <= 1 {
        Some(Seq::empty())
    } else {
        match (headers_of(lines, count - 1), header_of(lines[count - 1])) {
            (Some(before), Some(header)) => Some(before.push(header)),
            _ => None,
        }
    }
}

/// The number of headers of a name, whatever the case of its letters.
pub open spec fn header_count(headers: Seq<HeaderText>, name: Seq<char>) -> nat
    decreases headers.len(),
{
    if headers.len() == 0 {
        0
    } else {
        header_count(headers.drop_last(), name) + if same_but_for_ascii_case(
            headers.last().field,
            name,
        ) {
            1nat
        } else {
            0nat
        }
    }
}

/// The request that a head writes. Duplicate host or token headers are ambiguous and must never
/// authorize a request.
pub open spec fn request_in_text(text: Seq<char>) -> Option<RequestText> {
    let lines = head_lines(text);
    let first = pieces_at(lines[0], ' ');
    if first.len() != 3 || !is_ascii_text(first[0]) {
        None
    } else if first[1].len() == 0 || first[1][0] != '/' || has_control(first[1]) {
        None
    } else if first[2] != "HTTP/1.1"@ && first[2] != "HTTP/1.0"@ {
        None
    } else {
        match headers_of(lines, lines.len() as int) {
            None => None,
            Some(headers) => if header_count(headers, "Host"@) > 1 || header_count(
                headers,
                "X-Portboard-Token"@,
            ) > 1 {
                None
            } else {
                Some(RequestText { method: first[0], url: first[1], headers })
            },
        }
    }
}

/// The request that the bytes of a head write.
pub open spec fn request_in(bytes: Seq<u8>) -> Option<RequestText> {
    match exact(bytes) {
        Some(text) => request_in_text(text),
        None => None,
    }
}

/// Whether a field has a name, whatever the case of its letters.
pub fn field_is(field: &str, name: &str) -> (result: bool)
    ensures
        result == same_but_for_ascii_case(field@, name@),
{
    let left = ascii_lowered_text(field);
    let right = ascii_lowered_text(name);
    left == right
}

fn occurs_twice(headers: &Vec<RequestHeader>, name: &str) -> (result: bool)
    ensures
        result == (header_count(header_texts(headers@), name@) > 1),
{
    let ghost shown = header_texts(headers@);
    let mut count: usize = 0;
    let mut index: usize = 0;
    while index < headers.len()
        invariant
            index <= headers.len(),
            shown == header_texts(headers@),
            count <= index,
            count == header_count(shown.take(index as int), name@),
        decreases headers.len() - index,
    {
        proof {
            assert(shown.take(index + 1).drop_last() =~= shown.take(index as int));
            assert(shown.take(index + 1).last() == headers@[index as int]@);
        }
        if field_is(headers[index].field.as_str(), name) {
            count += 1;
        }
        index += 1;
    }
    proof {
        assert(shown.take(shown.len() as int) =~= shown);
    }
    count > 1
}

proof fn lemma_headers_fail(lines: Seq<Seq<char>>, few: int, many: int)
    requires
        1 <= few <= many,
        headers_of(lines, few) is None,
    ensures
        headers_of(lines, many) is None,
    decreases many - few,
{
    if few < many {
        lemma_headers_fail(lines, few, many - 1);
    }
}

impl Request {
    /// Reads a head, without the empty line that ends it.
    pub fn parse(bytes: &[u8]) -> (result: Option<Request>)
        ensures
            optional_request(result) == request_in(bytes@),
    {
        match exact_text(bytes) {
            Some(text) => Request::parse_text(text.as_str()),
            None => None,
        }
    }

    /// Reads the text of a head.
    pub fn parse_text(text: &str) -> (result: Option<Request>)
        ensures
            optional_request(result) == request_in_text(text@),
    {
        let source = characters(text);
        let lines = split_head(source.as_slice());
        let ghost shown = head_lines(text@);
        proof {
            assert(rows(lines@).len() == lines.len());
            assert(shown[0] == lines@[0]@);
        }
        let first = split_at_each(lines[0].as_slice(), ' ');
        proof {
            assert(rows(first@).len() == first.len());
        }
        if first.len() != 3 {
            return None;
        }
        proof {
            assert(rows(first@)[0] == first@[0]@);
            assert(rows(first@)[1] == first@[1]@);
            assert(rows(first@)[2] == first@[2]@);
        }
        let name = text_of(first[0].as_slice());
        let method = match parse_method(name.as_str()) {
            Some(method) => method,
            None => {
                return None;
            },
        };
        let url = text_of(first[1].as_slice());
        if first[1].len() == 0 || first[1][0] != '/' || contains_control(url.as_str()) {
            return None;
        }
        if !is_text(first[2].as_slice(), "HTTP/1.1") && !is_text(first[2].as_slice(), "HTTP/1.0") {
            return None;
        }
        let mut headers: Vec<RequestHeader> = Vec::new();
        let mut index: usize = 1;
        proof {
            assert(header_texts(headers@) =~= Seq::<HeaderText>::empty());
        }
        while index < lines.len()
            invariant
                1 <= index <= lines.len(),
                rows(lines@) == shown,
                shown.len() == lines.len(),
                shown == head_lines(text@),
                headers_of(shown, index as int) == Some(header_texts(headers@)),
            decreases lines.len() - index,
        {
            proof {
                assert(shown[index as int] == lines@[index as int]@);
            }
            let line = text_of(lines[index].as_slice());
            match parse_header(line.as_str()) {
                Some(header) => {
                    let ghost before = header_texts(headers@);
                    let ghost added = header@;
                    headers.push(header);
                    proof {
                        assert(header_texts(headers@) =~= before.push(added));
                    }
                },
                None => {
                    proof {
                        lemma_headers_fail(shown, index + 1, shown.len() as int);
                    }
                    return None;
                },
            }
            index += 1;
        }
        if occurs_twice(&headers, "Host") || occurs_twice(&headers, "X-Portboard-Token") {
            return None;
        }
        Some(Request { method, url, headers })
    }

    pub fn method(&self) -> (result: &str)
        ensures
            result@ == self@.method,
    {
        self.method.as_str()
    }

    pub fn url(&self) -> (result: &str)
        ensures
            result@ == self@.url,
    {
        self.url.as_str()
    }

    pub fn headers(&self) -> (result: &Vec<RequestHeader>)
        ensures
            header_texts(result@) == self@.headers,
    {
        &self.headers
    }
}

/// A request that was read names a path, and holds at most one host and one token.
pub proof fn accepted_requests_are_unambiguous(bytes: Seq<u8>)
    ensures
        request_in(bytes) matches Some(request) ==> {
            &&& request.url.len() > 0 && request.url[0] == '/'
            &&& !has_control(request.url)
            &&& header_count(request.headers, "Host"@) <= 1
            &&& header_count(request.headers, "X-Portboard-Token"@) <= 1
        },
{
}

/// Where the empty line that ends a head stands, from an index on.
pub open spec fn head_end(bytes: Seq<u8>, from: int) -> Option<int>
    decreases bytes.len() - from,
{
    if from < 0 || from + 4 > bytes.len() {
        None
    } else if bytes[from] == 0x0D && bytes[from + 1] == 0x0A && bytes[from + 2] == 0x0D && bytes[
    from + 3] == 0x0A {
        Some(from)
    } else {
        head_end(bytes, from + 1)
    }
}

fn find_head_end(bytes: &Vec<u8>) -> (result: Option<usize>)
    ensures
        match (result, head_end(bytes@, 0)) {
            (Some(end), Some(expected)) => end == expected && end + 4 <= bytes@.len(),
            (None, None) => true,
            _ => false,
        },
{
    let mut index: usize = 0;
    while bytes.len() >= 4 && index <= bytes.len() - 4
        invariant
            index <= bytes.len(),
            head_end(bytes@, 0) == head_end(bytes@, index as int),
        decreases bytes.len() - index,
    {
        if bytes[index] == 0x0D && bytes[index + 1] == 0x0A && bytes[index + 2] == 0x0D && bytes[
        index + 3] == 0x0A {
            return Some(index);
        }
        index += 1;
    }
    None
}

/// What the bytes of a head that were received so far come to.
pub enum HeadText {
    Incomplete,
    Rejected,
    Complete(RequestText),
}

/// What received bytes come to: a head is complete at its empty line, and rejected where it is
/// longer than the limit or writes no request.
pub open spec fn head_progress(bytes: Seq<u8>) -> HeadText {
    match head_end(bytes, 0) {
        Some(end) => if end <= HEADER_LIMIT {
            match request_in(bytes.take(end)) {
                Some(request) => HeadText::Complete(request),
                None => HeadText::Rejected,
            }
        } else {
            HeadText::Rejected
        },
        None => if bytes.len() >= HEADER_LIMIT {
            HeadText::Rejected
        } else {
            HeadText::Incomplete
        },
    }
}

/// What looking at a waiting connection gave.
#[derive(Debug, PartialEq, Eq)]
pub enum ReadEvent {
    /// Its time is over.
    Expired,
    /// The peer closed it.
    Closed,
    /// Some bytes came.
    Bytes(Vec<u8>),
    /// Nothing came yet.
    NothingYet,
    /// It failed.
    Failed,
}

/// What is done with a waiting connection.
#[derive(Debug, PartialEq, Eq)]
pub enum ConnectionStep {
    /// It keeps waiting; the next one is looked at.
    Waits,
    /// It is dropped; another one may stand in its place.
    Dropped,
    /// Its head is complete; it waits no longer.
    Ready(Request),
}

/// A connection whose head is not complete: by which ticket it is known, and what came so far.
struct Pending {
    ticket: u64,
    bytes: Vec<u8>,
}

/// What a waiting connection is.
pub struct PendingText {
    pub ticket: u64,
    pub bytes: Seq<u8>,
}

/// The connections whose heads are not complete.
pub struct Server {
    pending: Vec<Pending>,
}

impl View for Server {
    type V = Seq<PendingText>;

    closed spec fn view(&self) -> Seq<PendingText> {
        Seq::new(
            self.pending@.len(),
            |i: int|
                PendingText { ticket: self.pending@[i].ticket, bytes: self.pending@[i].bytes@ },
        )
    }
}

/// At most as many connections wait as the limit allows, each with less than a whole head.
pub open spec fn is_bounded(pending: Seq<PendingText>) -> bool {
    &&& pending.len() <= CONNECTION_LIMIT
    &&& forall|i: int| 0 <= i < pending.len() ==> (#[trigger] pending[i]).bytes.len() < HEADER_LIMIT
}

/// A list without the item at an index, the last one in its place.
pub open spec fn swap_removed(pending: Seq<PendingText>, index: int) -> Seq<PendingText> {
    pending.update(index, pending.last()).drop_last()
}

/// What an event makes of the waiting connections, and of the one it is about.
pub open spec fn after_event(pending: Seq<PendingText>, index: int, event: ReadEvent) -> (
    Seq<PendingText>,
    HeadText,
) {
    match event {
        ReadEvent::NothingYet => (pending, HeadText::Incomplete),
        ReadEvent::Bytes(chunk) => if chunk@.len() == 0 {
            (swap_removed(pending, index), HeadText::Rejected)
        } else {
            let bytes = pending[index].bytes + chunk@;
            match head_progress(bytes) {
                HeadText::Incomplete => (
                    pending.update(index, PendingText { ticket: pending[index].ticket, bytes }),
                    HeadText::Incomplete,
                ),
                progress => (swap_removed(pending, index), progress),
            }
        },
        _ => (swap_removed(pending, index), HeadText::Rejected),
    }
}

/// What a step says of a connection.
pub open spec fn step_text(step: ConnectionStep) -> HeadText {
    match step {
        ConnectionStep::Waits => HeadText::Incomplete,
        ConnectionStep::Dropped => HeadText::Rejected,
        ConnectionStep::Ready(request) => HeadText::Complete(request@),
    }
}

impl Server {
    /// Nothing waits yet.
    pub fn new() -> (result: Self)
        ensures
            result@ == Seq::<PendingText>::empty(),
            is_bounded(result@),
    {
        let result = Server { pending: Vec::new() };
        proof {
            assert(result@ =~= Seq::<PendingText>::empty());
        }
        result
    }

    /// How many connections wait.
    pub fn waiting(&self) -> (result: usize)
        ensures
            result == self@.len(),
    {
        self.pending.len()
    }

    /// By which ticket a waiting connection is known.
    pub fn ticket(&self, index: usize) -> (result: u64)
        requires
            index < self@.len(),
        ensures
            result == self@[index as int].ticket,
    {
        self.pending[index].ticket
    }

    /// Takes a new connection in, unless as many wait as may.
    pub fn take_in(&mut self, ticket: u64) -> (result: bool)
        requires
            is_bounded(old(self)@),
        ensures
            is_bounded(final(self)@),
            result == (old(self)@.len() < CONNECTION_LIMIT),
            final(self)@ == (if result {
                old(self)@.push(PendingText { ticket, bytes: Seq::empty() })
            } else {
                old(self)@
            }),
    {
        let ghost before = self@;
        if self.pending.len() < CONNECTION_LIMIT {
            self.pending.push(Pending { ticket, bytes: Vec::new() });
            proof {
                assert(self@ =~= before.push(PendingText { ticket, bytes: Seq::empty() }));
            }
            true
        } else {
            false
        }
    }

    fn drop_connection(&mut self, index: usize)
        requires
            is_bounded(old(self)@),
            index < old(self)@.len(),
        ensures
            is_bounded(final(self)@),
            final(self)@ == swap_removed(old(self)@, index as int),
    {
        let ghost before = self@;
        self.pending.swap_remove(index);
        proof {
            assert(self@ =~= swap_removed(before, index as int));
            assert forall|i: int| 0 <= i < self@.len() implies (#[trigger] self@[i]).bytes.len()
                < HEADER_LIMIT by {
                assert(self@[i] == before[i] || self@[i] == before[before.len() - 1]);
            }
        }
    }

    /// Looks at one waiting connection.
    pub fn observe(&mut self, index: usize, event: ReadEvent) -> (result: ConnectionStep)
        requires
            is_bounded(old(self)@),
            index < old(self)@.len(),
        ensures
            is_bounded(final(self)@),
            (final(self)@, step_text(result)) == after_event(old(self)@, index as int, event),
    {
        let ghost before = self@;
        match event {
            ReadEvent::NothingYet => ConnectionStep::Waits,
            ReadEvent::Bytes(chunk) => {
                if chunk.len() == 0 {
                    self.drop_connection(index);
                    return ConnectionStep::Dropped;
                }
                let ticket: u64 = self.pending[index].ticket;
                let mut bytes: Vec<u8> = Vec::new();
                bytes.extend_from_slice(self.pending[index].bytes.as_slice());
                bytes.extend_from_slice(chunk.as_slice());
                proof {
                    assert(bytes@ =~= before[index as int].bytes + chunk@);
                }
                match find_head_end(&bytes) {
                    Some(end) => {
                        self.drop_connection(index);
                        if end <= HEADER_LIMIT {
                            let head = crate::text::copy_range(bytes.as_slice(), 0, end);
                            proof {
                                assert(head@ =~= bytes@.take(end as int));
                            }
                            match Request::parse(head.as_slice()) {
                                Some(request) => ConnectionStep::Ready(request),
                                None => ConnectionStep::Dropped,
                            }
                        } else {
                            ConnectionStep::Dropped
                        }
                    },
                    None => {
                        if bytes.len() >= HEADER_LIMIT {
                            self.drop_connection(index);
                            return ConnectionStep::Dropped;
                        }
                        let ghost kept = PendingText { ticket, bytes: bytes@ };
                        self.pending.set(index, Pending { ticket, bytes });
                        proof {
                            assert(self@ =~= before.update(index as int, kept));
                        }
                        ConnectionStep::Waits
                    },
                }
            },
            _ => {
                self.drop_connection(index);
                ConnectionStep::Dropped
            },
        }
    }
}

/// No event lets more connections wait or more bytes pile up than the limits allow.
pub proof fn waiting_connections_stay_bounded(
    pending: Seq<PendingText>,
    index: int,
    event: ReadEvent,
)
    requires
        is_bounded(pending),
        0 <= index < pending.len(),
    ensures
        is_bounded(after_event(pending, index, event).0),
        after_event(pending, index, event).0.len() <= pending.len(),
{
    let after = after_event(pending, index, event).0;
    assert forall|i: int| 0 <= i < after.len() implies (#[trigger] after[i]).bytes.len()
        < HEADER_LIMIT by {
        if i != index {
            assert(after[i] == pending[i]);
        } else {
            assert(pending[pending.len() - 1].bytes.len() < HEADER_LIMIT);
            assert(pending[index].bytes.len() < HEADER_LIMIT);
        }
    }
}

/// The lines of a head part at each carriage return that a line feed follows: the lines on both
/// sides of such a pair are those of either side, and a text without one is its only line.
pub proof fn head_lines_part_at_line_ends(left: Seq<char>, right: Seq<char>)
    ensures
        head_lines(left + seq!['\r', '\n'] + right) == head_lines(left) + head_lines(right),
        (forall|i: int|
            0 <= i < left.len() - 1 ==> !(#[trigger] left[i] == '\r' && left[i + 1] == '\n'))
            ==> head_lines(left) == seq![left],
        head_lines(left).len() > 0,
    decreases left.len(),
{
    let whole = left + seq!['\r', '\n'] + right;
    if left.len() == 0 {
        assert(whole.skip(2) =~= right);
        assert(left =~= Seq::<char>::empty());
        assert(head_lines(whole) =~= head_lines(left) + head_lines(right));
    } else if left.len() >= 2 && left[0] == '\r' && left[1] == '\n' {
        let rest = left.skip(2);
        head_lines_part_at_line_ends(rest, right);
        assert(whole.skip(2) =~= rest + seq!['\r', '\n'] + right);
        assert(head_lines(whole) =~= head_lines(left) + head_lines(right));
    } else {
        let rest = left.skip(1);
        head_lines_part_at_line_ends(rest, right);
        assert(whole.skip(1) =~= rest + seq!['\r', '\n'] + right);
        assert(whole[0] == left[0]);
        if left.len() == 1 {
            assert(whole[1] == '\r');
        } else {
            assert(whole[1] == left[1]);
        }
        assert(head_lines(whole) =~= head_lines(left) + head_lines(right));
        if forall|i: int|
            0 <= i < left.len() - 1 ==> !(#[trigger] left[i] == '\r' && left[i + 1] == '\n') {
            assert forall|i: int| 0 <= i < rest.len() - 1 implies !(#[trigger] rest[i] == '\r'
                && rest[i + 1] == '\n') by {
                assert(!(left[i + 1] == '\r' && left[i + 1 + 1] == '\n'));
            }
            assert(head_lines(left) =~= seq![left]) by {
                assert(seq![left[0]] + rest =~= left);
            }
        }
    }
}

/// A header is its field before the first colon and its value behind it without the white space
/// around that; there is none without a colon, with white space in the field, or with characters
/// beyond ASCII.
pub proof fn headers_part_at_the_first_colon(
    field: Seq<char>,
    lead: Seq<char>,
    value: Seq<char>,
    trail: Seq<char>,
)
    requires
        !field.contains(':'),
        is_blank(lead),
        is_blank(trail),
        value.len() > 0 ==> !is_white_space(value.first()) && !is_white_space(value.last()),
    ensures
        header_of(field) is None,
        header_of(field + seq![':'] + (lead + value + trail)) == (if (forall|i: int|
            0 <= i < field.len() ==> !is_white_space(#[trigger] field[i])) && (forall|i: int|
            0 <= i < field.len() ==> (#[trigger] field[i] as u32) < 0x80) && (forall|i: int|
            0 <= i < value.len() ==> (#[trigger] value[i] as u32) < 0x80) {
            Some(HeaderText { field, value })
        } else {
            None
        }),
{
    texts_part_at_the_first_separator(field, ':', lead + value + trail);
    trimming_leaves_the_text(lead, value, trail);
}

/// A field is counted once exactly where no two headers have its name, and not at all exactly
/// where none has.
pub proof fn fields_are_counted(headers: Seq<HeaderText>, name: Seq<char>)
    ensures
        header_count(headers, name) == 0 <==> forall|i: int|
            0 <= i < headers.len() ==> !same_but_for_ascii_case((#[trigger] headers[i]).field, name),
        header_count(headers, name) <= 1 <==> forall|i: int, j: int|
            0 <= i < j < headers.len() ==> !(same_but_for_ascii_case(
                (#[trigger] headers[i]).field,
                name,
            ) && same_but_for_ascii_case((#[trigger] headers[j]).field, name)),
    decreases headers.len(),
{
    if headers.len() > 0 {
        let fewer = headers.drop_last();
        let last = headers.len() - 1;
        fields_are_counted(fewer, name);
        let named = same_but_for_ascii_case(headers[last].field, name);
        if header_count(headers, name) == 0 {
            assert forall|i: int| 0 <= i < headers.len() implies !same_but_for_ascii_case(
                (#[trigger] headers[i]).field,
                name,
            ) by {
                if i < last {
                    assert(fewer[i] == headers[i]);
                }
            }
        }
        if forall|i: int|
            0 <= i < headers.len() ==> !same_but_for_ascii_case(
                (#[trigger] headers[i]).field,
                name,
            ) {
            assert forall|i: int| 0 <= i < fewer.len() implies !same_but_for_ascii_case(
                (#[trigger] fewer[i]).field,
                name,
            ) by {
                assert(fewer[i] == headers[i]);
            }
            assert(!named);
        }
        if header_count(headers, name) <= 1 {
            assert forall|i: int, j: int| 0 <= i < j < headers.len() implies !(
            same_but_for_ascii_case((#[trigger] headers[i]).field, name)
                && same_but_for_ascii_case((#[trigger] headers[j]).field, name)) by {
                assert(fewer[i] == headers[i]);
                if j < last {
                    assert(fewer[j] == headers[j]);
                } else if named {
                    assert(header_count(fewer, name) == 0);
                }
            }
        }
        if forall|i: int, j: int|
            0 <= i < j < headers.len() ==> !(same_but_for_ascii_case(
                (#[trigger] headers[i]).field,
                name,
            ) && same_but_for_ascii_case((#[trigger] headers[j]).field, name)) {
            assert forall|i: int, j: int| 0 <= i < j < fewer.len() implies !(
            same_but_for_ascii_case((#[trigger] fewer[i]).field, name) && same_but_for_ascii_case(
                (#[trigger] fewer[j]).field,
                name,
            )) by {
                assert(fewer[i] == headers[i] && fewer[j] == headers[j]);
            }
            if named {
                assert forall|i: int| 0 <= i < fewer.len() implies !same_but_for_ascii_case(
                    (#[trigger] fewer[i]).field,
                    name,
                ) by {
                    assert(fewer[i] == headers[i]);
                    assert(!(same_but_for_ascii_case(headers[i].field, name)
                        && same_but_for_ascii_case(headers[last].field, name)));
                }
            }
        }
    }
}

/// The headers of a request are those of its lines behind the first, one for each and in order;
/// a single line that is none spoils them all.
pub proof fn every_line_is_a_header(lines: Seq<Seq<char>>, count: int)
    requires
        1 <= count <= lines.len(),
    ensures
        match headers_of(lines, count) {
            Some(headers) => headers.len() == count - 1 && forall|i: int|
                0 <= i < headers.len() ==> header_of(lines[i + 1]) == Some(#[trigger] headers[i]),
            None => exists|i: int| 1 <= i < count && header_of(#[trigger] lines[i]) is None,
        },
    decreases count,
{
    if count > 1 {
        every_line_is_a_header(lines, count - 1);
        if headers_of(lines, count) is None && headers_of(lines, count - 1) is Some {
            assert(header_of(lines[count - 1]) is None);
        }
    }
}

/// A request is taken exactly where its first line holds an ASCII method, a path from the root
/// without control characters and a version of HTTP/1, parted by single spaces, where every other
/// line is a header, and where neither the host nor the token is named twice.
pub proof fn requests_are_taken_where_they_are_sound(text: Seq<char>, request: RequestText)
    ensures
        request_in_text(text) == Some(request) <==> ({
            let lines = head_lines(text);
            &&& exists|version: Seq<char>|
                #![trigger is_first_version(version)]
                is_first_version(version) && pieces_at(lines[0], ' ') == seq![
                    request.method,
                    request.url,
                    version,
                ]
            &&& is_ascii_text(request.method)
            &&& request.url.len() > 0 && request.url[0] == '/' && !has_control(request.url)
            &&& request.headers.len() == lines.len() - 1
            &&& forall|i: int|
                0 <= i < request.headers.len() ==> header_of(lines[i + 1]) == Some(
                    #[trigger] request.headers[i],
                )
            &&& is_named_once(request.headers, "Host"@)
            &&& is_named_once(request.headers, "X-Portboard-Token"@)
        }),
{
    let lines = head_lines(text);
    let first = pieces_at(lines[0], ' ');
    head_lines_part_at_line_ends(text, Seq::empty());
    every_line_is_a_header(lines, lines.len() as int);
    fields_are_counted(request.headers, "Host"@);
    fields_are_counted(request.headers, "X-Portboard-Token"@);
    if first.len() == 3 {
        assert(first =~= seq![first[0], first[1], first[2]]);
        assert(is_first_version(first[2]) <==> first[2] == "HTTP/1.1"@ || first[2] == "HTTP/1.0"@);
    }
    if let Some(headers) = headers_of(lines, lines.len() as int) {
        fields_are_counted(headers, "Host"@);
        fields_are_counted(headers, "X-Portboard-Token"@);
        if request.headers.len() == lines.len() - 1 && forall|i: int|
            0 <= i < request.headers.len() ==> header_of(lines[i + 1]) == Some(
                #[trigger] request.headers[i],
            ) {
            assert forall|i: int| 0 <= i < headers.len() implies headers[i]
                == request.headers[i] by {
                assert(header_of(lines[i + 1]) == Some(headers[i]));
                assert(header_of(lines[i + 1]) == Some(request.headers[i]));
            }
            assert(headers =~= request.headers);
        }
    } else {
        let i = choose|i: int| 1 <= i < lines.len() && header_of(#[trigger] lines[i]) is None;
        if request.headers.len() == lines.len() - 1 && forall|k: int|
            0 <= k < request.headers.len() ==> header_of(lines[k + 1]) == Some(
                #[trigger] request.headers[k],
            ) {
            assert(header_of(lines[i - 1 + 1]) == Some(request.headers[i - 1]));
        }
    }
}

/// Whether a text is one of the two versions of HTTP/1.
pub open spec fn is_first_version(version: Seq<char>) -> bool {
    version == "HTTP/1.0"@ || version == "HTTP/1.1"@
}

/// Whether at most one header has a name, whatever the case of its letters.
pub open spec fn is_named_once(headers: Seq<HeaderText>, name: Seq<char>) -> bool {
    forall|i: int, j: int|
        0 <= i < j < headers.len() ==> !(same_but_for_ascii_case(
            (#[trigger] headers[i]).field,
            name,
        ) && same_but_for_ascii_case((#[trigger] headers[j]).field, name))
}

/// Whether the pair of line ends that closes a head stands at an index.
pub open spec fn closes_head(bytes: Seq<u8>, at: int) -> bool {
    0 <= at && at + 4 <= bytes.len() && bytes[at] == 0x0D && bytes[at + 1] == 0x0A && bytes[at + 2]
        == 0x0D && bytes[at + 3] == 0x0A
}

/// A head ends before the first empty line, and has no end only where there is none.
pub proof fn heads_end_at_the_first_empty_line(bytes: Seq<u8>, from: int)
    requires
        0 <= from,
    ensures
        match head_end(bytes, from) {
            Some(end) => from <= end && closes_head(bytes, end) && forall|at: int|
                from <= at < end ==> !#[trigger] closes_head(bytes, at),
            None => forall|at: int| from <= at ==> !#[trigger] closes_head(bytes, at),
        },
    decreases bytes.len() - from,
{
    if from + 4 <= bytes.len() {
        heads_end_at_the_first_empty_line(bytes, from + 1);
    }
}

/// A head of at most 8192 bytes is complete at its first empty line exactly where what stands before
/// is a request; without an empty line it waits while it is shorter than that, and is otherwise
/// refused.
pub proof fn heads_are_complete_at_the_first_empty_line(bytes: Seq<u8>, end: int)
    ensures
        closes_head(bytes, end) && (forall|at: int|
            0 <= at < end ==> !#[trigger] closes_head(bytes, at)) ==> head_progress(bytes) == (
        match request_in(bytes.take(end)) {
            Some(request) => if end <= 8192 {
                HeadText::Complete(request)
            } else {
                HeadText::Rejected
            },
            None => HeadText::Rejected,
        }),
        (forall|at: int| !#[trigger] closes_head(bytes, at)) ==> head_progress(bytes) == (
        if bytes.len() < 8192 {
            HeadText::Incomplete
        } else {
            HeadText::Rejected
        }),
{
    heads_end_at_the_first_empty_line(bytes, 0);
    if closes_head(bytes, end) && (forall|at: int|
        0 <= at < end ==> !#[trigger] closes_head(bytes, at)) {
        match head_end(bytes, 0) {
            Some(found) => {
                if found < end {
                    assert(!closes_head(bytes, found));
                }
                if end < found {
                    assert(!closes_head(bytes, end));
                }
            },
            None => {
                assert(!closes_head(bytes, end));
            },
        }
    }
}

/// What happens to one connection leaves all the others as they are. It waits on where nothing
/// came or its head is not complete, with everything that came so far; it is gone where it is
/// closed, failed, expired, refused or complete.
pub proof fn connections_do_not_disturb_each_other(
    pending: Seq<PendingText>,
    index: int,
    event: ReadEvent,
    other: int,
)
    requires
        0 <= index < pending.len(),
        0 <= other < pending.len(),
        other != index,
    ensures
        ({
            let (after, progress) = after_event(pending, index, event);
            &&& after.contains(pending[other])
            &&& progress is Incomplete <==> after.len() == pending.len()
            &&& !(progress is Incomplete) ==> after.len() == pending.len() - 1
            &&& event is NothingYet ==> after == pending && progress is Incomplete
            &&& event is Expired || event is Closed || event is Failed ==> progress is Rejected
            &&& event matches ReadEvent::Bytes(chunk) ==> {
                &&& chunk@.len() == 0 ==> progress is Rejected
                &&& chunk@.len() > 0 ==> progress == head_progress(
                    pending[index].bytes + chunk@,
                )
                &&& progress is Incomplete ==> after[index].ticket == pending[index].ticket
                    && after[index].bytes == pending[index].bytes + chunk@
            }
        }),
{
    let (after, progress) = after_event(pending, index, event);
    if progress is Incomplete {
        assert(after[other] == pending[other]);
    } else if other == pending.len() - 1 {
        assert(after[index] == pending[other]);
    } else {
        assert(after[other] == pending[other]);
    }
}

} // verus!
