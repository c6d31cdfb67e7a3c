//! Browser-ready URLs and how they reach a browser or a terminal.
use vstd::prelude::*;
use vstd::string::*;
use vstd::utf8::*;

use crate::current_workspace_status::{CurrentLaunchTargetStatus, StatusText};
use crate::ip_text::IpAddress;
use crate::numbers::{decimal, push_decimal};
use crate::portboard_error::{failure, ErrorText, PortboardError};
use crate::runtime_metadata::{first_primary, find_primary, the_first_primary_counts};
use crate::text::{
    characters, contains_control, copy_range, has_control, holds_character, is_text, optional_text,
    same_text, text_of,
};

verus! {

/// What happened when Portboard tried to open a browser URL.
#[derive(Clone, Copy, Debug, PartialEq, Eq, Structural)]
pub enum UrlOpenOutcome {
    /// A local desktop browser was launched on this machine.
    OpenedLocally,
    /// This machine is reached over SSH (including `herdr --remote`), so no
    /// server-side browser was started; the URL is offered as a clickable link.
    OfferedLink,
}

/// The host of a URL.
#[derive(Debug, PartialEq, Eq)]
pub enum UrlHost {
    Domain(String),
    Address(IpAddress),
}

/// The parts of a parsed URL.
#[derive(Debug, PartialEq, Eq)]
pub struct UrlParts {
    pub scheme: String,
    pub host: Option<UrlHost>,
    /// The host as the URL writes it.
    pub host_text: Option<String>,
    /// The port, or the one that the scheme implies.
    pub port: Option<u16>,
    pub path: String,
    pub query: Option<String>,
}

/// What the host of a URL is.
pub enum HostText {
    Domain(Seq<char>),
    Address(IpAddress),
}

/// What the parts of a parsed URL are.
pub struct UrlText {
    pub scheme: Seq<char>,
    pub host: Option<HostText>,
    pub host_text: Option<Seq<char>>,
    pub port: Option<u16>,
    pub path: Seq<char>,
    pub query: Option<Seq<char>>,
}

impl View for UrlHost {
    type V = HostText;

    open spec fn view(&self) -> HostText {
        match *self {
            UrlHost::Domain(name) => HostText::Domain(name@),
            UrlHost::Address(address) => HostText::Address(address),
        }
    }
}

impl View for UrlParts {
    type V = UrlText;

    open spec fn view(&self) -> UrlText {
        UrlText {
            scheme: self.scheme@,
            host: match self.host {
                Some(host) => Some(host@),
                None => None,
            },
            host_text: optional_text(self.host_text),
            port: self.port,
            path: self.path@,
            query: optional_text(self.query),
        }
    }
}

/// What an optional URL is.
pub open spec fn optional_url(value: Option<UrlParts>) -> Option<UrlText> {
    match value {
        Some(parts) => Some(parts@),
        None => None,
    }
}

/// What `url::Url::parse` makes of a text.
pub uninterp spec fn parsed_url(text: Seq<char>) -> Option<UrlText>;

/// `url::Url::parse` of the `url` crate, with the parts of its result taken out one by one. The
/// result is a function of the text alone; which texts are URLs, and what their parts are, has
/// only a name here.
#[verifier::external_body]
pub(crate) fn parse_url(text: &str) -> (result: Option<UrlParts>)
    ensures
        optional_url(result) == parsed_url(text@),
{
    let parsed = match url::Url::parse(text) { Ok(parsed) => parsed, Err(_) => return None };
    Some(UrlParts {
        scheme: parsed.scheme().to_owned(),
        host: match parsed.host() {
            Some(url::Host::Domain(name)) => Some(UrlHost::Domain(name.to_owned())),
            Some(url::Host::Ipv4(ip)) => Some(UrlHost::Address(IpAddress::V4(ip.octets()))),
            Some(url::Host::Ipv6(ip)) => Some(UrlHost::Address(IpAddress::V6(ip.segments()))),
            None => None,
        },
        host_text: parsed.host_str().map(str::to_owned),
        port: parsed.port_or_known_default(),
        path: parsed.path().to_owned(),
        query: parsed.query().map(str::to_owned),
    })
}

/// What is accepted of a text, given what parsing made of it: a URL without control characters
/// that names a web scheme and a host.
pub open spec fn accepted_url(value: Seq<char>, parsed: Option<UrlText>) -> Result<
    UrlText,
    ErrorText,
> {
    if has_control(value) {
        Err(failure("Portboard URL contains control characters"@))
    } else {
        match parsed {
            None => Err(failure("Portboard URL is invalid"@)),
            Some(url) => if (url.scheme == "http"@ || url.scheme == "https"@) && url.host is Some {
                Ok(url)
            } else {
                Err(failure("Portboard URL requires HTTP or HTTPS and a host"@))
            },
        }
    }
}

/// What a check of a URL gave, as text.
pub open spec fn checked_text(result: Result<UrlParts, PortboardError>) -> Result<
    UrlText,
    ErrorText,
> {
    match result {
        Ok(parts) => Ok(parts@),
        Err(error) => Err(error@),
    }
}

/// Decides on a text, given what parsing made of it. The raw value is looked at first, before
/// parsing can strip or encode controls.
pub fn accept_browser_url(value: &str, parsed: Option<UrlParts>) -> (result: Result<
    UrlParts,
    PortboardError,
>)
    ensures
        checked_text(result) == accepted_url(value@, optional_url(parsed)),
{
    if contains_control(value) {
        return Err(PortboardError::new("Portboard URL contains control characters".to_owned()));
    }
    match parsed {
        None => Err(PortboardError::new("Portboard URL is invalid".to_owned())),
        Some(parts) => {
            if (same_text(parts.scheme.as_str(), "http") || same_text(
                parts.scheme.as_str(),
                "https",
            )) && parts.host.is_some() {
                Ok(parts)
            } else {
                Err(
                    PortboardError::new(
                        "Portboard URL requires HTTP or HTTPS and a host".to_owned(),
                    ),
                )
            }
        },
    }
}

/// Validates the raw value before URL parsing can strip or encode controls.
pub fn validate_browser_url(value: &str) -> (result: Result<UrlParts, PortboardError>)
    ensures
        checked_text(result) == accepted_url(value@, parsed_url(value@)),
{
    let parsed = parse_url(value);
    accept_browser_url(value, parsed)
}

/// What `base64`'s standard engine makes of some bytes.
pub uninterp spec fn base64_of(bytes: Seq<u8>) -> Seq<char>;

/// The characters of the standard base64 alphabet and its padding.
pub open spec fn is_base64_character(character: char) -> bool {
    crate::text::is_ascii_word_character(character) || character == '+' || character == '/'
        || character == '='
}

/// `Engine::encode` of the `base64` crate with its `STANDARD` engine. The encoded text is made
/// of the alphabet's characters only; which ones has only a name here. It is a third longer
/// than the bytes, which leaves out bytes whose encoding no allocation can hold.
#[verifier::external_body]
pub(crate) fn base64_text(bytes: &[u8]) -> (result: String)
    requires
        bytes@.len() <= isize::MAX / 2,
    ensures
        result@ == base64_of(bytes@),
        forall|i: int| 0 <= i < result@.len() ==> is_base64_character(#[trigger] result@[i]),
{
    base64::Engine::encode(&base64::engine::general_purpose::STANDARD, bytes)
}

/// The terminal sequence that copies a URL to the clipboard, given what parsing made of it.
pub open spec fn clipboard_text(url: Seq<char>, parsed: Option<UrlText>) -> Option<Seq<char>> {
    match accepted_url(url, parsed) {
        Ok(_) => Some("\x1b]52;c;"@ + base64_of(encode_utf8(url)) + "\x07"@),
        Err(_) => None,
    }
}

/// Copies a URL to the terminal clipboard with OSC 52 (base64-encoded): gives the sequence to
/// write, and none for what is no acceptable URL.
///
/// OSC 52 needs no helper binary and works across SSH because the terminal that owns the pane
/// does the copy, so it is the right choice for a panel that can run remotely.
pub fn copy_url_to_clipboard(url: &str) -> (result: Option<String>)
    requires
        encode_utf8(url@).len() <= isize::MAX / 2,
    ensures
        optional_text(result) == clipboard_text(url@, parsed_url(url@)),
        result matches Some(sequence) ==> carries_only_base64(sequence@),
{
    match validate_browser_url(url) {
        Err(_) => None,
        Ok(_) => {
            let encoded = base64_text(url.as_bytes());
            let mut sequence = "\x1b]52;c;".to_owned();
            sequence.append(encoded.as_str());
            sequence.append("\x07");
            proof {
                reveal_strlit("\x1b]52;c;");
                reveal_strlit("\x07");
                let payload = sequence@.subrange(7, sequence@.len() - 1);
                assert(payload =~= encoded@);
                assert(sequence@.take(7) =~= "\x1b]52;c;"@);
                assert(sequence@.last() == '\x07');
            }
            Some(sequence)
        },
    }
}

/// A clipboard sequence whose payload, between the opening and the closing control character,
/// is made of the base64 alphabet.
pub open spec fn carries_only_base64(sequence: Seq<char>) -> bool {
    &&& sequence.len() >= 8
    &&& sequence.take(7) == "\x1b]52;c;"@
    &&& sequence.last() == '\x07'
    &&& forall|i: int| 7 <= i < sequence.len() - 1 ==> is_base64_character(#[trigger] sequence[i])
}

/// What stands for a URL in a terminal, given what parsing made of it.
pub open spec fn hyperlink_text(url: Seq<char>, parsed: Option<UrlText>) -> Seq<char> {
    match accepted_url(url, parsed) {
        Ok(_) => "\x1b]8;;"@ + url + "\x1b\\"@ + url + "\x1b]8;;\x1b\\"@,
        Err(_) => "[invalid URL]"@,
    }
}

/// Wraps an accepted URL in an OSC 8 terminal hyperlink, given what parsing made of it.
pub fn hyperlink_for(url: &str, parsed: Option<UrlParts>) -> (result: String)
    ensures
        result@ == hyperlink_text(url@, optional_url(parsed)),
{
    match accept_browser_url(url, parsed) {
        Err(_) => "[invalid URL]".to_owned(),
        Ok(_) => {
            let mut link = "\x1b]8;;".to_owned();
            link.append(url);
            link.append("\x1b\\");
            link.append(url);
            link.append("\x1b]8;;\x1b\\");
            link
        },
    }
}

/// Wraps a URL in an OSC 8 terminal hyperlink.
///
/// Herdr ctrl-click opens both OSC 8 hyperlinks and visible http(s) URLs, and
/// that click is handled by the local client, so the link keeps working when
/// the pane lives on a remote server behind `herdr --remote`.
pub fn osc8_hyperlink(url: &str) -> (result: String)
    ensures
        result@ == hyperlink_text(url@, parsed_url(url@)),
{
    let parsed = parse_url(url);
    hyperlink_for(url, parsed)
}

/// A URL with a control character never reaches the terminal: neither the hyperlink nor the
/// clipboard carries anything of it, whatever parsing made of it.
pub proof fn controls_never_reach_the_terminal(url: Seq<char>, parsed: Option<UrlText>)
    requires
        has_control(url),
    ensures
        hyperlink_text(url, parsed) == "[invalid URL]"@,
        !has_control(hyperlink_text(url, parsed)),
        clipboard_text(url, parsed) is None,
{
    reveal_strlit("[invalid URL]");
}

/// What is done with a URL that shall be opened.
#[derive(Clone, Copy, Debug, PartialEq, Eq, Structural)]
pub enum BrowserPlan {
    Launch,
    OfferLink,
}

/// A browser is launched for an acceptable URL, on a desktop that is not reached over SSH.
pub open spec fn browser_plan(
    url: Seq<char>,
    parsed: Option<UrlText>,
    over_ssh: bool,
    has_display: bool,
) -> BrowserPlan {
    if accepted_url(url, parsed) is Ok && !over_ssh && has_display {
        BrowserPlan::Launch
    } else {
        BrowserPlan::OfferLink
    }
}

/// Decides whether a browser is launched, given what parsing made of the URL.
pub fn plan_for(url: &str, parsed: Option<UrlParts>, over_ssh: bool, has_display: bool) -> (result:
    BrowserPlan)
    ensures
        result == browser_plan(url@, optional_url(parsed), over_ssh, has_display),
{
    match accept_browser_url(url, parsed) {
        Ok(_) => if !over_ssh && has_display {
            BrowserPlan::Launch
        } else {
            BrowserPlan::OfferLink
        },
        Err(_) => BrowserPlan::OfferLink,
    }
}

/// Decides whether the URL is opened in a browser: only when Portboard runs on a local desktop.
///
/// SSH sessions (including panes on a remote Herdr server reached through
/// `herdr --remote`) never spawn a server-side browser; callers should present
/// the URL as a clickable link instead so the local client can open it.
pub fn open_browser_url(url: &str, over_ssh: bool, has_display: bool) -> (result: BrowserPlan)
    ensures
        result == browser_plan(url@, parsed_url(url@), over_ssh, has_display),
{
    let parsed = parse_url(url);
    plan_for(url, parsed, over_ssh, has_display)
}

impl BrowserPlan {
    /// What happened, once a launch was tried where one was planned.
    pub fn outcome(self, launched: bool) -> (result: UrlOpenOutcome)
        ensures
            result == (if self == BrowserPlan::Launch && launched {
                UrlOpenOutcome::OpenedLocally
            } else {
                UrlOpenOutcome::OfferedLink
            }),
    {
        match self {
            BrowserPlan::Launch => if launched {
                UrlOpenOutcome::OpenedLocally
            } else {
                UrlOpenOutcome::OfferedLink
            },
            BrowserPlan::OfferLink => UrlOpenOutcome::OfferedLink,
        }
    }
}

/// Whether a variable is set to something.
pub open spec fn is_set(value: Option<Vec<u8>>) -> bool {
    value matches Some(bytes) && bytes@.len() > 0
}

/// Whether one of the variables that an SSH session sets holds something.
pub fn running_over_ssh(connection: &Option<Vec<u8>>, terminal: &Option<Vec<u8>>) -> (result: bool)
    ensures
        result == (is_set(*connection) || is_set(*terminal)),
{
    let connected = match connection {
        Some(value) => value.len() > 0,
        None => false,
    };
    let attached = match terminal {
        Some(value) => value.len() > 0,
        None => false,
    };
    connected || attached
}

/// A bracket of either kind.
pub open spec fn is_bracket(character: char) -> bool {
    character == '[' || character == ']'
}

pub open spec fn without_leading_brackets(text: Seq<char>) -> Seq<char>
    decreases text.len(),
{
    if text.len() > 0 && is_bracket(text.first()) {
        without_leading_brackets(text.drop_first())
    } else {
        text
    }
}

pub open spec fn without_trailing_brackets(text: Seq<char>) -> Seq<char>
    decreases text.len(),
{
    if text.len() > 0 && is_bracket(text.last()) {
        without_trailing_brackets(text.drop_last())
    } else {
        text
    }
}

/// The address by which a listener is reached from this machine: without brackets, and the
/// loopback address in place of the wildcard.
pub open spec fn listener_host(address: Seq<char>) -> Seq<char> {
    let bare = without_trailing_brackets(without_leading_brackets(address));
    if bare == "0.0.0.0"@ {
        "127.0.0.1"@
    } else if bare == "::"@ {
        "::1"@
    } else {
        bare
    }
}

/// The URL of a listener.
pub open spec fn listener_url(address: Seq<char>, port: u16) -> Seq<char> {
    let host = listener_host(address);
    if host.contains(':') {
        "http://["@ + host + "]:"@ + decimal(port as nat)
    } else {
        "http://"@ + host + ":"@ + decimal(port as nat)
    }
}

fn trim_brackets(text: &Vec<char>) -> (result: Vec<char>)
    ensures
        result@ == without_trailing_brackets(without_leading_brackets(text@)),
{
    let mut from: usize = 0;
    proof {
        assert(text@.skip(0) =~= text@);
    }
    while from < text.len() && (text[from] == '[' || text[from] == ']')
        invariant
            from <= text.len(),
            without_leading_brackets(text@) == without_leading_brackets(text@.skip(from as int)),
        decreases text.len() - from,
    {
        proof {
            assert(text@.skip(from as int).drop_first() =~= text@.skip(from + 1));
        }
        from += 1;
    }
    let ghost rest = text@.skip(from as int);
    proof {
        assert(rest == without_leading_brackets(text@));
    }
    let mut to: usize = text.len();
    proof {
        assert(rest.take(rest.len() as int) =~= rest);
    }
    while to > from && (text[to - 1] == '[' || text[to - 1] == ']')
        invariant
            from <= to <= text.len(),
            rest == text@.skip(from as int),
            without_trailing_brackets(rest) == without_trailing_brackets(rest.take(to - from)),
        decreases to - from,
    {
        proof {
            assert(rest.take(to - from).last() == text@[to - 1]);
            assert(rest.take(to - from).drop_last() =~= rest.take(to - from - 1));
        }
        to -= 1;
    }
    proof {
        if to > from {
            assert(rest.take(to - from).last() == text@[to - 1]);
        }
        assert(text@.subrange(from as int, to as int) =~= rest.take(to - from));
    }
    copy_range(text.as_slice(), from, to)
}

/// Convert a kernel TCP bind address into a browser authority, consistently.
pub fn listener_browser_url(address: &str, port: u16) -> (result: String)
    ensures
        result@ == listener_url(address@, port),
{
    let source = characters(address);
    let bare = trim_brackets(&source);
    let host = if is_text(bare.as_slice(), "0.0.0.0") {
        characters("127.0.0.1")
    } else if is_text(bare.as_slice(), "::") {
        characters("::1")
    } else {
        bare
    };
    let text = text_of(host.as_slice());
    if holds_character(host.as_slice(), ':') {
        let mut result = "http://[".to_owned();
        result.append(text.as_str());
        result.append("]:");
        push_decimal(&mut result, port as u64);
        result
    } else {
        let mut result = "http://".to_owned();
        result.append(text.as_str());
        result.append(":");
        push_decimal(&mut result, port as u64);
        result
    }
}

/// The best URL of a status: the primary named endpoint, the first named one, then the first
/// listener.
pub open spec fn best_url(status: StatusText) -> Option<Seq<char>> {
    match first_primary(status.named_endpoints) {
        Some(primary) => Some(primary.url),
        None => if status.named_endpoints.len() > 0 {
            Some(status.named_endpoints[0].url)
        } else if status.endpoints.len() > 0 {
            Some(listener_url(status.endpoints[0].address, status.endpoints[0].port))
        } else {
            None
        },
    }
}

/// Returns the best browser-ready URL for a launch target status.
///
/// Preference order: the primary named runtime endpoint, the first named
/// endpoint, then the first discovered TCP listener as an HTTP URL.
pub fn browser_url(status: &CurrentLaunchTargetStatus) -> (result: Option<String>)
    ensures
        optional_text(result) == best_url(status@),
{
    match find_primary(&status.named_endpoints) {
        Some(primary) => {
            return Some(primary.url.clone());
        },
        None => {},
    }
    proof {
        assert(status@.named_endpoints.len() == status.named_endpoints.len());
        assert(status@.endpoints.len() == status.endpoints.len());
    }
    if status.named_endpoints.len() > 0 {
        proof {
            assert(status@.named_endpoints[0] == status.named_endpoints@[0]@);
        }
        return Some(status.named_endpoints[0].url.clone());
    }
    if status.endpoints.len() > 0 {
        proof {
            assert(status@.endpoints[0] == status.endpoints@[0]@);
        }
        return Some(
            listener_browser_url(status.endpoints[0].address.as_str(), status.endpoints[0].port),
        );
    }
    None
}

/// A URL is accepted exactly where it holds no control character, was parsed, and has a host to
/// be reached by HTTP or HTTPS; what is accepted is what was parsed.
pub proof fn only_web_addresses_are_accepted(
    value: Seq<char>,
    parsed: Option<UrlText>,
    url: UrlText,
)
    ensures
        accepted_url(value, parsed) == Ok::<_, ErrorText>(url) <==> !has_control(value) && parsed
            == Some(url) && (url.scheme == "http"@ || url.scheme == "https"@) && url.host is Some,
        clipboard_text(value, parsed) is Some <==> accepted_url(value, parsed) is Ok,
{
}

/// A browser is launched exactly for an accepted URL on a machine with a display that is not
/// reached from elsewhere.
pub proof fn browsers_open_at_the_user(
    url: Seq<char>,
    parsed: Option<UrlText>,
    over_ssh: bool,
    has_display: bool,
)
    ensures
        browser_plan(url, parsed, over_ssh, has_display) is Launch <==> accepted_url(
            url,
            parsed,
        ) is Ok && !over_ssh && has_display,
{
}

/// The address of a listener is reached without the brackets around it; an address that stands
/// for all of the machine is reached at its loopback address.
pub proof fn listeners_are_reached_at_their_address(
    opening: Seq<char>,
    address: Seq<char>,
    closing: Seq<char>,
)
    requires
        forall|i: int|
            0 <= i < opening.len() ==> #[trigger] opening[i] == '[' || opening[i] == ']',
        forall|i: int|
            0 <= i < closing.len() ==> #[trigger] closing[i] == '[' || closing[i] == ']',
        address.len() > 0,
        address.first() != '[' && address.first() != ']',
        address.last() != '[' && address.last() != ']',
    ensures
        listener_host(opening + address + closing) == (if address == "0.0.0.0"@ {
            "127.0.0.1"@
        } else if address == "::"@ {
            "::1"@
        } else {
            address
        }),
{
    lemma_leading_brackets(opening, address + closing);
    assert(opening + address + closing =~= opening + (address + closing));
    lemma_trailing_brackets(address, closing);
}

proof fn lemma_leading_brackets(opening: Seq<char>, rest: Seq<char>)
    requires
        forall|i: int|
            0 <= i < opening.len() ==> #[trigger] opening[i] == '[' || opening[i] == ']',
        rest.len() > 0,
        !is_bracket(rest.first()),
    ensures
        without_leading_brackets(opening + rest) == rest,
    decreases opening.len(),
{
    let all = opening + rest;
    if opening.len() > 0 {
        assert(all.first() == opening[0]);
        let fewer = opening.drop_first();
        assert forall|i: int| 0 <= i < fewer.len() implies #[trigger] fewer[i] == '[' || fewer[i]
            == ']' by {
            assert(opening[i + 1] == '[' || opening[i + 1] == ']');
        }
        assert(all.drop_first() =~= fewer + rest);
        lemma_leading_brackets(fewer, rest);
    } else {
        assert(all =~= rest);
    }
}

proof fn lemma_trailing_brackets(rest: Seq<char>, closing: Seq<char>)
    requires
        forall|i: int|
            0 <= i < closing.len() ==> #[trigger] closing[i] == '[' || closing[i] == ']',
        rest.len() > 0,
        !is_bracket(rest.last()),
    ensures
        without_trailing_brackets(rest + closing) == rest,
    decreases closing.len(),
{
    let all = rest + closing;
    if closing.len() > 0 {
        assert(all.last() == closing[closing.len() - 1]);
        let fewer = closing.drop_last();
        assert forall|i: int| 0 <= i < fewer.len() implies #[trigger] fewer[i] == '[' || fewer[i]
            == ']' by {
            assert(closing[i] == '[' || closing[i] == ']');
        }
        assert(all.drop_last() =~= rest + fewer);
        lemma_trailing_brackets(rest, fewer);
    } else {
        assert(all =~= rest);
    }
}

/// The URL of a listener names its host, in brackets exactly where that holds a colon, and its
/// port.
pub proof fn listener_urls_bracket_colons(address: Seq<char>, port: u16)
    ensures
        ({
            let host = listener_host(address);
            let url = listener_url(address, port);
            &&& host.contains(':') <==> url == "http://"@ + "["@ + host + "]"@ + ":"@ + decimal(
                port as nat,
            )
            &&& !host.contains(':') <==> url == "http://"@ + host + ":"@ + decimal(port as nat)
        }),
{
    let host = listener_host(address);
    let digits = decimal(port as nat);
    let bare = "http://"@ + host + ":"@ + digits;
    let enclosed = "http://"@ + "["@ + host + "]"@ + ":"@ + digits;
    reveal_strlit("http://[");
    reveal_strlit("]:");
    reveal_strlit("http://");
    reveal_strlit("[");
    reveal_strlit("]");
    reveal_strlit(":");
    assert("http://["@ + host + "]:"@ + digits =~= enclosed);
    assert(bare.len() != enclosed.len());
}

/// The URL that is offered for a target is that of its first primary endpoint; without one that
/// of its first named endpoint, else that of its first listener; there is none only where it has
/// no endpoint at all.
pub proof fn primary_endpoints_are_offered_first(status: StatusText, index: int)
    requires
        0 <= index < status.named_endpoints.len() ==> (forall|j: int|
            0 <= j < index ==> !(#[trigger] status.named_endpoints[j]).primary),
    ensures
        0 <= index < status.named_endpoints.len() && status.named_endpoints[index].primary
            ==> best_url(status) == Some(status.named_endpoints[index].url),
        status.named_endpoints.len() > 0 && (forall|j: int|
            0 <= j < status.named_endpoints.len() ==> !(#[trigger] status.named_endpoints[
            j]).primary) ==> best_url(status) == Some(status.named_endpoints[0].url),
        status.named_endpoints.len() == 0 && status.endpoints.len() > 0 ==> best_url(status)
            == Some(listener_url(status.endpoints[0].address, status.endpoints[0].port)),
        best_url(status) is None <==> status.named_endpoints.len() == 0 && status.endpoints.len()
            == 0,
{
    let named = status.named_endpoints;
    the_first_primary_counts(named);
    if let Some(found) = first_primary(named) {
        let i = choose|i: int|
            0 <= i < named.len() && #[trigger] named[i] == found && found.primary && forall|j: int|
                0 <= j < i ==> !(#[trigger] named[j]).primary;
        assert(named[i].primary);
        if 0 <= index < named.len() && named[index].primary {
            if i < index {
                assert(!named[i].primary);
            }
            if index < i {
                assert(!named[index].primary);
            }
        }
    }
}

/// An accepted URL is shown as a link to itself: its text is the URL, and so is its address.
pub proof fn links_show_where_they_lead(url: Seq<char>, parsed: Option<UrlText>)
    requires
        accepted_url(url, parsed) is Ok,
    ensures
        ({
            let link = hyperlink_text(url, parsed);
            let address = "\x1b]8;;"@ + url + "\x1b\\"@;
            &&& link.take(address.len() as int) == address
            &&& link.skip(address.len() as int).take(url.len() as int) == url
            &&& link.skip((address.len() + url.len()) as int) == "\x1b]8;;\x1b\\"@
        }),
        clipboard_text(url, parsed) == Some(
            "\x1b]52;c;"@ + base64_of(encode_utf8(url)) + "\x07"@,
        ),
{
    let link = hyperlink_text(url, parsed);
    let address = "\x1b]8;;"@ + url + "\x1b\\"@;
    assert(link =~= address + url + "\x1b]8;;\x1b\\"@);
    assert(link.take(address.len() as int) =~= address);
    assert(link.skip(address.len() as int).take(url.len() as int) =~= url);
    assert(link.skip((address.len() + url.len()) as int) =~= "\x1b]8;;\x1b\\"@);
}

/// What is copied is written in letters, digits and three signs only, so no terminal takes any of
/// it for a control.
pub proof fn copied_text_holds_no_controls(character: char)
    ensures
        is_base64_character(character) <==> crate::text::is_ascii_word_character(character)
            || character as u32 == 0x2B || character as u32 == 0x2F || character as u32 == 0x3D,
        is_base64_character(character) ==> !crate::text::is_control_character(character)
            && character != '\x07' && character != '\x1b',
{
}

} // verus!
