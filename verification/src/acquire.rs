//! Device acquisition: which of the serial ports on the machine is the
//! device, and what to do while it is not there.
//!
//! Listing the ports, sleeping and opening are the caller's. A port list
//! goes in; the next thing to do comes out. The device is named by its path
//! or, where no path is given, found by the product name that it reports.

use crate::fault::DeviceError;
use vstd::prelude::*;
use vstd::string::StringExecFns;

verus! {

/// The baud rate at which the device is opened.
pub const BAUD_RATE: u32 = 9600u32;

/// The read timeout of the open device, in seconds.
pub const READ_TIMEOUT_SECS: u64 = 1u64;

/// The pause between two looks at the port list, in seconds.
pub const RETRY_INTERVAL_SECS: u64 = 1u64;

/// The text that the product name of the device holds.
pub const PRODUCT_MARKER: &'static str = "EiBotBoard";

/// What kind of port a descriptor stands for.
#[derive(Clone, Debug, PartialEq, Eq)]
pub enum PortKind {
    /// A USB port, with the product name that it reports, if any.
    Usb { product: Option<String> },
    /// Any other kind of port.
    Other,
}

/// One serial port as the machine lists it.
#[derive(Clone, Debug, PartialEq, Eq)]
pub struct PortDescriptor {
    /// The path by which the port is opened.
    pub name: String,
    /// The kind of the port.
    pub kind: PortKind,
}

/// The settings with which the matched device is to be opened.
#[derive(Clone, Debug, PartialEq, Eq)]
pub struct OpenRequest {
    pub path: String,
    pub baud_rate: u32,
    pub timeout_secs: u64,
}

/// What the caller does after a look at the port list.
#[derive(Clone, Debug, PartialEq, Eq)]
pub enum AcquireAction {
    /// Open the device; a failure to open it is final.
    Open(OpenRequest),
    /// The device is not there yet: sleep for so many seconds and look again.
    RetryAfter(u64),
}

/// `needle` occurs in `hay` as a run of adjacent characters.
pub open spec fn contains_text(hay: Seq<char>, needle: Seq<char>) -> bool {
    exists|i: int| occurs_at(hay, needle, i)
}

/// `needle` stands in `hay` from place `i` on.
pub open spec fn occurs_at(hay: Seq<char>, needle: Seq<char>, i: int) -> bool {
    0 <= i && i + needle.len() <= hay.len() && hay.subrange(i, i + needle.len()) == needle
}

/// The product name that a port reports; empty where it reports none.
pub open spec fn product_text(port: PortDescriptor) -> Seq<char> {
    match port.kind {
        PortKind::Usb { product: Some(name) } => name@,
        _ => Seq::empty(),
    }
}

/// The path that a selector names. A selector that is absent or empty names
/// none: the device is then looked for by its descriptor.
pub open spec fn explicit_path(selector: Option<String>) -> Option<Seq<char>> {
    match selector {
        Some(path) => if path@.len() > 0 {
            Some(path@)
        } else {
            None
        },
        None => None,
    }
}

/// Whether `port` is the one that is looked for. Where the selector names a
/// path it is the port of exactly that path. Where it names none it is a
/// USB port whose product name holds the marker of the device.
pub open spec fn port_matches(selector: Option<String>, port: PortDescriptor) -> bool {
    match explicit_path(selector) {
        Some(path) => port.name@ == path,
        None => port.kind is Usb && contains_text(product_text(port), PRODUCT_MARKER@),
    }
}

/// `i` is the place of the first port of `ports` that matches.
pub open spec fn is_first_match(
    selector: Option<String>,
    ports: Seq<PortDescriptor>,
    i: int,
) -> bool {
    &&& 0 <= i < ports.len()
    &&& port_matches(selector, ports[i])
    &&& forall|j: int| 0 <= j < i ==> !port_matches(selector, #[trigger] ports[j])
}

/// No port of `ports` matches.
pub open spec fn no_match(selector: Option<String>, ports: Seq<PortDescriptor>) -> bool {
    forall|j: int| 0 <= j < ports.len() ==> !port_matches(selector, #[trigger] ports[j])
}

/// The characters of `text`, one by one.
fn chars_of(text: &str) -> (chars: Vec<char>)
    ensures
        chars@ == text@,
{
    let mut chars: Vec<char> = Vec::new();
    for c in it: text.chars()
        invariant
            it.seq() == text@,
            chars@ == it.seq().take(it.index() as int),
    {
        chars.push(c);
    }
    chars
}

/// Whether `needle` stands in `hay` at place `i`.
fn matches_at(hay: &Vec<char>, needle: &Vec<char>, i: usize) -> (m: bool)
    requires
        i + needle.len() <= hay.len(),
    ensures
        m == occurs_at(hay@, needle@, i as int),
{
    let mut j: usize = 0;
    while j < needle.len()
        invariant
            j <= needle.len(),
            i + needle.len() <= hay.len(),
            forall|k: int| 0 <= k < j ==> hay@[i + k] == needle@[k],
        decreases needle.len() - j,
    {
        if hay[i + j] != needle[j] {
            assert(hay@.subrange(i as int, i + needle.len())[j as int] == hay@[i + j]);
            return false;
        }
        j += 1;
    }
    assert(hay@.subrange(i as int, i + needle.len()) =~= needle@);
    true
}

/// Whether `needle` occurs in `hay`.
pub fn text_contains(hay: &str, needle: &str) -> (found: bool)
    ensures
        found == contains_text(hay@, needle@),
{
    let hay_chars = chars_of(hay);
    let needle_chars = chars_of(needle);
    let mut i: usize = 0;
    while i <= hay_chars.len() && hay_chars.len() - i >= needle_chars.len()
        invariant
            hay_chars@ == hay@,
            needle_chars@ == needle@,
            forall|k: int| 0 <= k < i ==> !occurs_at(hay@, needle@, k),
        decreases hay_chars.len() - i,
    {
        if matches_at(&hay_chars, &needle_chars, i) {
            return true;
        }
        assert(needle@.len() > 0) by {
            if needle@.len() == 0 {
                assert(hay@.subrange(i as int, i as int) =~= needle@);
            }
        }
        i += 1;
    }
    assert forall|k: int| !occurs_at(hay@, needle@, k) by {
        if 0 <= k && k + needle@.len() <= hay@.len() {
            assert(k < i);
        }
    }
    false
}

/// Whether `port` is the one that is looked for.
pub fn matches_port(selector: &Option<String>, port: &PortDescriptor) -> (m: bool)
    ensures
        m == port_matches(*selector, *port),
{
    match selector {
        Some(path) => {
            if !path.as_str().is_empty() {
                return port.name == *path;
            }
        },
        None => {},
    }
    match &port.kind {
        PortKind::Usb { product: Some(name) } => text_contains(name.as_str(), PRODUCT_MARKER),
        PortKind::Usb { product: None } => {
            proof {
                reveal_strlit("");
                assert(""@ =~= Seq::<char>::empty());
            }
            text_contains("", PRODUCT_MARKER)
        },
        PortKind::Other => false,
    }
}

/// The place of the first port of the list that matches, if one does.
pub fn find_port(selector: &Option<String>, ports: &Vec<PortDescriptor>) -> (found: Option<usize>)
    ensures
        match found {
            Some(i) => is_first_match(*selector, ports@, i as int),
            None => no_match(*selector, ports@),
        },
{
    let mut i: usize = 0;
    while i < ports.len()
        invariant
            i <= ports.len(),
            forall|j: int| 0 <= j < i ==> !port_matches(*selector, #[trigger] ports@[j]),
        decreases ports.len() - i,
    {
        if matches_port(selector, &ports[i]) {
            return Some(i);
        }
        i += 1;
    }
    None
}

/// Decides what follows a look at the port list. The first port that
/// matches is opened, at the fixed baud rate and with the fixed read
/// timeout. Where none matches the device is taken to be not connected yet,
/// which is no error: the caller sleeps and looks again, for as long as it
/// takes.
pub fn next_action(selector: &Option<String>, ports: &Vec<PortDescriptor>) -> (action:
    AcquireAction)
    ensures
        action is RetryAfter <==> no_match(*selector, ports@),
        action is Open <==> exists|i: int| is_first_match(*selector, ports@, i),
        no_match(*selector, ports@) ==> action == AcquireAction::RetryAfter(RETRY_INTERVAL_SECS),
        forall|i: int|
            is_first_match(*selector, ports@, i) ==> {
                &&& action matches AcquireAction::Open(request)
                &&& request.path@ == ports@[i].name@
                &&& request.baud_rate == BAUD_RATE
                &&& request.timeout_secs == READ_TIMEOUT_SECS
            },
{
    match find_port(selector, ports) {
        Some(i) => {
            assert(is_first_match(*selector, ports@, i as int));
            assert(port_matches(*selector, ports@[i as int]));
            assert forall|k: int| is_first_match(*selector, ports@, k) implies k == i by {
                if k < i {
                    assert(!port_matches(*selector, ports@[k]));
                }
                if i < k {
                    assert(!port_matches(*selector, ports@[i as int]));
                }
            }
            AcquireAction::Open(
                OpenRequest {
                    path: ports[i].name.clone(),
                    baud_rate: BAUD_RATE,
                    timeout_secs: READ_TIMEOUT_SECS,
                },
            )
        },
        None => AcquireAction::RetryAfter(RETRY_INTERVAL_SECS),
    }
}

/// How the attempt to open the matched device ended.
#[derive(Clone, Copy, Debug, PartialEq, Eq, Structural)]
pub enum OpenOutcome {
    Opened,
    Failed,
}

/// What follows the attempt to open the matched device. A device that was
/// found and cannot be opened is not looked for again: the failure is final.
pub fn after_open(outcome: OpenOutcome) -> (r: Result<(), DeviceError>)
    ensures
        outcome == OpenOutcome::Opened ==> r == Ok::<(), DeviceError>(()),
        outcome == OpenOutcome::Failed ==> r == Err::<(), DeviceError>(DeviceError::OpenFailure),
{
    match outcome {
        OpenOutcome::Opened => Ok(()),
        OpenOutcome::Failed => Err(DeviceError::OpenFailure),
    }
}

/// The diagnostic for a device that could not be opened.
pub fn open_failure_message(request: &OpenRequest) -> (message: String)
    ensures
        message@ == "Could not create port on "@ + request.path@,
{
    let mut message = String::from_str("Could not create port on ");
    message.append(request.path.as_str());
    message
}

} // verus!
