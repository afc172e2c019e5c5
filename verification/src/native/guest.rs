use crate::text::{chars_of, contains_seq, push_str, str_contains, string_of, trim_bounds, trim_spec};
use crate::ui::{entry_index, find_entry, json_of, lemma_entry_index, parse_json, Json, Screen};
use vstd::utf8::{decode_utf8, valid_utf8};
use vstd::prelude::*;

verus! {

/// What `str::to_lowercase` returns for a text; it depends on the text
/// alone.
pub uninterp spec fn lowercase(s: Seq<char>) -> Seq<char>;

/// `str::to_lowercase`: the Unicode lowercase of `s`. Only that the result
/// is a function of `s` is stated; the case mapping itself is not.
#[verifier::external_body]
fn to_lowercase(s: &str) -> (r: String)
    ensures
        r@ == lowercase(s@),
{
    s.to_lowercase()
}

/// Whether a lowercased error text mentions an empty XCT tree, an empty AX
/// tree or an empty tree.
pub open spec fn mentions_empty_tree(lower: Seq<char>) -> bool {
    contains_seq(lower, "empty xct"@) || contains_seq(lower, "empty ax"@) || contains_seq(
        lower,
        "empty tree"@,
    )
}

/// Whether an already lowercased error text says that the accessibility
/// tree was empty.
pub fn lowered_empty_tree_error(lower: &str) -> (r: bool)
    ensures
        r == mentions_empty_tree(lower@),
{
    str_contains(lower, "empty xct") || str_contains(lower, "empty ax") || str_contains(
        lower,
        "empty tree",
    )
}

/// Whether an inspection error says that the accessibility tree was empty,
/// judged from its full text (all causes) in any case.
pub fn empty_tree_error(text: &str) -> (r: bool)
    ensures
        r == mentions_empty_tree(lowercase(text@)),
{
    let lower = to_lowercase(text);
    lowered_empty_tree_error(lower.as_str())
}

/// The socket the guest of a device listens on.
pub fn socket_path(udid: &str) -> (r: String)
    ensures
        r@ == "/tmp/mx-"@ + udid@ + ".sock"@,
{
    let mut s = String::from_str("/tmp/mx-");
    push_str(&mut s, udid);
    push_str(&mut s, ".sock");
    s
}

/// The `elements` field of a guest snapshot reply.
#[derive(Debug)]
pub enum ElementsField {
    Missing,
    Null,
    Array(Vec<GuestElement>),
    /// Any other JSON value.
    Other,
}

/// One element as the guest reports it; fields that are not strings, or a
/// frame that is not four numbers, are `None`.
#[derive(Debug)]
pub struct GuestElement {
    pub role: Option<String>,
    pub identifier: Option<String>,
    pub label: Option<String>,
    pub value: Option<String>,
    pub frame: Option<crate::ui::FrameBits>,
}

/// The fields of a guest snapshot reply that decoding reads.
#[derive(Debug)]
pub struct SnapshotReply {
    /// `unchanged` when it is a boolean.
    pub unchanged: Option<bool>,
    /// `hash` when it is a string.
    pub hash: Option<String>,
    /// `pid` when it is an unsigned number.
    pub pid: Option<u64>,
    /// Bit patterns of `width` and `height`, 0.0 when they are not numbers.
    pub width_bits: u64,
    pub height_bits: u64,
    pub elements: ElementsField,
}

/// The non-empty hash of a reply.
pub open spec fn reply_hash(r: SnapshotReply) -> Option<Seq<char>> {
    match r.hash {
        Some(h) => if h@.len() > 0 {
            Some(h@)
        } else {
            None
        },
        None => None,
    }
}

/// Whether a reply says the screen did not change since the hash the
/// request named: it says so, or it carries a hash and no element list.
pub open spec fn unchanged_spec(r: SnapshotReply) -> bool {
    r.unchanged == Some(true) || (reply_hash(r) is Some && (r.elements is Missing
        || r.elements is Null))
}

fn nonempty_hash(h: &Option<String>) -> (r: Option<String>)
    ensures
        match h {
            Some(x) => if x@.len() > 0 {
                r matches Some(y) && y@ == x@
            } else {
                r is None
            },
            None => r is None,
        },
{
    match h {
        Some(x) => if crate::text::chars_of(x.as_str()).len() > 0 {
            Some(x.clone())
        } else {
            None
        },
        None => None,
    }
}

/// Whether a reply says the screen did not change.
pub fn snapshot_unchanged(reply: &SnapshotReply) -> (r: bool)
    ensures
        r == unchanged_spec(*reply),
{
    if reply.unchanged == Some(true) {
        return true;
    }
    if nonempty_hash(&reply.hash).is_none() {
        return false;
    }
    match &reply.elements {
        ElementsField::Missing | ElementsField::Null => true,
        _ => false,
    }
}

/// A reported pid that fits in 32 bits and is positive.
pub open spec fn pid_spec(pid: Option<u64>) -> Option<u32> {
    match pid {
        Some(p) => if 0 < p <= u32::MAX {
            Some(p as u32)
        } else {
            None
        },
        None => None,
    }
}

/// A reported pid that fits in 32 bits and is positive.
pub fn reply_pid(pid: Option<u64>) -> (r: Option<u32>)
    ensures
        r == pid_spec(pid),
{
    match pid {
        Some(p) => if 0 < p && p <= u32::MAX as u64 {
            Some(p as u32)
        } else {
            None
        },
        None => None,
    }
}

/// Why a snapshot cannot be decoded.
#[derive(Debug, Clone, Copy, PartialEq, Eq)]
pub enum SnapshotError {
    /// The reply has no element list although the screen changed.
    MissingElements,
}

/// Decodes a snapshot reply of `device`: an unchanged screen has no
/// elements; otherwise every element is numbered by position, with role
/// `Unknown` when the guest gave none.
pub fn decode_snapshot(device: &str, reply: &SnapshotReply) -> (r: Result<Screen, SnapshotError>)
    ensures
        !unchanged_spec(*reply) && !(reply.elements is Array) ==> r == Err::<
            Screen,
            SnapshotError,
        >(SnapshotError::MissingElements),
        unchanged_spec(*reply) || reply.elements is Array ==> (r matches Ok(s) && s.device@
            == device@ && s.pid == pid_spec(reply.pid) && s.width_bits == reply.width_bits
            && s.height_bits == reply.height_bits && crate::ui::opt_view(s.hash) == reply_hash(
            *reply,
        ) && (unchanged_spec(*reply) ==> s.elements.len() == 0) && (!unchanged_spec(*reply)
            ==> (reply.elements matches ElementsField::Array(es) && s.elements.len() == es.len()
            && forall|i: int|
            0 <= i < es.len() ==> {
                let e = #[trigger] s.elements@[i];
                let g = es@[i];
                &&& e.reference is None
                &&& e.index == Some(i as u32)
                &&& e.role@ == match g.role {
                    Some(x) => x@,
                    None => "Unknown"@,
                }
                &&& crate::ui::opt_view(e.identifier) == crate::ui::opt_view(g.identifier)
                &&& crate::ui::opt_view(e.label) == crate::ui::opt_view(g.label)
                &&& crate::ui::opt_view(e.value) == crate::ui::opt_view(g.value)
                &&& e.frame == g.frame
            }))),
{
    let hash = nonempty_hash(&reply.hash);
    let unchanged = snapshot_unchanged(reply);
    let mut elements: Vec<crate::ui::Element> = Vec::new();
    if !unchanged {
        match &reply.elements {
            ElementsField::Array(es) => {
                let mut i: usize = 0;
                while i < es.len()
                    invariant
                        i <= es.len(),
                        es.len() <= u32::MAX ==> true,
                        elements.len() == i,
                        forall|k: int|
                            0 <= k < i ==> {
                                let e = #[trigger] elements@[k];
                                let g = es@[k];
                                &&& e.reference is None
                                &&& e.index == Some(k as u32)
                                &&& e.role@ == match g.role {
                                    Some(x) => x@,
                                    None => "Unknown"@,
                                }
                                &&& crate::ui::opt_view(e.identifier) == crate::ui::opt_view(
                                    g.identifier,
                                )
                                &&& crate::ui::opt_view(e.label) == crate::ui::opt_view(g.label)
                                &&& crate::ui::opt_view(e.value) == crate::ui::opt_view(g.value)
                                &&& e.frame == g.frame
                            },
                    decreases es.len() - i,
                {
                    let g = &es[i];
                    let role = match &g.role {
                        Some(x) => x.clone(),
                        None => String::from_str("Unknown"),
                    };
                    let index = #[verifier::truncate] (i as u32);
                    elements.push(
                        crate::ui::Element {
                            role,
                            reference: None,
                            identifier: crate::ui::clone_opt(&g.identifier),
                            label: crate::ui::clone_opt(&g.label),
                            value: crate::ui::clone_opt(&g.value),
                            index: Some(index),
                            frame: g.frame,
                        },
                    );
                    i += 1;
                }
            },
            _ => {
                return Err(SnapshotError::MissingElements);
            },
        }
    }
    Ok(
        Screen {
            device: String::from_str(device),
            pid: reply_pid(reply.pid),
            width_bits: reply.width_bits,
            height_bits: reply.height_bits,
            hash,
            elements,
        },
    )
}


/// What a guest that exited before listening reports: its standard error,
/// trimmed, or `no stderr` when that is blank.
pub fn exit_detail(stderr: &str) -> (r: String)
    ensures
        r@ == (if trim_spec(stderr@).len() == 0 {
            "no stderr"@
        } else {
            trim_spec(stderr@)
        }),
{
    let v = chars_of(stderr);
    let (a, b) = trim_bounds(&v, 0, v.len());
    proof {
        assert(v@.subrange(0, v.len() as int) =~= v@);
    }
    if a == b {
        String::from_str("no stderr")
    } else {
        string_of(&v, a, b)
    }
}

/// The entry `key` of a reply object, if the reply is an object that has it.
pub open spec fn reply_entry(reply: Json, key: Seq<char>) -> Option<Json> {
    match reply {
        Json::Object(entries) => match entry_index(entries@, key) {
            Some(i) => Some(entries@[i].1),
            None => None,
        },
        _ => None,
    }
}

/// What a guest reply means: success when its `ok` is `true`; otherwise
/// the failure its `error` string gives, or a generic one.
pub open spec fn reply_status_spec(reply: Json) -> Result<(), Seq<char>> {
    if reply_entry(reply, "ok"@) matches Some(Json::Bool(true)) {
        Ok(())
    } else {
        match reply_entry(reply, "error"@) {
            Some(Json::Str(e)) => Err(e@),
            _ => Err("mx-guest returned an error"@),
        }
    }
}

/// Judges a decoded guest reply.
pub fn reply_status(reply: &Json) -> (r: Result<(), String>)
    ensures
        match reply_status_spec(*reply) {
            Ok(()) => r is Ok,
            Err(e) => r matches Err(m) && m@ == e,
        },
{
    match reply {
        Json::Object(entries) => {
            proof {
                lemma_entry_index(entries@, "ok"@);
                lemma_entry_index(entries@, "error"@);
            }
            if let Some(i) = find_entry(entries, "ok") {
                if let Json::Bool(true) = &entries[i].1 {
                    return Ok(());
                }
            }
            if let Some(i) = find_entry(entries, "error") {
                if let Json::Str(e) = &entries[i].1 {
                    return Err(e.clone());
                }
            }
            Err(String::from_str("mx-guest returned an error"))
        },
        _ => Err(String::from_str("mx-guest returned an error")),
    }
}


/// What a guest snapshot request gave.
#[derive(Debug, Clone, Copy, PartialEq, Eq, Structural)]
pub enum GuestSnapshot {
    /// The screen did not change since the hash the request named.
    Unchanged,
    /// A snapshot with at least one element.
    WithElements,
    /// A snapshot without elements.
    Empty,
    /// The request failed.
    Failed,
}

/// Where an inspection takes its screen from.
#[derive(Debug, Clone, Copy, PartialEq, Eq, Structural)]
pub enum InspectSource {
    /// The guest's snapshot.
    Guest,
    /// The host accessibility walk.
    Apt,
    /// Nowhere: the guest's failure is the answer.
    GuestError,
}

/// Chooses the screen of an inspection: the guest's when it reported an
/// unchanged screen or elements; otherwise the host walk when it is
/// available; otherwise the guest's empty screen, or its failure.
pub fn inspect_source(guest: GuestSnapshot, apt_available: bool) -> (r: InspectSource)
    ensures
        guest == GuestSnapshot::Unchanged || guest == GuestSnapshot::WithElements ==> r
            == InspectSource::Guest,
        guest == GuestSnapshot::Empty ==> r == (if apt_available {
            InspectSource::Apt
        } else {
            InspectSource::Guest
        }),
        guest == GuestSnapshot::Failed ==> r == (if apt_available {
            InspectSource::Apt
        } else {
            InspectSource::GuestError
        }),
{
    match guest {
        GuestSnapshot::Unchanged | GuestSnapshot::WithElements => InspectSource::Guest,
        GuestSnapshot::Empty => {
            if apt_available {
                InspectSource::Apt
            } else {
                InspectSource::Guest
            }
        },
        GuestSnapshot::Failed => {
            if apt_available {
                InspectSource::Apt
            } else {
                InspectSource::GuestError
            }
        },
    }
}

/// What a guest hash request gave.
#[derive(Debug, Clone, Copy, PartialEq, Eq, Structural)]
pub enum GuestHash {
    /// A non-empty hash.
    Hash,
    /// No hash.
    NoHash,
    /// The request failed.
    Failed,
}

/// Where the hash of the screen comes from.
#[derive(Debug, Clone, Copy, PartialEq, Eq, Structural)]
pub enum HashSource {
    /// The guest's hash.
    Guest,
    /// The hash of the host accessibility walk.
    Apt,
    /// No hash is known.
    Unknown,
    /// The guest's failure is the answer.
    GuestError,
}

/// Chooses where the screen hash comes from: the guest's when it gave one,
/// else the host walk when it is available, else nothing (or the guest's
/// failure).
pub fn hash_source(guest: GuestHash, apt_available: bool) -> (r: HashSource)
    ensures
        guest == GuestHash::Hash ==> r == HashSource::Guest,
        guest == GuestHash::NoHash ==> r == (if apt_available {
            HashSource::Apt
        } else {
            HashSource::Unknown
        }),
        guest == GuestHash::Failed ==> r == (if apt_available {
            HashSource::Apt
        } else {
            HashSource::GuestError
        }),
{
    match guest {
        GuestHash::Hash => HashSource::Guest,
        GuestHash::NoHash => {
            if apt_available {
                HashSource::Apt
            } else {
                HashSource::Unknown
            }
        },
        GuestHash::Failed => {
            if apt_available {
                HashSource::Apt
            } else {
                HashSource::GuestError
            }
        },
    }
}

/// The JSON a guest reply's bytes decode to, if they are UTF-8 text that
/// is JSON.
pub open spec fn reply_json(bytes: Seq<u8>) -> Option<Json> {
    if valid_utf8(bytes) {
        json_of(decode_utf8(bytes))
    } else {
        None
    }
}

/// Decodes a guest reply and judges it: the reply when its `ok` is `true`,
/// else the failure it reports; bytes that are not JSON are refused.
pub fn read_reply(bytes: &[u8]) -> (r: Result<Json, String>)
    ensures
        match reply_json(bytes@) {
            None => r matches Err(m) && m@ == "Guest returned invalid JSON"@,
            Some(j) => match reply_status_spec(j) {
                Ok(()) => r == Ok::<Json, String>(j),
                Err(e) => r matches Err(m) && m@ == e,
            },
        },
{
    let text = match crate::web::utf8_text(bytes) {
        Some(t) => t,
        None => {
            return Err(String::from_str("Guest returned invalid JSON"));
        },
    };
    let reply = match parse_json(text) {
        Some(j) => j,
        None => {
            return Err(String::from_str("Guest returned invalid JSON"));
        },
    };
    match reply_status(&reply) {
        Ok(()) => Ok(reply),
        Err(e) => Err(e),
    }
}

} // verus!
