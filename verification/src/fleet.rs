use crate::text::{chars_of, is_blank, push_str, trim_bounds, trim_spec};
use vstd::prelude::*;
use vstd::string::*;

verus! {

/// A simulator that Mx created and may manage.
#[derive(Debug)]
pub struct Owned {
    pub device: String,
    pub source: String,
    pub name: String,
}

/// Whether `c` is a hexadecimal digit.
pub open spec fn hex_char(c: char) -> bool {
    ('0' <= c <= '9') || ('a' <= c <= 'f') || ('A' <= c <= 'F')
}

/// A hyphenated UUID: 36 characters, hyphens at 8, 13, 18 and 23 and hex
/// digits elsewhere.
pub open spec fn hyphenated_uuid(s: Seq<char>) -> bool {
    &&& s.len() == 36
    &&& forall|i: int|
        0 <= i < 36 ==> if i == 8 || i == 13 || i == 18 || i == 23 {
            s[i] == '-'
        } else {
            hex_char(#[trigger] s[i])
        }
}

/// Whether `p` is `urn:uuid:` in any case.
pub open spec fn urn_prefix(p: Seq<char>) -> bool {
    p.len() == 9 && forall|i: int|
        0 <= i < 9 ==> (#[trigger] p[i] == "urn:uuid:"@[i] || (('a' <= "urn:uuid:"@[i] <= 'z')
            && p[i] as int == "urn:uuid:"@[i] as int - 32))
}

/// The texts `uuid::Uuid::parse_str` accepts: 32 hex digits, a hyphenated
/// UUID, a braced one, or a hyphenated one after `urn:uuid:`.
pub open spec fn uuid_text(s: Seq<char>) -> bool {
    ||| s.len() == 32 && forall|i: int| 0 <= i < 32 ==> hex_char(#[trigger] s[i])
    ||| hyphenated_uuid(s)
    ||| s.len() == 38 && s[0] == '{' && s[37] == '}' && hyphenated_uuid(s.subrange(1, 37))
    ||| s.len() == 45 && urn_prefix(s.take(9)) && hyphenated_uuid(s.skip(9))
}

/// `uuid::Uuid::parse_str(s).is_ok()`: whether `s` is a UUID in one of the
/// text forms the crate parses (32 hex digits; hyphenated 8-4-4-4-12 hex
/// digits, bare, in braces, or after a case-insensitive `urn:uuid:`).
#[verifier::external_body]
fn is_uuid(s: &str) -> (r: bool)
    ensures
        r == uuid_text(s@),
{
    uuid::Uuid::parse_str(s).is_ok()
}

/// Why a fleet request is refused.
#[derive(Debug, Clone, Copy, PartialEq, Eq)]
pub enum FleetError {
    /// The name is blank or 100 bytes or longer.
    InvalidName,
    /// A device identifier holds other characters than letters, digits and
    /// `-`.
    InvalidDevice,
    /// `simctl` did not print a UUID.
    UnexpectedUdid,
    /// The clone source is not shut down.
    SourceNotShutdown,
    /// `max_booted` is outside 1..=64.
    InvalidBootLimit,
}

/// Accepts the name of a new device: not blank and shorter than 100 bytes.
pub fn validate_name(name: &str) -> (r: Result<(), FleetError>)
    ensures
        r is Ok <==> (trim_spec(name@).len() > 0 && name.spec_bytes().len() < 100),
        r is Err ==> r == Err::<(), FleetError>(FleetError::InvalidName),
{
    if is_blank(name) {
        return Err(FleetError::InvalidName);
    }
    let b = name.as_bytes();
    if b.len() < 100 {
        Ok(())
    } else {
        Err(FleetError::InvalidName)
    }
}

/// The display name of a device Mx creates.
pub fn owned_name(name: &str) -> (r: String)
    ensures
        r@ == "Mx "@ + name@,
{
    let mut s = String::from_str("Mx ");
    push_str(&mut s, name);
    s
}

/// Characters a device identifier may hold in a record's file name.
pub open spec fn device_char(c: char) -> bool {
    ('a' <= c <= 'z') || ('A' <= c <= 'Z') || ('0' <= c <= '9') || c == '-'
}

/// The file name of a device's ownership record, if the identifier is safe.
pub fn owned_file_name(device: &str) -> (r: Result<String, FleetError>)
    ensures
        (forall|i: int| 0 <= i < device@.len() ==> device_char(#[trigger] device@[i])) ==> (r matches Ok(
            s,
        ) && s@ == device@ + ".owned.json"@),
        !(forall|i: int| 0 <= i < device@.len() ==> device_char(#[trigger] device@[i])) ==> r
            == Err::<String, FleetError>(FleetError::InvalidDevice),
{
    let v = chars_of(device);
    let mut i: usize = 0;
    while i < v.len()
        invariant
            i <= v.len(),
            v@ == device@,
            forall|j: int| 0 <= j < i ==> device_char(#[trigger] v@[j]),
        decreases v.len() - i,
    {
        let c = v[i];
        if !(('a' <= c && c <= 'z') || ('A' <= c && c <= 'Z') || ('0' <= c && c <= '9') || c == '-') {
            return Err(FleetError::InvalidDevice);
        }
        i += 1;
    }
    let mut s = String::from_str(device);
    push_str(&mut s, ".owned.json");
    Ok(s)
}

/// The UDID that `simctl clone` or `simctl create` printed: the trimmed
/// reply, when it is a UUID.
pub fn created_udid(reply: &str) -> (r: Result<String, FleetError>)
    ensures
        uuid_text(trim_spec(reply@)) ==> (r matches Ok(s) && s@ == trim_spec(reply@)),
        !uuid_text(trim_spec(reply@)) ==> r == Err::<String, FleetError>(
            FleetError::UnexpectedUdid,
        ),
{
    let v = chars_of(reply);
    let (a, b) = trim_bounds(&v, 0, v.len());
    assert(v@.subrange(0, v.len() as int) =~= v@);
    let udid = crate::text::string_of(&v, a, b);
    if is_uuid(udid.as_str()) {
        Ok(udid)
    } else {
        Err(FleetError::UnexpectedUdid)
    }
}

/// Accepts a clone source only when it is shut down.
pub fn check_clone_source(state: &str) -> (r: Result<(), FleetError>)
    ensures
        r is Ok <==> state@ == "Shutdown"@,
        r is Err ==> r == Err::<(), FleetError>(FleetError::SourceNotShutdown),
{
    if crate::text::str_eq(state, "Shutdown") {
        Ok(())
    } else {
        Err(FleetError::SourceNotShutdown)
    }
}

/// Accepts a boot limit of 1 to 64 devices.
pub fn check_boot_limit(max_booted: usize) -> (r: Result<(), FleetError>)
    ensures
        r is Ok <==> 1 <= max_booted <= 64,
        r is Err ==> r == Err::<(), FleetError>(FleetError::InvalidBootLimit),
{
    if 1 <= max_booted && max_booted <= 64 {
        Ok(())
    } else {
        Err(FleetError::InvalidBootLimit)
    }
}

/// Free disk space below which no device is created.
pub const MIN_FREE_BYTES: u64 = 2147483648;

/// Whether a new device may be created with `available` bytes free.
pub fn has_creation_headroom(available: u64) -> (r: bool)
    ensures
        r == (available >= MIN_FREE_BYTES),
{
    available >= MIN_FREE_BYTES
}

} // verus!
