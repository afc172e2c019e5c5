use crate::sim::MemoryBudget;
use crate::text::str_eq;
use crate::ui::Selector;
use vstd::prelude::*;

verus! {

/// An Xcode project, workspace or containing directory.
#[derive(Debug)]
pub struct ProjectRequest {
    pub project: String,
}

/// A simulator by UDID or name.
#[derive(Debug)]
pub struct DeviceRequest {
    pub device: String,
}

/// Stops an app on a simulator.
#[derive(Debug)]
pub struct StopRequest {
    pub device: String,
    pub bundle_id: String,
}

/// Takes a screenshot, inline unless told otherwise.
#[derive(Debug)]
pub struct ScreenshotRequest {
    pub device: String,
    pub output: Option<String>,
    pub inline: bool,
}

/// Taps the element a selector picks.
#[derive(Debug)]
pub struct TapRequest {
    pub device: String,
    pub selector: Selector,
}

/// Types text into the foreground app.
#[derive(Debug)]
pub struct TypeRequest {
    pub device: String,
    pub text: String,
}

/// Reads recent log lines of an app.
#[derive(Debug)]
pub struct LogsRequest {
    pub device: String,
    /// Application process ID returned by mx_run.
    pub pid: u32,
    /// Look back 1 to 300 seconds. Defaults to 30. Returns at most 200 lines / 64 KiB.
    pub seconds: u32,
}

/// Observes the screen, relative to a revision the client holds.
#[derive(Debug)]
pub struct ObserveRequest {
    pub device: String,
    pub since: Option<u64>,
}

/// Starts a live log stream of an app.
#[derive(Debug)]
pub struct LiveRequest {
    pub device: String,
    pub pid: u32,
}

/// Reads a live log stream after a cursor.
#[derive(Debug)]
pub struct StreamRequest {
    pub stream_id: String,
    pub after: u64,
}

/// Clones a simulator.
#[derive(Debug)]
pub struct CloneRequest {
    pub source: String,
    pub name: String,
}

/// Creates a simulator from a template device.
#[derive(Debug)]
pub struct CreateRequest {
    pub template: String,
    pub name: String,
    pub device_type: Option<String>,
}

/// Boots an owned simulator under limits.
#[derive(Debug)]
pub struct BootRequest {
    pub device: String,
    pub max_booted: usize,
    pub memory_budget: Option<MemoryBudget>,
}

/// Lists the heaviest processes of a simulator.
#[derive(Debug)]
pub struct TopRequest {
    pub device: String,
    pub limit: usize,
}

/// Binds this client to an existing session.
#[derive(Debug)]
pub struct UseSession {
    pub device: String,
    pub session_id: String,
}

/// Screenshots are returned inline unless told otherwise.
pub const DEFAULT_INLINE: bool = true;

/// Default log look-back in seconds.
pub const DEFAULT_SECONDS: u32 = 30;

/// Default number of processes `mx_top` lists.
pub const DEFAULT_TOP_LIMIT: usize = 12;

/// Default number of simulators that may be booted at once.
pub const DEFAULT_BOOT_LIMIT: usize = 8;

/// The sessions this client bound, by device name or UDID: the canonical
/// device and the session id.
#[derive(Debug)]
pub struct Bindings {
    entries: Vec<(String, String, String)>,
}

/// The binding of `key`: the last one recorded.
pub open spec fn binding_of(es: Seq<(String, String, String)>, key: Seq<char>) -> Option<
    (Seq<char>, Seq<char>),
>
    decreases es.len(),
{
    if es.len() == 0 {
        None
    } else if es.last().0@ == key {
        Some((es.last().1@, es.last().2@))
    } else {
        binding_of(es.drop_last(), key)
    }
}

/// Why a bound session cannot be used.
#[derive(Debug, Clone, Copy, PartialEq, Eq)]
pub enum BindingError {
    /// The client did not bind the device.
    Unbound,
    /// Another client replaced the session.
    Replaced,
}

impl Bindings {
    /// The binding of each key.
    pub closed spec fn binding(self, key: Seq<char>) -> Option<(Seq<char>, Seq<char>)> {
        binding_of(self.entries@, key)
    }

    /// No bindings.
    pub fn new() -> (r: Self)
        ensures
            forall|k: Seq<char>| r.binding(k) is None,
    {
        Bindings { entries: Vec::new() }
    }

    fn push(&mut self, key: &str, device: &str, id: &str)
        ensures
            final(self).binding(key@) == Some((device@, id@)),
            forall|k: Seq<char>| k != key@ ==> final(self).binding(k) == old(self).binding(k),
    {
        let ghost before = self.entries@;
        self.entries.push((String::from_str(key), String::from_str(device), String::from_str(id)));
        assert(self.entries@.drop_last() =~= before);
    }

    /// Binds `device`, and the name the client used for it, to session `id`.
    pub fn remember(&mut self, device: &str, alias: Option<&str>, id: &str)
        ensures
            match alias {
                Some(a) => final(self).binding(a@) == Some((device@, id@)),
                None => true,
            },
            final(self).binding(device@) == Some((device@, id@)),
            forall|k: Seq<char>|
                k != device@ && (alias matches Some(a) ==> k != a@) ==> final(self).binding(k)
                    == old(self).binding(k),
    {
        self.push(device, device, id);
        match alias {
            Some(a) => {
                self.push(a, device, id);
            },
            None => {},
        }
    }

    /// The canonical device and session id this client bound to `key`.
    pub fn lookup(&self, key: &str) -> (r: Option<(String, String)>)
        ensures
            match self.binding(key@) {
                None => r is None,
                Some((d, i)) => r matches Some((x, y)) && x@ == d && y@ == i,
            },
    {
        let mut k = self.entries.len();
        assert(self.entries@.take(k as int) =~= self.entries@);
        while k > 0
            invariant
                k <= self.entries.len(),
                binding_of(self.entries@, key@) == binding_of(self.entries@.take(k as int), key@),
            decreases k,
        {
            let ghost t = self.entries@.take(k as int);
            assert(t.drop_last() =~= self.entries@.take(k - 1));
            if str_eq(self.entries[k - 1].0.as_str(), key) {
                return Some((self.entries[k - 1].1.clone(), self.entries[k - 1].2.clone()));
            }
            k -= 1;
        }
        None
    }
}

/// The session id a client may act with: the one it bound, if the device's
/// active session is still that one.
pub fn check_bound(expected: &str, current_id: &str) -> (r: Result<(), BindingError>)
    ensures
        r is Ok <==> expected@ == current_id@,
        r is Err ==> r == Err::<(), BindingError>(BindingError::Replaced),
{
    if str_eq(expected, current_id) {
        Ok(())
    } else {
        Err(BindingError::Replaced)
    }
}

} // verus!
