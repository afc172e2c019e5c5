use crate::session::Session;
use crate::ui::{
    clone_opt, element_eq, element_views, float_eq, opt_view, same_float, same_opt, Element, ElementView,
    Screen, ScreenView, Selector,
};
use vstd::prelude::*;

verus! {

/// How long a settled screen may be reused without waiting again.
pub const FRESH_WINDOW_MS: u64 = 300;

/// Default time an action request may take to settle.
pub const DEFAULT_TIMEOUT_MS: u64 = 10000;

/// Pause between two samples of the screen hash.
pub const SETTLE_POLL_MS: u64 = 50;

/// Extra pause when the guest reports no hash.
pub const SETTLE_POLL_WITHOUT_HASH_EXTRA_MS: u64 = 100;

/// Polling delays that grow by half each time, up to a cap.
#[derive(Debug, Clone, Copy)]
pub struct PollBackoff {
    pub next_ms: u64,
    pub cap_ms: u64,
}

impl PollBackoff {
    /// Delays starting at `start_ms`, never above `cap_ms`.
    pub fn new(start_ms: u64, cap_ms: u64) -> (r: Self)
        ensures
            r.next_ms == start_ms,
            r.cap_ms == cap_ms,
    {
        PollBackoff { next_ms: start_ms, cap_ms }
    }

    /// The delay of the next wait.
    pub open spec fn delay_spec(self) -> u64 {
        if self.next_ms < self.cap_ms {
            self.next_ms
        } else {
            self.cap_ms
        }
    }

    /// The delay of the next wait: the current delay, capped.
    pub fn delay_ms(&self) -> (r: u64)
        ensures
            r == self.delay_spec(),
            r <= self.cap_ms,
    {
        if self.next_ms < self.cap_ms {
            self.next_ms
        } else {
            self.cap_ms
        }
    }

    /// Grows the delay by half (rounding down) after a wait; a delay too
    /// large to grow stays as it is, which the cap makes invisible.
    pub fn advance(&mut self)
        ensures
            final(self).cap_ms == old(self).cap_ms,
            old(self).next_ms * 3 <= u64::MAX ==> final(self).next_ms == old(self).next_ms * 3
                / 2,
            old(self).next_ms * 3 > u64::MAX ==> final(self).next_ms == old(self).next_ms,
            final(self).delay_spec() >= old(self).delay_spec(),
    {
        if self.next_ms <= u64::MAX / 3 {
            self.next_ms = self.next_ms * 3 / 2;
        }
    }
}

/// One step of an action request.
#[derive(Debug)]
pub enum Action {
    Tap { selector: Selector },
    TapReference { reference: u64, revision: u64 },
    Type { text: String },
}

/// Actions to perform on a device, then wait for the screen to settle.
#[derive(Debug)]
pub struct ActionRequest {
    pub device: String,
    pub actions: Vec<Action>,
    pub expect_label: Option<String>,
    pub timeout_ms: u64,
}

/// Why an action request is refused.
#[derive(Debug, Clone, Copy, PartialEq, Eq)]
pub enum ActionError {
    /// Not between 1 and 32 actions.
    ActionCount,
    /// Timeout outside 100..=60000 ms.
    Timeout,
    /// The reference belongs to another revision than the session's.
    StaleRevision,
    /// The session has no observed screen.
    NotObserved,
    /// No element of the observed screen holds the reference.
    UnknownReference,
    /// The referenced element is gone or no longer unique.
    ReferenceChanged,
}

/// Accepts a request of 1 to 32 actions with a timeout of 100 to 60000 ms.
pub fn validate_request(action_count: usize, timeout_ms: u64) -> (r: Result<(), ActionError>)
    ensures
        !(1 <= action_count <= 32) ==> r == Err::<(), ActionError>(ActionError::ActionCount),
        1 <= action_count <= 32 && !(100 <= timeout_ms <= 60000) ==> r == Err::<
            (),
            ActionError,
        >(ActionError::Timeout),
        1 <= action_count <= 32 && 100 <= timeout_ms <= 60000 ==> r is Ok,
{
    if !(1 <= action_count && action_count <= 32) {
        return Err(ActionError::ActionCount);
    }
    if !(100 <= timeout_ms && timeout_ms <= 60000) {
        return Err(ActionError::Timeout);
    }
    Ok(())
}

/// The first element of `es` that holds reference `r`.
pub open spec fn first_with_ref(es: Seq<ElementView>, r: u64) -> Option<int> {
    if exists|k: int| 0 <= k < es.len() && es[k].reference == Some(r) {
        Some(
            choose|k: int|
                0 <= k < es.len() && es[k].reference == Some(r) && forall|m: int|
                    0 <= m < k ==> es[m].reference != Some(r),
        )
    } else {
        None
    }
}

/// The selector that finds an element again: its identifier, else its label,
/// and its role.
pub open spec fn selector_for(e: ElementView, s: Selector) -> bool {
    &&& opt_view(s.identifier) == e.identifier
    &&& opt_view(s.label) == (if e.identifier is None { e.label } else { None })
    &&& s.role matches Some(r) && r@ == e.role
}

/// Turns a reference of the session's current revision into a selector for
/// the element that held it, with that element.
pub fn reference_selector(session: &Session, reference: u64, revision: u64) -> (r: Result<
    (Selector, Element),
    ActionError,
>)
    ensures
        revision != session.revision ==> r == Err::<(Selector, Element), ActionError>(
            ActionError::StaleRevision,
        ),
        revision == session.revision && session.screen is None ==> r == Err::<
            (Selector, Element),
            ActionError,
        >(ActionError::NotObserved),
        revision == session.revision ==> (session.screen matches Some(sc) ==> match first_with_ref(
            element_views(sc.elements@),
            reference,
        ) {
            None => r == Err::<(Selector, Element), ActionError>(ActionError::UnknownReference),
            Some(k) => r matches Ok((s, e)) && e@ == element_views(sc.elements@)[k]
                && selector_for(e@, s),
        }),
{
    if revision != session.revision {
        return Err(ActionError::StaleRevision);
    }
    let screen = match &session.screen {
        Some(sc) => sc,
        None => {
            return Err(ActionError::NotObserved);
        },
    };
    let ghost es = element_views(screen.elements@);
    let mut k: usize = 0;
    while k < screen.elements.len()
        invariant
            k <= screen.elements.len(),
            revision == session.revision,
            session.screen == Some(*screen),
            es == element_views(screen.elements@),
            es.len() == screen.elements.len(),
            forall|m: int| 0 <= m < k ==> es[m].reference != Some(reference),
        decreases screen.elements.len() - k,
    {
        if screen.elements[k].reference == Some(reference) {
            let previous = &screen.elements[k];
            proof {
                assert(es[k as int].reference == Some(reference));
                let c = choose|c: int|
                    0 <= c < es.len() && es[c].reference == Some(reference) && forall|m: int|
                        0 <= m < c ==> es[m].reference != Some(reference);
                if c < k {
                } else if c > k {
                    assert(es[k as int].reference != Some(reference));
                }
                assert(first_with_ref(es, reference) == Some(k as int));
            }
            let selector = Selector {
                identifier: clone_opt(&previous.identifier),
                label: if previous.identifier.is_none() {
                    clone_opt(&previous.label)
                } else {
                    None
                },
                role: Some(previous.role.clone()),
            };
            return Ok((selector, previous.clone()));
        }
        k += 1;
    }
    Err(ActionError::UnknownReference)
}

/// The elements of the current screen that the selector picks and that keep
/// the referenced element's label and value.
pub open spec fn same_target(s: Selector, previous: ElementView, e: ElementView) -> bool {
    s.matches_spec(e) && e.label == previous.label && e.value == previous.value
}

/// How many of `es[0..n]` are the referenced element again.
pub open spec fn count_targets(s: Selector, previous: ElementView, es: Seq<ElementView>, n: int) -> nat
    decreases n,
{
    if n <= 0 {
        0
    } else {
        count_targets(s, previous, es, n - 1) + if same_target(s, previous, es[n - 1]) {
            1nat
        } else {
            0nat
        }
    }
}

/// Accepts a referenced element when exactly one element of the current
/// screen is that element again.
pub fn check_unique_target(current: &Screen, selector: &Selector, previous: &Element) -> (r: Result<
    (),
    ActionError,
>)
    ensures
        r is Ok <==> count_targets(
            *selector,
            previous@,
            element_views(current.elements@),
            current.elements.len() as int,
        ) == 1,
        r is Err ==> r == Err::<(), ActionError>(ActionError::ReferenceChanged),
{
    let mut count: usize = 0;
    let mut i: usize = 0;
    while i < current.elements.len()
        invariant
            i <= current.elements.len(),
            count == count_targets(*selector, previous@, element_views(current.elements@), i as int),
            count <= i,
        decreases current.elements.len() - i,
    {
        let e = &current.elements[i];
        if selector.matches(e) && same_opt(&e.label, &previous.label) && same_opt(
            &e.value,
            &previous.value,
        ) {
            count += 1;
        }
        i += 1;
    }
    if count == 1 {
        Ok(())
    } else {
        Err(ActionError::ReferenceChanged)
    }
}

/// Whether some element carries the expected label, or no label is
/// expected.
pub open spec fn has_expected_label_spec(es: Seq<ElementView>, expected: Option<Seq<char>>) -> bool {
    match expected {
        None => true,
        Some(l) => exists|k: int| 0 <= k < es.len() && es[k].label == Some(l),
    }
}

/// Whether the screen shows the expected label, if one is expected.
pub fn has_expected_label(screen: &Screen, expected: Option<&str>) -> (r: bool)
    ensures
        r == has_expected_label_spec(
            element_views(screen.elements@),
            match expected {
                Some(l) => Some(l@),
                None => None,
            },
        ),
{
    match expected {
        None => true,
        Some(label) => {
            let target = String::from_str(label);
            let mut k: usize = 0;
            while k < screen.elements.len()
                invariant
                    k <= screen.elements.len(),
                    expected == Some(label),
                    target@ == label@,
                    forall|m: int| 0 <= m < k ==> element_views(screen.elements@)[m].label != Some(label@),
                decreases screen.elements.len() - k,
            {
                let found = match &screen.elements[k].label {
                    Some(l) => *l == target,
                    None => false,
                };
                if found {
                    assert(element_views(screen.elements@).len() == screen.elements.len());
                    assert(element_views(screen.elements@)[k as int].label == Some(label@));
                    return true;
                }
                k += 1;
            }
            false
        },
    }
}

/// The screen's hash when it has a non-empty one.
pub open spec fn screen_hash_spec(s: Screen) -> Option<Seq<char>> {
    match s.hash {
        Some(h) => if h@.len() > 0 {
            Some(h@)
        } else {
            None
        },
        None => None,
    }
}

/// Whether two hashes are both present and equal.
pub open spec fn hashes_equal_spec(a: Option<Seq<char>>, b: Option<Seq<char>>) -> bool {
    a matches Some(x) && b matches Some(y) && x == y
}

fn screen_hash_is(screen: &Screen, hash: &str) -> (r: bool)
    ensures
        r == hashes_equal_spec(screen_hash_spec(*screen), Some(hash@)),
{
    match &screen.hash {
        Some(h) => {
            let n = crate::text::chars_of(h.as_str()).len();
            n > 0 && crate::text::str_eq(h.as_str(), hash)
        },
        None => false,
    }
}

fn hashes_match(a: &Screen, b: &Screen) -> (r: bool)
    ensures
        r == hashes_equal_spec(screen_hash_spec(*a), screen_hash_spec(*b)),
{
    match (&a.hash, &b.hash) {
        (Some(x), Some(y)) => {
            let n = crate::text::chars_of(x.as_str()).len();
            let m = crate::text::chars_of(y.as_str()).len();
            n > 0 && m > 0 && *x == *y
        },
        _ => false,
    }
}

/// What to do after sampling the screen hash while waiting for the screen
/// to settle.
#[derive(Debug, Clone, Copy, PartialEq, Eq)]
pub enum SettleNext {
    /// The screen is settled: return it.
    Settled,
    /// Nothing moved yet: sample the hash again.
    Recheck,
    /// The screen changed: inspect it again.
    Reinspect,
    /// No hash is available: pause, then inspect again.
    PauseThenReinspect,
    /// No hash is available: pause, inspect again and compare.
    PauseThenCompare,
}

/// The next step of settling, given the current screen, the expected label
/// and the hash the guest reports now.
pub fn settle_next(screen: &Screen, expected: Option<&str>, hash: Option<&str>) -> (r: SettleNext)
    ensures
        ({
            let ready = has_expected_label_spec(
                element_views(screen.elements@),
                match expected {
                    Some(l) => Some(l@),
                    None => None,
                },
            );
            let same = hash matches Some(h) && hashes_equal_spec(
                screen_hash_spec(*screen),
                Some(h@),
            );
            &&& !ready && same ==> r == SettleNext::Recheck
            &&& !ready && hash is Some && !same ==> r == SettleNext::Reinspect
            &&& !ready && hash is None ==> r == SettleNext::PauseThenReinspect
            &&& ready && same ==> r == SettleNext::Settled
            &&& ready && hash is Some && !same ==> r == SettleNext::Reinspect
            &&& ready && hash is None ==> r == SettleNext::PauseThenCompare
        }),
{
    let ready = has_expected_label(screen, expected);
    match hash {
        Some(h) => {
            if screen_hash_is(screen, h) {
                if ready {
                    SettleNext::Settled
                } else {
                    SettleNext::Recheck
                }
            } else {
                SettleNext::Reinspect
            }
        },
        None => if ready {
            SettleNext::PauseThenCompare
        } else {
            SettleNext::PauseThenReinspect
        },
    }
}

/// After a pause without hashes: whether the new inspection is settled. It
/// must show the expected label and either carry the same hash as before or
/// none at all.
pub fn accept_compared(before: &Screen, next: &Screen, expected: Option<&str>) -> (r: bool)
    ensures
        r == (has_expected_label_spec(
            element_views(next.elements@),
            match expected {
                Some(l) => Some(l@),
                None => None,
            },
        ) && (hashes_equal_spec(screen_hash_spec(*before), screen_hash_spec(*next))
            || screen_hash_spec(*next) is None)),
{
    let ready = has_expected_label(next, expected);
    let next_has_hash = match &next.hash {
        Some(h) => crate::text::chars_of(h.as_str()).len() > 0,
        None => false,
    };
    ready && (hashes_match(before, next) || !next_has_hash)
}

/// Whether a screen settled less than `FRESH_WINDOW_MS` ago may be returned
/// again: a new inspection equals it and shows the expected label.
pub fn cache_reusable(elapsed_ms: u64, cached: &Screen, fresh: &Screen, expected: Option<&str>) -> (r:
    bool)
    ensures
        r == (elapsed_ms < FRESH_WINDOW_MS && screen_eq(cached@, fresh@) && has_expected_label_spec(
            element_views(fresh.elements@),
            match expected {
                Some(l) => Some(l@),
                None => None,
            },
        )),
{
    elapsed_ms < FRESH_WINDOW_MS && same_screen(cached, fresh) && has_expected_label(fresh, expected)
}

/// Whether two screens are equal: equal device, process and hash, widths
/// and heights equal as `f64`s, and elements equal one by one.
pub open spec fn screen_eq(a: ScreenView, b: ScreenView) -> bool {
    &&& a.device == b.device
    &&& a.pid == b.pid
    &&& float_eq(a.width_bits, b.width_bits)
    &&& float_eq(a.height_bits, b.height_bits)
    &&& a.hash == b.hash
    &&& a.elements.len() == b.elements.len()
    &&& forall|k: int| 0 <= k < a.elements.len() ==> element_eq(a.elements[k], b.elements[k])
}

/// Whether two screens are equal, coordinates compared as `f64`s.
pub fn same_screen(a: &Screen, b: &Screen) -> (r: bool)
    ensures
        r == screen_eq(a@, b@),
{
    if !(a.device == b.device && a.pid == b.pid && same_float(a.width_bits, b.width_bits)
        && same_float(a.height_bits, b.height_bits) && same_opt(&a.hash, &b.hash)) {
        return false;
    }
    if a.elements.len() != b.elements.len() {
        assert(element_views(a.elements@).len() != element_views(b.elements@).len());
        return false;
    }
    let ghost ea = element_views(a.elements@);
    let ghost eb = element_views(b.elements@);
    let mut i: usize = 0;
    while i < a.elements.len()
        invariant
            i <= a.elements.len() == b.elements.len(),
            ea == element_views(a.elements@),
            eb == element_views(b.elements@),
            forall|k: int| 0 <= k < i ==> element_eq(ea[k], eb[k]),
        decreases a.elements.len() - i,
    {
        if !a.elements[i].same_as(&b.elements[i]) {
            assert(!element_eq(ea[i as int], eb[i as int]));
            return false;
        }
        i += 1;
    }
    true
}

} // verus!
