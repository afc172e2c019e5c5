use crate::text::chars_of;
use crate::ui::{
    clone_opt, element_eq, element_views, frame_without_nan, opt_view, same_opt, Element, ElementView,
    Screen, ScreenView,
};
use vstd::prelude::*;

verus! {

/// An app run bound to a simulator, with its last observed screen.
#[derive(Debug)]
pub struct Session {
    pub id: String,
    pub device: String,
    pub project: String,
    pub scheme: String,
    pub bundle_id: String,
    pub pid: u32,
    pub active: bool,
    pub revision: u64,
    pub next_reference: u64,
    pub screen: Option<Screen>,
}

/// Why a session request is refused.
#[derive(Debug, Clone, Copy, PartialEq, Eq)]
pub enum SessionError {
    /// A session or device identifier holds a character that is not a
    /// letter, a digit or `-`, or is empty or longer than 128.
    InvalidKey,
    /// The foreground app is not the session's app.
    ForegroundChanged,
}

/// Characters an identifier may hold.
pub open spec fn key_char(c: char) -> bool {
    ('a' <= c <= 'z') || ('A' <= c <= 'Z') || ('0' <= c <= '9') || c == '-'
}

/// Whether a session or device identifier is safe to use in a file name.
pub open spec fn valid_key(s: Seq<char>) -> bool {
    0 < s.len() <= 128 && forall|i: int| 0 <= i < s.len() ==> key_char(#[trigger] s[i])
}

/// Accepts a session or device identifier that is safe to use in a file
/// name.
pub fn key(value: &str) -> (r: Result<&str, SessionError>)
    ensures
        valid_key(value@) ==> r == Ok::<&str, SessionError>(value),
        !valid_key(value@) ==> r == Err::<&str, SessionError>(SessionError::InvalidKey),
{
    let v = chars_of(value);
    if v.len() == 0 || v.len() > 128 {
        return Err(SessionError::InvalidKey);
    }
    let mut i: usize = 0;
    while i < v.len()
        invariant
            i <= v.len(),
            v@ == value@,
            forall|j: int| 0 <= j < i ==> key_char(#[trigger] v@[j]),
        decreases v.len() - i,
    {
        let c = v[i];
        if !(('a' <= c && c <= 'z') || ('A' <= c && c <= 'Z') || ('0' <= c && c <= '9') || c == '-') {
            return Err(SessionError::InvalidKey);
        }
        i += 1;
    }
    Ok(value)
}

/// Accepts input to the foreground app only when it is the session's app:
/// the screen reports the session's pid, or reports none while the
/// session's process is still alive.
pub fn check_foreground(session: &Session, screen: &Screen, process_alive: bool) -> (r: Result<
    (),
    SessionError,
>)
    ensures
        screen.pid is None ==> (r is Ok <==> process_alive),
        screen.pid matches Some(p) ==> (r is Ok <==> p == session.pid),
        r is Err ==> r == Err::<(), SessionError>(SessionError::ForegroundChanged),
{
    match screen.pid {
        None => if process_alive {
            Ok(())
        } else {
            Err(SessionError::ForegroundChanged)
        },
        Some(p) => if p == session.pid {
            Ok(())
        } else {
            Err(SessionError::ForegroundChanged)
        },
    }
}

/// The part of an element that identifies it across snapshots: its role,
/// its identifier, and its label when it has no identifier.
pub open spec fn base_key(e: ElementView) -> (Seq<char>, Option<Seq<char>>, Option<Seq<char>>) {
    (e.role, e.identifier, if e.identifier is None { e.label } else { None })
}

/// How many of `es[0..n]` have base key `b`.
pub open spec fn count_base(
    es: Seq<ElementView>,
    b: (Seq<char>, Option<Seq<char>>, Option<Seq<char>>),
    n: int,
) -> nat
    decreases n,
{
    if n <= 0 {
        0
    } else {
        count_base(es, b, n - 1) + if base_key(es[n - 1]) == b {
            1nat
        } else {
            0nat
        }
    }
}

/// The key of `es[i]`: its base key and how many elements up to and
/// including it share that base key.
pub open spec fn elem_key(es: Seq<ElementView>, i: int) -> (
    (Seq<char>, Option<Seq<char>>, Option<Seq<char>>),
    nat,
) {
    (base_key(es[i]), count_base(es, base_key(es[i]), i + 1))
}

/// Whether `old[j]` is the earlier element that `new[i]` continues.
pub open spec fn key_match(old: Seq<ElementView>, new: Seq<ElementView>, i: int, j: int) -> bool {
    0 <= j < old.len() && elem_key(old, j) == elem_key(new, i)
}

/// The earlier element, if any, that `new[i]` continues.
pub open spec fn old_match(old: Seq<ElementView>, new: Seq<ElementView>, i: int) -> Option<int> {
    if exists|j: int| key_match(old, new, i, j) {
        Some(choose|j: int| key_match(old, new, i, j))
    } else {
        None
    }
}

/// What the first `n` new elements give: the elements with references
/// assigned, the added ones, the changed ones, and the number of fresh
/// references taken.
pub struct Parts {
    pub assigned: Seq<ElementView>,
    pub added: Seq<ElementView>,
    pub changed: Seq<ElementView>,
    pub fresh: nat,
}

/// An element continuing an earlier one keeps its reference and is changed
/// when it differs from it in any other field (frames compared as `f64`s);
/// a new element takes the next fresh reference and is added.
pub open spec fn parts(old: Seq<ElementView>, new: Seq<ElementView>, next: nat, n: int) -> Parts
    decreases n,
{
    if n <= 0 {
        Parts { assigned: seq![], added: seq![], changed: seq![], fresh: 0 }
    } else {
        let p = parts(old, new, next, n - 1);
        let e = new[n - 1];
        match old_match(old, new, n - 1) {
            Some(j) => {
                let e2 = ElementView { reference: old[j].reference, ..e };
                Parts {
                    assigned: p.assigned.push(e2),
                    added: p.added,
                    changed: if element_eq(e2, old[j]) {
                        p.changed
                    } else {
                        p.changed.push(e2)
                    },
                    fresh: p.fresh,
                }
            },
            None => {
                let e2 = ElementView { reference: Some((next + p.fresh) as u64), ..e };
                Parts {
                    assigned: p.assigned.push(e2),
                    added: p.added.push(e2),
                    changed: p.changed,
                    fresh: p.fresh + 1,
                }
            },
        }
    }
}

/// Whether some element of `es` holds reference `r`.
pub open spec fn has_ref(es: Seq<ElementView>, r: u64) -> bool {
    exists|k: int| 0 <= k < es.len() && es[k].reference == Some(r)
}

/// The references of `old[0..n]` that no element of `cur` holds, in order.
pub open spec fn removed_refs(old: Seq<ElementView>, cur: Seq<ElementView>, n: int) -> Seq<u64>
    decreases n,
{
    if n <= 0 {
        seq![]
    } else {
        let rest = removed_refs(old, cur, n - 1);
        match old[n - 1].reference {
            Some(r) => if has_ref(cur, r) {
                rest
            } else {
                rest.push(r)
            },
            None => rest,
        }
    }
}

/// What changed between two observations of the screen.
#[derive(Debug)]
pub struct Delta {
    pub session_id: String,
    pub revision: u64,
    pub base_revision: u64,
    pub full: Option<Screen>,
    pub added: Vec<Element>,
    pub removed: Vec<u64>,
    pub changed: Vec<Element>,
}

/// The elements of the session's last screen, if any.
pub open spec fn old_elements(s: Session) -> Seq<ElementView> {
    match s.screen {
        Some(sc) => element_views(sc.elements@),
        None => seq![],
    }
}

fn same_base(a: &Element, b: &Element) -> (r: bool)
    ensures
        r == (base_key(a@) == base_key(b@)),
{
    let label_a = if a.identifier.is_none() {
        clone_opt(&a.label)
    } else {
        None
    };
    let label_b = if b.identifier.is_none() {
        clone_opt(&b.label)
    } else {
        None
    };
    a.role == b.role && same_opt(&a.identifier, &b.identifier) && same_opt(&label_a, &label_b)
}

/// Counts the elements of `es[0..n]` whose base key is that of `e`.
fn count_same_base(es: &Vec<Element>, e: &Element, n: usize) -> (r: usize)
    requires
        n <= es.len(),
    ensures
        r == count_base(element_views(es@), base_key(e@), n as int),
{
    let mut c: usize = 0;
    let mut k: usize = 0;
    while k < n
        invariant
            k <= n <= es.len(),
            c == count_base(element_views(es@), base_key(e@), k as int),
            c <= k,
        decreases n - k,
    {
        if same_base(&es[k], e) {
            c += 1;
        }
        k += 1;
    }
    c
}

proof fn lemma_count_monotone(
    es: Seq<ElementView>,
    b: (Seq<char>, Option<Seq<char>>, Option<Seq<char>>),
    m: int,
    n: int,
)
    requires
        0 <= m <= n,
    ensures
        count_base(es, b, m) <= count_base(es, b, n),
    decreases n - m,
{
    if m < n {
        lemma_count_monotone(es, b, m, n - 1);
    }
}

/// Keys are distinct within one snapshot.
pub proof fn lemma_keys_distinct(es: Seq<ElementView>, i: int, j: int)
    requires
        0 <= i < j < es.len(),
    ensures
        elem_key(es, i) != elem_key(es, j),
{
    if base_key(es[i]) == base_key(es[j]) {
        lemma_count_monotone(es, base_key(es[j]), i + 1, j);
    }
}

/// Finds the earlier element that `new[i]` continues.
fn find_match(old: &Vec<Element>, new: &Vec<Element>, i: usize) -> (r: Option<usize>)
    requires
        i < new.len(),
    ensures
        old_match(element_views(old@), element_views(new@), i as int) == match r {
            Some(j) => Some(j as int),
            None => None::<int>,
        },
        r matches Some(j) ==> j < old.len(),
{
    let ghost ov = element_views(old@);
    let ghost nv = element_views(new@);
    let occurrence = count_same_base(new, &new[i], i + 1);
    let mut c: usize = 0;
    let mut j: usize = 0;
    while j < old.len()
        invariant
            i < new.len(),
            ov == element_views(old@),
            nv == element_views(new@),
            j <= old.len(),
            c == count_base(ov, base_key(nv[i as int]), j as int),
            occurrence == count_base(nv, base_key(nv[i as int]), i + 1),
            c < occurrence,
            forall|k: int| 0 <= k < j ==> !key_match(ov, nv, i as int, k),
        decreases old.len() - j,
    {
        if same_base(&old[j], &new[i]) {
            c += 1;
            if c == occurrence {
                proof {
                    assert(key_match(ov, nv, i as int, j as int));
                    assert forall|k: int| #[trigger] key_match(ov, nv, i as int, k) implies k
                        == j by {
                        if k != j {
                            if k < j {
                                lemma_keys_distinct(ov, k, j as int);
                            } else {
                                lemma_keys_distinct(ov, j as int, k);
                            }
                        }
                    }
                }
                return Some(j);
            }
        }
        proof {
            if base_key(ov[j as int]) == base_key(nv[i as int]) {
                assert(c == count_base(ov, base_key(nv[i as int]), j + 1));
            }
            assert(!key_match(ov, nv, i as int, j as int));
        }
        j += 1;
    }
    None
}

/// Whether some element of `es` holds reference `r`.
fn holds_ref(es: &Vec<Element>, r: u64) -> (b: bool)
    ensures
        b == has_ref(element_views(es@), r),
{
    let mut k: usize = 0;
    while k < es.len()
        invariant
            k <= es.len(),
            forall|m: int| 0 <= m < k ==> es@[m].reference != Some(r),
        decreases es.len() - k,
    {
        if es[k].reference == Some(r) {
            assert(element_views(es@)[k as int].reference == Some(r));
            return true;
        }
        k += 1;
    }
    proof {
        if has_ref(element_views(es@), r) {
            let m = choose|m: int|
                0 <= m < element_views(es@).len() && element_views(es@)[m].reference == Some(r);
            assert(es@[m].reference == Some(r));
        }
    }
    false
}

/// Records a new observation of the screen in the session and reports what
/// changed since the last one. Elements are matched to the last snapshot by
/// key (role, identifier, label when there is no identifier, and
/// occurrence); a matched element keeps its reference, a new one takes the
/// next fresh reference. The revision advances when the session had no
/// snapshot or anything was added, changed or removed. The full screen is
/// returned unless the caller already holds the base revision.
pub fn update(session: &mut Session, screen: Screen, since: Option<u64>) -> (d: Delta)
    requires
        old(session).next_reference + screen.elements.len() <= u64::MAX,
        old(session).revision < u64::MAX,
    ensures
        ({
            let o = *old(session);
            let s = *final(session);
            let ov = old_elements(o);
            let nv = element_views(screen.elements@);
            let p = parts(ov, nv, o.next_reference as nat, nv.len() as int);
            let removed = removed_refs(ov, p.assigned, ov.len() as int);
            let bumped = o.screen is None || p.added.len() > 0 || p.changed.len() > 0
                || removed.len() > 0;
            &&& element_views(d.added@) == p.added
            &&& element_views(d.changed@) == p.changed
            &&& d.removed@ == removed
            &&& d.base_revision == o.revision
            &&& s.revision == (if bumped {
                o.revision + 1
            } else {
                o.revision as int
            })
            &&& d.revision == s.revision
            &&& s.next_reference == o.next_reference + p.fresh
            &&& s.next_reference == o.next_reference + d.added.len()
            &&& forall|k: int|
                0 <= k < d.added.len() ==> (#[trigger] d.added@[k]).reference == Some(
                    (o.next_reference + k) as u64,
                )
            &&& d.session_id@ == o.id@
            &&& s.screen matches Some(sc) && sc@ == (ScreenView {
                elements: p.assigned,
                ..screen@
            })
            &&& (since == Some(o.revision) && o.screen is Some) ==> d.full is None
            &&& !(since == Some(o.revision) && o.screen is Some) ==> (d.full matches Some(f)
                && f@ == (ScreenView { elements: p.assigned, ..screen@ }))
            &&& s.id == o.id && s.device == o.device && s.project == o.project && s.scheme
                == o.scheme && s.bundle_id == o.bundle_id && s.pid == o.pid && s.active
                == o.active
        }),
{
    let base_revision = session.revision;
    let had_screen = session.screen.is_some();
    let old_list: Vec<Element> = match session.screen.take() {
        Some(sc) => sc.elements,
        None => Vec::new(),
    };
    let ghost ov = element_views(old_list@);
    let ghost nv = element_views(screen.elements@);
    let ghost next0 = session.next_reference as nat;
    assert(ov == old_elements(*old(session)));
    let mut screen = screen;
    let mut elements = screen.elements;
    screen.elements = Vec::new();
    let mut assigned: Vec<Element> = Vec::new();
    let mut added: Vec<Element> = Vec::new();
    let mut changed: Vec<Element> = Vec::new();
    let mut i: usize = 0;
    let ghost fresh: nat = 0;
    while i < elements.len()
        invariant
            i <= elements.len(),
            element_views(elements@) == nv,
            ov == element_views(old_list@),
            session.next_reference == next0 + fresh,
            next0 + nv.len() <= u64::MAX,
            fresh <= i,
            ({
                let p = parts(ov, nv, next0, i as int);
                &&& element_views(assigned@) == p.assigned
                &&& element_views(added@) == p.added
                &&& element_views(changed@) == p.changed
                &&& p.fresh == fresh
            }),
            session.revision == old(session).revision,
            session.id == old(session).id,
            session.device == old(session).device,
            session.project == old(session).project,
            session.scheme == old(session).scheme,
            session.bundle_id == old(session).bundle_id,
            session.pid == old(session).pid,
            session.active == old(session).active,
        decreases elements.len() - i,
    {
        let mut e = elements[i].clone();
        let ghost before_a = element_views(assigned@);
        let ghost before_added = element_views(added@);
        let ghost before_changed = element_views(changed@);
        match find_match(&old_list, &elements, i) {
            Some(j) => {
                e.reference = old_list[j].reference;
                if !e.same_as(&old_list[j]) {
                    changed.push(e.clone());
                    assert(element_views(changed@) =~= before_changed.push(e@));
                }
                assigned.push(e);
                assert(element_views(assigned@) =~= before_a.push(e@));
            },
            None => {
                e.reference = Some(session.next_reference);
                session.next_reference = session.next_reference + 1;
                added.push(e.clone());
                assert(element_views(added@) =~= before_added.push(e@));
                assigned.push(e);
                assert(element_views(assigned@) =~= before_a.push(e@));
                proof {
                    fresh = fresh + 1;
                }
            },
        }
        i += 1;
    }
    let ghost p = parts(ov, nv, next0, nv.len() as int);
    let mut removed: Vec<u64> = Vec::new();
    let mut k: usize = 0;
    while k < old_list.len()
        invariant
            k <= old_list.len(),
            ov == element_views(old_list@),
            element_views(assigned@) == p.assigned,
            removed@ == removed_refs(ov, p.assigned, k as int),
        decreases old_list.len() - k,
    {
        match old_list[k].reference {
            Some(r) => {
                if !holds_ref(&assigned, r) {
                    removed.push(r);
                }
            },
            None => {},
        }
        k += 1;
    }
    if !had_screen || added.len() > 0 || changed.len() > 0 || removed.len() > 0 {
        session.revision = session.revision + 1;
    }
    screen.elements = assigned;
    let full = if since == Some(base_revision) && had_screen {
        None
    } else {
        Some(screen.clone())
    };
    session.screen = Some(screen);
    proof {
        lemma_fresh_references(ov, nv, next0, nv.len() as int);
        assert forall|k: int| 0 <= k < added.len() implies (#[trigger] added@[k]).reference == Some(
            (next0 + k) as u64,
        ) by {
            assert(element_views(added@)[k] == added@[k]@);
        }
    }
    Delta {
        session_id: session.id.clone(),
        revision: session.revision,
        base_revision,
        full,
        added,
        removed,
        changed,
    }
}


/// Whether `new` is `old` observed again: the same elements in the same
/// order, apart from references.
pub open spec fn same_but_references(old: Seq<ElementView>, new: Seq<ElementView>) -> bool {
    &&& old.len() == new.len()
    &&& forall|i: int|
        0 <= i < old.len() ==> (ElementView { reference: old[i].reference, ..new[i] }) == #[trigger] old[i]
}

proof fn lemma_same_counts(
    old: Seq<ElementView>,
    new: Seq<ElementView>,
    b: (Seq<char>, Option<Seq<char>>, Option<Seq<char>>),
    n: int,
)
    requires
        same_but_references(old, new),
        0 <= n <= old.len(),
    ensures
        count_base(old, b, n) == count_base(new, b, n),
    decreases n,
{
    if n > 0 {
        lemma_same_counts(old, new, b, n - 1);
        assert((ElementView { reference: old[n - 1].reference, ..new[n - 1] }) == old[n - 1]);
    }
}

proof fn lemma_same_match(old: Seq<ElementView>, new: Seq<ElementView>, i: int)
    requires
        same_but_references(old, new),
        0 <= i < old.len(),
    ensures
        old_match(old, new, i) == Some(i),
{
    assert((ElementView { reference: old[i].reference, ..new[i] }) == old[i]);
    assert(base_key(old[i]) == base_key(new[i]));
    lemma_same_counts(old, new, base_key(old[i]), i + 1);
    assert(key_match(old, new, i, i));
    assert forall|j: int| #[trigger] key_match(old, new, i, j) implies j == i by {
        if j < i {
            lemma_keys_distinct(old, j, i);
        } else if j > i {
            lemma_keys_distinct(old, i, j);
        }
    }
}

proof fn lemma_same_parts(old: Seq<ElementView>, new: Seq<ElementView>, next: nat, n: int)
    requires
        same_but_references(old, new),
        0 <= n <= old.len(),
        forall|k: int| 0 <= k < old.len() ==> frame_without_nan(#[trigger] old[k].frame),
    ensures
        parts(old, new, next, n).assigned == old.take(n),
        parts(old, new, next, n).added.len() == 0,
        parts(old, new, next, n).changed.len() == 0,
        parts(old, new, next, n).fresh == 0,
    decreases n,
{
    if n > 0 {
        lemma_same_parts(old, new, next, n - 1);
        lemma_same_match(old, new, n - 1);
        assert((ElementView { reference: old[n - 1].reference, ..new[n - 1] }) == old[n - 1]);
        assert(frame_without_nan(old[n - 1].frame));
        crate::ui::lemma_element_eq_refl(old[n - 1]);
        assert(old.take(n - 1).push(old[n - 1]) =~= old.take(n));
    } else {
        assert(old.take(0) =~= Seq::<ElementView>::empty());
    }
}

proof fn lemma_nothing_removed(old: Seq<ElementView>, n: int)
    requires
        0 <= n <= old.len(),
    ensures
        removed_refs(old, old, n).len() == 0,
    decreases n,
{
    if n > 0 {
        lemma_nothing_removed(old, n - 1);
        if let Some(r) = old[n - 1].reference {
            assert(has_ref(old, r));
        }
    }
}

/// Observing the same screen again adds, changes and removes nothing, keeps
/// every reference, and takes no fresh reference; so `update` leaves the
/// revision as it was. (A frame with a NaN coordinate equals nothing, not
/// even itself, so such an element counts as changed each time.)
pub proof fn lemma_unchanged_observation(old: Seq<ElementView>, new: Seq<ElementView>, next: nat)
    requires
        same_but_references(old, new),
        forall|k: int| 0 <= k < old.len() ==> frame_without_nan(#[trigger] old[k].frame),
    ensures
        parts(old, new, next, new.len() as int).assigned == old,
        parts(old, new, next, new.len() as int).added.len() == 0,
        parts(old, new, next, new.len() as int).changed.len() == 0,
        parts(old, new, next, new.len() as int).fresh == 0,
        removed_refs(old, parts(old, new, next, new.len() as int).assigned, old.len() as int).len()
            == 0,
{
    lemma_same_parts(old, new, next, new.len() as int);
    assert(old.take(old.len() as int) =~= old);
    lemma_nothing_removed(old, old.len() as int);
}

/// An element that continues an earlier one keeps the earlier one's
/// reference; an element that continues none gets a reference at or above
/// the session's next reference.
pub proof fn lemma_reference_stability(old: Seq<ElementView>, new: Seq<ElementView>, next: nat, n: int, i: int)
    requires
        0 <= i < n <= new.len(),
        next + new.len() <= u64::MAX,
    ensures
        old_match(old, new, i) matches Some(j) ==> parts(old, new, next, n).assigned[i].reference
            == old[j].reference,
        old_match(old, new, i) is None ==> (parts(old, new, next, n).assigned[i].reference matches Some(r) && r >= next),
        parts(old, new, next, n).assigned.len() == n,
    decreases n,
{
    if n - 1 > i {
        lemma_reference_stability(old, new, next, n - 1, i);
    } else {
        lemma_parts_len(old, new, next, n - 1);
    }
    lemma_parts_len(old, new, next, n);
}

proof fn lemma_parts_len(old: Seq<ElementView>, new: Seq<ElementView>, next: nat, n: int)
    requires
        0 <= n <= new.len(),
    ensures
        parts(old, new, next, n).assigned.len() == n,
        parts(old, new, next, n).fresh <= n,
    decreases n,
{
    if n > 0 {
        lemma_parts_len(old, new, next, n - 1);
    }
}

/// The elements an observation adds take consecutive fresh references,
/// starting at the session's next reference, one per added element: the
/// k-th added element holds `next + k`, and `next` advances by the number
/// added.
pub proof fn lemma_fresh_references(old: Seq<ElementView>, new: Seq<ElementView>, next: nat, n: int)
    requires
        0 <= n <= new.len(),
        next + new.len() <= u64::MAX,
    ensures
        parts(old, new, next, n).fresh == parts(old, new, next, n).added.len(),
        forall|k: int|
            0 <= k < parts(old, new, next, n).added.len() ==> (#[trigger] parts(
                old,
                new,
                next,
                n,
            ).added[k]).reference == Some((next + k) as u64),
    decreases n,
{
    if n > 0 {
        lemma_fresh_references(old, new, next, n - 1);
        lemma_parts_len(old, new, next, n - 1);
        let p = parts(old, new, next, n - 1);
        let q = parts(old, new, next, n);
        if old_match(old, new, n - 1) is None {
            assert forall|k: int| 0 <= k < q.added.len() implies (#[trigger] q.added[k]).reference
                == Some((next + k) as u64) by {
                if k < p.added.len() {
                    assert(q.added[k] == p.added[k]);
                }
            }
        }
    }
}
/// An element that continues an earlier one is reported as changed whenever
/// it differs from the earlier one in any field but its reference (its
/// value, label, role, identifier or index, or a frame coordinate as an
/// `f64`).
pub proof fn lemma_differences_are_reported(
    old: Seq<ElementView>,
    new: Seq<ElementView>,
    next: nat,
    n: int,
    i: int,
)
    requires
        0 <= i < n <= new.len(),
        old_match(old, new, i) matches Some(j) && !((ElementView {
            reference: old[j].reference,
            frame: None,
            ..new[i]
        }) == (ElementView { frame: None, ..old[j] }) && crate::ui::frame_eq(new[i].frame, old[j].frame)),
    ensures
        parts(old, new, next, n).changed.contains(parts(old, new, next, n).assigned[i]),
    decreases n,
{
    lemma_parts_len(old, new, next, n);
    lemma_parts_len(old, new, next, n - 1);
    let p = parts(old, new, next, n - 1);
    let q = parts(old, new, next, n);
    if i < n - 1 {
        lemma_differences_are_reported(old, new, next, n - 1, i);
        assert(q.assigned[i] == p.assigned[i]);
        let k = choose|k: int| 0 <= k < p.changed.len() && p.changed[k] == p.assigned[i];
        assert(q.changed[k] == p.changed[k]);
    } else {
        let j = old_match(old, new, i)->Some_0;
        let e2 = ElementView { reference: old[j].reference, ..new[i] };
        crate::ui::lemma_element_eq_is_fieldwise(e2, old[j]);
        assert((ElementView { frame: None, ..e2 }) == (ElementView {
            reference: old[j].reference,
            frame: None,
            ..new[i]
        }));
        assert(!element_eq(e2, old[j]));
        assert(q.assigned[i] == e2);
        assert(q.changed[q.changed.len() - 1] == e2);
    }
}

} // verus!
