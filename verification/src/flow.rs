use crate::interaction::Action;
use crate::process::strs;
use crate::text::{chars_of, decimal, push_char, push_decimal, push_str};
use crate::ui::{element_views, Screen};
use vstd::prelude::*;

verus! {

/// One screen of a captured flow, reached by its actions from its parent.
#[derive(Debug)]
pub struct CaptureState {
    pub name: String,
    pub from: Option<String>,
    pub transition: Option<String>,
    pub actions: Vec<Action>,
    pub expect_label: Option<String>,
}

/// A flow to capture into a directory.
#[derive(Debug)]
pub struct CaptureRequest {
    pub device: String,
    pub output_dir: String,
    pub states: Vec<CaptureState>,
    pub timeout_ms: u64,
}

/// Characters a state name may hold.
pub open spec fn name_char(c: char) -> bool {
    ('a' <= c <= 'z') || ('A' <= c <= 'Z') || ('0' <= c <= '9') || c == '-' || c == '_'
}

/// A state name of 1 to 80 letters, digits, `-` and `_`.
pub open spec fn valid_name_spec(n: Seq<char>) -> bool {
    0 < n.len() <= 80 && forall|i: int| 0 <= i < n.len() ==> name_char(#[trigger] n[i])
}

/// Whether a state name is valid.
pub fn validate_name(name: &str) -> (r: bool)
    ensures
        r == valid_name_spec(name@),
{
    let v = chars_of(name);
    if v.len() == 0 || v.len() > 80 {
        return false;
    }
    let mut i: usize = 0;
    while i < v.len()
        invariant
            i <= v.len(),
            v@ == name@,
            forall|j: int| 0 <= j < i ==> name_char(#[trigger] v@[j]),
        decreases v.len() - i,
    {
        let c = v[i];
        if !(('a' <= c && c <= 'z') || ('A' <= c && c <= 'Z') || ('0' <= c && c <= '9') || c == '-'
            || c == '_') {
            return false;
        }
        i += 1;
    }
    true
}

/// Why a flow is refused.
#[derive(Debug, Clone, Copy, PartialEq, Eq)]
pub enum FlowError {
    /// Not between 1 and 64 states.
    StateCount,
    /// Timeout outside 100..=60000 ms.
    Timeout,
    /// A name is empty, too long or holds other characters.
    InvalidName,
    /// A state names a parent that does not come before it.
    ParentAfterChild,
    /// Two states share a name.
    DuplicateName,
}

impl FlowError {
    /// The error as text.
    pub fn message(&self) -> (r: &'static str)
        ensures
            r@ == match self {
                FlowError::StateCount => "Provide between 1 and 64 flow states"@,
                FlowError::Timeout => "timeout_ms must be 100..60000"@,
                FlowError::InvalidName => "Flow state names must contain only letters, numbers, '-' or '_'"@,
                FlowError::ParentAfterChild => "Flow state parent must appear before its child"@,
                FlowError::DuplicateName => "Duplicate flow state name"@,
            },
    {
        match self {
            FlowError::StateCount => "Provide between 1 and 64 flow states",
            FlowError::Timeout => "timeout_ms must be 100..60000",
            FlowError::InvalidName => "Flow state names must contain only letters, numbers, '-' or '_'",
            FlowError::ParentAfterChild => "Flow state parent must appear before its child",
            FlowError::DuplicateName => "Duplicate flow state name",
        }
    }
}

/// A state as it will be captured: its screenshot file and its parent.
#[derive(Debug)]
pub struct PlannedState {
    pub screenshot_file: String,
    pub from: Option<String>,
}

/// `n` with at least two digits.
pub open spec fn two_digits(n: nat) -> Seq<char> {
    if n < 10 {
        seq!['0'] + decimal(n)
    } else {
        decimal(n)
    }
}

/// The screenshot file of the state at position `i`: its number with two
/// digits, a dash, its name and `.png`.
pub open spec fn screenshot_file_spec(i: int, name: Seq<char>) -> Seq<char> {
    two_digits((i + 1) as nat) + seq!['-'] + name + ".png"@
}

/// Whether `names` holds `x`.
pub open spec fn has_name(names: Seq<CaptureState>, x: Seq<char>) -> bool {
    exists|k: int| 0 <= k < names.len() && names[k].name@ == x
}

/// The first problem of the states from position `i` on, given that the
/// earlier ones are fine.
pub open spec fn first_problem(states: Seq<CaptureState>, i: int) -> Option<FlowError>
    decreases states.len() - i,
{
    if i < 0 || i >= states.len() {
        None
    } else {
        let s = states[i];
        if !valid_name_spec(s.name@) {
            Some(FlowError::InvalidName)
        } else if s.from matches Some(p) && !valid_name_spec(p@) {
            Some(FlowError::InvalidName)
        } else if s.from matches Some(p) && !has_name(states.take(i), p@) {
            Some(FlowError::ParentAfterChild)
        } else if has_name(states.take(i), s.name@) {
            Some(FlowError::DuplicateName)
        } else {
            first_problem(states, i + 1)
        }
    }
}

fn names_contain(states: &Vec<CaptureState>, n: usize, x: &str) -> (r: bool)
    requires
        n <= states.len(),
    ensures
        r == has_name(states@.take(n as int), x@),
{
    let mut k: usize = 0;
    while k < n
        invariant
            k <= n <= states.len(),
            forall|m: int| 0 <= m < k ==> states@[m].name@ != x@,
        decreases n - k,
    {
        if crate::text::str_eq(states[k].name.as_str(), x) {
            assert(states@.take(n as int)[k as int].name@ == x@);
            return true;
        }
        k += 1;
    }
    proof {
        if has_name(states@.take(n as int), x@) {
            let m = choose|m: int|
                0 <= m < states@.take(n as int).len() && states@.take(n as int)[m].name@ == x@;
            assert(states@[m].name@ == x@);
        }
    }
    false
}

/// Checks a flow and plans its captures: 1 to 64 states, a timeout of 100
/// to 60000 ms, valid names, parents before children, no name twice. Each
/// state gets its numbered screenshot file, and a state without a parent
/// continues from the one before it.
pub fn plan_flow(states: &Vec<CaptureState>, timeout_ms: u64) -> (r: Result<
    Vec<PlannedState>,
    FlowError,
>)
    ensures
        !(1 <= states.len() <= 64) ==> r == Err::<Vec<PlannedState>, FlowError>(
            FlowError::StateCount,
        ),
        1 <= states.len() <= 64 && !(100 <= timeout_ms <= 60000) ==> r == Err::<
            Vec<PlannedState>,
            FlowError,
        >(FlowError::Timeout),
        1 <= states.len() <= 64 && 100 <= timeout_ms <= 60000 ==> match first_problem(states@, 0) {
            Some(e) => r == Err::<Vec<PlannedState>, FlowError>(e),
            None => r matches Ok(p) && p.len() == states.len() && forall|i: int|
                0 <= i < states.len() ==> {
                    &&& (#[trigger] p@[i]).screenshot_file@ == screenshot_file_spec(
                        i,
                        states@[i].name@,
                    )
                    &&& crate::ui::opt_view(p@[i].from) == match states@[i].from {
                        Some(f) => Some(f@),
                        None => if i == 0 {
                            None
                        } else {
                            Some(states@[i - 1].name@)
                        },
                    }
                },
        },
{
    if !(1 <= states.len() && states.len() <= 64) {
        return Err(FlowError::StateCount);
    }
    if !(100 <= timeout_ms && timeout_ms <= 60000) {
        return Err(FlowError::Timeout);
    }
    let mut planned: Vec<PlannedState> = Vec::new();
    let mut i: usize = 0;
    while i < states.len()
        invariant
            1 <= states.len() <= 64,
            100 <= timeout_ms <= 60000,
            i <= states.len(),
            first_problem(states@, 0) == first_problem(states@, i as int),
            planned.len() == i,
            forall|k: int|
                0 <= k < i ==> {
                    &&& (#[trigger] planned@[k]).screenshot_file@ == screenshot_file_spec(
                        k,
                        states@[k].name@,
                    )
                    &&& crate::ui::opt_view(planned@[k].from) == match states@[k].from {
                        Some(f) => Some(f@),
                        None => if k == 0 {
                            None
                        } else {
                            Some(states@[k - 1].name@)
                        },
                    }
                },
        decreases states.len() - i,
    {
        match plan_state(states, i) {
            Err(e) => {
                return Err(e);
            },
            Ok(p) => {
                planned.push(p);
            },
        }
        i += 1;
    }
    Ok(planned)
}

/// Whether a state must wait for the screen to settle: it ran actions, or
/// the current screen does not show its expected label (or it expects
/// none).
pub fn needs_settle(has_actions: bool, expect_label: Option<&str>, current: &Screen) -> (r: bool)
    ensures
        r == (has_actions || !(expect_label matches Some(l) && exists|k: int|
            0 <= k < current.elements.len() && element_views(current.elements@)[k].label == Some(
                l@,
            ))),
{
    let matches = match expect_label {
        Some(l) => crate::interaction::has_expected_label(current, Some(l)),
        None => false,
    };
    has_actions || !matches
}

/// Checks the size of a flow request before any state is captured: 1 to
/// 64 states and a timeout of 100 to 60000 ms.
pub fn check_request(state_count: usize, timeout_ms: u64) -> (r: Result<(), FlowError>)
    ensures
        !(1 <= state_count <= 64) ==> r == Err::<(), FlowError>(FlowError::StateCount),
        1 <= state_count <= 64 && !(100 <= timeout_ms <= 60000) ==> r == Err::<(), FlowError>(
            FlowError::Timeout,
        ),
        1 <= state_count <= 64 && 100 <= timeout_ms <= 60000 ==> r is Ok,
{
    if !(1 <= state_count && state_count <= 64) {
        return Err(FlowError::StateCount);
    }
    if !(100 <= timeout_ms && timeout_ms <= 60000) {
        return Err(FlowError::Timeout);
    }
    Ok(())
}

/// The problem of the state at position `i`, judged against the states
/// before it: a bad name, a bad or later parent, or a repeated name.
pub open spec fn state_problem(states: Seq<CaptureState>, i: int) -> Option<FlowError> {
    let s = states[i];
    if !valid_name_spec(s.name@) {
        Some(FlowError::InvalidName)
    } else if s.from matches Some(p) && !valid_name_spec(p@) {
        Some(FlowError::InvalidName)
    } else if s.from matches Some(p) && !has_name(states.take(i), p@) {
        Some(FlowError::ParentAfterChild)
    } else if has_name(states.take(i), s.name@) {
        Some(FlowError::DuplicateName)
    } else {
        None
    }
}

/// Checks the state at position `i` when its turn to be captured comes,
/// and plans its capture: its numbered screenshot file, and its parent (the
/// state before it when it names none).
pub fn plan_state(states: &Vec<CaptureState>, i: usize) -> (r: Result<PlannedState, FlowError>)
    requires
        i < states.len() <= 64,
    ensures
        match state_problem(states@, i as int) {
            Some(e) => r == Err::<PlannedState, FlowError>(e),
            None => r matches Ok(p) && p.screenshot_file@ == screenshot_file_spec(
                i as int,
                states@[i as int].name@,
            ) && crate::ui::opt_view(p.from) == match states@[i as int].from {
                Some(f) => Some(f@),
                None => if i == 0 {
                    None
                } else {
                    Some(states@[i - 1].name@)
                },
            },
        },
{
    let state = &states[i];
    if !validate_name(state.name.as_str()) {
        return Err(FlowError::InvalidName);
    }
    match &state.from {
        Some(parent) => {
            if !validate_name(parent.as_str()) {
                return Err(FlowError::InvalidName);
            }
            if !names_contain(states, i, parent.as_str()) {
                return Err(FlowError::ParentAfterChild);
            }
        },
        None => {},
    }
    if names_contain(states, i, state.name.as_str()) {
        return Err(FlowError::DuplicateName);
    }
    let mut file = String::new();
    let number = (i + 1) as u64;
    if number < 10 {
        push_char(&mut file, '0');
    }
    push_decimal(&mut file, number);
    push_char(&mut file, '-');
    push_str(&mut file, state.name.as_str());
    push_str(&mut file, ".png");
    assert(file@ =~= screenshot_file_spec(i as int, state.name@));
    let from = match &state.from {
        Some(f) => Some(f.clone()),
        None => if i == 0 {
            None
        } else {
            Some(states[i - 1].name.clone())
        },
    };
    Ok(PlannedState { screenshot_file: file, from })
}

} // verus!
