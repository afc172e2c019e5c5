use crate::engine::probe::{validate_required, ProbeError, ProbeResults};
use vstd::prelude::*;

verus! {

/// A measured state of an A/B/A experiment cycle.
#[derive(Debug, Clone, Copy, PartialEq, Eq, Structural)]
pub enum State {
    BaselineBefore,
    CandidateIdle,
    CandidateActive,
    CandidatePostInteraction,
    BaselineRestored,
}

/// The order of the states in a cycle.
pub open spec fn order_spec() -> Seq<State> {
    seq![
        State::BaselineBefore,
        State::CandidateIdle,
        State::CandidateActive,
        State::CandidatePostInteraction,
        State::BaselineRestored,
    ]
}

impl State {
    /// The order of the states in a cycle.
    pub const ORDER: [State; 5] = [
        State::BaselineBefore,
        State::CandidateIdle,
        State::CandidateActive,
        State::CandidatePostInteraction,
        State::BaselineRestored,
    ];
}

/// One memory sample of a simulator.
#[derive(Debug, Clone, Copy, PartialEq, Eq)]
pub struct MemorySample {
    pub physical_bytes: u64,
    pub process_count: usize,
    pub compressor_bytes: u64,
    pub swap_bytes: u64,
}

/// The samples taken in one state.
#[derive(Debug)]
pub struct StateMeasurement {
    pub state: State,
    pub samples: Vec<MemorySample>,
}

/// Why a cycle or run is refused.
#[derive(Debug, Clone, Copy, PartialEq, Eq)]
pub enum ExperimentError {
    /// Cycle indexes start at one.
    ZeroIndex,
    /// The states do not follow the A/B/A order.
    StateOrder,
    /// A state has another number of samples than the manifest asks for.
    SampleCount { state: State, samples: usize },
    /// A required probe is missing or failed.
    Probe(ProbeError),
    /// The run has another number of cycles than the manifest asks for.
    IncompleteCycles,
    /// Cycle indexes are not 1, 2, 3, …
    NonContiguous,
}

/// The states of the measurements, in order.
pub open spec fn states_of(ms: Seq<StateMeasurement>) -> Seq<State> {
    ms.map_values(|m: StateMeasurement| m.state)
}

/// The first measurement whose sample count is not `expected`.
pub open spec fn first_bad_count(ms: Seq<StateMeasurement>, expected: usize, i: int) -> Option<int>
    decreases ms.len() - i,
{
    if i < 0 || i >= ms.len() {
        None
    } else if ms[i].samples.len() != expected {
        Some(i)
    } else {
        first_bad_count(ms, expected, i + 1)
    }
}

/// Checks the integer parts of a cycle: its index, the A/B/A order of its
/// states, the sample count of each state, and its required probes.
pub fn validate_cycle(
    index: usize,
    measurements: &Vec<StateMeasurement>,
    expected_samples: usize,
    probes: &ProbeResults,
) -> (r: Result<(), ExperimentError>)
    ensures
        index == 0 ==> r == Err::<(), ExperimentError>(ExperimentError::ZeroIndex),
        index != 0 && states_of(measurements@) != order_spec() ==> r == Err::<(), ExperimentError>(
            ExperimentError::StateOrder,
        ),
        index != 0 && states_of(measurements@) == order_spec() ==> match first_bad_count(
            measurements@,
            expected_samples,
            0,
        ) {
            Some(k) => r == Err::<(), ExperimentError>(
                ExperimentError::SampleCount {
                    state: measurements@[k].state,
                    samples: measurements@[k].samples.len(),
                },
            ),
            None => (r is Ok <==> forall|k: int|
                0 <= k < crate::engine::probe::required_spec().len()
                    ==> crate::engine::probe::probe_ok(
                    *probes,
                    #[trigger] crate::engine::probe::required_spec()[k],
                )) && (r is Err ==> r matches Err(ExperimentError::Probe(_))),
        },
{
    if index == 0 {
        return Err(ExperimentError::ZeroIndex);
    }
    let order = State::ORDER;
    assert(order@ =~= order_spec());
    if measurements.len() != 5 {
        assert(states_of(measurements@).len() != order_spec().len());
        return Err(ExperimentError::StateOrder);
    }
    let mut i: usize = 0;
    while i < 5
        invariant
            i <= 5,
            index != 0,
            measurements.len() == 5,
            order@ == order_spec(),
            forall|k: int| 0 <= k < i ==> measurements@[k].state == order_spec()[k],
        decreases 5 - i,
    {
        if measurements[i].state != order[i] {
            assert(states_of(measurements@)[i as int] != order_spec()[i as int]);
            return Err(ExperimentError::StateOrder);
        }
        i += 1;
    }
    assert(states_of(measurements@) =~= order_spec());
    let mut j: usize = 0;
    while j < measurements.len()
        invariant
            j <= measurements.len(),
            index != 0,
            states_of(measurements@) == order_spec(),
            first_bad_count(measurements@, expected_samples, 0) == first_bad_count(
                measurements@,
                expected_samples,
                j as int,
            ),
        decreases measurements.len() - j,
    {
        if measurements[j].samples.len() != expected_samples {
            return Err(
                ExperimentError::SampleCount {
                    state: measurements[j].state,
                    samples: measurements[j].samples.len(),
                },
            );
        }
        j += 1;
    }
    match validate_required(probes) {
        Ok(()) => Ok(()),
        Err(e) => Err(ExperimentError::Probe(e)),
    }
}

/// Checks the cycle count and that cycle indexes run 1, 2, 3, …
pub fn validate_cycle_indexes(indexes: &[usize], cycle_count: usize) -> (r: Result<
    (),
    ExperimentError,
>)
    ensures
        indexes.len() != cycle_count ==> r == Err::<(), ExperimentError>(
            ExperimentError::IncompleteCycles,
        ),
        indexes.len() == cycle_count ==> (r is Ok <==> forall|k: int|
            0 <= k < indexes.len() ==> #[trigger] indexes@[k] == k + 1),
        indexes.len() == cycle_count && r is Err ==> r == Err::<(), ExperimentError>(
            ExperimentError::NonContiguous,
        ),
{
    if indexes.len() != cycle_count {
        return Err(ExperimentError::IncompleteCycles);
    }
    let mut k: usize = 0;
    while k < indexes.len()
        invariant
            k <= indexes.len(),
            indexes.len() == cycle_count,
            forall|m: int| 0 <= m < k ==> #[trigger] indexes@[m] == m + 1,
        decreases indexes.len() - k,
    {
        if indexes[k] != k + 1 {
            return Err(ExperimentError::NonContiguous);
        }
        k += 1;
    }
    Ok(())
}

} // verus!
