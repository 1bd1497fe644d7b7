//! Circuit depth: the length of the critical path, in gate steps.
//!
//! Every qubit has a clock that starts at 0. A gate starts when the latest
//! of its qubits' clocks says, takes one step, and sets the clocks of all
//! its qubits to the step at which it ends. Qubits that the circuit does
//! not have are passed over.

use crate::circuit::{gate_views, CircuitView, GateView, QuantumCircuit};
use crate::transpiler::UniversalTranspiler;
use vstd::prelude::*;

verus! {

/// The largest number in `times`, 0 where there is none.
pub open spec fn latest(times: Seq<nat>) -> nat
    decreases times.len(),
{
    if times.len() == 0 {
        0
    } else {
        let earlier = latest(times.drop_last());
        if times.last() > earlier {
            times.last()
        } else {
            earlier
        }
    }
}

/// The step at which a gate on `qubits` can start: the latest clock among
/// those of its qubits that the circuit has, 0 where it has none of them.
pub open spec fn start_time(clocks: Seq<nat>, qubits: Seq<usize>) -> nat
    decreases qubits.len(),
{
    if qubits.len() == 0 {
        0
    } else {
        let earlier = start_time(clocks, qubits.drop_last());
        let qubit = qubits.last() as int;
        if qubit < clocks.len() && clocks[qubit] > earlier {
            clocks[qubit]
        } else {
            earlier
        }
    }
}

/// Whether `qubit` is one of `qubits`.
pub open spec fn acts_on(qubits: Seq<usize>, qubit: int) -> bool {
    exists|i: int| 0 <= i < qubits.len() && #[trigger] qubits[i] == qubit
}

/// The clocks once a gate on `qubits` has ended at step `end`.
pub open spec fn stamp(clocks: Seq<nat>, qubits: Seq<usize>, end: nat) -> Seq<nat> {
    Seq::new(
        clocks.len(),
        |qubit: int|
            if acts_on(qubits, qubit) {
                end
            } else {
                clocks[qubit]
            },
    )
}

/// The clocks of `num_qubits` qubits once `gates` have run in order.
pub open spec fn clocks_after(num_qubits: nat, gates: Seq<GateView>) -> Seq<nat>
    decreases gates.len(),
{
    if gates.len() == 0 {
        Seq::new(num_qubits, |qubit: int| 0nat)
    } else {
        let before = clocks_after(num_qubits, gates.drop_last());
        let qubits = gates.last().qubits;
        stamp(before, qubits, start_time(before, qubits) + 1)
    }
}

/// The depth of a circuit: the latest clock once all its gates have run.
pub open spec fn depth(circuit: CircuitView) -> nat {
    latest(clocks_after(circuit.num_qubits, circuit.gates))
}

/// Whether `qubits` holds a qubit of a circuit with `num_qubits` qubits.
pub open spec fn reaches(qubits: Seq<usize>, num_qubits: nat) -> bool {
    exists|i: int| 0 <= i < qubits.len() && #[trigger] qubits[i] < num_qubits
}

/// Whether two gates act on a common qubit among the `num_qubits` qubits of
/// a circuit, so that the second has to wait for the first.
pub open spec fn share_qubit(first: GateView, second: GateView, num_qubits: nat) -> bool {
    exists|qubit: int|
        0 <= qubit < num_qubits && #[trigger] acts_on(first.qubits, qubit) && acts_on(
            second.qubits,
            qubit,
        )
}

/// Whether `chain` lists indices of gates of `circuit`, in rising order, of
/// which each acts on a qubit of the circuit and shares one with the next.
pub open spec fn is_chain(circuit: CircuitView, chain: Seq<int>) -> bool {
    &&& forall|k: int|
        0 <= k < chain.len() ==> 0 <= #[trigger] chain[k] < circuit.gates.len() && reaches(
            circuit.gates[chain[k]].qubits,
            circuit.num_qubits,
        )
    &&& forall|k: int|
        #![trigger chain[k]]
        0 <= k < chain.len() - 1 ==> chain[k] < chain[k + 1] && share_qubit(
            circuit.gates[chain[k]],
            circuit.gates[chain[k + 1]],
            circuit.num_qubits,
        )
}

/// The clocks of `circuit` once the first `count` of its gates have run.
pub open spec fn clocks_at(circuit: CircuitView, count: int) -> Seq<nat> {
    clocks_after(circuit.num_qubits, circuit.gates.take(count))
}

impl UniversalTranspiler {
    /// The step at which a gate on `qubits` can start.
    fn gate_start(clocks: &Vec<usize>, qubits: &Vec<usize>) -> (start: usize)
        ensures
            start == start_time(clocks@.map_values(|c: usize| c as nat), qubits@),
    {
        let ghost times = clocks@.map_values(|c: usize| c as nat);
        let mut start: usize = 0;
        let mut k: usize = 0;
        while k < qubits.len()
            invariant
                times == clocks@.map_values(|c: usize| c as nat),
                k <= qubits.len(),
                start == start_time(times, qubits@.take(k as int)),
            decreases qubits.len() - k,
        {
            assert(qubits@.take(k + 1).drop_last() =~= qubits@.take(k as int));
            let qubit = qubits[k];
            if qubit < clocks.len() && clocks[qubit] > start {
                start = clocks[qubit];
            }
            k = k + 1;
        }
        assert(qubits@.take(k as int) =~= qubits@);
        start
    }

    /// Sets the clocks of those of `qubits` that the circuit has to `end`.
    fn stamp_clocks(clocks: &mut Vec<usize>, qubits: &Vec<usize>, end: usize)
        ensures
            final(clocks)@.map_values(|c: usize| c as nat) == stamp(
                old(clocks)@.map_values(|c: usize| c as nat),
                qubits@,
                end as nat,
            ),
    {
        let ghost before = clocks@;
        let mut k: usize = 0;
        while k < qubits.len()
            invariant
                k <= qubits.len(),
                clocks@.len() == before.len(),
                forall|q: int|
                    0 <= q < before.len() ==> #[trigger] clocks@[q] == if acts_on(
                        qubits@.take(k as int),
                        q,
                    ) {
                        end
                    } else {
                        before[q]
                    },
            decreases qubits.len() - k,
        {
            let qubit = qubits[k];
            let ghost seen = qubits@.take(k as int);
            let ghost seen_next = qubits@.take(k + 1);
            assert forall|q: int| acts_on(seen_next, q) <==> (acts_on(seen, q) || q == qubit) by {
                if acts_on(seen, q) {
                    let i = choose|i: int| 0 <= i < seen.len() && #[trigger] seen[i] == q;
                    assert(seen_next[i] == q);
                }
                if q == qubit {
                    assert(seen_next[k as int] == q);
                }
                if acts_on(seen_next, q) {
                    let i = choose|i: int| 0 <= i < seen_next.len() && #[trigger] seen_next[i] == q;
                    if i < k {
                        assert(seen[i] == q);
                    }
                }
            }
            if qubit < clocks.len() {
                clocks.set(qubit, end);
            }
            k = k + 1;
        }
        assert(qubits@.take(k as int) =~= qubits@);
    }

    /// The largest of `clocks`, 0 where there is none.
    fn latest_clock(clocks: &Vec<usize>) -> (max: usize)
        ensures
            max == latest(clocks@.map_values(|c: usize| c as nat)),
    {
        let ghost times = clocks@.map_values(|c: usize| c as nat);
        let mut max: usize = 0;
        let mut q: usize = 0;
        while q < clocks.len()
            invariant
                times == clocks@.map_values(|c: usize| c as nat),
                q <= clocks.len(),
                max == latest(times.take(q as int)),
            decreases clocks.len() - q,
        {
            assert(times.take(q + 1).drop_last() =~= times.take(q as int));
            if clocks[q] > max {
                max = clocks[q];
            }
            q = q + 1;
        }
        assert(times.take(q as int) =~= times);
        max
    }

    /// Computes the depth of `circuit`: 0 for a circuit without qubits or
    /// without gates, 1 for a single gate on a qubit of the circuit, and
    /// never more than the number of gates.
    pub fn calculate_depth(circuit: &QuantumCircuit) -> (steps: usize)
        ensures
            steps == depth(circuit@),
            steps <= circuit.gates.len(),
            circuit.num_qubits == 0 || circuit.gates.len() == 0 ==> steps == 0,
            circuit.gates.len() == 1 && reaches(circuit.gates[0]@.qubits, circuit.num_qubits as nat)
                ==> steps == 1,
    {
        proof {
            depth_at_most_gate_count(circuit@);
            if circuit.num_qubits == 0 || circuit.gates.len() == 0 {
                empty_circuit_has_depth_zero(circuit@);
            }
            if circuit.gates.len() == 1 && reaches(
                circuit.gates[0]@.qubits,
                circuit.num_qubits as nat,
            ) {
                single_gate_has_depth_one(circuit@);
            }
        }
        let ghost views = gate_views(circuit.gates@);
        let ghost n = circuit.num_qubits as nat;
        let mut clocks: Vec<usize> = Vec::new();
        let mut q: usize = 0;
        while q < circuit.num_qubits
            invariant
                q <= circuit.num_qubits,
                clocks@.len() == q,
                forall|k: int| 0 <= k < q ==> clocks@[k] == 0,
            decreases circuit.num_qubits - q,
        {
            clocks.push(0);
            q = q + 1;
        }
        let mut i: usize = 0;
        while i < circuit.gates.len()
            invariant
                views == gate_views(circuit.gates@),
                n == circuit.num_qubits,
                i <= circuit.gates.len(),
                clocks@.map_values(|c: usize| c as nat) == clocks_after(n, views.take(i as int)),
            decreases circuit.gates.len() - i,
        {
            proof {
                assert(views.take(i + 1).drop_last() =~= views.take(i as int));
                clocks_bounded(n, views.take(i as int));
                start_time_is_maximum(
                    clocks@.map_values(|c: usize| c as nat),
                    circuit.gates[i as int]@.qubits,
                );
            }
            let gate = &circuit.gates[i];
            let start = Self::gate_start(&clocks, &gate.qubits);
            let end = start + 1;
            Self::stamp_clocks(&mut clocks, &gate.qubits, end);
            i = i + 1;
        }
        assert(views.take(i as int) =~= views);
        Self::latest_clock(&clocks)
    }
}

/// `latest` is an upper bound of the sequence, and one of its elements
/// unless the sequence is empty.
pub proof fn latest_is_maximum(times: Seq<nat>)
    ensures
        forall|i: int| 0 <= i < times.len() ==> times[i] <= latest(times),
        times.len() > 0 ==> exists|i: int| 0 <= i < times.len() && times[i] == latest(times),
        times.len() == 0 ==> latest(times) == 0,
    decreases times.len(),
{
    if times.len() > 0 {
        let front = times.drop_last();
        latest_is_maximum(front);
        assert forall|i: int| 0 <= i < times.len() implies times[i] <= latest(times) by {
            if i < front.len() {
                assert(front[i] == times[i]);
            }
        }
        if times.last() > latest(front) {
            assert(times[times.len() - 1] == latest(times));
        } else if front.len() > 0 {
            let i = choose|i: int| 0 <= i < front.len() && front[i] == latest(front);
            assert(times[i] == latest(times));
        } else {
            assert(times[0] == latest(times));
        }
    }
}

/// `start_time` is an upper bound of the clocks of those of `qubits` that
/// the circuit has, and one of these clocks unless there is none.
pub proof fn start_time_is_maximum(clocks: Seq<nat>, qubits: Seq<usize>)
    ensures
        forall|i: int|
            0 <= i < qubits.len() && qubits[i] < clocks.len() ==> clocks[qubits[i] as int]
                <= start_time(clocks, qubits),
        start_time(clocks, qubits) == 0 || exists|i: int|
            0 <= i < qubits.len() && qubits[i] < clocks.len() && clocks[qubits[i] as int]
                == start_time(clocks, qubits),
    decreases qubits.len(),
{
    if qubits.len() > 0 {
        let front = qubits.drop_last();
        start_time_is_maximum(clocks, front);
        assert forall|i: int|
            0 <= i < qubits.len() && qubits[i] < clocks.len() implies clocks[qubits[i] as int]
            <= start_time(clocks, qubits) by {
            if i < front.len() {
                assert(front[i] == qubits[i]);
            }
        }
        let last = qubits.len() - 1;
        if qubits[last] < clocks.len() && clocks[qubits[last] as int] > start_time(clocks, front) {
            assert(clocks[qubits[last] as int] == start_time(clocks, qubits));
        } else if start_time(clocks, front) != 0 {
            let i = choose|i: int|
                0 <= i < front.len() && front[i] < clocks.len() && clocks[front[i] as int]
                    == start_time(clocks, front);
            assert(qubits[i] == front[i]);
        }
    }
}

/// No clock runs ahead of the number of gates that have run.
pub proof fn clocks_bounded(num_qubits: nat, gates: Seq<GateView>)
    ensures
        clocks_after(num_qubits, gates).len() == num_qubits,
        forall|qubit: int|
            0 <= qubit < num_qubits ==> #[trigger] clocks_after(num_qubits, gates)[qubit]
                <= gates.len(),
    decreases gates.len(),
{
    if gates.len() > 0 {
        let before = clocks_after(num_qubits, gates.drop_last());
        clocks_bounded(num_qubits, gates.drop_last());
        start_time_is_maximum(before, gates.last().qubits);
    }
}

/// The depth of a circuit is at most the number of its gates.
pub proof fn depth_at_most_gate_count(circuit: CircuitView)
    ensures
        depth(circuit) <= circuit.gates.len(),
{
    let clocks = clocks_after(circuit.num_qubits, circuit.gates);
    clocks_bounded(circuit.num_qubits, circuit.gates);
    latest_is_maximum(clocks);
}

/// A circuit without qubits or without gates has depth 0.
pub proof fn empty_circuit_has_depth_zero(circuit: CircuitView)
    requires
        circuit.num_qubits == 0 || circuit.gates.len() == 0,
    ensures
        depth(circuit) == 0,
{
    let clocks = clocks_after(circuit.num_qubits, circuit.gates);
    clocks_bounded(circuit.num_qubits, circuit.gates);
    latest_is_maximum(clocks);
}

/// The clocks of a circuit of exactly one gate: 1 for the qubits that the
/// gate acts on, 0 for the others.
proof fn single_gate_clocks(circuit: CircuitView)
    requires
        circuit.gates.len() == 1,
    ensures
        clocks_after(circuit.num_qubits, circuit.gates) == stamp(
            Seq::new(circuit.num_qubits, |qubit: int| 0nat),
            circuit.gates[0].qubits,
            1,
        ),
{
    let qubits = circuit.gates[0].qubits;
    let before = clocks_after(circuit.num_qubits, circuit.gates.drop_last());
    assert(circuit.gates.drop_last().len() == 0);
    start_time_is_maximum(before, qubits);
    assert(start_time(before, qubits) == 0);
}

/// A circuit of exactly one gate has depth 1, provided that this gate acts
/// on a qubit that the circuit has.
pub proof fn single_gate_has_depth_one(circuit: CircuitView)
    requires
        circuit.gates.len() == 1,
        reaches(circuit.gates[0].qubits, circuit.num_qubits),
    ensures
        depth(circuit) == 1,
{
    let qubits = circuit.gates[0].qubits;
    let after = clocks_after(circuit.num_qubits, circuit.gates);
    single_gate_clocks(circuit);
    latest_is_maximum(after);
    let i = choose|i: int| 0 <= i < qubits.len() && #[trigger] qubits[i] < circuit.num_qubits;
    assert(acts_on(qubits, qubits[i] as int));
    assert(after[qubits[i] as int] == 1);
}

/// A circuit of exactly one gate that acts on no qubit that the circuit has
/// has depth 0.
pub proof fn single_gate_off_the_circuit_has_depth_zero(circuit: CircuitView)
    requires
        circuit.gates.len() == 1,
        !reaches(circuit.gates[0].qubits, circuit.num_qubits),
    ensures
        depth(circuit) == 0,
{
    let qubits = circuit.gates[0].qubits;
    let after = clocks_after(circuit.num_qubits, circuit.gates);
    single_gate_clocks(circuit);
    latest_is_maximum(after);
    assert forall|q: int| 0 <= q < after.len() implies after[q] == 0 by {
        if acts_on(qubits, q) {
            let i = choose|i: int| 0 <= i < qubits.len() && #[trigger] qubits[i] == q;
            assert(qubits[i] < circuit.num_qubits);
        }
    }
}

/// What one more gate does to the clocks.
proof fn clocks_step(circuit: CircuitView, index: int)
    requires
        0 <= index < circuit.gates.len(),
    ensures
        clocks_at(circuit, index).len() == circuit.num_qubits,
        clocks_at(circuit, index + 1) == stamp(
            clocks_at(circuit, index),
            circuit.gates[index].qubits,
            start_time(clocks_at(circuit, index), circuit.gates[index].qubits) + 1,
        ),
{
    let gates = circuit.gates;
    assert(gates.take(index + 1).drop_last() =~= gates.take(index));
    assert(gates.take(index + 1).last() == gates[index]);
    clocks_bounded(circuit.num_qubits, gates.take(index));
}

/// No clock ever runs backwards.
proof fn clocks_never_fall(circuit: CircuitView, earlier: int, later: int, qubit: int)
    requires
        0 <= earlier <= later <= circuit.gates.len(),
        0 <= qubit < circuit.num_qubits,
    ensures
        clocks_at(circuit, earlier)[qubit] <= clocks_at(circuit, later)[qubit],
    decreases later - earlier,
{
    if earlier < later {
        clocks_never_fall(circuit, earlier, later - 1, qubit);
        clocks_step(circuit, later - 1);
        let before = clocks_at(circuit, later - 1);
        let qubits = circuit.gates[later - 1].qubits;
        start_time_is_maximum(before, qubits);
        if acts_on(qubits, qubit) {
            let i = choose|i: int| 0 <= i < qubits.len() && #[trigger] qubits[i] == qubit;
            assert(before[qubits[i] as int] <= start_time(before, qubits));
        }
    }
}

/// A chain is no longer than the clock, right behind its last gate, of any
/// qubit of the circuit that this gate acts on.
proof fn chain_fits_clock(circuit: CircuitView, chain: Seq<int>, qubit: int)
    requires
        is_chain(circuit, chain),
        chain.len() > 0,
        0 <= qubit < circuit.num_qubits,
        acts_on(circuit.gates[chain.last()].qubits, qubit),
    ensures
        chain.len() <= clocks_at(circuit, chain.last() + 1)[qubit],
    decreases chain.len(),
{
    let last = chain[chain.len() - 1];
    clocks_step(circuit, last);
    let before = clocks_at(circuit, last);
    let qubits = circuit.gates[last].qubits;
    if chain.len() > 1 {
        let front = chain.drop_last();
        let previous = chain[chain.len() - 2];
        assert(front[front.len() - 1] == previous);
        assert(is_chain(circuit, front)) by {
            assert forall|k: int| 0 <= k < front.len() implies 0 <= #[trigger] front[k]
                < circuit.gates.len() && reaches(
                circuit.gates[front[k]].qubits,
                circuit.num_qubits,
            ) by {
                assert(front[k] == chain[k]);
            }
            assert forall|k: int|
                #![trigger front[k]]
                0 <= k < front.len() - 1 implies front[k] < front[k + 1] && share_qubit(
                circuit.gates[front[k]],
                circuit.gates[front[k + 1]],
                circuit.num_qubits,
            ) by {
                assert(front[k] == chain[k]);
                assert(front[k + 1] == chain[k + 1]);
            }
        }
        assert(previous < last && share_qubit(
            circuit.gates[previous],
            circuit.gates[last],
            circuit.num_qubits,
        ));
        let common = choose|common: int|
            0 <= common < circuit.num_qubits && #[trigger] acts_on(
                circuit.gates[previous].qubits,
                common,
            ) && acts_on(qubits, common);
        chain_fits_clock(circuit, front, common);
        clocks_never_fall(circuit, previous + 1, last, common);
        start_time_is_maximum(before, qubits);
        let i = choose|i: int| 0 <= i < qubits.len() && #[trigger] qubits[i] == common;
        assert(before[qubits[i] as int] <= start_time(before, qubits));
    }
}

/// A chain as long as the clock of `qubit` once `count` gates have run,
/// which ends, unless it is empty, with a gate among these that acts on
/// `qubit`.
proof fn chain_behind_clock(circuit: CircuitView, count: int, qubit: int) -> (chain: Seq<int>)
    requires
        0 <= count <= circuit.gates.len(),
        0 <= qubit < circuit.num_qubits,
    ensures
        is_chain(circuit, chain),
        chain.len() == clocks_at(circuit, count)[qubit],
        chain.len() > 0 ==> chain.last() < count && acts_on(
            circuit.gates[chain.last()].qubits,
            qubit,
        ),
    decreases count,
{
    if count == 0 {
        assert(circuit.gates.take(0) =~= Seq::<GateView>::empty());
        Seq::empty()
    } else {
        let index = count - 1;
        clocks_step(circuit, index);
        let before = clocks_at(circuit, index);
        let qubits = circuit.gates[index].qubits;
        if acts_on(qubits, qubit) {
            start_time_is_maximum(before, qubits);
            let witness = choose|i: int| 0 <= i < qubits.len() && #[trigger] qubits[i] == qubit;
            assert(qubits[witness] < circuit.num_qubits);
            if start_time(before, qubits) == 0 {
                let chain = seq![index];
                assert(is_chain(circuit, chain));
                chain
            } else {
                let i = choose|i: int|
                    0 <= i < qubits.len() && qubits[i] < before.len() && before[qubits[i] as int]
                        == start_time(before, qubits);
                let busy = qubits[i] as int;
                let front = chain_behind_clock(circuit, index, busy);
                let chain = front.push(index);
                assert(acts_on(qubits, busy));
                assert(is_chain(circuit, chain)) by {
                    assert forall|k: int| 0 <= k < chain.len() implies 0 <= #[trigger] chain[k]
                        < circuit.gates.len() && reaches(
                        circuit.gates[chain[k]].qubits,
                        circuit.num_qubits,
                    ) by {
                        if k < front.len() {
                            assert(chain[k] == front[k]);
                        }
                    }
                    assert forall|k: int|
                        #![trigger chain[k]]
                        0 <= k < chain.len() - 1 implies chain[k] < chain[k + 1] && share_qubit(
                        circuit.gates[chain[k]],
                        circuit.gates[chain[k + 1]],
                        circuit.num_qubits,
                    ) by {
                        assert(chain[k] == front[k]);
                        if k < front.len() - 1 {
                            assert(chain[k + 1] == front[k + 1]);
                        } else {
                            assert(chain[k + 1] == index);
                            assert(acts_on(circuit.gates[front.last()].qubits, busy));
                        }
                    }
                }
                chain
            }
        } else {
            chain_behind_clock(circuit, index, qubit)
        }
    }
}

/// The depth of a circuit is the length of its longest chain of gates of
/// which each has to wait for the one before: no chain is longer, and one
/// is as long.
pub proof fn depth_is_longest_chain(circuit: CircuitView)
    ensures
        forall|chain: Seq<int>|
            #[trigger] is_chain(circuit, chain) ==> chain.len() <= depth(circuit),
        exists|chain: Seq<int>|
            #[trigger] is_chain(circuit, chain) && chain.len() == depth(circuit),
{
    let count = circuit.gates.len() as int;
    let clocks = clocks_at(circuit, count);
    assert(circuit.gates.take(count) =~= circuit.gates);
    clocks_bounded(circuit.num_qubits, circuit.gates);
    latest_is_maximum(clocks);
    assert forall|chain: Seq<int>| #[trigger] is_chain(circuit, chain) implies chain.len() <= depth(
        circuit,
    ) by {
        if chain.len() > 0 {
            let last = chain[chain.len() - 1];
            let qubits = circuit.gates[last].qubits;
            assert(reaches(qubits, circuit.num_qubits));
            let i = choose|i: int|
                0 <= i < qubits.len() && #[trigger] qubits[i] < circuit.num_qubits;
            let qubit = qubits[i] as int;
            assert(acts_on(qubits, qubit));
            chain_fits_clock(circuit, chain, qubit);
            clocks_never_fall(circuit, last + 1, count, qubit);
        }
    }
    if clocks.len() > 0 {
        let qubit = choose|q: int| 0 <= q < clocks.len() && clocks[q] == latest(clocks);
        let chain = chain_behind_clock(circuit, count, qubit);
        assert(is_chain(circuit, chain) && chain.len() == depth(circuit));
    } else {
        let chain = Seq::<int>::empty();
        assert(is_chain(circuit, chain) && chain.len() == depth(circuit));
    }
}

} // verus!
