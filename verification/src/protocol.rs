//! The handshake between the workers and the controller.
//!
//! All participants meet at a rendezvous twice in each generation. Between
//! the first meeting and the second the workers compute; between the second
//! and the first of the next generation the controller swaps the buffers.
//! A participant leaves a meeting only when all have arrived, so whatever a
//! participant does after its `k`-th meeting happens after everything that
//! any other participant did before its own `k`-th meeting.

use vstd::prelude::*;

verus! {

/// Who may touch the grid between two meetings.
#[derive(Clone, Copy, Debug, PartialEq, Eq)]
pub enum Phase {
    /// The workers: they read the current grid and write their buffers.
    Compute,
    /// The controller: it exchanges chunks and buffers.
    Swap,
}

impl Phase {
    /// The other phase.
    pub open spec fn spec_other(self) -> Phase {
        match self {
            Phase::Compute => Phase::Swap,
            Phase::Swap => Phase::Compute,
        }
    }

    /// The other phase.
    pub fn other(self) -> (p: Phase)
        ensures
            p == self.spec_other(),
    {
        match self {
            Phase::Compute => Phase::Swap,
            Phase::Swap => Phase::Compute,
        }
    }
}

/// The phase that follows the `k`-th meeting. Before the first meeting the
/// grid is the controller's.
pub open spec fn phase_after(k: nat) -> Phase {
    if k % 2 == 1 {
        Phase::Compute
    } else {
        Phase::Swap
    }
}

/// A meeting point for a fixed number of parties: the state that a barrier
/// keeps. Each completed meeting turns the phase over.
#[derive(Clone, Copy, Debug, PartialEq, Eq)]
pub struct Rendezvous {
    parties: usize,
    arrived: usize,
    phase: Phase,
}

impl Rendezvous {
    /// Not all parties have arrived yet.
    pub closed spec fn wf(&self) -> bool {
        self.arrived < self.parties
    }

    /// Number of parties that meet.
    pub closed spec fn spec_parties(&self) -> nat {
        self.parties as nat
    }

    /// Number of parties that wait at the meeting point.
    pub closed spec fn spec_arrived(&self) -> nat {
        self.arrived as nat
    }

    /// The phase that is running.
    pub closed spec fn spec_phase(&self) -> Phase {
        self.phase
    }

    /// The state after `k` further arrivals.
    pub closed spec fn after(self, k: nat) -> Rendezvous
        decreases k,
    {
        if k == 0 {
            self
        } else {
            let s = self.after((k - 1) as nat);
            if s.arrived + 1 == s.parties {
                Rendezvous { parties: s.parties, arrived: 0, phase: s.phase.spec_other() }
            } else {
                Rendezvous { parties: s.parties, arrived: (s.arrived + 1) as usize, phase: s.phase }
            }
        }
    }

    /// A meeting point for `parties` parties, with nobody waiting, in the
    /// phase before the first meeting.
    pub fn new(parties: usize) -> (r: Rendezvous)
        requires
            parties > 0,
        ensures
            r.wf(),
            r.spec_parties() == parties,
            r.spec_arrived() == 0,
            r.spec_phase() == Phase::Swap,
    {
        Rendezvous { parties, arrived: 0, phase: Phase::Swap }
    }

    /// The phase that is running.
    pub fn phase(&self) -> (p: Phase)
        ensures
            p == self.spec_phase(),
    {
        self.phase
    }

    /// Number of parties that wait at the meeting point.
    pub fn arrived(&self) -> (n: usize)
        ensures
            n == self.spec_arrived(),
    {
        self.arrived
    }

    /// One party arrives. If it is the last, the meeting is complete: all are
    /// released, the phase turns over, and the result is `true`. Otherwise
    /// the party has to wait until the phase has turned over.
    pub fn arrive(&mut self) -> (released: bool)
        requires
            old(self).wf(),
        ensures
            final(self).wf(),
            *final(self) == old(self).after(1),
            final(self).spec_parties() == old(self).spec_parties(),
            released == (old(self).spec_arrived() + 1 == old(self).spec_parties()),
            released ==> final(self).spec_arrived() == 0 && final(self).spec_phase() == old(self).spec_phase().spec_other(),
            !released ==> final(self).spec_arrived() == old(self).spec_arrived() + 1 && final(self).spec_phase() == old(self).spec_phase(),
    {
        proof {
            reveal_with_fuel(Rendezvous::after, 2);
        }
        if self.arrived + 1 == self.parties {
            self.arrived = 0;
            self.phase = self.phase.other();
            true
        } else {
            self.arrived = self.arrived + 1;
            false
        }
    }

    /// While fewer than all parties have arrived, they wait and the phase
    /// stays.
    pub proof fn lemma_waiting(self, k: nat)
        requires
            self.wf(),
            self.spec_arrived() == 0,
            k < self.spec_parties(),
        ensures
            self.after(k).wf(),
            self.after(k).spec_parties() == self.spec_parties(),
            self.after(k).spec_arrived() == k,
            self.after(k).spec_phase() == self.spec_phase(),
        decreases k,
    {
        if k > 0 {
            self.lemma_waiting((k - 1) as nat);
        }
    }

    /// When all parties have arrived, nobody waits any longer and the phase
    /// has turned over once.
    pub proof fn lemma_meeting(self)
        requires
            self.wf(),
            self.spec_arrived() == 0,
        ensures
            self.after(self.spec_parties()).wf(),
            self.after(self.spec_parties()).spec_parties() == self.spec_parties(),
            self.after(self.spec_parties()).spec_arrived() == 0,
            self.after(self.spec_parties()).spec_phase() == self.spec_phase().spec_other(),
    {
        self.lemma_waiting((self.spec_parties() - 1) as nat);
    }
}

/// A participant of the handshake.
#[derive(Clone, Copy, Debug, PartialEq, Eq)]
pub enum Role {
    /// Computes one chunk in each generation.
    Worker,
    /// Swaps chunks and buffers after each generation.
    Controller,
}

/// What a participant does next.
#[derive(Clone, Copy, Debug, PartialEq, Eq)]
pub enum Action {
    /// Go to the meeting point and wait for the others.
    Wait,
    /// Compute the next generation of the own chunk.
    Compute,
    /// Exchange every chunk with its buffer.
    Swap,
    /// The run is over.
    Stop,
}

/// The action number `step` of a participant in a run of `generations`
/// generations. Each generation takes three actions: a worker waits,
/// computes and waits; the controller waits, waits and swaps.
pub open spec fn script(role: Role, step: nat, generations: nat) -> Action {
    if step / 3 >= generations {
        Action::Stop
    } else if step % 3 == 1 && role == Role::Worker {
        Action::Compute
    } else if step % 3 == 2 && role == Role::Controller {
        Action::Swap
    } else {
        Action::Wait
    }
}

/// Number of meetings that a participant has behind it when it comes to its
/// action number `step`.
pub open spec fn meetings_before(role: Role, step: nat, generations: nat) -> nat
    decreases step,
{
    if step == 0 {
        0
    } else {
        meetings_before(role, (step - 1) as nat, generations) + if script(
            role,
            (step - 1) as nat,
            generations,
        ) == Action::Wait {
            1nat
        } else {
            0nat
        }
    }
}

/// Where a participant stands in its script.
#[derive(Clone, Copy, Debug, PartialEq, Eq)]
pub struct Participant {
    role: Role,
    generations: u64,
    generation: u64,
    beat: u8,
}

impl Participant {
    /// The generation is within the run and the beat within the generation.
    pub closed spec fn wf(&self) -> bool {
        &&& self.generation <= self.generations
        &&& self.beat < 3
        &&& self.generation == self.generations ==> self.beat == 0
    }

    /// The participant's role.
    pub closed spec fn spec_role(&self) -> Role {
        self.role
    }

    /// Number of generations of the run.
    pub closed spec fn spec_generations(&self) -> nat {
        self.generations as nat
    }

    /// Number of actions that the participant has taken.
    pub closed spec fn position(&self) -> nat {
        (3 * self.generation + self.beat) as nat
    }

    /// A participant at the start of a run of `generations` generations.
    pub fn new(role: Role, generations: u64) -> (p: Participant)
        ensures
            p.wf(),
            p.spec_role() == role,
            p.spec_generations() == generations,
            p.position() == 0,
    {
        Participant { role, generations, generation: 0, beat: 0 }
    }

    /// Number of generations that the participant has completed.
    pub fn generation(&self) -> (g: u64)
        requires
            self.wf(),
        ensures
            g == self.position() / 3,
    {
        self.generation
    }

    /// The participant's next action. Unless the run is over, the
    /// participant moves on by one action.
    pub fn next(&mut self) -> (action: Action)
        requires
            old(self).wf(),
        ensures
            final(self).wf(),
            final(self).spec_role() == old(self).spec_role(),
            final(self).spec_generations() == old(self).spec_generations(),
            action == script(old(self).spec_role(), old(self).position(), old(self).spec_generations()),
            final(self).position() == if action == Action::Stop {
                old(self).position()
            } else {
                old(self).position() + 1
            },
    {
        if self.generation >= self.generations {
            return Action::Stop;
        }
        let action = match (self.role, self.beat) {
            (Role::Worker, 1) => Action::Compute,
            (Role::Controller, 2) => Action::Swap,
            _ => Action::Wait,
        };
        if self.beat == 2 {
            self.beat = 0;
            self.generation = self.generation + 1;
        } else {
            self.beat = self.beat + 1;
        }
        action
    }
}

/// How many meetings lie behind each action of a generation.
pub proof fn lemma_meetings_before(role: Role, step: nat, generations: nat)
    requires
        step / 3 < generations || step == 3 * generations,
    ensures
        meetings_before(role, step, generations) == 2 * (step / 3) + if step % 3 == 0 {
            0nat
        } else if step % 3 == 1 || role == Role::Worker {
            1nat
        } else {
            2nat
        },
    decreases step,
{
    if step > 0 {
        lemma_meetings_before(role, (step - 1) as nat, generations);
    }
}

/// Both roles go to the same number of meetings, two in each generation, so
/// no participant waits for a meeting that another never comes to.
pub proof fn lemma_same_number_of_meetings(generations: nat)
    ensures
        meetings_before(Role::Worker, 3 * generations, generations) == 2 * generations,
        meetings_before(Role::Controller, 3 * generations, generations) == 2 * generations,
{
    lemma_meetings_before(Role::Worker, 3 * generations, generations);
    lemma_meetings_before(Role::Controller, 3 * generations, generations);
}

/// A worker computes only in the compute phase and the controller swaps only
/// in the swap phase.
pub proof fn lemma_actions_keep_to_their_phase(step: nat, generations: nat)
    ensures
        script(Role::Worker, step, generations) == Action::Compute ==> phase_after(
            meetings_before(Role::Worker, step, generations),
        ) == Phase::Compute,
        script(Role::Controller, step, generations) == Action::Swap ==> phase_after(
            meetings_before(Role::Controller, step, generations),
        ) == Phase::Swap,
{
    if step / 3 < generations {
        lemma_meetings_before(Role::Worker, step, generations);
        lemma_meetings_before(Role::Controller, step, generations);
    }
}

/// No worker computes while the controller swaps: a compute and a swap are
/// always parted by a meeting. The swap of a generation comes after every
/// worker's compute of that generation and of the ones before it, and before
/// every worker's compute of the generations after it. So whatever a worker
/// reads during one compute belongs to one generation.
pub proof fn lemma_compute_and_swap_never_overlap(compute: nat, swap: nat, generations: nat)
    requires
        script(Role::Worker, compute, generations) == Action::Compute,
        script(Role::Controller, swap, generations) == Action::Swap,
    ensures
        compute / 3 <= swap / 3 ==> meetings_before(Role::Worker, compute, generations)
            < meetings_before(Role::Controller, swap, generations),
        compute / 3 > swap / 3 ==> meetings_before(Role::Worker, compute, generations)
            > meetings_before(Role::Controller, swap, generations),
{
    lemma_meetings_before(Role::Worker, compute, generations);
    lemma_meetings_before(Role::Controller, swap, generations);
}

/// Two workers that compute between the same two meetings compute the same
/// generation.
pub proof fn lemma_workers_compute_one_generation(a: nat, b: nat, generations: nat)
    requires
        script(Role::Worker, a, generations) == Action::Compute,
        script(Role::Worker, b, generations) == Action::Compute,
        meetings_before(Role::Worker, a, generations) == meetings_before(
            Role::Worker,
            b,
            generations,
        ),
    ensures
        a / 3 == b / 3,
{
    lemma_meetings_before(Role::Worker, a, generations);
    lemma_meetings_before(Role::Worker, b, generations);
}

} // verus!
