use bitwise_life::protocol::{Action, Participant, Phase, Rendezvous, Role};

#[test]
fn rendezvous_releases_when_the_last_party_arrives() {
    let mut r = Rendezvous::new(3);
    assert_eq!(r.phase(), Phase::Swap);
    assert_eq!(r.arrived(), 0);
    assert!(!r.arrive());
    assert_eq!((r.arrived(), r.phase()), (1, Phase::Swap));
    assert!(!r.arrive());
    assert_eq!((r.arrived(), r.phase()), (2, Phase::Swap));
    assert!(r.arrive());
    assert_eq!((r.arrived(), r.phase()), (0, Phase::Compute));
    assert!(!r.arrive());
    assert!(!r.arrive());
    assert!(r.arrive());
    assert_eq!((r.arrived(), r.phase()), (0, Phase::Swap));
}

#[test]
fn rendezvous_of_one_party_never_waits() {
    let mut r = Rendezvous::new(1);
    assert!(r.arrive());
    assert_eq!(r.phase(), Phase::Compute);
    assert!(r.arrive());
    assert_eq!(r.phase(), Phase::Swap);
    assert_eq!(r.arrived(), 0);
}

#[test]
fn phases_alternate() {
    assert_eq!(Phase::Compute.other(), Phase::Swap);
    assert_eq!(Phase::Swap.other(), Phase::Compute);
}

#[test]
fn worker_waits_computes_and_waits() {
    let mut w = Participant::new(Role::Worker, 2);
    let mut actions = Vec::new();
    for _ in 0..8 {
        actions.push(w.next());
    }
    assert_eq!(
        actions,
        vec![
            Action::Wait,
            Action::Compute,
            Action::Wait,
            Action::Wait,
            Action::Compute,
            Action::Wait,
            Action::Stop,
            Action::Stop
        ]
    );
    assert_eq!(w.generation(), 2);
}

#[test]
fn controller_waits_twice_and_swaps() {
    let mut c = Participant::new(Role::Controller, 2);
    let mut actions = Vec::new();
    for _ in 0..8 {
        actions.push(c.next());
    }
    assert_eq!(
        actions,
        vec![
            Action::Wait,
            Action::Wait,
            Action::Swap,
            Action::Wait,
            Action::Wait,
            Action::Swap,
            Action::Stop,
            Action::Stop
        ]
    );
}

#[test]
fn run_of_no_generations_stops_at_once() {
    assert_eq!(Participant::new(Role::Worker, 0).next(), Action::Stop);
    assert_eq!(Participant::new(Role::Controller, 0).next(), Action::Stop);
}

#[test]
fn generation_counts_completed_generations() {
    let mut w = Participant::new(Role::Worker, u64::MAX);
    assert_eq!(w.generation(), 0);
    w.next();
    w.next();
    assert_eq!(w.generation(), 0);
    w.next();
    assert_eq!(w.generation(), 1);
}

#[test]
fn compute_and_swap_fall_into_different_phases() {
    // Drive two workers and the controller through one rendezvous, as a
    // barrier would: an action is taken only by participants that are not
    // waiting, and all waiting participants are released together.
    let generations = 3;
    let mut rendezvous = Rendezvous::new(3);
    let mut parts = vec![
        Participant::new(Role::Worker, generations),
        Participant::new(Role::Worker, generations),
        Participant::new(Role::Controller, generations),
    ];
    let mut waiting = vec![false, false, false];
    let mut stopped = vec![false, false, false];
    let mut computes = 0;
    let mut swaps = 0;
    let mut turn = 0;
    while !stopped.iter().all(|s| *s) {
        let i = turn % 3;
        turn += 1;
        if waiting[i] || stopped[i] {
            continue;
        }
        match parts[i].next() {
            Action::Wait => {
                waiting[i] = true;
                if rendezvous.arrive() {
                    waiting = vec![false, false, false];
                }
            }
            Action::Compute => {
                assert_eq!(rendezvous.phase(), Phase::Compute);
                computes += 1;
            }
            Action::Swap => {
                assert_eq!(rendezvous.phase(), Phase::Swap);
                // Both workers have computed this generation and none has
                // begun the next.
                assert_eq!(computes, 2 * (swaps + 1));
                swaps += 1;
            }
            Action::Stop => stopped[i] = true,
        }
    }
    assert_eq!(computes, 6);
    assert_eq!(swaps, 3);
    assert_eq!(rendezvous.arrived(), 0);
}
