use neb_offload::turns::RoundRobin;

#[test]
fn workers_take_turns() {
    let mut turns = RoundRobin::new(3);
    let picks: Vec<usize> = (0..7).map(|_| turns.pick()).collect();
    assert_eq!(picks, [0, 1, 2, 0, 1, 2, 0]);
}

#[test]
fn a_single_worker_has_every_turn() {
    let mut turns = RoundRobin::new(1);
    assert_eq!(turns.pick(), 0);
    assert_eq!(turns.pick(), 0);
}
