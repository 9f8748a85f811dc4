use turing::Action;
use turing::Machine;
use turing::Move;
use turing::Tape;

#[derive(PartialEq, Clone, Copy, Debug)]
enum IncState {
    Q0,
    QF,
}

fn inc_rules(state: &IncState, value: &u64) -> Action<IncState, u64> {
    match (*state, *value) {
        (IncState::Q0, 1) => Action(1, Move::Right, IncState::Q0),
        (IncState::Q0, 0) => Action(1, Move::Stay, IncState::QF),
        _ => panic!("unrecognized transition"),
    }
}

#[derive(PartialEq, Clone, Copy, Debug)]
enum BeaverState {
    A,
    B,
    C,
    Halt,
}

fn beaver_rules(state: &BeaverState, value: &u64) -> Action<BeaverState, u64> {
    match (*state, *value) {
        (BeaverState::A, 0) => Action(1, Move::Right, BeaverState::B),
        (BeaverState::A, 1) => Action(1, Move::Left, BeaverState::C),
        (BeaverState::B, 0) => Action(1, Move::Left, BeaverState::A),
        (BeaverState::B, 1) => Action(1, Move::Right, BeaverState::B),
        (BeaverState::C, 0) => Action(1, Move::Left, BeaverState::B),
        (BeaverState::C, 1) => Action(1, Move::Stay, BeaverState::Halt),
        _ => panic!("unrecognized transition"),
    }
}

#[test]
fn tape_new_empty_is_single_blank() {
    let t: Tape<u64> = Tape::new(7, Vec::new());
    assert_eq!(t.len(), 1);
    assert_eq!(t.current(), 7);
    assert_eq!(t.position(), 0);
}

#[test]
fn tape_new_keeps_initial_contents() {
    let t: Tape<u64> = Tape::new(0, vec![4, 5, 6]);
    assert_eq!(t.len(), 3);
    assert_eq!(t.current(), 4);
    assert_eq!(t.position(), 0);
}

#[test]
fn left_moves_grow_one_blank_each() {
    let mut t: Tape<u64> = Tape::new(0, vec![9]);
    let mut expected_len = 1;
    let mut i = 0;
    while i < 8 {
        t.update(3, Move::Left);
        expected_len += 1;
        assert_eq!(t.len(), expected_len);
        assert_eq!(t.position(), 0);
        assert_eq!(t.current(), 0);
        i += 1;
    }
}

#[test]
fn right_moves_grow_one_blank_each() {
    let mut t: Tape<u64> = Tape::new(0, vec![9]);
    let mut expected_len = 1;
    let mut i = 0;
    while i < 8 {
        t.update(3, Move::Right);
        expected_len += 1;
        assert_eq!(t.len(), expected_len);
        assert_eq!(t.position(), expected_len - 1);
        assert_eq!(t.current(), 0);
        i += 1;
    }
}

#[test]
fn stay_changes_only_written_cell() {
    let mut t: Tape<u64> = Tape::new(0, vec![1, 2, 3]);
    t.update(9, Move::Stay);
    assert_eq!(t.len(), 3);
    assert_eq!(t.position(), 0);
    assert_eq!(t.current(), 9);
    assert_eq!(t.count(2), 1);
    assert_eq!(t.count(3), 1);
    assert_eq!(t.count(1), 0);
}

#[test]
fn stay_then_current_round_trip() {
    let mut t: Tape<u64> = Tape::new(0, vec![1, 2, 3]);
    let mut v = 0;
    while v < 5 {
        t.update(v, Move::Stay);
        assert_eq!(t.current(), v);
        v += 1;
    }
}

#[test]
fn count_matches_last_written_values() {
    let mut t: Tape<u64> = Tape::new(0, Vec::new());
    t.update(5, Move::Right);
    t.update(5, Move::Right);
    t.update(4, Move::Right);
    t.update(5, Move::Stay);
    // cells are now [5, 5, 4, 5]
    assert_eq!(t.len(), 4);
    assert_eq!(t.count(5), 3);
    assert_eq!(t.count(4), 1);
    assert_eq!(t.count(0), 0);
    t.update(4, Move::Stay);
    // the cell written twice counts under its last value only
    assert_eq!(t.count(5), 2);
    assert_eq!(t.count(4), 2);
}

#[test]
fn machine_new_starts_fresh() {
    let t: Tape<u64> = Tape::new(0, vec![1]);
    let m = Machine::new(IncState::Q0, IncState::QF, t);
    assert!(*m.state() == IncState::Q0);
    assert_eq!(m.steps(), 0);
    assert_eq!(m.elapsed_micros(), 0);
    assert_eq!(m.tape().len(), 1);
}

#[test]
fn machine_already_stopped_takes_no_steps() {
    let t: Tape<u64> = Tape::new(0, vec![1, 2]);
    let mut m = Machine::new(IncState::QF, IncState::QF, t);
    m.run(inc_rules);
    assert_eq!(m.steps(), 0);
    assert!(*m.state() == IncState::QF);
    assert_eq!(m.tape().len(), 2);
    assert_eq!(m.tape().current(), 1);
}

#[test]
fn increment_machine_scenario() {
    let t: Tape<u64> = Tape::new(0, vec![1, 1, 1]);
    let mut m = Machine::new(IncState::Q0, IncState::QF, t);
    m.run(inc_rules);
    assert!(*m.state() == IncState::QF);
    assert_eq!(m.steps(), 4);
    assert_eq!(m.tape().len(), 4);
    assert_eq!(m.tape().position(), 3);
    assert_eq!(m.tape().count(1), 4);
    assert_eq!(m.tape().current(), 1);
}

#[test]
fn busy_beaver_three_state() {
    let t: Tape<u64> = Tape::new(0, Vec::new());
    let mut m = Machine::new(BeaverState::A, BeaverState::Halt, t);
    m.run(beaver_rules);
    assert!(*m.state() == BeaverState::Halt);
    assert_eq!(m.steps(), 13);
    assert_eq!(m.tape().count(1), 6);
    assert_eq!(m.tape().len(), 6);
}
