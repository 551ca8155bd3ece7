use data_transducers::ext_value::Ext;
use data_transducers::state_machine::DataTransducer;
use data_transducers::state_machine::StateId;
use data_transducers::state_machine::StateList;

type ExD = (char, isize);
type ExQ = isize;
type ExG = fn(ExD) -> bool;
type ExF1 = fn(ExD, ExQ) -> ExQ;
type ExF2 = fn(ExD, ExQ, ExQ) -> ExQ;
type ExE1 = fn(ExQ) -> ExQ;
type ExE2 = fn(ExQ, ExQ) -> ExQ;
type ExM = DataTransducer<ExD, ExQ, ExG, ExF1, ExF2, ExE1, ExE2>;

/* Helpers for driving a machine and checking each output */

fn init_expect(m: &mut ExM, i: ExQ, o: Ext<ExQ>) {
    assert_eq!(m.init_one(i), o);
}

fn update_expect(m: &mut ExM, d: ExD, o: Ext<ExQ>) {
    assert_eq!(m.update_val(d), o);
}

#[test]
fn test_stateid_index() {
    let v = StateList::new(vec![1, 2, 3]);
    assert_eq!(*v.get(StateId(1)), 2);
    // A plain integer index does not compile; only a StateId indexes a
    // StateList.
}

#[test]
fn test_popl19_ex1() {
    // Initialize
    let mut m: ExM = DataTransducer::new();
    m.set_nstates(4);
    assert_eq!(m.n_states(), 4);
    assert_eq!(m.n_transs(), 0);
    assert!(m.is_epsilon());
    // 0: Initial, always set to a present value
    // 1: Final, sum of last three 'a' events
    // 2: Sum of last two 'a' events
    // 3: Sum of last 'a' event
    m.add_iden(0, 0, |_d| true);
    m.add_iden(2, 2, |d: ExD| d.0 == 'b');
    m.add_iden(3, 3, |d: ExD| d.0 == 'b');
    m.add_transition1(0, 3, |d: ExD| d.0 == 'a', |d: ExD, _q| d.1);
    m.add_transition1(3, 2, |d: ExD| d.0 == 'a', |d: ExD, q: ExQ| q + d.1);
    m.add_transition1(2, 1, |d: ExD| d.0 == 'a', |d: ExD, q: ExQ| q + d.1);
    assert_eq!(m.n_states(), 4);
    assert_eq!(m.n_transs(), 6);
    assert!(!m.is_epsilon());
    // Test
    init_expect(&mut m, 0, Ext::Zero);
    update_expect(&mut m, ('a', 6), Ext::Zero);
    update_expect(&mut m, ('b', 2), Ext::Zero);
    update_expect(&mut m, ('a', 5), Ext::Zero);
    update_expect(&mut m, ('a', 7), Ext::One(18));
    update_expect(&mut m, ('b', 2), Ext::Zero);
    update_expect(&mut m, ('a', 8), Ext::One(20));
    update_expect(&mut m, ('#', 0), Ext::Zero);
    update_expect(&mut m, ('b', 2), Ext::Zero);
    update_expect(&mut m, ('a', 2), Ext::Zero);
    update_expect(&mut m, ('a', 2), Ext::Zero);
    update_expect(&mut m, ('a', 2), Ext::One(6));
    update_expect(&mut m, ('a', 0), Ext::One(4));
}

#[test]
fn test_popl19_ex2() {
    // Initialize
    let mut m: ExM = DataTransducer::new();
    m.set_nstates(4);
    // 0: Initial, previous window average
    // 1: Final, end of window average
    // 2: Sum of 'a' events in current window
    // 3: Count of 'a' events in current window
    m.add_iden(0, 0, |d: ExD| d.0 == 'b');
    m.add_iden(2, 2, |d: ExD| d.0 == 'b');
    m.add_iden(3, 3, |d: ExD| d.0 == 'b');
    m.add_transition1(0, 2, |d: ExD| d.0 == 'a', |d: ExD, _q| d.1);
    m.add_transition1(0, 3, |d: ExD| d.0 == 'a', |_d, _q| 1);
    m.add_transition1(2, 2, |d: ExD| d.0 == 'a', |d: ExD, q: ExQ| q + d.1);
    m.add_transition1(3, 3, |d: ExD| d.0 == 'a', |_d, q: ExQ| q + 1);
    m.add_transition2(2, 3, 1, |d: ExD| d.0 == '#', |_d, q2: ExQ, q3: ExQ| q2 / q3);
    m.add_iden(0, 1, |d: ExD| d.0 == '#');
    m.add_epsilon1(1, 0, |q: ExQ| q);
    assert_eq!(m.n_states(), 4);
    assert_eq!(m.n_transs(), 10);
    // Test
    init_expect(&mut m, 0, Ext::Zero);
    update_expect(&mut m, ('b', 2), Ext::Zero);
    update_expect(&mut m, ('a', 6), Ext::Zero);
    update_expect(&mut m, ('b', 2), Ext::Zero);
    update_expect(&mut m, ('a', 8), Ext::Zero);
    update_expect(&mut m, ('a', 9), Ext::Zero);
    // (6 + 8 + 9) / 3 = 7
    update_expect(&mut m, ('#', 0), Ext::One(7));
    update_expect(&mut m, ('b', 2), Ext::Zero);
    update_expect(&mut m, ('#', 2), Ext::One(7));
    update_expect(&mut m, ('a', 2), Ext::Zero);
    update_expect(&mut m, ('#', 0), Ext::One(2));
}

#[test]
fn test_popl19_ex3() {
    // Initialize
    let mut m: ExM = DataTransducer::new();
    m.set_nstates(7);
    // 0: Initial, present initially and after each '#'
    // 1: Final, stores the final answer after each '#'
    // 2: Present if no 'a' has been seen yet
    // 3: Present if no 'b' has been seen yet
    // 4: Max 'a' if at least one has been seen
    // 5: Max 'b' if at least one has been seen
    // 6: Present always (used to set state 0 on '#')
    m.add_epsilon1(0, 2, |_q| 0);
    m.add_epsilon1(0, 3, |_q| 0);
    m.add_epsilon1(0, 6, |_q| 0);
    assert!(m.is_epsilon());
    m.add_iden(2, 2, |d: ExD| d.0 == 'b');
    m.add_iden(4, 4, |d: ExD| d.0 == 'b');
    m.add_iden(3, 3, |d: ExD| d.0 == 'a');
    m.add_iden(5, 5, |d: ExD| d.0 == 'a');
    m.add_iden(6, 6, |d: ExD| d.0 != '#');
    m.add_transition1(2, 4, |d: ExD| d.0 == 'a', |d: ExD, _q| d.1);
    m.add_transition1(4, 4, |d: ExD| d.0 == 'a', |d: ExD, q: ExQ| q.max(d.1));
    m.add_transition1(3, 5, |d: ExD| d.0 == 'b', |d: ExD, _q| d.1);
    m.add_transition1(5, 5, |d: ExD| d.0 == 'b', |d: ExD, q: ExQ| q.max(d.1));
    m.add_transition2(4, 5, 1, |d: ExD| d.0 == '#', |_d, q4: ExQ, q5: ExQ| q4 - q5);
    m.add_transition1(6, 0, |d: ExD| d.0 == '#', |_d, _q| 0);
    assert_eq!(m.n_transs(), 14);
    // Test
    init_expect(&mut m, 0, Ext::Zero);
    update_expect(&mut m, ('b', 2), Ext::Zero);
    update_expect(&mut m, ('a', 6), Ext::Zero);
    update_expect(&mut m, ('b', 3), Ext::Zero);
    update_expect(&mut m, ('b', 1), Ext::Zero);
    update_expect(&mut m, ('a', 8), Ext::Zero);
    update_expect(&mut m, ('#', 0), Ext::One(5));
    update_expect(&mut m, ('b', 2), Ext::Zero);
    update_expect(&mut m, ('#', 2), Ext::Zero);
    update_expect(&mut m, ('a', 1), Ext::Zero);
    update_expect(&mut m, ('a', 3), Ext::Zero);
    update_expect(&mut m, ('#', 2), Ext::Zero);
    update_expect(&mut m, ('a', 7), Ext::Zero);
    update_expect(&mut m, ('b', 1), Ext::Zero);
    update_expect(&mut m, ('#', 0), Ext::One(6));
}

#[test]
fn test_loop_1() {
    // A cycle made entirely of epsilon transitions: feeding any present
    // value into the cycle drives every state on it to the conflict value,
    // and the closure terminates.
    let mut m: ExM = DataTransducer::new();
    m.set_nstates(3);
    m.add_epsilon1(0, 1, |_q| 0);
    m.add_epsilon1(1, 2, |_q| 0);
    m.add_epsilon1(2, 0, |_q| 0);
    update_expect(&mut m, ('a', 0), Ext::Zero);
    init_expect(&mut m, 0, Ext::Many);
    init_expect(&mut m, 0, Ext::Many);
    update_expect(&mut m, ('a', 0), Ext::Zero);
    init_expect(&mut m, 0, Ext::Many);
    m.reset();
    update_expect(&mut m, ('a', 0), Ext::Zero);
    init_expect(&mut m, 0, Ext::Many);
}

#[test]
fn test_loop_2() {
    let mut m: ExM = DataTransducer::new();
    m.set_nstates(4);
    m.add_epsilon1(0, 1, |_q| 0);
    m.add_epsilon2(0, 1, 2, |_q1, _q2| 0);
    m.add_epsilon2(2, 3, 1, |_q1, _q2| 0);
    m.add_epsilon1(3, 0, |_q| 0);
    m.add_iden(2, 3, |_d| true);
    update_expect(&mut m, ('a', 0), Ext::Zero);
    init_expect(&mut m, 3, Ext::One(0));
    update_expect(&mut m, ('a', 0), Ext::Many);
    update_expect(&mut m, ('a', 2), Ext::Many);
    init_expect(&mut m, 0, Ext::Many);
}

#[test]
fn test_reset() {
    let mut m: ExM = DataTransducer::new();
    m.add_epsilon1(0, 1, |q: ExQ| q);
    m.add_iden(1, 1, |_d| true);
    update_expect(&mut m, ('a', 0), Ext::Zero);
    init_expect(&mut m, 1, Ext::One(1));
    update_expect(&mut m, ('a', 6), Ext::One(1));
    update_expect(&mut m, ('a', 5), Ext::One(1));
    init_expect(&mut m, 0, Ext::Many);
    update_expect(&mut m, ('a', 5), Ext::Many);
    init_expect(&mut m, 1, Ext::Many);
    m.reset();
    update_expect(&mut m, ('a', 0), Ext::Zero);
    init_expect(&mut m, 2, Ext::One(2));
}
