use data_transducers::ext_value::Ext;
use data_transducers::interface::process_rstream_single;
use data_transducers::interface::process_stream;
use data_transducers::interface::restartability_holds_for;
use data_transducers::interface::RInput;
use data_transducers::interface::Transducer;
use data_transducers::qre::aggregate;
use data_transducers::qre::atom;
use data_transducers::qre::atom_iden;
use data_transducers::qre::epsilon;
use data_transducers::qre::epsilon_const;
use data_transducers::qre::epsilon_iden;
use data_transducers::qre::repeat;
use data_transducers::qre::stream_iden;
use data_transducers::qre::iterate;
use data_transducers::qre::parcomp;
use data_transducers::qre::top;
use data_transducers::qre::union;
use std::fmt::Debug;

// Example restart-augmented streams

fn ex_rstrms() -> Vec<Vec<RInput<i32, char>>> {
    vec![
        vec![
            RInput::Item('a'),
            RInput::Restart(3),
            RInput::Item('b'),
            RInput::Restart(4),
            RInput::Restart(6),
            RInput::Item('c'),
        ],
        vec![RInput::Item('b')],
        vec![RInput::Restart(3)],
        vec![],
        vec![
            RInput::Restart(3),
            RInput::Item('a'),
            RInput::Item('b'),
            RInput::Restart(4),
            RInput::Item('c'),
            RInput::Restart(5),
            RInput::Restart(6),
            RInput::Item('b'),
        ],
        vec![
            RInput::Restart(1),
            RInput::Item('2'),
            RInput::Restart(3),
            RInput::Item('4'),
        ],
    ]
}

// Test helpers

fn test_equiv<O, M1, M2>(mut m1: M1, mut m2: M2)
where
    M1: Transducer<i32, char, O>,
    M2: Transducer<i32, char, O>,
    O: Debug + PartialEq,
{
    assert_eq!(m1.is_restartable(), m2.is_restartable());
    assert_eq!(m1.n_states(), m2.n_states());
    assert_eq!(m1.n_transs(), m2.n_transs());
    for rstrm in ex_rstrms() {
        assert_eq!(
            process_rstream_single(&mut m1, &rstrm),
            process_rstream_single(&mut m2, &rstrm),
        );
    }
}

fn test_restartable<O, M>(m: &M)
where
    M: Transducer<i32, char, O>,
    O: Debug + Eq,
{
    for rstrm in ex_rstrms() {
        assert!(restartability_holds_for(m, &rstrm));
    }
}

fn test_not_restartable<O, M>(m: &M)
where
    M: Transducer<i32, char, O>,
    O: Debug + Eq,
{
    for rstrm in ex_rstrms() {
        if !restartability_holds_for(m, &rstrm) {
            return;
        }
    }
    panic!("Not-restartable test failed: no counterexample stream found");
}

// The tests

#[test]
fn test_epsilon() {
    let mut m1 = epsilon(|i: i32| i + 1);
    assert_eq!(m1.init_one(1), Ext::One(2));
    assert_eq!(m1.init_one(-4), Ext::One(-3));
    assert_eq!(m1.update_val('a'), Ext::Zero);
    assert_eq!(m1.update_val('b'), Ext::Zero);
    let mut m2 = epsilon(|_i: i32| 0);
    assert_eq!(m2.update_val('a'), Ext::Zero);
    assert_eq!(m2.update_val('a'), Ext::Zero);
    assert_eq!(m2.init_one(3), Ext::One(0));
    let mut m3 = epsilon(|s: String| s + "ab");
    assert_eq!(m3.init_one("xyz".to_owned()), Ext::One("xyzab".to_owned()));
    assert_eq!(m3.update_val('a'), Ext::Zero);
    assert_eq!(m3.update_val('a'), Ext::Zero);
}

#[test]
fn test_epsilon_process() {
    // Not every construct needs a separate test through process_stream,
    // but it is useful to have at least one.
    let mut m1 = epsilon(|i: i32| i + 2);
    let strm1 = vec!['a', 'b'];
    let strm2: Vec<char> = vec![];
    assert_eq!(
        process_stream(&mut m1, 2, &strm1),
        vec![Ext::One(4), Ext::Zero, Ext::Zero],
    );
    assert_eq!(process_stream(&mut m1, 3, &strm2), vec![Ext::One(5)]);
}

#[test]
fn test_epsilon_restartable() {
    let m1 = epsilon(|i: i32| i * 2);
    test_restartable(&m1);
}

#[test]
fn test_atom() {
    let mut m = atom(
        |ch: char| ch.is_ascii_digit(),
        |i: String, ch: char| format!("{}{}", i, ch),
    );
    assert_eq!(m.update_val('a'), Ext::Zero);
    assert_eq!(m.init_one("x".to_string()), Ext::Zero);
    assert_eq!(m.update_val('a'), Ext::Zero);
    assert_eq!(m.init_one("x".to_string()), Ext::Zero);
    assert_eq!(m.update_val('1'), Ext::One("x1".to_string()));
    assert_eq!(m.update_val('2'), Ext::Zero);
    assert_eq!(m.init_one("x".to_string()), Ext::Zero);
    assert_eq!(m.init_one("y".to_string()), Ext::Zero);
    assert_eq!(m.update_val('1'), Ext::Many);
    assert_eq!(m.update_val('2'), Ext::Zero);
    assert_eq!(m.update_val('3'), Ext::Zero);
    assert_eq!(m.init_one("".to_string()), Ext::Zero);
    assert_eq!(m.update_val('1'), Ext::One("1".to_string()));
}

#[test]
fn test_atom_restartable() {
    let m1 = atom(|ch: char| ch == 'b', |i: i32, _ch: char| i + 2);
    let m2 = atom(
        |ch: char| ch == 'b' || ch == 'c',
        |i: i32, ch: char| if ch == 'b' { i + 2 } else { i + 1 },
    );
    let m3 = atom(|_ch: char| true, |i: i32, _ch: char| i + 3);
    test_restartable(&m1);
    test_restartable(&m2);
    test_restartable(&m3);
}

#[test]
fn qre_test_union() {
    let m1 = atom(
        |ch: char| ch.is_ascii_digit(),
        |i: i32, ch: char| i + (ch.to_digit(10).unwrap() as i32),
    );
    let m2 = epsilon(|i: i32| i + 1);
    let mut m = union(m1, m2);

    assert_eq!(m.update_val('1'), Ext::Zero);
    assert_eq!(m.init_one(3), Ext::One(4));
    assert_eq!(m.update_val('7'), Ext::One(10));
    assert_eq!(m.update_val('2'), Ext::Zero);
    assert_eq!(m.init_one(0), Ext::One(1));
    assert_eq!(m.update_val('a'), Ext::Zero);

    test_restartable(&m);
}

#[test]
fn test_parcomp() {
    let m1 = atom(
        |ch: char| ch.is_ascii_digit(),
        |i: i32, ch: char| i + (ch.to_digit(10).unwrap() as i32),
    );
    let m2 = atom(|ch: char| ch == '5', |i: i32, _ch: char| i + 1);
    let mut m = parcomp(m1, m2);

    assert_eq!(m.init_one(10), Ext::Zero);
    assert_eq!(m.update_val('5'), Ext::One((15, 11)));
    assert_eq!(m.update_val('5'), Ext::Zero);
    assert_eq!(m.init_one(10), Ext::Zero);
    assert_eq!(m.update_val('6'), Ext::Zero);
    assert_eq!(m.init_one(100), Ext::Zero);
    assert_eq!(m.update_val('5'), Ext::One((105, 101)));

    // This particular parallel composition happens to be restartable.
    test_restartable(&m);
}

#[test]
fn test_parcomp_not_restarable() {
    // Non-restartable example.
    let m1 = atom(
        |ch: char| ch.is_ascii_digit(),
        |i: i32, ch: char| i + (ch.to_digit(10).unwrap() as i32),
    );
    let m2 = data_transducers::qre::concat(m1.clone(), m1.clone());
    let m = parcomp(m1, m2);

    test_not_restartable(&m);
}

#[test]
fn test_concat() {
    let m1 = atom(|ch: char| ch.is_ascii_digit(), |i: i32, _ch: char| i + 1);
    let m2 = atom(|ch: char| ch == '1' || ch == 'a', |i: i32, _ch: char| i + 1);
    let mut m = data_transducers::qre::concat(m1, m2);

    assert_eq!(m.update_val('1'), Ext::Zero);
    assert_eq!(m.update_val('1'), Ext::Zero);
    assert_eq!(m.init_one(0), Ext::Zero);
    assert_eq!(m.update_val('5'), Ext::Zero);
    assert_eq!(m.update_val('1'), Ext::One(2));
    assert_eq!(m.update_val('1'), Ext::Zero);

    assert_eq!(m.init_one(1), Ext::Zero);
    assert_eq!(m.update_val('1'), Ext::Zero);
    assert_eq!(m.init_one(2), Ext::Zero);
    assert_eq!(m.update_val('2'), Ext::Zero);
    assert_eq!(m.init_one(3), Ext::Zero);
    assert_eq!(m.update_val('1'), Ext::One(4));
    assert_eq!(m.init_one(4), Ext::Zero);
    assert_eq!(m.update_val('1'), Ext::One(5));
    assert_eq!(m.init_one(5), Ext::Zero);
    assert_eq!(m.update_val('a'), Ext::One(6));
    assert_eq!(m.update_val('1'), Ext::Zero);
    assert_eq!(m.update_val('1'), Ext::Zero);

    test_restartable(&m);
}

#[test]
fn test_iterate() {
    let m1 = atom(|ch: char| ch.is_ascii_digit(), |i: i32, _ch: char| i + 1);
    let m2 = atom(|_ch: char| true, |i: i32, _ch: char| i + 1);
    let m3 = data_transducers::qre::concat(m1, m2);
    let mut m = iterate(m3);

    assert_eq!(m.update_val('1'), Ext::Zero);
    assert_eq!(m.init_one(100), Ext::One(100));
    assert_eq!(m.update_val('0'), Ext::Zero);
    assert_eq!(m.update_val('0'), Ext::One(102));
    assert_eq!(m.update_val('0'), Ext::Zero);
    assert_eq!(m.update_val('0'), Ext::One(104));
    assert_eq!(m.update_val('0'), Ext::Zero);
    assert_eq!(m.init_one(200), Ext::One(200));
    assert_eq!(m.update_val('0'), Ext::One(106));
    assert_eq!(m.update_val('0'), Ext::One(202));
    assert_eq!(m.update_val('0'), Ext::One(108));
    assert_eq!(m.update_val('0'), Ext::One(204));
    assert_eq!(m.init_one(300), Ext::One(300));
    assert_eq!(m.update_val('0'), Ext::One(110));
    assert_eq!(m.update_val('0'), Ext::Many);
    assert_eq!(m.update_val('0'), Ext::One(112));
    assert_eq!(m.update_val('0'), Ext::Many);
    assert_eq!(m.update_val('a'), Ext::One(114));
    assert_eq!(m.update_val('0'), Ext::Zero);
    assert_eq!(m.update_val('0'), Ext::One(116));
    assert_eq!(m.update_val('a'), Ext::Zero);
    assert_eq!(m.update_val('0'), Ext::Zero);

    test_restartable(&m);
}

#[test]
fn test_aggregate() {
    let m1 = atom(|ch: char| ch.is_ascii_digit(), |i: i32, _ch: char| i + 1);
    let m2 = iterate(m1);
    let mut m = aggregate(m2, |x1: i32, x2: i32| x1 + x2);

    // Aggregating 1, 2, 3, 4, ... gives the triangular numbers.
    assert_eq!(m.init_one((1, 100)), Ext::One(101));
    assert_eq!(m.update_val('0'), Ext::One(103));
    assert_eq!(m.update_val('0'), Ext::One(106));
    assert_eq!(m.update_val('0'), Ext::One(110));
    assert_eq!(m.update_val('0'), Ext::One(115));

    // If the sub-transducer stops producing output, the aggregate
    // becomes absent.
    assert_eq!(m.update_val('a'), Ext::Zero);
    assert_eq!(m.update_val('0'), Ext::Zero);
    assert_eq!(m.update_val('0'), Ext::Zero);

    // Aggregate is not restartable (convert the input first).
    let m = data_transducers::qre::concat(epsilon(|x: i32| (x, x)), m);
    test_not_restartable(&m);
}

#[test]
fn test_top_wrapper() {
    let m1 = epsilon(|i: i32| i + 2);
    let m2 = atom(|ch: char| ch == 'a', |i: i32, _ch: char| i + 3);
    let m3 = union(m1.clone(), m2.clone());
    let m4 = union(top(m1.clone()), top(top(m2.clone())));
    let t1 = top(m1.clone());
    let t2 = top(m2.clone());
    let t3 = top(m3.clone());
    let t4 = top(m4.clone());
    test_equiv(m1, t1);
    test_equiv(m2, t2);
    test_equiv(m3, t3);
    test_equiv(m4, t4);
}

#[test]
fn test_init_zero_has_no_effect() {
    // Feeding an absent initial value produces nothing and changes
    // nothing about later behavior.
    let mut ma = atom(|ch: char| ch.is_ascii_digit(), |i: i32, _ch: char| i + 1);
    let mut mb = ma.clone();
    assert_eq!(ma.init(Ext::Zero), Ext::Zero);
    assert_eq!(ma.init_one(7), Ext::Zero);
    assert_eq!(mb.init_one(7), Ext::Zero);
    assert_eq!(ma.init(Ext::Zero), Ext::Zero);
    assert_eq!(ma.update_val('1'), Ext::One(8));
    assert_eq!(mb.update_val('1'), Ext::One(8));

    let mut mc = iterate(atom(|_ch: char| true, |i: i32, _ch: char| i + 1));
    assert_eq!(mc.init(Ext::Zero), Ext::Zero);
    assert_eq!(mc.init_one(5), Ext::One(5));
    assert_eq!(mc.init(Ext::Zero), Ext::Zero);
    assert_eq!(mc.update_val('x'), Ext::One(6));
}

#[test]
fn test_derived_constructs() {
    let mut e1 = epsilon_iden::<i32, char>();
    assert_eq!(e1.init_one(9), Ext::One(9));
    assert_eq!(e1.update_val('a'), Ext::Zero);
    let mut e2 = epsilon_const::<i32, char, i32>(42);
    assert_eq!(e2.init_one(9), Ext::One(42));
    let mut a1 = atom_iden::<i32, char>();
    assert_eq!(a1.init_one(9), Ext::Zero);
    assert_eq!(a1.update_val('a'), Ext::One(9));
    assert_eq!(a1.update_val('a'), Ext::Zero);
    let mut s1 = stream_iden::<i32, char>();
    assert_eq!(s1.init_one(9), Ext::One(9));
    assert_eq!(s1.update_val('a'), Ext::One(9));
    assert_eq!(s1.update_val('b'), Ext::One(9));
    let mut r1 = repeat::<char, i32>(5);
    assert_eq!(r1.init_one(()), Ext::One(5));
    assert_eq!(r1.update_val('a'), Ext::One(5));
    assert_eq!(r1.update_val('b'), Ext::One(5));
    let mut p1 = data_transducers::qre::map::<char, u32, _>(|ch: char| ch.to_digit(10).unwrap_or(0));
    assert_eq!(p1.init_one(()), Ext::Zero);
    assert_eq!(p1.update_val('7'), Ext::One(7));
    assert_eq!(p1.update_val('2'), Ext::One(2));
}
