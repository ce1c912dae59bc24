use bottomup_synth::cond::Condition;
use bottomup_synth::enumerate::{BinEnumerator, Builder, Skip, Step, UniBuilder, UniEnumerator};
use bottomup_synth::program::{BinaryOp, Level, Shape, UnaryOp};
use bottomup_synth::store::{Bank, Store};
use bottomup_synth::synth::Synthesizer;
use bottomup_synth::task::SynthesisTask;
use bottomup_synth::values::{AnyProg, AnyVal, Anies, PIdx, VIdx};
use bottomup_synth::vocab::vocab;

fn xys_task() -> SynthesisTask {
    SynthesisTask::new(
        vec![
            ("x".to_string(), Anies::Int(vec![0, 2])),
            ("y".to_string(), Anies::Int(vec![1, 1])),
            (
                "s".to_string(),
                Anies::Str(vec!["a".to_string(), "asdfmovie".to_string()]),
            ),
        ],
        2,
    )
}

fn int_values(bank: &Bank, p: usize) -> Vec<i32> {
    let prog = <i32 as Store>::get_program(bank, PIdx::new(p));
    <i32 as Store>::get_values(bank, prog.values_idx()).to_vec()
}

fn codes(synth: &mut Synthesizer, n: usize) -> Vec<String> {
    let mut out = Vec::new();
    for _ in 0..n {
        match synth.next() {
            Some(p) => out.push(p.code(synth.store())),
            None => break,
        }
    }
    out
}

#[test]
fn variables_only_admits_variables_in_slot_order() {
    let mut synth = Synthesizer::new(Vec::new(), xys_task());
    let bank = synth.store();
    assert_eq!(AnyProg::Int(PIdx::new(0)).code(bank), "x");
    assert_eq!(AnyProg::Int(PIdx::new(1)).code(bank), "y");
    assert_eq!(AnyProg::Str(PIdx::new(0)).code(bank), "s");
    assert_eq!(int_values(bank, 0), vec![0, 2]);
    assert_eq!(int_values(bank, 1), vec![1, 1]);
    assert!(synth.next().is_none());
    assert!(synth.next().is_none());
}

#[test]
fn variables_carry_their_own_slot() {
    let synth = Synthesizer::new(Vec::new(), xys_task());
    let bank = synth.store();
    let x = AnyProg::Int(PIdx::new(0));
    let s = AnyProg::Str(PIdx::new(0));
    assert_eq!(x.pointer(bank), Some(0));
    assert_eq!(s.pointer(bank), Some(2));
    let (pre, post) = s.conditions(bank);
    assert!(pre.same(post));
    assert!(pre.get(0).is_none());
    assert!(pre.get(1).is_none());
    assert!(matches!(pre.get(2), Some(AnyVal::Str(_))));
}

#[test]
fn string_length_then_oe_rejection() {
    let voc = vec![Builder::UnaryStrInt(UniBuilder::new(UnaryOp::StrLen))];
    let mut synth = Synthesizer::new(voc, xys_task());
    let p = synth.next().expect("s.length is admitted");
    let bank = synth.store();
    assert_eq!(p.code(bank), "s.length");
    assert_eq!(p.level(bank), Level(1));
    match p {
        AnyProg::Int(i) => assert_eq!(int_values(bank, i.index()), vec![1, 9]),
        _ => panic!("s.length is an integer"),
    }
    // "".length and " ".length equal the constants 0 and 1; nothing else.
    assert!(synth.next().is_none());
}

#[test]
fn string_length_readmission_is_rejected() {
    let task = xys_task();
    let mut bank = Bank::new(2, task.var_map.duplicate());
    <String as Store>::put_variable(
        &mut bank,
        "s".to_string(),
        vec!["a".to_string(), "asdfmovie".to_string()],
        2,
    )
    .unwrap();
    let mut e: UniEnumerator<String, i32> =
        UniBuilder::new(UnaryOp::StrLen).into_enum(Level(1), bank.curr_max());
    let first = e.next(&mut bank);
    assert!(matches!(first, Step::Emitted(AnyProg::Int(_))));
    let mut again: UniEnumerator<String, i32> =
        UniBuilder::new(UnaryOp::StrLen).into_enum(Level(1), bank.curr_max());
    match again.next(&mut bank) {
        Step::Skipped(Skip::Duplicate(AnyProg::Int(i))) => assert_eq!(i.index(), 0),
        _ => panic!("the second s.length is observationally equivalent"),
    }
    assert!(matches!(again.next(&mut bank), Step::Done));
}

#[test]
fn integer_sum_admits_x_plus_y_once() {
    let task = SynthesisTask::new(
        vec![
            ("x".to_string(), Anies::Int(vec![0, 2])),
            ("y".to_string(), Anies::Int(vec![1, 1])),
        ],
        2,
    );
    let voc = vec![Builder::BinaryIntIntInt(bottomup_synth::enumerate::BinBuilder::new(
        BinaryOp::Sum,
    ))];
    let mut synth = Synthesizer::new(voc, task);
    let all = codes(&mut synth, 40);
    assert!(all.contains(&"x + y".to_string()));
    assert!(!all.contains(&"y + x".to_string()));
    let bank = synth.store();
    let mut found = false;
    for i in 0..bank.ints.progs.len() {
        let p = AnyProg::Int(PIdx::new(i));
        if p.code(bank) == "x + y" {
            assert_eq!(int_values(bank, i), vec![1, 3]);
            found = true;
        }
    }
    assert!(found);
}

#[test]
fn y_plus_x_is_a_duplicate_of_x_plus_y() {
    let task = SynthesisTask::new(
        vec![
            ("x".to_string(), Anies::Int(vec![0, 2])),
            ("y".to_string(), Anies::Int(vec![1, 1])),
        ],
        2,
    );
    let mut bank = Bank::new(2, task.var_map.duplicate());
    <i32 as Store>::put_variable(&mut bank, "x".to_string(), vec![0, 2], 0).unwrap();
    <i32 as Store>::put_variable(&mut bank, "y".to_string(), vec![1, 1], 1).unwrap();
    let mut e: BinEnumerator<i32, i32, i32> =
        BinEnumerator::new(BinaryOp::Sum, Level(1), bank.curr_max());
    assert!(matches!(e.next(&mut bank), Step::Emitted(_))); // x + x
    let xy = match e.next(&mut bank) {
        Step::Emitted(p) => p,
        _ => panic!("x + y is admitted"),
    };
    assert_eq!(xy.code(&bank), "x + y");
    match e.next(&mut bank) {
        Step::Skipped(Skip::Duplicate(q)) => assert_eq!(q.index(), xy.index()),
        _ => panic!("y + x is rejected"),
    }
    assert!(matches!(e.next(&mut bank), Step::Emitted(_))); // y + y
    assert!(matches!(e.next(&mut bank), Step::Done));
}

#[test]
fn overflow_is_pruned() {
    let task = SynthesisTask::new(
        vec![
            ("x".to_string(), Anies::Int(vec![i32::MAX])),
            ("y".to_string(), Anies::Int(vec![1])),
        ],
        1,
    );
    let mut bank = Bank::new(1, task.var_map.duplicate());
    <i32 as Store>::put_variable(&mut bank, "x".to_string(), vec![i32::MAX], 0).unwrap();
    <i32 as Store>::put_variable(&mut bank, "y".to_string(), vec![1], 1).unwrap();
    let before = bank.ints.progs.len();
    let mut e: BinEnumerator<i32, i32, i32> =
        BinEnumerator::new(BinaryOp::Sum, Level(1), bank.curr_max());
    assert!(matches!(e.next(&mut bank), Step::Skipped(Skip::Undefined))); // x + x
    assert!(matches!(e.next(&mut bank), Step::Skipped(Skip::Undefined))); // x + y
    assert_eq!(bank.ints.progs.len(), before);
    assert!(matches!(e.next(&mut bank), Step::Skipped(Skip::Undefined))); // y + x
    assert!(matches!(e.next(&mut bank), Step::Emitted(_))); // y + y
}

fn inc_setup() -> (Bank, AnyProg) {
    let task = SynthesisTask::new(vec![("x".to_string(), Anies::Int(vec![5]))], 1);
    let mut bank = Bank::new(1, task.var_map.duplicate());
    <i32 as Store>::put_variable(&mut bank, "x".to_string(), vec![5], 0).unwrap();
    let mut e: UniEnumerator<i32, i32> = UniEnumerator::new(UnaryOp::Inc, Level(1), bank.curr_max());
    let p = match e.next(&mut bank) {
        Step::Emitted(p) => p,
        _ => panic!("x++ is admitted"),
    };
    (bank, p)
}

#[test]
fn postfix_increment_reads_old_and_writes_new() {
    let (bank, p) = inc_setup();
    assert_eq!(p.code(&bank), "x++");
    assert_eq!(int_values(&bank, p.index()), vec![5]);
    let (pre, post) = p.conditions(&bank);
    let five = match pre.get(0) {
        Some(AnyVal::Int(v)) => v,
        _ => panic!("x++ requires x"),
    };
    let six = match post.get(0) {
        Some(AnyVal::Int(v)) => v,
        _ => panic!("x++ writes x"),
    };
    assert_eq!(<i32 as Store>::get_values(&bank, five), &[5]);
    assert_eq!(<i32 as Store>::get_values(&bank, six), &[6]);
    // The written values are interned as a fresh binding of x.
    assert_eq!(bank.ints.progs.len(), 3);
    assert_eq!(AnyProg::Int(PIdx::new(1)).code(&bank), "x");
    assert_eq!(AnyProg::Int(PIdx::new(1)).pointer(&bank), Some(0));
    assert_eq!(int_values(&bank, 1), vec![6]);
    assert_eq!(p.pointer(&bank), None);
}

#[test]
fn sequencing_contradiction_is_skipped() {
    let (mut bank, inc) = inc_setup();
    let x = AnyProg::Int(PIdx::new(0));
    let (pre1, post1) = inc.conditions(&bank);
    let (pre2, post2) = x.conditions(&bank);
    assert!(!post1.implies(pre2));
    assert!(Condition::sequence((pre1, post1), (pre2, post2)).is_none());
    let before = bank.ints.progs.len();
    let mut e: BinEnumerator<i32, i32, i32> =
        BinEnumerator::new(BinaryOp::Sum, Level(2), bank.curr_max());
    e.lhs_idx = PIdx::new(inc.index());
    e.rhs_idx = PIdx::new(0);
    assert!(matches!(e.next(&mut bank), Step::Skipped(Skip::Contradiction)));
    assert_eq!(bank.ints.progs.len(), before);
    // x + (x++) composes: x is read before it is written.
    e.lhs_idx = PIdx::new(0);
    e.rhs_idx = PIdx::new(inc.index());
    let p = match e.next(&mut bank) {
        Step::Emitted(p) => p,
        _ => panic!("x + x++ is admitted"),
    };
    assert_eq!(p.code(&bank), "x + x++");
    assert_eq!(int_values(&bank, p.index()), vec![10]);
}

#[test]
fn level_filter_skips_wrong_levels() {
    let (mut bank, _inc) = inc_setup();
    let mut e: BinEnumerator<i32, i32, i32> =
        BinEnumerator::new(BinaryOp::Sum, Level(2), bank.curr_max());
    // (x, x): both leaves give level 1, not 2.
    assert!(matches!(e.next(&mut bank), Step::Skipped(Skip::Level)));
}

#[test]
fn empty_snapshot_is_done_at_once() {
    let task = SynthesisTask::new(vec![("x".to_string(), Anies::Int(vec![1]))], 1);
    let mut bank = Bank::new(1, task.var_map.duplicate());
    let mut e: BinEnumerator<i32, i32, i32> =
        BinEnumerator::new(BinaryOp::Sum, Level(1), bank.curr_max());
    assert!(matches!(e.next(&mut bank), Step::Done));
    let mut u: UniEnumerator<i32, i32> = UniEnumerator::new(UnaryOp::Minus, Level(1), bank.curr_max());
    assert!(matches!(u.next(&mut bank), Step::Done));
}

#[test]
fn binary_enumerator_tries_every_pair_once() {
    let task = SynthesisTask::new(
        vec![
            ("a".to_string(), Anies::Int(vec![1])),
            ("b".to_string(), Anies::Int(vec![2])),
            ("c".to_string(), Anies::Int(vec![3])),
        ],
        1,
    );
    let mut bank = Bank::new(1, task.var_map.duplicate());
    <i32 as Store>::put_variable(&mut bank, "a".to_string(), vec![1], 0).unwrap();
    <i32 as Store>::put_variable(&mut bank, "b".to_string(), vec![2], 1).unwrap();
    <i32 as Store>::put_variable(&mut bank, "c".to_string(), vec![3], 2).unwrap();
    let mut e: BinEnumerator<i32, i32, i32> =
        BinEnumerator::new(BinaryOp::Sub, Level(1), bank.curr_max());
    let mut steps = 0;
    let mut emitted = Vec::new();
    loop {
        match e.next(&mut bank) {
            Step::Done => break,
            Step::Emitted(p) => emitted.push(p.code(&bank)),
            _ => {}
        }
        steps += 1;
    }
    assert_eq!(steps, 9);
    assert_eq!(emitted[0], "a - a");
    assert_eq!(emitted[1], "a - b");
    assert_eq!(emitted.len(), 9);
}

#[test]
fn full_vocabulary_run_keeps_bank_invariants() {
    let task = SynthesisTask::new(
        vec![
            ("x".to_string(), Anies::Int(vec![0, 2])),
            ("s".to_string(), Anies::Str(vec!["ab".to_string(), "c".to_string()])),
            ("a".to_string(), Anies::IntArray(vec![vec![1, 2], vec![]])),
        ],
        2,
    );
    let mut synth = Synthesizer::new(vocab(), task);
    let got = codes(&mut synth, 200);
    assert_eq!(got.len(), 200);
    let bank = synth.store();
    // One value per example, levels, L-values and OE uniqueness.
    for i in 0..bank.ints.progs.len() {
        let p = &bank.ints.progs[i];
        assert_eq!(int_values(bank, i).len(), 2);
        let leaf = matches!(p.shape, Shape::Variable(_) | Shape::Constant(_));
        assert_eq!(p.level.0 == 0, leaf);
        if p.pointer.is_some() {
            assert!(matches!(p.shape, Shape::Variable(_)));
        }
        match &p.shape {
            Shape::Unary(u) => assert_eq!(p.level.0, u.arg.level(bank).0 + 1),
            Shape::Binary(b) => {
                let m = std::cmp::max(b.lhs.level(bank).0, b.rhs.level(bank).0);
                assert_eq!(p.level.0, m + 1);
            }
            _ => {}
        }
        for j in 0..i {
            let q = &bank.ints.progs[j];
            let same = int_values(bank, i) == int_values(bank, j)
                && p.pointer == q.pointer
                && p.pre.same(&q.pre)
                && p.post.same(&q.post);
            assert!(!same, "programs {} and {} are observationally equivalent", j, i);
        }
    }
}

#[test]
fn vocabulary_prints_every_operator() {
    let task = SynthesisTask::new(
        vec![
            ("n".to_string(), Anies::Int(vec![1])),
            ("s".to_string(), Anies::Str(vec!["hey".to_string()])),
            ("a".to_string(), Anies::IntArray(vec![vec![4, 5]])),
        ],
        1,
    );
    let mut synth = Synthesizer::new(vocab(), task);
    let got = codes(&mut synth, 60);
    for code in ["s.length", "s[n]", "-n", "n + n", "n - n", "n++", "a.push(n)", "a[n]", "a.length", "a.slice(n)"] {
        assert!(got.contains(&code.to_string()), "missing {}", code);
    }
}

#[test]
fn value_index_round_trip() {
    let v: VIdx<i32> = VIdx::new(7);
    assert_eq!(v.index(), 7);
    let p: PIdx<String> = PIdx::new(3);
    assert_eq!(AnyProg::Str(p).index(), 3);
}
