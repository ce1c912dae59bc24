use bottomup_synth::cond::Condition;
use bottomup_synth::program::{
    BinProgram, BinaryOp, Constant, Level, MaybeProgram, MaybeVariable, Shape, UniProgram, UnaryOp,
    Variable,
};
use bottomup_synth::synth::Synthesizer;
use bottomup_synth::store::{Bank, MaxIdx, Store, VarMap};
use bottomup_synth::task::SynthesisTask;
use bottomup_synth::values::{AnyProg, AnyVal, Anies, PIdx, VIdx};

fn bank_xy() -> Bank {
    let mut bank = Bank::new(2, VarMap::from_names(vec!["x".to_string(), "y".to_string()]));
    <i32 as Store>::put_variable(&mut bank, "x".to_string(), vec![0, 2], 0).unwrap();
    <i32 as Store>::put_variable(&mut bank, "y".to_string(), vec![1, 1], 1).unwrap();
    bank
}

#[test]
fn put_variable_twice_returns_the_first() {
    let mut bank = bank_xy();
    let again = <i32 as Store>::put_variable(&mut bank, "x".to_string(), vec![0, 2], 0);
    assert_eq!(again.unwrap_err().index(), 0);
    assert_eq!(bank.ints.progs.len(), 2);
    // Same values under another name is another variable.
    let other = <i32 as Store>::put_variable(&mut bank, "y".to_string(), vec![0, 2], 1);
    assert_eq!(other.unwrap().index(), 2);
}

#[test]
fn put_constant_repeats_the_scalar() {
    let mut bank = bank_xy();
    let c = <i32 as Store>::put_constant(&mut bank, "7", 7).unwrap();
    let prog = <i32 as Store>::get_program(&bank, c);
    assert_eq!(<i32 as Store>::get_values(&bank, prog.values_idx()), &[7, 7]);
    assert_eq!(AnyProg::Int(c).code(&bank), "7");
    assert_eq!(prog.level(), Level(0));
    assert_eq!(prog.pointer(), None);
    let dup = <i32 as Store>::put_constant(&mut bank, "seven", 7);
    assert_eq!(dup.unwrap_err().index(), c.index());
}

#[test]
fn put_constant_of_each_kind() {
    let mut bank = bank_xy();
    let s = <String as Store>::put_constant(&mut bank, "\"\"", String::new()).unwrap();
    let a = <Vec<i32> as Store>::put_constant(&mut bank, "[]", vec![]).unwrap();
    assert_eq!(AnyProg::Str(s).code(&bank), "\"\"");
    assert_eq!(AnyProg::IntArray(a).code(&bank), "[]");
    assert!(<String as Store>::has_program(&bank, s));
    assert!(!<String as Store>::has_program(&bank, PIdx::new(1)));
}

#[test]
fn put_program_admits_then_rejects_equivalent() {
    let mut bank = bank_xy();
    let make = |bank: &Bank| {
        let x = <i32 as Store>::get_program(bank, PIdx::new(0));
        MaybeProgram {
            shape: Shape::Unary(UniProgram { op: UnaryOp::Minus, arg: AnyProg::Int(PIdx::new(0)) }),
            values: vec![0, -2],
            pre: x.pre.duplicate(),
            post: x.post.duplicate(),
            pointer: None,
            level: Level(1),
        }
    };
    let mp = make(&bank);
    let first = <i32 as Store>::put_program(&mut bank, mp).unwrap();
    assert_eq!(first.index(), 2);
    assert_eq!(AnyProg::Int(first).code(&bank), "-x");
    let mp = make(&bank);
    let second = <i32 as Store>::put_program(&mut bank, mp);
    assert_eq!(second.unwrap_err().index(), 2);
    assert_eq!(bank.ints.progs.len(), 3);
}

#[test]
fn same_values_other_conditions_are_distinct() {
    let mut bank = bank_xy();
    let mp = MaybeProgram {
        shape: Shape::Unary(UniProgram { op: UnaryOp::Minus, arg: AnyProg::Int(PIdx::new(0)) }),
        values: vec![0, 2],
        pre: Condition::empty(2),
        post: Condition::empty(2),
        pointer: None,
        level: Level(1),
    };
    // Values equal to x's, but no L-value and no conditions.
    assert!(<i32 as Store>::put_program(&mut bank, mp).is_ok());
}

#[test]
fn snapshot_counts_programs() {
    let bank = bank_xy();
    let max = bank.curr_max();
    assert!(<_ as MaxIdx<i32>>::check(&max, PIdx::new(1)));
    assert!(!<_ as MaxIdx<i32>>::check(&max, PIdx::new(2)));
    assert!(!<_ as MaxIdx<String>>::check(&max, PIdx::new(0)));
    assert_eq!(bank.variables(), 2);
    assert_eq!(bank.examples(), 2);
    assert!(bank.room());
}

#[test]
fn task_validity() {
    let ok = SynthesisTask::new(vec![("x".to_string(), Anies::Int(vec![1, 2]))], 2);
    assert!(ok.is_valid());
    assert_eq!(ok.variables(), 1);
    let (name, _) = ok.variable(0);
    assert_eq!(name, "x");
    let short = SynthesisTask::new(vec![("x".to_string(), Anies::Int(vec![1]))], 2);
    assert!(!short.is_valid());
    let none = SynthesisTask::new(vec![], 0);
    assert!(!none.is_valid());
}

#[test]
fn maybe_variable_binds_its_own_slot() {
    let mv = MaybeVariable::new("y".to_string(), vec![1, 2], 1, 3);
    let p = mv.into_program(VIdx::<i32>::new(4));
    assert!(matches!(&p.shape, Shape::Variable(v) if v.name == "y" && v.pointer == 1));
    assert_eq!(p.pointer(), Some(1));
    assert_eq!(p.level(), Level(0));
    assert!(p.pre == p.post);
    assert!(p.pre.get(0).is_none());
    assert!(p.pre.get(1) == Some(AnyVal::Int(VIdx::new(4))));
    assert!(p.pre.get(2).is_none());
}

#[test]
fn node_constructors() {
    let v = Variable::new("x".to_string(), 0);
    assert_eq!(v.name, "x");
    let c = Constant::new("0".to_string());
    assert_eq!(c.code, "0");
    let u = UniProgram::new(UnaryOp::Inc, AnyProg::Int(PIdx::new(2)));
    assert_eq!(u.arg.index(), 2);
    let b = BinProgram::new(BinaryOp::Push, AnyProg::IntArray(PIdx::new(1)), AnyProg::Int(PIdx::new(0)));
    assert_eq!(b.op, BinaryOp::Push);
    assert_eq!(b.lhs.index(), 1);
}

#[test]
fn synthesizer_interns_every_variable_and_constant() {
    let task = SynthesisTask::new(
        vec![
            ("x".to_string(), Anies::Int(vec![3])),
            ("a".to_string(), Anies::IntArray(vec![vec![1]])),
        ],
        1,
    );
    let synth = Synthesizer::new(Vec::new(), task);
    let bank = synth.store();
    assert_eq!(AnyProg::Int(PIdx::new(0)).code(bank), "x");
    assert_eq!(AnyProg::IntArray(PIdx::new(0)).code(bank), "a");
    assert_eq!(AnyProg::Int(PIdx::new(1)).code(bank), "0");
    assert_eq!(AnyProg::Int(PIdx::new(2)).code(bank), "1");
    assert_eq!(AnyProg::Str(PIdx::new(0)).code(bank), "\"\"");
    assert_eq!(AnyProg::Str(PIdx::new(1)).code(bank), "\" \"");
    assert_eq!(AnyProg::IntArray(PIdx::new(1)).code(bank), "[]");
    assert_eq!(bank.ints.progs.len(), 3);
}

#[test]
fn task_with_repeated_name_is_invalid() {
    let dup = SynthesisTask::new(
        vec![
            ("x".to_string(), Anies::Int(vec![1])),
            ("x".to_string(), Anies::Int(vec![2])),
        ],
        1,
    );
    assert!(!dup.is_valid());
}

#[test]
fn synthesizer_places_variables_then_constants_per_kind() {
    let task = SynthesisTask::new(
        vec![
            ("s".to_string(), Anies::Str(vec!["q".to_string()])),
            ("x".to_string(), Anies::Int(vec![3])),
            ("y".to_string(), Anies::Int(vec![4])),
        ],
        1,
    );
    let synth = Synthesizer::new(Vec::new(), task);
    let bank = synth.store();
    assert_eq!(AnyProg::Int(PIdx::new(0)).code(bank), "x");
    assert_eq!(AnyProg::Int(PIdx::new(1)).code(bank), "y");
    assert_eq!(AnyProg::Int(PIdx::new(1)).pointer(bank), Some(2));
    assert_eq!(AnyProg::Int(PIdx::new(2)).code(bank), "0");
    assert_eq!(AnyProg::Int(PIdx::new(3)).code(bank), "1");
    assert_eq!(AnyProg::Str(PIdx::new(0)).code(bank), "s");
    assert_eq!(AnyProg::Str(PIdx::new(1)).code(bank), "\"\"");
    assert_eq!(bank.strs.progs.len(), 3);
    assert_eq!(bank.int_arrs.progs.len(), 1);
}
