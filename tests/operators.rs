use bottomup_synth::program::{BinaryOp, Level, UnaryOp};
use bottomup_synth::values::Anies;
use bottomup_synth::vocab::{
    arr_deref_eval, arr_len_eval, bin_slice_code, bin_slice_eval, binary_code, constants,
    deref_code, inc_code, inc_eval, len_code, minus_code, minus_eval, push_code, push_eval,
    str_deref_eval, str_len_eval, sub_code, sub_eval, sum_code, sum_eval, unary_code, vocab,
    ConstVal,
};

#[test]
fn sum_is_element_wise() {
    assert_eq!(sum_eval(&[0, 2], &[1, 1]), Some(vec![1, 3]));
}

#[test]
fn sum_overflow_is_undefined() {
    assert_eq!(sum_eval(&[i32::MAX], &[1]), None);
    assert_eq!(sum_eval(&[0, i32::MAX], &[0, 1]), None);
}

#[test]
fn sub_underflow_is_undefined() {
    assert_eq!(sub_eval(&[i32::MIN], &[1]), None);
    assert_eq!(sub_eval(&[5, -3], &[7, 4]), Some(vec![-2, -7]));
}

#[test]
fn minus_of_min_is_undefined() {
    assert_eq!(minus_eval(&[i32::MIN]), None);
    assert_eq!(minus_eval(&[3, -4, 0]), Some(vec![-3, 4, 0]));
}

#[test]
fn inc_needs_an_lvalue() {
    assert!(inc_eval(&[1], None).is_none());
    let (vals, m) = inc_eval(&[1, 7], Some(2)).unwrap();
    assert_eq!(vals, vec![1, 7]);
    let m = m.unwrap();
    assert_eq!(m.pointer, 2);
    match m.values {
        Anies::Int(v) => assert_eq!(v, vec![2, 8]),
        _ => panic!("an increment writes integers"),
    }
}

#[test]
fn inc_overflow_is_undefined() {
    assert!(inc_eval(&[i32::MAX], Some(0)).is_none());
}

#[test]
fn string_length_counts_characters() {
    let s = vec!["a".to_string(), "asdfmovie".to_string(), "".to_string()];
    assert_eq!(str_len_eval(&s), Some(vec![1, 9, 0]));
}

#[test]
fn string_index_in_and_out_of_range() {
    let s = vec!["abc".to_string()];
    assert_eq!(str_deref_eval(&s, &[1]), Some(vec!["b".to_string()]));
    assert_eq!(str_deref_eval(&s, &[-1]), None);
    assert_eq!(str_deref_eval(&s, &[3]), None);
}

#[test]
fn string_index_of_non_ascii_is_undefined() {
    let s = vec!["h\u{e9}".to_string()];
    assert_eq!(str_deref_eval(&s, &[0]), None);
}

#[test]
fn array_index_in_and_out_of_range() {
    let a = vec![vec![4, 5, 6]];
    assert_eq!(arr_deref_eval(&a, &[2]), Some(vec![6]));
    assert_eq!(arr_deref_eval(&a, &[-1]), None);
    assert_eq!(arr_deref_eval(&a, &[3]), None);
}

#[test]
fn empty_array_index_is_undefined() {
    let a: Vec<Vec<i32>> = vec![vec![]];
    assert_eq!(arr_deref_eval(&a, &[0]), None);
}

#[test]
fn push_onto_empty_array() {
    let a: Vec<Vec<i32>> = vec![vec![], vec![1]];
    let (lens, m) = push_eval(&a, &[9, 8], Some(0)).unwrap();
    assert_eq!(lens, vec![1, 2]);
    match m.unwrap().values {
        Anies::IntArray(v) => assert_eq!(v, vec![vec![9], vec![1, 8]]),
        _ => panic!("push writes arrays"),
    }
    let (lens, m) = push_eval(&a, &[9, 8], None).unwrap();
    assert_eq!(lens, vec![1, 2]);
    assert!(m.is_none());
}

#[test]
fn array_length() {
    let a: Vec<Vec<i32>> = vec![vec![], vec![1, 2, 3]];
    assert_eq!(arr_len_eval(&a), Some(vec![0, 3]));
}

#[test]
fn slice_clamps_its_start() {
    let a = vec![vec![1, 2, 3], vec![1, 2, 3], vec![1, 2, 3], vec![1, 2, 3], vec![]];
    let got = bin_slice_eval(&a, &[1, -1, -5, 7, 0]);
    assert_eq!(got, vec![vec![2, 3], vec![3], vec![1, 2, 3], vec![], vec![]]);
}

#[test]
fn code_printers() {
    assert_eq!(len_code("s"), "s.length");
    assert_eq!(minus_code("x"), "-x");
    assert_eq!(inc_code("x"), "x++");
    assert_eq!(deref_code("a", "i"), "a[i]");
    assert_eq!(sum_code("x", "y"), "x + y");
    assert_eq!(sub_code("x", "y"), "x - y");
    assert_eq!(push_code("a", "1"), "a.push(1)");
    assert_eq!(bin_slice_code("a", "2"), "a.slice(2)");
    assert_eq!(unary_code(UnaryOp::ArrLen, "a"), "a.length");
    assert_eq!(binary_code(BinaryOp::ArrDeref, "a", "0"), "a[0]");
}

#[test]
fn constant_table() {
    let c = constants();
    assert_eq!(c.len(), 5);
    assert!(matches!(c[0], ConstVal::Int("0", 0)));
    assert!(matches!(c[1], ConstVal::Int("1", 1)));
    match &c[3] {
        ConstVal::Str(code, v) => {
            assert_eq!(*code, "\" \"");
            assert_eq!(v, " ");
        }
        _ => panic!("the fourth constant is a string"),
    }
    assert!(matches!(&c[4], ConstVal::IntArray("[]", v) if v.is_empty()));
}

#[test]
fn vocabulary_table() {
    assert_eq!(vocab().len(), 10);
}

#[test]
fn level_arithmetic() {
    let l = Level::new(2);
    assert_eq!(l.next().value(), 3);
    assert_eq!(l.prev().value(), 1);
    assert_eq!(l.bin_next(Level(5)).value(), 6);
    assert_eq!(Level(0).bin_next(Level(0)).value(), 1);
    let mut m = Level(0);
    m.inc();
    assert_eq!(m, Level(1));
}
