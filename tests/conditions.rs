use bottomup_synth::cond::{Condition, Mutation};
use bottomup_synth::store::{Bank, Store, VarMap};
use bottomup_synth::values::{AnyVal, Anies, VIdx};

fn bound(i: usize) -> Option<AnyVal> {
    Some(AnyVal::Int(VIdx::new(i)))
}

fn cond(slots: &[Option<AnyVal>]) -> Condition {
    let mut c = Condition::empty(slots.len());
    for (i, s) in slots.iter().enumerate() {
        c = c.mutate_with_index(i, *s);
    }
    c
}

#[test]
fn empty_condition_has_unbound_slots() {
    let c = Condition::empty(3);
    assert_eq!(c.slots(), 3);
    for i in 0..3 {
        assert!(c.get(i).is_none());
    }
}

#[test]
fn mutate_replaces_one_slot() {
    let c = Condition::empty(2).mutate_with_index(1, bound(4));
    assert!(c.get(0).is_none());
    assert!(c.get(1).unwrap().same(&AnyVal::Int(VIdx::new(4))));
}

#[test]
fn mutate_is_idempotent_at_a_slot() {
    let c = cond(&[bound(1), None]);
    let once = c.mutate_with_index(1, bound(2));
    let twice = once.mutate_with_index(1, bound(2));
    assert!(once.same(&twice));
}

#[test]
fn implies_is_reflexive() {
    let c = cond(&[bound(1), None, Some(AnyVal::Str(VIdx::new(0)))]);
    assert!(c.implies(&c));
}

#[test]
fn implies_checks_only_slots_bound_on_both_sides() {
    let a = cond(&[bound(1), None]);
    let b = cond(&[None, bound(2)]);
    assert!(a.implies(&b));
    let c = cond(&[bound(3), None]);
    assert!(!a.implies(&c));
    // Same offset but another kind is another binding.
    let d = cond(&[Some(AnyVal::Str(VIdx::new(1))), None]);
    assert!(!a.implies(&d));
}

#[test]
fn implies_is_not_transitive_through_an_unbound_slot() {
    let a = cond(&[bound(1)]);
    let b = cond(&[None]);
    let c = cond(&[bound(2)]);
    assert!(a.implies(&b) && b.implies(&c));
    assert!(!a.implies(&c));
}

#[test]
fn implies_is_transitive_through_a_bound_slot() {
    let a = cond(&[bound(1), None]);
    let b = cond(&[bound(1), bound(5)]);
    let c = cond(&[bound(1), bound(5)]);
    assert!(a.implies(&b) && b.implies(&c) && a.implies(&c));
}

#[test]
fn sequence_with_empty_is_identity() {
    let pre = cond(&[bound(1), None]);
    let post = cond(&[bound(2), bound(3)]);
    let e = Condition::empty(2);
    let (p, q) = Condition::sequence((&pre, &post), (&e, &e)).unwrap();
    assert!(p.same(&pre));
    assert!(q.same(&post));
}

#[test]
fn sequence_lifts_and_keeps_latest_write() {
    // first: requires x=1, writes x=2; second: requires y=7, writes y=8.
    let pre1 = cond(&[bound(1), None]);
    let post1 = cond(&[bound(2), None]);
    let pre2 = cond(&[None, bound(7)]);
    let post2 = cond(&[None, bound(8)]);
    let (pre, post) = Condition::sequence((&pre1, &post1), (&pre2, &post2)).unwrap();
    assert!(pre.same(&cond(&[bound(1), bound(7)])));
    assert!(post.same(&cond(&[bound(2), bound(8)])));
}

#[test]
fn sequence_falls_back_to_earlier_write() {
    let pre1 = cond(&[bound(1)]);
    let post1 = cond(&[bound(2)]);
    let e = Condition::empty(1);
    let (_, post) = Condition::sequence((&pre1, &post1), (&e, &e)).unwrap();
    assert!(post.get(0).unwrap().same(&AnyVal::Int(VIdx::new(2))));
}

#[test]
fn sequence_keeps_first_requirement_over_second() {
    let pre1 = cond(&[bound(1)]);
    let post1 = Condition::empty(1);
    let pre2 = cond(&[bound(9)]);
    let (pre, _) = Condition::sequence((&pre1, &post1), (&pre2, &pre2)).unwrap();
    assert!(pre.get(0).unwrap().same(&AnyVal::Int(VIdx::new(1))));
}

#[test]
fn sequence_fails_on_contradiction() {
    let pre1 = cond(&[bound(5)]);
    let post1 = cond(&[bound(6)]);
    let pre2 = cond(&[bound(5)]);
    assert!(!post1.implies(&pre2));
    assert!(Condition::sequence((&pre1, &post1), (&pre2, &pre2)).is_none());
}

#[test]
fn conditions_beyond_four_slots() {
    let c = Condition::empty(6).mutate_with_index(5, bound(9));
    assert_eq!(c.slots(), 6);
    assert!(c.get(5).is_some());
    assert!(!c.same(&Condition::empty(6)));
    assert!(c.duplicate().same(&c));
}

#[test]
fn var_map_keeps_names_in_order() {
    let m = VarMap::from_names(vec!["a".to_string(), "b".to_string(), "c".to_string(), "d".to_string(), "e".to_string()]);
    assert_eq!(m.len(), 5);
    assert_eq!(m.name(0), "a");
    assert_eq!(m.name(4), "e");
    let d = m.duplicate();
    assert_eq!(d.name(2), "c");
}

#[test]
fn mutation_apply_interns_a_binding() {
    let mut bank = Bank::new(2, VarMap::from_names(vec!["x".to_string()]));
    <i32 as Store>::put_variable(&mut bank, "x".to_string(), vec![1, 2], 0).unwrap();
    let m = Mutation::new(0, Anies::Int(vec![3, 4]));
    let c = m.apply(Condition::empty(1), &mut bank);
    let v = match c.get(0) {
        Some(AnyVal::Int(v)) => v,
        _ => panic!("the slot is bound to integers"),
    };
    assert_eq!(<i32 as Store>::get_values(&bank, v), &[3, 4]);
    assert_eq!(bank.ints.progs.len(), 2);
    // The same write again finds the binding already interned.
    let again = Mutation::new(0, Anies::Int(vec![3, 4])).apply(Condition::empty(1), &mut bank);
    assert!(again.same(&c));
    assert_eq!(bank.ints.progs.len(), 2);
}

#[test]
fn condition_equality_is_slotwise() {
    let a = cond(&[bound(1), None]);
    let b = cond(&[bound(1), None]);
    let c = cond(&[bound(1), bound(0)]);
    assert!(a == b);
    assert!(a != c);
    assert!(AnyVal::Int(VIdx::new(3)) == AnyVal::Int(VIdx::new(3)));
    assert!(AnyVal::Int(VIdx::new(3)) != AnyVal::IntArray(VIdx::new(3)));
}
