//! Symbolic pre-/post-conditions: one optional value binding per variable
//! slot, with the implication check and the sequencing rule.
use crate::store::{names_of, views, Bank, Store};
use crate::values::{AnyVal, Anies, Int, IntArray, Kind, Str};
use smallvec::SmallVec;
use vstd::prelude::*;

verus! {

/// A variable slot: the position of a variable in the task's variable map.
pub type Pointer = usize;

pub type PreCondition = Condition;

pub type PostCondition = Condition;

/// Storage of a condition's slots: a small vector that stays inline for up
/// to four variables.
#[verifier::external_body]
pub struct Slots {
    v: SmallVec<[Option<AnyVal>; 4]>,
}

/// The slots that a `Slots` vector holds, in order.
pub uninterp spec fn slots_of(v: Slots) -> Seq<Option<AnyVal>>;

/// Relies on `SmallVec::from_elem`: `n` copies of `elem`.
#[verifier::external_body]
fn slots_from_elem(n: usize) -> (r: Slots)
    ensures
        slots_of(r) == Seq::new(n as nat, |i: int| None::<AnyVal>),
{
    Slots { v: SmallVec::from_elem(None, n) }
}

/// Relies on `SmallVec::len`: the number of elements held.
#[verifier::external_body]
fn slots_len(v: &Slots) -> (r: usize)
    ensures
        r == slots_of(*v).len(),
{
    v.v.len()
}

/// Relies on `SmallVec`'s `Index<usize>`: the element at position `i`.
#[verifier::external_body]
fn slots_get(v: &Slots, i: usize) -> (r: Option<AnyVal>)
    requires
        i < slots_of(*v).len(),
    ensures
        r == slots_of(*v)[i as int],
{
    v.v[i]
}

/// Relies on `SmallVec`'s `IndexMut<usize>`: replaces the element at `i`.
#[verifier::external_body]
fn slots_set(v: &mut Slots, i: usize, x: Option<AnyVal>)
    requires
        i < slots_of(*old(v)).len(),
    ensures
        slots_of(*final(v)) == slots_of(*old(v)).update(i as int, x),
{
    v.v[i] = x;
}

/// Relies on `SmallVec`'s `Clone`: a vector with the same elements.
#[verifier::external_body]
fn slots_clone(v: &Slots) -> (r: Slots)
    ensures
        slots_of(r) == slots_of(*v),
{
    Slots { v: v.v.clone() }
}

/// The model of one slot: unbound, or bound to a tagged value index.
pub type SlotV = Option<(Kind, usize)>;

pub open spec fn slot_view(s: Option<AnyVal>) -> SlotV {
    match s {
        Some(v) => Some(v@),
        None => None,
    }
}

/// A fixed-length sequence of optional bindings, one per variable.
pub struct Condition {
    inner: Slots,
}

impl View for Condition {
    type V = Seq<SlotV>;

    closed spec fn view(&self) -> Seq<SlotV> {
        slots_of(self.inner).map_values(|s: Option<AnyVal>| slot_view(s))
    }
}

/// The condition with `n` slots, all unbound.
pub open spec fn empty_spec(n: nat) -> Seq<SlotV> {
    Seq::new(n, |i: int| None::<(Kind, usize)>)
}

/// For every slot bound on both sides, the two bindings agree.
pub open spec fn implies_spec(a: Seq<SlotV>, b: Seq<SlotV>) -> bool {
    forall|i: int|
        0 <= i < a.len() && 0 <= i < b.len() && (#[trigger] a[i]) is Some && (#[trigger] b[i]) is Some
            ==> a[i] == b[i]
}

/// The precondition of running `(pre1, post1)` and then `(pre2, _)`: a slot
/// that the first part wrote keeps the first part's requirement; otherwise
/// the first part's requirement, or failing that the second's, is lifted.
pub open spec fn seq_pre(pre1: Seq<SlotV>, post1: Seq<SlotV>, pre2: Seq<SlotV>) -> Seq<SlotV> {
    Seq::new(
        pre1.len(),
        |i: int|
            if post1[i] is Some {
                pre1[i]
            } else if pre1[i] is Some {
                pre1[i]
            } else {
                pre2[i]
            },
    )
}

/// The postcondition of running the first part and then the second: the
/// latest write of each slot.
pub open spec fn seq_post(post1: Seq<SlotV>, post2: Seq<SlotV>) -> Seq<SlotV> {
    Seq::new(post1.len(), |i: int| if post2[i] is Some { post2[i] } else { post1[i] })
}

/// Hoare-style sequencing of two conditioned parts.
pub open spec fn sequence_spec(
    pre1: Seq<SlotV>,
    post1: Seq<SlotV>,
    pre2: Seq<SlotV>,
    post2: Seq<SlotV>,
) -> Option<(Seq<SlotV>, Seq<SlotV>)> {
    if implies_spec(post1, pre2) {
        Some((seq_pre(pre1, post1, pre2), seq_post(post1, post2)))
    } else {
        None
    }
}

/// Sequencing with a part that neither requires nor writes anything leaves
/// the conditions unchanged.
pub proof fn lemma_sequence_empty_right(pre: Seq<SlotV>, post: Seq<SlotV>)
    requires
        pre.len() == post.len(),
    ensures
        sequence_spec(pre, post, empty_spec(pre.len()), empty_spec(pre.len())) == Some((pre, post)),
{
    let e = empty_spec(pre.len());
    assert(implies_spec(post, e));
    assert(seq_pre(pre, post, e) =~= pre);
    assert(seq_post(post, e) =~= post);
}

/// Every condition implies itself.
pub proof fn lemma_implies_reflexive(a: Seq<SlotV>)
    ensures
        implies_spec(a, a),
{
}

/// Implication is transitive where the middle condition binds every slot
/// that the outer two both bind.
pub proof fn lemma_implies_transitive(a: Seq<SlotV>, b: Seq<SlotV>, c: Seq<SlotV>)
    requires
        a.len() == b.len() == c.len(),
        implies_spec(a, b),
        implies_spec(b, c),
        forall|i: int| 0 <= i < a.len() && (#[trigger] a[i]) is Some && (#[trigger] c[i]) is Some ==> b[i] is Some,
    ensures
        implies_spec(a, c),
{
    assert forall|i: int|
        0 <= i < a.len() && 0 <= i < c.len() && (#[trigger] a[i]) is Some && (#[trigger] c[i]) is Some implies a[i] == c[i] by {
        assert(b[i] is Some);
    }
}

/// Writing the same binding to a slot twice is the same as writing it once.
pub proof fn lemma_mutate_idempotent(c: Seq<SlotV>, i: int, v: SlotV)
    requires
        0 <= i < c.len(),
    ensures
        c.update(i, v).update(i, v) == c.update(i, v),
{
    assert(c.update(i, v).update(i, v) =~= c.update(i, v));
}

/// Sequencing fails exactly where the first postcondition contradicts the
/// second precondition.
pub proof fn lemma_sequence_fails_on_contradiction(
    pre1: Seq<SlotV>,
    post1: Seq<SlotV>,
    pre2: Seq<SlotV>,
    post2: Seq<SlotV>,
)
    ensures
        !implies_spec(post1, pre2) <==> sequence_spec(pre1, post1, pre2, post2) is None,
{
}

impl Condition {
    pub open spec fn len(&self) -> nat {
        self@.len()
    }

    proof fn lemma_view(&self)
        ensures
            self@.len() == slots_of(self.inner).len(),
            forall|i: int|
                0 <= i < self@.len() ==> #[trigger] self@[i] == slot_view(slots_of(self.inner)[i]),
    {
    }

    /// The condition with `vars` slots, all unbound.
    pub fn empty(vars: usize) -> (r: Condition)
        ensures
            r@ == empty_spec(vars as nat),
    {
        let r = Condition { inner: slots_from_elem(vars) };
        proof {
            r.lemma_view();
            assert(r@ =~= empty_spec(vars as nat));
        }
        r
    }

    /// The number of slots.
    pub fn slots(&self) -> (r: usize)
        ensures
            r == self@.len(),
    {
        proof {
            self.lemma_view();
        }
        slots_len(&self.inner)
    }

    /// The binding of slot `i`.
    pub fn get(&self, i: usize) -> (r: Option<AnyVal>)
        requires
            i < self@.len(),
        ensures
            slot_view(r) == self@[i as int],
    {
        proof {
            self.lemma_view();
        }
        slots_get(&self.inner, i)
    }

    /// An equal copy.
    pub fn duplicate(&self) -> (r: Condition)
        ensures
            r@ == self@,
    {
        Condition { inner: slots_clone(&self.inner) }
    }

    /// Compares the two conditions slot by slot.
    pub fn same(&self, other: &Condition) -> (r: bool)
        ensures
            r == (self@ == other@),
    {
        let n = self.slots();
        if n != other.slots() {
            return false;
        }
        let mut i: usize = 0;
        while i < n
            invariant
                n == self@.len() == other@.len(),
                i <= n,
                forall|j: int| 0 <= j < i ==> self@[j] == other@[j],
            decreases n - i,
        {
            let a = self.get(i);
            let b = other.get(i);
            let eq = match (a, b) {
                (Some(x), Some(y)) => x.same(&y),
                (None, None) => true,
                _ => false,
            };
            if !eq {
                return false;
            }
            i = i + 1;
        }
        proof {
            assert(self@ =~= other@);
        }
        true
    }

    /// Whether every slot bound in both `self` and `other` is bound to the
    /// same value index in each.
    pub fn implies(&self, other: &Condition) -> (r: bool)
        requires
            self@.len() == other@.len(),
        ensures
            r == implies_spec(self@, other@),
    {
        let n = self.slots();
        let mut i: usize = 0;
        while i < n
            invariant
                n == self@.len() == other@.len(),
                i <= n,
                forall|j: int|
                    0 <= j < i && (#[trigger] self@[j]) is Some && other@[j] is Some ==> self@[j]
                        == other@[j],
            decreases n - i,
        {
            match (self.get(i), other.get(i)) {
                (Some(this), Some(that)) => {
                    if !this.same(&that) {
                        return false;
                    }
                },
                _ => {},
            }
            i = i + 1;
        }
        true
    }

    /// A copy of `self` with slot `var` replaced by `val`.
    pub fn mutate_with_index(&self, var: Pointer, val: Option<AnyVal>) -> (r: Condition)
        requires
            var < self@.len(),
        ensures
            r@ == self@.update(var as int, slot_view(val)),
    {
        let mut inner = slots_clone(&self.inner);
        slots_set(&mut inner, var, val);
        let r = Condition { inner };
        proof {
            self.lemma_view();
            r.lemma_view();
            assert(r@ =~= self@.update(var as int, slot_view(val)));
        }
        r
    }

    /// Applies the sequence rule to `fst` followed by `snd`, or returns
    /// `None` where the first part's postcondition contradicts the second
    /// part's precondition.
    pub fn sequence(
        fst: (&PreCondition, &PostCondition),
        snd: (&PreCondition, &PostCondition),
    ) -> (r: Option<(PreCondition, PostCondition)>)
        requires
            fst.0@.len() == fst.1@.len(),
            fst.0@.len() == snd.0@.len(),
            fst.0@.len() == snd.1@.len(),
        ensures
            match r {
                Some((pre, post)) => sequence_spec(fst.0@, fst.1@, snd.0@, snd.1@) == Some(
                    (pre@, post@),
                ),
                None => sequence_spec(fst.0@, fst.1@, snd.0@, snd.1@) is None,
            },
    {
        if !fst.1.implies(snd.0) {
            return None;
        }
        let n = fst.0.slots();
        let mut pre = slots_clone(&fst.0.inner);
        let mut post = slots_clone(&fst.1.inner);
        proof {
            fst.0.lemma_view();
            fst.1.lemma_view();
            snd.0.lemma_view();
            snd.1.lemma_view();
        }
        let mut i: usize = 0;
        while i < n
            invariant
                n == fst.0@.len() == fst.1@.len() == snd.0@.len() == snd.1@.len(),
                i <= n,
                slots_of(pre).len() == n,
                slots_of(post).len() == n,
                forall|j: int|
                    0 <= j < i ==> #[trigger] slot_view(slots_of(pre)[j]) == seq_pre(
                        fst.0@,
                        fst.1@,
                        snd.0@,
                    )[j],
                forall|j: int|
                    i <= j < n ==> #[trigger] slots_of(pre)[j] == slots_of(fst.0.inner)[j],
                forall|j: int|
                    0 <= j < i ==> #[trigger] slot_view(slots_of(post)[j]) == seq_post(
                        fst.1@,
                        snd.1@,
                    )[j],
                forall|j: int|
                    i <= j < n ==> #[trigger] slots_of(post)[j] == slots_of(fst.1.inner)[j],
                forall|j: int|
                    0 <= j < n ==> #[trigger] fst.0@[j] == slot_view(slots_of(fst.0.inner)[j]),
                forall|j: int|
                    0 <= j < n ==> #[trigger] fst.1@[j] == slot_view(slots_of(fst.1.inner)[j]),
                forall|j: int|
                    0 <= j < n ==> #[trigger] snd.0@[j] == slot_view(slots_of(snd.0.inner)[j]),
                forall|j: int|
                    0 <= j < n ==> #[trigger] snd.1@[j] == slot_view(slots_of(snd.1.inner)[j]),
            decreases n - i,
        {
            let first_pre = slots_get(&fst.0.inner, i);
            let first_post = slots_get(&fst.1.inner, i);
            if first_post.is_none() && first_pre.is_none() {
                let second_pre = slots_get(&snd.0.inner, i);
                slots_set(&mut pre, i, second_pre);
            }
            let second_post = slots_get(&snd.1.inner, i);
            if second_post.is_some() {
                slots_set(&mut post, i, second_post);
            }
            i = i + 1;
        }
        let pre = Condition { inner: pre };
        let post = Condition { inner: post };
        proof {
            pre.lemma_view();
            post.lemma_view();
            assert(pre@ =~= seq_pre(fst.0@, fst.1@, snd.0@));
            assert(post@ =~= seq_post(fst.1@, snd.1@));
        }
        Some((pre, post))
    }
}

impl PartialEq for Condition {
    fn eq(&self, other: &Condition) -> (r: bool)
        ensures
            r == (self@ == other@),
    {
        self.same(other)
    }
}

impl vstd::std_specs::cmp::PartialEqSpecImpl for Condition {
    open spec fn obeys_eq_spec() -> bool {
        true
    }

    open spec fn eq_spec(&self, other: &Condition) -> bool {
        self@ == other@
    }
}

impl Eq for Condition {
}

/// A pending write of new per-example values to a variable slot.
pub struct Mutation {
    pub pointer: Pointer,
    pub values: Anies,
}

impl Mutation {
    pub fn new(pointer: Pointer, values: Anies) -> (r: Self)
        ensures
            r.pointer == pointer,
            r.values == values,
    {
        Self { pointer, values }
    }
}

impl Mutation {
    /// Interns the written values as a variable binding of the mutated slot
    /// (or finds the one already interned) and returns `cond` with the slot
    /// bound to it.
    pub fn apply(self, cond: Condition, store: &mut Bank) -> (r: Condition)
        requires
            old(store).wf(),
            old(store).has_room(),
            self.pointer < old(store).nvars(),
            self.values.len() == old(store).e(),
            cond@.len() == old(store).nvars(),
        ensures
            final(store).wf(),
            final(store).extends(&old(store)),
            forall|k: Kind| #[trigger] final(store).vals_len(k) <= old(store).vals_len(k) + old(store).e(),
            forall|k: Kind| #[trigger] final(store).progs_len(k) <= old(store).progs_len(k) + 1,
            old(store).interned(names_of(old(store).var_map)[self.pointer as int]@, self.values)
                ==> *final(store) == *old(store),
            !old(store).interned(names_of(old(store).var_map)[self.pointer as int]@, self.values)
                ==> forall|k: Kind|
                #[trigger] final(store).progs_len(k) == old(store).progs_len(k) + if k
                    == self.values.kind() {
                    1nat
                } else {
                    0nat
                },
            exists|a: (Kind, usize)|
                {
                    &&& #[trigger] final(store).binds(
                        a,
                        names_of(old(store).var_map)[self.pointer as int]@,
                        self.values,
                    )
                    &&& a.1 + final(store).e() <= final(store).vals_len(a.0)
                    &&& r@ == cond@.update(self.pointer as int, Some(a))
                },
    {
        let ptr = self.pointer;
        let name = store.var_map.name(ptr).clone();
        let ghost nm = name@;
        let ghost b1 = *store;
        match self.values {
            Anies::Int(values) => {
                let ghost vs = values@;
                let res = <Int as Store>::put_variable(store, name, values, ptr);
                let idx = match res {
                    Ok(idx) => idx,
                    Err(idx) => idx,
                };
                proof {
                    if res is Ok {
                        if b1.interned(nm, self.values) {
                            let a = choose|a: (Kind, usize)| b1.binds(a, nm, self.values);
                            assert(b1.binds(a, nm, self.values));
                        }
                    } else {
                        let p = res->Err_0@ as int;
                        assert(b1.binds((Kind::Int, b1.ints.progs@[p].values@), nm, self.values));
                    }
                    if res is Ok {
                        let at = b1.ints.vals@.len() as int;
                        assert forall|j: int| 0 <= j < vs.len() implies #[trigger] store.ints.span(at, vs.len())[j]
                            == views(vs)[j] by {
                            assert(store.ints.vals@[at + j] == vs[j]);
                        }
                        assert(store.ints.span(at, vs.len()) =~= views(vs));
                    }
                }
                let vi = <Int as Store>::get_program(store, idx).values_idx();
                let r = cond.mutate_with_index(ptr, Some(AnyVal::Int(vi)));
                proof {
                    let a = (Kind::Int, vi@);
                    let p = idx@ as int;
                    assert(store.ints.is_variable(p, nm, views(vs), store.e()));
                    assert(store.prog_ok(store.ints.progs@[p]));
                    assert(store.binds(a, nm, self.values));
                }
                r
            },
            Anies::Str(values) => {
                let ghost vs = values@;
                let res = <Str as Store>::put_variable(store, name, values, ptr);
                let idx = match res {
                    Ok(idx) => idx,
                    Err(idx) => idx,
                };
                proof {
                    if res is Ok {
                        if b1.interned(nm, self.values) {
                            let a = choose|a: (Kind, usize)| b1.binds(a, nm, self.values);
                            assert(b1.binds(a, nm, self.values));
                        }
                    } else {
                        let p = res->Err_0@ as int;
                        assert(b1.binds((Kind::Str, b1.strs.progs@[p].values@), nm, self.values));
                    }
                    if res is Ok {
                        let at = b1.strs.vals@.len() as int;
                        assert forall|j: int| 0 <= j < vs.len() implies #[trigger] store.strs.span(at, vs.len())[j]
                            == views(vs)[j] by {
                            assert(store.strs.vals@[at + j] == vs[j]);
                        }
                        assert(store.strs.span(at, vs.len()) =~= views(vs));
                    }
                }
                let vi = <Str as Store>::get_program(store, idx).values_idx();
                let r = cond.mutate_with_index(ptr, Some(AnyVal::Str(vi)));
                proof {
                    let a = (Kind::Str, vi@);
                    let p = idx@ as int;
                    assert(store.strs.is_variable(p, nm, views(vs), store.e()));
                    assert(store.prog_ok(store.strs.progs@[p]));
                    assert(store.binds(a, nm, self.values));
                }
                r
            },
            Anies::IntArray(values) => {
                let ghost vs = values@;
                let res = <IntArray as Store>::put_variable(store, name, values, ptr);
                let idx = match res {
                    Ok(idx) => idx,
                    Err(idx) => idx,
                };
                proof {
                    if res is Ok {
                        if b1.interned(nm, self.values) {
                            let a = choose|a: (Kind, usize)| b1.binds(a, nm, self.values);
                            assert(b1.binds(a, nm, self.values));
                        }
                    } else {
                        let p = res->Err_0@ as int;
                        assert(b1.binds((Kind::IntArray, b1.int_arrs.progs@[p].values@), nm, self.values));
                    }
                    if res is Ok {
                        let at = b1.int_arrs.vals@.len() as int;
                        assert forall|j: int| 0 <= j < vs.len() implies #[trigger] store.int_arrs.span(at, vs.len())[j]
                            == views(vs)[j] by {
                            assert(store.int_arrs.vals@[at + j] == vs[j]);
                        }
                        assert(store.int_arrs.span(at, vs.len()) =~= views(vs));
                    }
                }
                let vi = <IntArray as Store>::get_program(store, idx).values_idx();
                let r = cond.mutate_with_index(ptr, Some(AnyVal::IntArray(vi)));
                proof {
                    let a = (Kind::IntArray, vi@);
                    let p = idx@ as int;
                    assert(store.int_arrs.is_variable(p, nm, views(vs), store.e()));
                    assert(store.prog_ok(store.int_arrs.progs@[p]));
                    assert(store.binds(a, nm, self.values));
                }
                r
            },
        }
    }
}

} // verus!
