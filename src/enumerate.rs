//! Per-operator enumerators: each walks the programs that existed when it
//! was made, composes candidates at its target level, and submits them to
//! the bank.
use crate::cond::{
    implies_spec, seq_post, seq_pre, sequence_spec, Condition, Mutation, Pointer, SlotV,
};
use crate::program::{
    max_level, BinProgram, BinaryOp, Level, MaybeProgram, Shape, UniProgram, UnaryOp,
};
use crate::store::{
    lemma_appended_span, lemma_bank_extends_refl, lemma_binds_mono, lemma_cond_ok_mono, lemma_extends_trans, lemma_has_level_mono, names_of, views, Bank, MaxIdx, MaxPIdx, Store,
};
use crate::values::{AnyProg, Int, IntArray, Kind, PIdx, Str};
use crate::vocab::{BinaryEval, UnaryEval};
use core::marker::PhantomData;
use vstd::prelude::*;

verus! {

/// Why a step produced no program.
#[derive(Debug)]
pub enum Skip {
    /// The children do not give the target level.
    Level,
    /// The first child's postcondition contradicts the second's
    /// precondition.
    Contradiction,
    /// The operator is undefined on some example.
    Undefined,
    /// An observationally equivalent program is already stored.
    Duplicate(AnyProg),
}

/// The outcome of one enumerator step.
#[derive(Debug)]
pub enum Step {
    /// A program was admitted.
    Emitted(AnyProg),
    /// This step produced nothing; ask again.
    Skipped(Skip),
    /// Every combination has been tried.
    Done,
}

/// `r` is `post` after the write `m`: the written slot is bound to an
/// interned variable binding of the written values.
pub open spec fn post_written(b: Bank, post: Seq<SlotV>, m: Option<Mutation>, r: Seq<SlotV>) -> bool {
    match m {
        None => r == post,
        Some(mm) => exists|a: (Kind, usize)|
            #[trigger] b.binds(a, names_of(b.var_map)[mm.pointer as int]@, mm.values) && r
                == post.update(mm.pointer as int, Some(a)),
    }
}

/// Enumerates the unary compositions `op(arg)` at a target level, over the
/// programs of kind `I` that existed when it was made.
pub struct UniEnumerator<I, O> {
    pub op: UnaryOp,
    pub arg_idx: PIdx<I>,
    pub level: Level,
    pub max_idx: MaxPIdx,
    pub out: PhantomData<O>,
}

impl<I: Store, O: Store> UniEnumerator<I, O> where
    MaxPIdx: MaxIdx<I>,
    UnaryOp: UnaryEval<I, O>,
 {
    pub open spec fn bound(&self) -> usize {
        <MaxPIdx as MaxIdx<I>>::bound(&self.max_idx)
    }

    /// How many arguments are left to try.
    pub open spec fn remaining(&self) -> nat {
        if self.arg_idx@ < self.bound() {
            (self.bound() - self.arg_idx@) as nat
        } else {
            0
        }
    }

    /// The enumerator reads only admitted programs and targets a level above
    /// the leaves.
    pub open spec fn inv(&self, b: &Bank) -> bool {
        &&& self.bound() <= I::arena(b).progs@.len()
        &&& self.level.0 >= 1
    }

    /// `p` is `op` applied to the argument at `a`, admitted into `b2`.
    pub open spec fn emitted(b1: Bank, b2: Bank, op: UnaryOp, a: usize, level: Level, p: AnyProg) -> bool {
        let arg = I::arena(&b1).progs@[a as int];
        let args = I::arena(&b1).values_of(a as int, b1.e());
        let out = O::arena(&b2);
        let prog = out.progs@[p@.1 as int];
        &&& p@.0 == O::kind()
        &&& p@.1 + 1 == out.progs@.len()
        &&& prog.shape is Unary
        &&& prog.shape->Unary_0.op == op
        &&& prog.shape->Unary_0.arg@ == (I::kind(), a)
        &&& prog.level == level
        &&& prog.pointer is None
        &&& op.eval_spec(args, arg.pointer) == Some(out.values_of(p@.1 as int, b1.e()))
        &&& prog.pre@ == arg.pre@
        &&& exists|m: Option<Mutation>|
            #[trigger] op.write_spec(args, arg.pointer, m) && post_written(b2, arg.post@, m, prog.post@)
    }

    /// One step from `self` to `e2` that takes the bank from `b1` to `b2`
    /// with outcome `r`: the argument at the cursor is tried and the cursor
    /// moves past it. A wrong level or an undefined evaluation leaves the
    /// bank alone; otherwise the candidate is admitted, or a stored program
    /// has its key and the bank has changed only by the candidate's write.
    pub open spec fn stepped(&self, e2: &Self, b1: Bank, b2: Bank, r: Step) -> bool {
        let a = self.arg_idx@;
        let arg = I::arena(&b1).progs@[a as int];
        let args = I::arena(&b1).values_of(a as int, b1.e());
        let vals = self.op.eval_spec(args, arg.pointer);
        &&& e2.op == self.op
        &&& e2.level == self.level
        &&& e2.max_idx == self.max_idx
        &&& if self.remaining() == 0 {
            &&& r is Done
            &&& e2.arg_idx@ == a
            &&& b2 == b1
        } else {
            &&& e2.arg_idx@ == a + 1
            &&& if arg.level.0 + 1 != self.level.0 {
                r is Skipped && r->Skipped_0 is Level && b2 == b1
            } else if vals is None {
                r is Skipped && r->Skipped_0 is Undefined && b2 == b1
            } else {
                match r {
                    Step::Emitted(p) => Self::emitted(b1, b2, self.op, a, self.level, p),
                    Step::Skipped(Skip::Duplicate(q)) => {
                        let qp = O::arena(&b2).progs@[q@.1 as int];
                        &&& q@.0 == O::kind()
                        &&& q@.1 < O::arena(&b2).progs@.len()
                        &&& O::arena(&b2).values_of(q@.1 as int, b1.e()) == vals->Some_0
                        &&& qp.pointer is None
                        &&& qp.pre@ == arg.pre@
                        &&& exists|m: Option<Mutation>|
                            #[trigger] self.op.write_spec(args, arg.pointer, m) && post_written(
                                b2,
                                arg.post@,
                                m,
                                qp.post@,
                            )
                        &&& (forall|m: Option<Mutation>|
                            #[trigger] self.op.write_spec(args, arg.pointer, m) ==> m is None)
                            ==> b2 == b1
                        &&& forall|k: Kind| #[trigger] b2.progs_len(k) <= b1.progs_len(k) + 1
                    },
                    _ => false,
                }
            }
        }
    }

    pub fn new(op: UnaryOp, level: Level, max_idx: MaxPIdx) -> (r: Self)
        ensures
            r.op == op,
            r.level == level,
            r.max_idx == max_idx,
            r.arg_idx@ == 0,
    {
        UniEnumerator { op, arg_idx: PIdx::new(0), level, max_idx, out: PhantomData }
    }

    /// Tries the next argument.
    #[verifier::rlimit(50)]
    pub fn next(&mut self, store: &mut Bank) -> (r: Step)
        requires
            old(store).wf(),
            old(store).has_room(),
            old(self).inv(&*old(store)),
        ensures
            final(store).wf(),
            final(store).extends(&*old(store)),
            final(self).op == old(self).op,
            final(self).level == old(self).level,
            final(self).max_idx == old(self).max_idx,
            final(self).inv(&*final(store)),
            (r is Done) == (old(self).remaining() == 0),
            !(r is Done) ==> final(self).remaining() < old(self).remaining(),
            old(self).stepped(&*final(self), *old(store), *final(store), r),
            r matches Step::Emitted(p) ==> p@.1 >= old(store).progs_len(p@.0),
    {
        let ghost b1 = *store;
        proof {
            lemma_bank_extends_refl(b1);
        }
        if !<MaxPIdx as MaxIdx<I>>::check(&self.max_idx, self.arg_idx) {
            return Step::Done;
        }
        proof {
            I::lemma_arena(store);
            O::lemma_arena(store);
        }
        let a = self.arg_idx;
        self.arg_idx = PIdx::new(a.index() + 1);
        let prog = I::get_program(store, a);
        if prog.level.0 != self.level.0 - 1 {
            return Step::Skipped(Skip::Level);
        }
        proof {
            assert(b1.prog_ok(I::arena(&b1).progs@[a@ as int]));
        }
        let ptr = prog.pointer;
        let pre = prog.pre.duplicate();
        let post = prog.post.duplicate();
        let vals = I::get_values(store, prog.values);
        proof {
            assert(views(vals@).len() == vals@.len());
        }
        let out = self.op.eval(vals, ptr);
        let (values, mutation, pointer) = match out {
            Some(t) => t,
            None => {
                return Step::Skipped(Skip::Undefined);
            },
        };
        let ghost m0 = mutation;
        let post = match mutation {
            Some(m) => {
                proof {
                    let p = I::arena(&b1).progs@[a@ as int];
                    assert(p.shape is Variable);
                }
                m.apply(post, store)
            },
            None => post,
        };
        let ghost b2 = *store;
        proof {
            lemma_has_level_mono(b1, b2);
            lemma_cond_ok_mono(b1, b2, pre@);
            if m0 is None {
                lemma_cond_ok_mono(b1, b2, post@);
            } else {
                let p = I::arena(&b1).progs@[a@ as int];
                lemma_cond_ok_mono(b1, b2, p.post@);
                assert forall|i: int| 0 <= i < post@.len() implies b2.slot_ok(#[trigger] post@[i]) by {
                    assert(b2.slot_ok(p.post@[i]) || i == m0->Some_0.pointer);
                }
            }
            O::lemma_arena(store);
        }
        let mp = MaybeProgram {
            shape: Shape::Unary(UniProgram { op: self.op, arg: I::tag_prog(a) }),
            values,
            pre,
            post,
            pointer,
            level: self.level,
        };
        let ghost mp0 = mp;
        let res = O::put_program(store, mp);
        proof {
            lemma_extends_trans(b1, b2, *store);
            lemma_has_level_mono(b1, *store);
            I::lemma_arena(store);
            O::lemma_arena(store);
        }
        match res {
            Ok(p) => {
                proof {
                    let arg = I::arena(&b1).progs@[a@ as int];
                    let args = I::arena(&b1).values_of(a@ as int, b1.e());
                    lemma_appended_span(O::arena(&b2), O::arena(store), mp0.values@);
                    if m0 is Some {
                        let mm = m0->Some_0;
                        let nm = names_of(b2.var_map)[mm.pointer as int]@;
                        let w = choose|w: (Kind, usize)|
                            #[trigger] b2.binds(w, nm, mm.values) && w.1 + b2.e() <= b2.vals_len(w.0)
                                && mp0.post@ == arg.post@.update(mm.pointer as int, Some(w));
                        lemma_binds_mono(b2, *store, w, nm, mm.values);
                    }
                    assert(self.op.write_spec(args, arg.pointer, m0) && post_written(*store, arg.post@, m0, mp0.post@));
                }
                Step::Emitted(O::tag_prog(p))
            },
            Err(q) => {
                proof {
                    let arg = I::arena(&b1).progs@[a@ as int];
                    let args = I::arena(&b1).values_of(a@ as int, b1.e());
                    if m0 is Some {
                        let mm = m0->Some_0;
                        let nm = names_of(b2.var_map)[mm.pointer as int]@;
                        let w = choose|w: (Kind, usize)|
                            #[trigger] b2.binds(w, nm, mm.values) && w.1 + b2.e() <= b2.vals_len(w.0)
                                && mp0.post@ == arg.post@.update(mm.pointer as int, Some(w));
                        assert(b2.binds(w, nm, mm.values));
                    }
                    assert(self.op.write_spec(args, arg.pointer, m0) && post_written(*store, arg.post@, m0, mp0.post@));
                }
                Step::Skipped(Skip::Duplicate(O::tag_prog(q)))
            },
        }
    }
}


/// Sequencing conditions over stored values gives conditions over stored
/// values.
pub proof fn lemma_sequence_ok(
    b: Bank,
    pre1: Seq<SlotV>,
    post1: Seq<SlotV>,
    pre2: Seq<SlotV>,
    post2: Seq<SlotV>,
)
    requires
        b.cond_ok(pre1),
        b.cond_ok(post1),
        b.cond_ok(pre2),
        b.cond_ok(post2),
    ensures
        b.cond_ok(seq_pre(pre1, post1, pre2)),
        b.cond_ok(seq_post(post1, post2)),
{
    assert forall|i: int| 0 <= i < seq_pre(pre1, post1, pre2).len() implies b.slot_ok(
        #[trigger] seq_pre(pre1, post1, pre2)[i],
    ) by {
        assert(b.slot_ok(pre1[i]) && b.slot_ok(pre2[i]));
    }
    assert forall|i: int| 0 <= i < seq_post(post1, post2).len() implies b.slot_ok(
        #[trigger] seq_post(post1, post2)[i],
    ) by {
        assert(b.slot_ok(post1[i]) && b.slot_ok(post2[i]));
    }
}

/// Enumerates the binary compositions `op(lhs, rhs)` at a target level, over
/// the programs that existed when it was made; `rhs` advances first.
pub struct BinEnumerator<L, R, O> {
    pub op: BinaryOp,
    pub lhs_idx: PIdx<L>,
    pub rhs_idx: PIdx<R>,
    pub level: Level,
    pub max_idx: MaxPIdx,
    pub out: PhantomData<O>,
}

impl<L: Store, R: Store, O: Store> BinEnumerator<L, R, O> where
    MaxPIdx: MaxIdx<L> + MaxIdx<R>,
    BinaryOp: BinaryEval<L, R, O>,
 {
    pub open spec fn lbound(&self) -> usize {
        <MaxPIdx as MaxIdx<L>>::bound(&self.max_idx)
    }

    pub open spec fn rbound(&self) -> usize {
        <MaxPIdx as MaxIdx<R>>::bound(&self.max_idx)
    }

    /// How many pairs are left to try.
    pub open spec fn remaining(&self) -> nat {
        if self.lhs_idx@ < self.lbound() && self.rbound() > 0 {
            ((self.lbound() - self.lhs_idx@ - 1) * self.rbound() + (self.rbound() - self.rhs_idx@)) as nat
        } else {
            0
        }
    }

    /// The pair that the next step tries.
    pub open spec fn next_pair(&self) -> (usize, usize) {
        if self.rhs_idx@ < self.rbound() {
            (self.lhs_idx@, self.rhs_idx@)
        } else {
            ((self.lhs_idx@ + 1) as usize, 0)
        }
    }

    pub open spec fn inv(&self, b: &Bank) -> bool {
        &&& self.lbound() <= L::arena(b).progs@.len()
        &&& self.rbound() <= R::arena(b).progs@.len()
        &&& self.lhs_idx@ <= self.lbound()
        &&& self.rhs_idx@ <= self.rbound()
        &&& self.level.0 >= 1
    }

    /// `p` is `op` applied to the pair `(l, r)`, admitted into `b2`.
    pub open spec fn emitted(b1: Bank, b2: Bank, op: BinaryOp, l: usize, r: usize, level: Level, p: AnyProg) -> bool {
        let lp = L::arena(&b1).progs@[l as int];
        let rp = R::arena(&b1).progs@[r as int];
        let la = L::arena(&b1).values_of(l as int, b1.e());
        let ra = R::arena(&b1).values_of(r as int, b1.e());
        let out = O::arena(&b2);
        let prog = out.progs@[p@.1 as int];
        &&& p@.0 == O::kind()
        &&& p@.1 + 1 == out.progs@.len()
        &&& prog.shape is Binary
        &&& prog.shape->Binary_0.op == op
        &&& prog.shape->Binary_0.lhs@ == (L::kind(), l)
        &&& prog.shape->Binary_0.rhs@ == (R::kind(), r)
        &&& prog.level == level
        &&& prog.pointer is None
        &&& op.eval_spec(la, ra, lp.pointer) == Some(out.values_of(p@.1 as int, b1.e()))
        &&& implies_spec(lp.post@, rp.pre@)
        &&& prog.pre@ == seq_pre(lp.pre@, lp.post@, rp.pre@)
        &&& exists|m: Option<Mutation>|
            #[trigger] op.write_spec(la, ra, lp.pointer, m) && post_written(
                b2,
                seq_post(lp.post@, rp.post@),
                m,
                prog.post@,
            )
    }

    /// One step from `self` to `e2` that takes the bank from `b1` to `b2`
    /// with outcome `r`: the pair `next_pair()` is tried and the cursor moves
    /// past it. A wrong level, a contradiction between the first part's
    /// postcondition and the second's precondition, or an undefined
    /// evaluation leaves the bank alone; otherwise the candidate is admitted,
    /// or a stored program has its key and the bank has changed only by the
    /// candidate's write.
    pub open spec fn stepped(&self, e2: &Self, b1: Bank, b2: Bank, r: Step) -> bool {
        let (l, rr) = self.next_pair();
        let lp = L::arena(&b1).progs@[l as int];
        let rp = R::arena(&b1).progs@[rr as int];
        let la = L::arena(&b1).values_of(l as int, b1.e());
        let ra = R::arena(&b1).values_of(rr as int, b1.e());
        let vals = self.op.eval_spec(la, ra, lp.pointer);
        &&& e2.op == self.op
        &&& e2.level == self.level
        &&& e2.max_idx == self.max_idx
        &&& if self.remaining() == 0 {
            &&& r is Done
            &&& e2.lhs_idx@ == self.lhs_idx@
            &&& e2.rhs_idx@ == self.rhs_idx@
            &&& b2 == b1
        } else {
            &&& e2.lhs_idx@ == l
            &&& e2.rhs_idx@ == rr + 1
            &&& e2.remaining() + 1 == self.remaining()
            &&& if max_level(lp.level.0, rp.level.0) + 1 != self.level.0 {
                r is Skipped && r->Skipped_0 is Level && b2 == b1
            } else if !implies_spec(lp.post@, rp.pre@) {
                r is Skipped && r->Skipped_0 is Contradiction && b2 == b1
            } else if vals is None {
                r is Skipped && r->Skipped_0 is Undefined && b2 == b1
            } else {
                match r {
                    Step::Emitted(p) => Self::emitted(b1, b2, self.op, l, rr, self.level, p),
                    Step::Skipped(Skip::Duplicate(q)) => {
                        let qp = O::arena(&b2).progs@[q@.1 as int];
                        &&& q@.0 == O::kind()
                        &&& q@.1 < O::arena(&b2).progs@.len()
                        &&& O::arena(&b2).values_of(q@.1 as int, b1.e()) == vals->Some_0
                        &&& qp.pointer is None
                        &&& qp.pre@ == seq_pre(lp.pre@, lp.post@, rp.pre@)
                        &&& exists|m: Option<Mutation>|
                            #[trigger] self.op.write_spec(la, ra, lp.pointer, m) && post_written(
                                b2,
                                seq_post(lp.post@, rp.post@),
                                m,
                                qp.post@,
                            )
                        &&& (forall|m: Option<Mutation>|
                            #[trigger] self.op.write_spec(la, ra, lp.pointer, m) ==> m is None)
                            ==> b2 == b1
                        &&& forall|k: Kind| #[trigger] b2.progs_len(k) <= b1.progs_len(k) + 1
                    },
                    _ => false,
                }
            }
        }
    }

    pub fn new(op: BinaryOp, level: Level, max_idx: MaxPIdx) -> (r: Self)
        ensures
            r.op == op,
            r.level == level,
            r.max_idx == max_idx,
            r.lhs_idx@ == 0,
            r.rhs_idx@ == 0,
    {
        BinEnumerator {
            op,
            lhs_idx: PIdx::new(0),
            rhs_idx: PIdx::new(0),
            level,
            max_idx,
            out: PhantomData,
        }
    }

    /// Tries the next pair.
    #[verifier::rlimit(80)]
    pub fn next(&mut self, store: &mut Bank) -> (r: Step)
        requires
            old(store).wf(),
            old(store).has_room(),
            old(self).inv(&*old(store)),
        ensures
            final(store).wf(),
            final(store).extends(&*old(store)),
            final(self).op == old(self).op,
            final(self).level == old(self).level,
            final(self).max_idx == old(self).max_idx,
            final(self).inv(&*final(store)),
            (r is Done) == (old(self).remaining() == 0),
            !(r is Done) ==> final(self).remaining() < old(self).remaining(),
            old(self).stepped(&*final(self), *old(store), *final(store), r),
            r matches Step::Emitted(p) ==> p@.1 >= old(store).progs_len(p@.0),
    {
        let ghost b1 = *store;
        proof {
            lemma_bank_extends_refl(b1);
            L::lemma_arena(store);
            R::lemma_arena(store);
            O::lemma_arena(store);
        }
        if !<MaxPIdx as MaxIdx<L>>::check(&self.max_idx, self.lhs_idx) {
            return Step::Done;
        }
        if !<MaxPIdx as MaxIdx<R>>::check(&self.max_idx, self.rhs_idx) {
            let next_l = PIdx::new(self.lhs_idx.index() + 1);
            if !<MaxPIdx as MaxIdx<L>>::check(&self.max_idx, next_l)
                || !<MaxPIdx as MaxIdx<R>>::check(&self.max_idx, PIdx::new(0)) {
                proof {
                    let lb = self.lbound() as int;
                    let rb = self.rbound() as int;
                    let lh = self.lhs_idx@ as int;
                    if rb > 0 {
                        assert(lb - lh - 1 == 0);
                        assert((lb - lh - 1) * rb == 0) by (nonlinear_arith)
                            requires lb - lh - 1 == 0;
                    }
                }
                return Step::Done;
            }
            proof {
                let lb = self.lbound() as int;
                let rb = self.rbound() as int;
                let lh = self.lhs_idx@ as int;
                assert((lb - lh - 1) * rb + (rb - rb) == (lb - (lh + 1) - 1) * rb + (rb - 0) + 0)
                    by (nonlinear_arith);
            }
            self.lhs_idx = next_l;
            self.rhs_idx = PIdx::new(0);
        }
        let l = self.lhs_idx;
        let r = self.rhs_idx;
        self.rhs_idx = PIdx::new(r.index() + 1);
        proof {
            let lb = self.lbound() as int;
            let rb = self.rbound() as int;
            let lh = l@ as int;
            assert((lb - lh - 1) * rb >= 0) by (nonlinear_arith)
                requires lb - lh - 1 >= 0, rb >= 0;
        }
        let lp = L::get_program(store, l);
        let rp = R::get_program(store, r);
        let lv = lp.level.0;
        let rv = rp.level.0;
        let top = if lv >= rv { lv } else { rv };
        if top as u16 + 1 != self.level.0 as u16 {
            return Step::Skipped(Skip::Level);
        }
        proof {
            assert(b1.prog_ok(L::arena(&b1).progs@[l@ as int]));
            assert(b1.prog_ok(R::arena(&b1).progs@[r@ as int]));
        }
        let seq = Condition::sequence((&lp.pre, &lp.post), (&rp.pre, &rp.post));
        let (pre, post) = match seq {
            Some(c) => c,
            None => {
                return Step::Skipped(Skip::Contradiction);
            },
        };
        proof {
            lemma_sequence_ok(b1, lp.pre@, lp.post@, rp.pre@, rp.post@);
        }
        let ptr = lp.pointer;
        let lvals = L::get_values(store, lp.values);
        let rvals = R::get_values(store, rp.values);
        proof {
            assert(views(lvals@).len() == lvals@.len());
            assert(views(rvals@).len() == rvals@.len());
        }
        let out = self.op.eval(lvals, rvals, ptr);
        let (values, mutation, pointer) = match out {
            Some(t) => t,
            None => {
                return Step::Skipped(Skip::Undefined);
            },
        };
        let ghost m0 = mutation;
        let ghost post0 = post@;
        let post = match mutation {
            Some(m) => {
                proof {
                    let p = L::arena(&b1).progs@[l@ as int];
                    assert(p.shape is Variable);
                }
                m.apply(post, store)
            },
            None => post,
        };
        let ghost b2 = *store;
        proof {
            lemma_has_level_mono(b1, b2);
            lemma_cond_ok_mono(b1, b2, pre@);
            lemma_cond_ok_mono(b1, b2, post0);
            if m0 is Some {
                assert forall|i: int| 0 <= i < post@.len() implies b2.slot_ok(#[trigger] post@[i]) by {
                    assert(b2.slot_ok(post0[i]) || i == m0->Some_0.pointer);
                }
            }
            O::lemma_arena(store);
        }
        let mp = MaybeProgram {
            shape: Shape::Binary(BinProgram { op: self.op, lhs: L::tag_prog(l), rhs: R::tag_prog(r) }),
            values,
            pre,
            post,
            pointer,
            level: self.level,
        };
        let ghost mp0 = mp;
        let res = O::put_program(store, mp);
        proof {
            lemma_extends_trans(b1, b2, *store);
            lemma_has_level_mono(b1, *store);
            L::lemma_arena(store);
            R::lemma_arena(store);
            O::lemma_arena(store);
        }
        match res {
            Ok(p) => {
                proof {
                    let lp = L::arena(&b1).progs@[l@ as int];
                    let la = L::arena(&b1).values_of(l@ as int, b1.e());
                    let ra = R::arena(&b1).values_of(r@ as int, b1.e());
                    lemma_appended_span(O::arena(&b2), O::arena(store), mp0.values@);
                    if m0 is Some {
                        let mm = m0->Some_0;
                        let nm = names_of(b2.var_map)[mm.pointer as int]@;
                        let w = choose|w: (Kind, usize)|
                            #[trigger] b2.binds(w, nm, mm.values) && w.1 + b2.e() <= b2.vals_len(w.0)
                                && mp0.post@ == post0.update(mm.pointer as int, Some(w));
                        lemma_binds_mono(b2, *store, w, nm, mm.values);
                    }
                    assert(self.op.write_spec(la, ra, lp.pointer, m0) && post_written(
                        *store,
                        post0,
                        m0,
                        mp0.post@,
                    ));
                }
                Step::Emitted(O::tag_prog(p))
            },
            Err(q) => {
                proof {
                    let lp = L::arena(&b1).progs@[l@ as int];
                    let la = L::arena(&b1).values_of(l@ as int, b1.e());
                    let ra = R::arena(&b1).values_of(r@ as int, b1.e());
                    if m0 is Some {
                        let mm = m0->Some_0;
                        let nm = names_of(b2.var_map)[mm.pointer as int]@;
                        let w = choose|w: (Kind, usize)|
                            #[trigger] b2.binds(w, nm, mm.values) && w.1 + b2.e() <= b2.vals_len(w.0)
                                && mp0.post@ == post0.update(mm.pointer as int, Some(w));
                        assert(b2.binds(w, nm, mm.values));
                    }
                    assert(self.op.write_spec(la, ra, lp.pointer, m0) && post_written(
                        *store,
                        post0,
                        m0,
                        mp0.post@,
                    ));
                }
                Step::Skipped(Skip::Duplicate(O::tag_prog(q)))
            },
        }
    }
}


/// Builds unary enumerators for one operator of signature `I -> O`.
pub struct UniBuilder<I, O> {
    pub op: UnaryOp,
    pub sig: PhantomData<(I, O)>,
}

impl<I: Store, O: Store> UniBuilder<I, O> where MaxPIdx: MaxIdx<I>, UnaryOp: UnaryEval<I, O> {
    pub fn new(op: UnaryOp) -> (r: Self)
        ensures
            r.op == op,
    {
        UniBuilder { op, sig: PhantomData }
    }

    /// An enumerator at `level` over the programs counted by `max_idx`.
    pub fn into_enum(&self, level: Level, max_idx: MaxPIdx) -> (r: UniEnumerator<I, O>)
        ensures
            r.op == self.op,
            r.level == level,
            r.max_idx == max_idx,
            r.arg_idx@ == 0,
    {
        UniEnumerator::new(self.op, level, max_idx)
    }
}

/// Builds binary enumerators for one operator of signature `L, R -> O`.
pub struct BinBuilder<L, R, O> {
    pub op: BinaryOp,
    pub sig: PhantomData<(L, R, O)>,
}

impl<L: Store, R: Store, O: Store> BinBuilder<L, R, O> where
    MaxPIdx: MaxIdx<L> + MaxIdx<R>,
    BinaryOp: BinaryEval<L, R, O>,
 {
    pub fn new(op: BinaryOp) -> (r: Self)
        ensures
            r.op == op,
    {
        BinBuilder { op, sig: PhantomData }
    }

    pub fn into_enum(&self, level: Level, max_idx: MaxPIdx) -> (r: BinEnumerator<L, R, O>)
        ensures
            r.op == self.op,
            r.level == level,
            r.max_idx == max_idx,
            r.lhs_idx@ == 0,
            r.rhs_idx@ == 0,
    {
        BinEnumerator::new(self.op, level, max_idx)
    }
}

/// The operator signatures that the vocabulary realizes.
pub enum Builder {
    UnaryStrInt(UniBuilder<Str, Int>),
    UnaryIntInt(UniBuilder<Int, Int>),
    UnaryIntArrInt(UniBuilder<IntArray, Int>),
    BinaryStrIntStr(BinBuilder<Str, Int, Str>),
    BinaryIntIntInt(BinBuilder<Int, Int, Int>),
    BinaryIntArrIntInt(BinBuilder<IntArray, Int, Int>),
    BinaryIntArrIntIntArr(BinBuilder<IntArray, Int, IntArray>),
}

/// A live enumerator of one of the realized signatures.
pub enum Enumerator {
    UnaryStrInt(UniEnumerator<Str, Int>),
    UnaryIntInt(UniEnumerator<Int, Int>),
    UnaryIntArrInt(UniEnumerator<IntArray, Int>),
    BinaryStrIntStr(BinEnumerator<Str, Int, Str>),
    BinaryIntIntInt(BinEnumerator<Int, Int, Int>),
    BinaryIntArrIntInt(BinEnumerator<IntArray, Int, Int>),
    BinaryIntArrIntIntArr(BinEnumerator<IntArray, Int, IntArray>),
}

/// `m` counts, per kind, the programs stored in `b`.
pub open spec fn snapshot(m: MaxPIdx, b: Bank) -> bool {
    &&& m.int@ == b.progs_len(Kind::Int)
    &&& m.str@ == b.progs_len(Kind::Str)
    &&& m.int_arrs@ == b.progs_len(Kind::IntArray)
}

impl Builder {
    /// `e` is this builder's enumerator at `level`, at its start, over the
    /// programs stored in `b`.
    pub open spec fn makes(&self, e: Enumerator, level: Level, b: Bank) -> bool {
        match (self, e) {
            (Builder::UnaryStrInt(bu), Enumerator::UnaryStrInt(en)) => en.op == bu.op && en.level == level && en.arg_idx@ == 0
                && snapshot(en.max_idx, b),
            (Builder::UnaryIntInt(bu), Enumerator::UnaryIntInt(en)) => en.op == bu.op && en.level == level && en.arg_idx@ == 0
                && snapshot(en.max_idx, b),
            (Builder::UnaryIntArrInt(bu), Enumerator::UnaryIntArrInt(en)) => en.op == bu.op && en.level == level && en.arg_idx@ == 0
                && snapshot(en.max_idx, b),
            (Builder::BinaryStrIntStr(bu), Enumerator::BinaryStrIntStr(en)) => en.op == bu.op && en.level == level && en.lhs_idx@ == 0
                && en.rhs_idx@ == 0 && snapshot(en.max_idx, b),
            (Builder::BinaryIntIntInt(bu), Enumerator::BinaryIntIntInt(en)) => en.op == bu.op && en.level == level && en.lhs_idx@ == 0
                && en.rhs_idx@ == 0 && snapshot(en.max_idx, b),
            (Builder::BinaryIntArrIntInt(bu), Enumerator::BinaryIntArrIntInt(en)) => en.op == bu.op && en.level == level && en.lhs_idx@ == 0
                && en.rhs_idx@ == 0 && snapshot(en.max_idx, b),
            (Builder::BinaryIntArrIntIntArr(bu), Enumerator::BinaryIntArrIntIntArr(en)) => en.op == bu.op && en.level == level && en.lhs_idx@ == 0
                && en.rhs_idx@ == 0 && snapshot(en.max_idx, b),
            _ => false,
        }
    }

    /// An enumerator at `level` over the programs stored now.
    pub fn enumerator(&self, level: Level, store: &Bank) -> (r: Enumerator)
        requires
            level.0 >= 1,
        ensures
            r.inv(store),
            r.level() == level,
            self.makes(r, level, *store),
    {
        let max_idx = store.curr_max();
        match self {
            Builder::UnaryStrInt(b) => Enumerator::UnaryStrInt(b.into_enum(level, max_idx)),
            Builder::UnaryIntInt(b) => Enumerator::UnaryIntInt(b.into_enum(level, max_idx)),
            Builder::UnaryIntArrInt(b) => Enumerator::UnaryIntArrInt(b.into_enum(level, max_idx)),
            Builder::BinaryStrIntStr(b) => Enumerator::BinaryStrIntStr(b.into_enum(level, max_idx)),
            Builder::BinaryIntIntInt(b) => Enumerator::BinaryIntIntInt(b.into_enum(level, max_idx)),
            Builder::BinaryIntArrIntInt(b) => Enumerator::BinaryIntArrIntInt(
                b.into_enum(level, max_idx),
            ),
            Builder::BinaryIntArrIntIntArr(b) => Enumerator::BinaryIntArrIntIntArr(
                b.into_enum(level, max_idx),
            ),
        }
    }
}

impl Enumerator {
    pub open spec fn inv(&self, b: &Bank) -> bool {
        match self {
            Enumerator::UnaryStrInt(e) => e.inv(b),
            Enumerator::UnaryIntInt(e) => e.inv(b),
            Enumerator::UnaryIntArrInt(e) => e.inv(b),
            Enumerator::BinaryStrIntStr(e) => e.inv(b),
            Enumerator::BinaryIntIntInt(e) => e.inv(b),
            Enumerator::BinaryIntArrIntInt(e) => e.inv(b),
            Enumerator::BinaryIntArrIntIntArr(e) => e.inv(b),
        }
    }

    /// The step relation of the underlying enumerator; `e2` is of the same
    /// signature.
    pub open spec fn stepped(&self, e2: &Enumerator, b1: Bank, b2: Bank, r: Step) -> bool {
        match (self, e2) {
            (Enumerator::UnaryStrInt(a), Enumerator::UnaryStrInt(b)) => a.stepped(b, b1, b2, r),
            (Enumerator::UnaryIntInt(a), Enumerator::UnaryIntInt(b)) => a.stepped(b, b1, b2, r),
            (Enumerator::UnaryIntArrInt(a), Enumerator::UnaryIntArrInt(b)) => a.stepped(b, b1, b2, r),
            (Enumerator::BinaryStrIntStr(a), Enumerator::BinaryStrIntStr(b)) => a.stepped(b, b1, b2, r),
            (Enumerator::BinaryIntIntInt(a), Enumerator::BinaryIntIntInt(b)) => a.stepped(b, b1, b2, r),
            (Enumerator::BinaryIntArrIntInt(a), Enumerator::BinaryIntArrIntInt(b)) => a.stepped(b, b1, b2, r),
            (Enumerator::BinaryIntArrIntIntArr(a), Enumerator::BinaryIntArrIntIntArr(b)) => a.stepped(b, b1, b2, r),
            _ => false,
        }
    }

    pub open spec fn remaining(&self) -> nat {
        match self {
            Enumerator::UnaryStrInt(e) => e.remaining(),
            Enumerator::UnaryIntInt(e) => e.remaining(),
            Enumerator::UnaryIntArrInt(e) => e.remaining(),
            Enumerator::BinaryStrIntStr(e) => e.remaining(),
            Enumerator::BinaryIntIntInt(e) => e.remaining(),
            Enumerator::BinaryIntArrIntInt(e) => e.remaining(),
            Enumerator::BinaryIntArrIntIntArr(e) => e.remaining(),
        }
    }

    pub open spec fn level(&self) -> Level {
        match self {
            Enumerator::UnaryStrInt(e) => e.level,
            Enumerator::UnaryIntInt(e) => e.level,
            Enumerator::UnaryIntArrInt(e) => e.level,
            Enumerator::BinaryStrIntStr(e) => e.level,
            Enumerator::BinaryIntIntInt(e) => e.level,
            Enumerator::BinaryIntArrIntInt(e) => e.level,
            Enumerator::BinaryIntArrIntIntArr(e) => e.level,
        }
    }

    /// One step of the underlying enumerator.
    pub fn next(&mut self, store: &mut Bank) -> (r: Step)
        requires
            old(store).wf(),
            old(store).has_room(),
            old(self).inv(&*old(store)),
        ensures
            final(store).wf(),
            final(store).extends(&*old(store)),
            final(self).inv(&*final(store)),
            final(self).level() == old(self).level(),
            (r is Done) == (old(self).remaining() == 0),
            !(r is Done) ==> final(self).remaining() < old(self).remaining(),
            r matches Step::Emitted(p) ==> final(store).has(p@) && p@.1 + 1 == final(store).progs_len(
                p@.0,
            ),
            old(self).stepped(&*final(self), *old(store), *final(store), r),
            r matches Step::Emitted(p) ==> final(store).level_at(p@) == old(self).level().0,
            r matches Step::Emitted(p) ==> p@.1 >= old(store).progs_len(p@.0),
    {
        proof {
            <Int as Store>::lemma_arena(store);
            <Str as Store>::lemma_arena(store);
            <IntArray as Store>::lemma_arena(store);
        }
        let r = match self {
            Enumerator::UnaryStrInt(e) => e.next(store),
            Enumerator::UnaryIntInt(e) => e.next(store),
            Enumerator::UnaryIntArrInt(e) => e.next(store),
            Enumerator::BinaryStrIntStr(e) => e.next(store),
            Enumerator::BinaryIntIntInt(e) => e.next(store),
            Enumerator::BinaryIntArrIntInt(e) => e.next(store),
            Enumerator::BinaryIntArrIntIntArr(e) => e.next(store),
        };
        proof {
            <Int as Store>::lemma_arena(store);
            <Str as Store>::lemma_arena(store);
            <IntArray as Store>::lemma_arena(store);
        }
        r
    }
}

} // verus!
