//! Reading an admitted program back: its code, conditions, L-value identity
//! and level.
use crate::cond::{Pointer, PostCondition, PreCondition, SlotV};
use crate::program::{Level, Shape};
use crate::store::{Bank, Store};
use crate::values::{AnyProg, Int, IntArray, Kind, Str};
use crate::vocab::{binary_code, binary_code_spec, unary_code, unary_code_spec};
use vstd::prelude::*;

verus! {

impl Bank {
    pub open spec fn shape_at(&self, a: (Kind, usize)) -> Shape {
        match a.0 {
            Kind::Int => self.ints.progs@[a.1 as int].shape,
            Kind::Str => self.strs.progs@[a.1 as int].shape,
            Kind::IntArray => self.int_arrs.progs@[a.1 as int].shape,
        }
    }

    pub open spec fn pre_at(&self, a: (Kind, usize)) -> Seq<SlotV> {
        match a.0 {
            Kind::Int => self.ints.progs@[a.1 as int].pre@,
            Kind::Str => self.strs.progs@[a.1 as int].pre@,
            Kind::IntArray => self.int_arrs.progs@[a.1 as int].pre@,
        }
    }

    pub open spec fn post_at(&self, a: (Kind, usize)) -> Seq<SlotV> {
        match a.0 {
            Kind::Int => self.ints.progs@[a.1 as int].post@,
            Kind::Str => self.strs.progs@[a.1 as int].post@,
            Kind::IntArray => self.int_arrs.progs@[a.1 as int].post@,
        }
    }

    pub open spec fn pointer_at(&self, a: (Kind, usize)) -> Option<Pointer> {
        match a.0 {
            Kind::Int => self.ints.progs@[a.1 as int].pointer,
            Kind::Str => self.strs.progs@[a.1 as int].pointer,
            Kind::IntArray => self.int_arrs.progs@[a.1 as int].pointer,
        }
    }
}

/// The code of the program at `a`: a leaf prints its name or literal, a
/// composition prints its operator around its children's code.
pub open spec fn code_spec(b: Bank, a: (Kind, usize)) -> Seq<char>
    decreases b.level_at(a) as nat,
{
    match b.shape_at(a) {
        Shape::Variable(v) => v.name@,
        Shape::Constant(c) => c.code@,
        Shape::Unary(u) => if b.level_at(u.arg@) < b.level_at(a) {
            unary_code_spec(u.op, code_spec(b, u.arg@))
        } else {
            Seq::empty()
        },
        Shape::Binary(n) => if b.level_at(n.lhs@) < b.level_at(a) && b.level_at(n.rhs@) < b.level_at(
            a,
        ) {
            binary_code_spec(n.op, code_spec(b, n.lhs@), code_spec(b, n.rhs@))
        } else {
            Seq::empty()
        },
    }
}

/// The children of an admitted composition are admitted, at lower levels.
proof fn lemma_children(b: Bank, a: (Kind, usize))
    requires
        b.wf(),
        b.has(a),
    ensures
        match b.shape_at(a) {
            Shape::Unary(u) => b.has(u.arg@) && b.level_at(u.arg@) < b.level_at(a),
            Shape::Binary(n) => b.has(n.lhs@) && b.has(n.rhs@) && b.level_at(n.lhs@) < b.level_at(a)
                && b.level_at(n.rhs@) < b.level_at(a),
            _ => true,
        },
{
    match a.0 {
        Kind::Int => assert(b.prog_ok(b.ints.progs@[a.1 as int])),
        Kind::Str => assert(b.prog_ok(b.strs.progs@[a.1 as int])),
        Kind::IntArray => assert(b.prog_ok(b.int_arrs.progs@[a.1 as int])),
    }
}

impl AnyProg {
    /// The program's code.
    pub fn code(&self, store: &Bank) -> (r: String)
        requires
            store.wf(),
            store.has(self@),
        ensures
            r@ == code_spec(*store, self@),
        decreases store.level_at(self@) as nat,
    {
        proof {
            lemma_children(*store, self@);
        }
        let shape = match self {
            AnyProg::Int(i) => &<Int as Store>::get_program(store, *i).shape,
            AnyProg::Str(i) => &<Str as Store>::get_program(store, *i).shape,
            AnyProg::IntArray(i) => &<IntArray as Store>::get_program(store, *i).shape,
        };
        match shape {
            Shape::Variable(v) => v.name.clone(),
            Shape::Constant(c) => c.code.clone(),
            Shape::Unary(u) => {
                let a = u.arg.code(store);
                unary_code(u.op, a.as_str())
            },
            Shape::Binary(n) => {
                let l = n.lhs.code(store);
                let r = n.rhs.code(store);
                binary_code(n.op, l.as_str(), r.as_str())
            },
        }
    }

    /// The program's precondition and postcondition.
    pub fn conditions<'s>(&self, store: &'s Bank) -> (r: (&'s PreCondition, &'s PostCondition))
        requires
            store.has(self@),
        ensures
            r.0@ == store.pre_at(self@),
            r.1@ == store.post_at(self@),
    {
        match self {
            AnyProg::Int(i) => <Int as Store>::get_program(store, *i).conditions(),
            AnyProg::Str(i) => <Str as Store>::get_program(store, *i).conditions(),
            AnyProg::IntArray(i) => <IntArray as Store>::get_program(store, *i).conditions(),
        }
    }

    /// The slot that the program denotes, if it is an L-value.
    pub fn pointer(&self, store: &Bank) -> (r: Option<Pointer>)
        requires
            store.has(self@),
        ensures
            r == store.pointer_at(self@),
    {
        match self {
            AnyProg::Int(i) => <Int as Store>::get_program(store, *i).pointer(),
            AnyProg::Str(i) => <Str as Store>::get_program(store, *i).pointer(),
            AnyProg::IntArray(i) => <IntArray as Store>::get_program(store, *i).pointer(),
        }
    }

    pub fn level(&self, store: &Bank) -> (r: Level)
        requires
            store.has(self@),
        ensures
            r.0 == store.level_at(self@),
    {
        match self {
            AnyProg::Int(i) => <Int as Store>::get_program(store, *i).level(),
            AnyProg::Str(i) => <Str as Store>::get_program(store, *i).level(),
            AnyProg::IntArray(i) => <IntArray as Store>::get_program(store, *i).level(),
        }
    }
}

} // verus!
