//! Program nodes: the admitted form, which refers to its values by arena
//! offset, and the candidate form, which still holds them.
use crate::cond::{empty_spec, Condition, Pointer, PostCondition, PreCondition};
use crate::values::{AnyProg, VIdx, Value};
use vstd::prelude::*;

verus! {

/// Structural size of a program: 0 for leaves, one more than the largest
/// child for compositions.
#[derive(Clone, Copy, PartialEq, Eq, Structural, Debug)]
pub struct Level(pub u8);

impl Level {
    pub fn new(l: u8) -> (r: Level)
        ensures
            r.0 == l,
    {
        Level(l)
    }

    pub fn value(&self) -> (r: u8)
        ensures
            r == self.0,
    {
        self.0
    }

    pub fn next(&self) -> (r: Level)
        requires
            self.0 < u8::MAX,
        ensures
            r.0 == self.0 + 1,
    {
        Level(self.0 + 1)
    }

    pub fn prev(&self) -> (r: Level)
        requires
            self.0 > 0,
        ensures
            r.0 == self.0 - 1,
    {
        Level(self.0 - 1)
    }

    pub fn inc(&mut self)
        requires
            old(self).0 < u8::MAX,
        ensures
            final(self).0 == old(self).0 + 1,
    {
        self.0 = self.0 + 1;
    }

    /// The level of a binary composition of `self` and `rhs`.
    pub fn bin_next(&self, rhs: Level) -> (r: Level)
        requires
            self.0 < u8::MAX,
            rhs.0 < u8::MAX,
        ensures
            r.0 == max_level(self.0, rhs.0) + 1,
    {
        if self.0 >= rhs.0 {
            Level(self.0 + 1)
        } else {
            Level(rhs.0 + 1)
        }
    }
}

pub open spec fn max_level(a: u8, b: u8) -> u8 {
    if a >= b {
        a
    } else {
        b
    }
}

/// The operators of the vocabulary with one argument.
#[derive(Clone, Copy, PartialEq, Eq, Structural, Debug)]
pub enum UnaryOp {
    /// Number of characters of a string.
    StrLen,
    /// Integer negation.
    Minus,
    /// Postfix increment of an integer variable.
    Inc,
    /// Length of an integer array.
    ArrLen,
}

/// The operators of the vocabulary with two arguments.
#[derive(Clone, Copy, PartialEq, Eq, Structural, Debug)]
pub enum BinaryOp {
    /// The one-character string at an index of an ASCII string.
    StrDeref,
    /// Integer sum.
    Sum,
    /// Integer difference.
    Sub,
    /// Appends an element to an array; yields the new length.
    Push,
    /// The element of an integer array at an index.
    ArrDeref,
    /// The suffix of an array from an index.
    Slice,
}

/// A bare variable: an L-value.
pub struct Variable {
    pub name: String,
    pub pointer: Pointer,
}

impl Variable {
    pub fn new(name: String, pointer: Pointer) -> (r: Variable)
        ensures
            r.name == name,
            r.pointer == pointer,
    {
        Variable { name, pointer }
    }
}

/// A literal.
pub struct Constant {
    pub code: String,
}

impl Constant {
    pub fn new(code: String) -> (r: Constant)
        ensures
            r.code == code,
    {
        Constant { code }
    }
}

/// A unary operator applied to an admitted program.
pub struct UniProgram {
    pub op: UnaryOp,
    pub arg: AnyProg,
}

impl UniProgram {
    pub fn new(op: UnaryOp, arg: AnyProg) -> (r: UniProgram)
        ensures
            r.op == op,
            r.arg == arg,
    {
        UniProgram { op, arg }
    }
}

/// A binary operator applied to two admitted programs.
pub struct BinProgram {
    pub op: BinaryOp,
    pub lhs: AnyProg,
    pub rhs: AnyProg,
}

impl BinProgram {
    pub fn new(op: BinaryOp, lhs: AnyProg, rhs: AnyProg) -> (r: BinProgram)
        ensures
            r.op == op,
            r.lhs == lhs,
            r.rhs == rhs,
    {
        BinProgram { op, lhs, rhs }
    }
}

/// The four node shapes.
pub enum Shape {
    Variable(Variable),
    Constant(Constant),
    Unary(UniProgram),
    Binary(BinProgram),
}

impl Shape {
    pub open spec fn is_leaf(&self) -> bool {
        self is Variable || self is Constant
    }
}

/// An admitted program of kind `T`; its per-example values live in the
/// bank at offset `values`.
pub struct Program<T> {
    pub shape: Shape,
    pub values: VIdx<T>,
    pub pre: PreCondition,
    pub post: PostCondition,
    pub pointer: Option<Pointer>,
    pub level: Level,
}

impl<T> Program<T> {
    pub fn conditions(&self) -> (r: (&PreCondition, &PostCondition))
        ensures
            r.0 == &self.pre,
            r.1 == &self.post,
    {
        (&self.pre, &self.post)
    }

    pub fn values_idx(&self) -> (r: VIdx<T>)
        ensures
            r@ == self.values@,
    {
        self.values
    }

    pub fn pointer(&self) -> (r: Option<Pointer>)
        ensures
            r == self.pointer,
    {
        self.pointer
    }

    pub fn level(&self) -> (r: Level)
        ensures
            r == self.level,
    {
        self.level
    }
}

/// A candidate program of kind `T` that has not been admitted yet: it holds
/// its per-example values itself.
pub struct MaybeProgram<T> {
    pub shape: Shape,
    pub values: Vec<T>,
    pub pre: PreCondition,
    pub post: PostCondition,
    pub pointer: Option<Pointer>,
    pub level: Level,
}

impl<T> MaybeProgram<T> {
    pub fn values(&self) -> (r: &Vec<T>)
        ensures
            r == &self.values,
    {
        &self.values
    }

    pub fn pointer(&self) -> (r: Option<Pointer>)
        ensures
            r == self.pointer,
    {
        self.pointer
    }

    pub fn pre_condition(&self) -> (r: &PreCondition)
        ensures
            r == &self.pre,
    {
        &self.pre
    }

    pub fn post_condition(&self) -> (r: &PostCondition)
        ensures
            r == &self.post,
    {
        &self.post
    }

    /// Moves the values out, leaving the candidate without any.
    pub fn extract_values(&mut self) -> (r: Vec<T>)
        ensures
            r@ == old(self).values@,
            final(self).values@.len() == 0,
            final(self).shape == old(self).shape,
            final(self).pre == old(self).pre,
            final(self).post == old(self).post,
            final(self).pointer == old(self).pointer,
            final(self).level == old(self).level,
    {
        let mut r = Vec::new();
        r.append(&mut self.values);
        r
    }

    /// The admitted form, with its values stored at `values`.
    pub fn into_program(self, values: VIdx<T>) -> (r: Program<T>)
        ensures
            r.shape == self.shape,
            r.values == values,
            r.pre == self.pre,
            r.post == self.post,
            r.pointer == self.pointer,
            r.level == self.level,
    {
        Program {
            shape: self.shape,
            values,
            pre: self.pre,
            post: self.post,
            pointer: self.pointer,
            level: self.level,
        }
    }
}

/// A candidate variable, before its values are interned.
pub struct MaybeVariable<T> {
    pub name: String,
    pub values: Vec<T>,
    pub pointer: Pointer,
    pub variables: usize,
}

impl<T> MaybeVariable<T> {
    pub fn new(name: String, values: Vec<T>, pointer: Pointer, variables: usize) -> (r: Self)
        ensures
            r.name == name,
            r.values == values,
            r.pointer == pointer,
            r.variables == variables,
    {
        Self { name, values, pointer, variables }
    }
}

impl<T: Value> MaybeVariable<T> {
    /// The admitted variable, with its values stored at `values`: an L-value
    /// whose conditions bind its own slot to those values.
    pub fn into_program(self, values: VIdx<T>) -> (r: Program<T>)
        requires
            self.pointer < self.variables,
        ensures
            r.shape == Shape::Variable(Variable { name: self.name, pointer: self.pointer }),
            r.values@ == values@,
            r.pre@ == empty_spec(self.variables as nat).update(
                self.pointer as int,
                Some((T::kind(), values@)),
            ),
            r.post@ == r.pre@,
            r.pointer == Some(self.pointer),
            r.level.0 == 0,
    {
        let cond = Condition::empty(self.variables).mutate_with_index(
            self.pointer,
            Some(T::tag_val(values)),
        );
        Program {
            shape: Shape::Variable(Variable { name: self.name, pointer: self.pointer }),
            values,
            pre: cond.duplicate(),
            post: cond,
            pointer: Some(self.pointer),
            level: Level(0),
        }
    }
}

} // verus!
