//! Value kinds, typed arena indices and their tagged forms.
use core::marker::PhantomData;
use vstd::prelude::*;

verus! {

pub type Int = i32;

pub type Str = String;

pub type IntArray = Vec<Int>;

/// The closed set of value kinds that the synthesizer handles.
#[derive(Clone, Copy, PartialEq, Eq, Structural, Debug)]
pub enum Kind {
    Int,
    Str,
    IntArray,
}

/// Offset into the value arena of kind `T`; it addresses a span of one value
/// per example.
#[derive(Debug)]
pub struct VIdx<T> {
    i: usize,
    _kind: PhantomData<T>,
}

impl<T> View for VIdx<T> {
    type V = usize;

    closed spec fn view(&self) -> usize {
        self.i
    }
}

impl<T> Clone for VIdx<T> {
    fn clone(&self) -> (r: Self)
        ensures
            r@ == self@,
    {
        VIdx { i: self.i, _kind: PhantomData }
    }
}

impl<T> Copy for VIdx<T> {
}

impl<T> VIdx<T> {
    pub fn new(i: usize) -> (r: Self)
        ensures
            r@ == i,
    {
        VIdx { i, _kind: PhantomData }
    }

    pub fn index(&self) -> (r: usize)
        ensures
            r == self@,
    {
        self.i
    }
}

/// Position of a program in the program arena of kind `T`.
#[derive(Debug)]
pub struct PIdx<T> {
    i: usize,
    _kind: PhantomData<T>,
}

impl<T> View for PIdx<T> {
    type V = usize;

    closed spec fn view(&self) -> usize {
        self.i
    }
}

impl<T> Clone for PIdx<T> {
    fn clone(&self) -> (r: Self)
        ensures
            r@ == self@,
    {
        PIdx { i: self.i, _kind: PhantomData }
    }
}

impl<T> Copy for PIdx<T> {
}

impl<T> PIdx<T> {
    pub fn new(i: usize) -> (r: Self)
        ensures
            r@ == i,
    {
        PIdx { i, _kind: PhantomData }
    }

    pub fn index(&self) -> (r: usize)
        ensures
            r == self@,
    {
        self.i
    }
}

/// A value index tagged with its kind.
#[derive(Clone, Copy, Debug)]
pub enum AnyVal {
    Int(VIdx<Int>),
    Str(VIdx<Str>),
    IntArray(VIdx<IntArray>),
}

impl View for AnyVal {
    type V = (Kind, usize);

    open spec fn view(&self) -> (Kind, usize) {
        match self {
            AnyVal::Int(i) => (Kind::Int, i@),
            AnyVal::Str(i) => (Kind::Str, i@),
            AnyVal::IntArray(i) => (Kind::IntArray, i@),
        }
    }
}

impl AnyVal {
    /// Compares kind and offset.
    pub fn same(&self, o: &AnyVal) -> (r: bool)
        ensures
            r == (self@ == o@),
    {
        match (self, o) {
            (AnyVal::Int(a), AnyVal::Int(b)) => a.i == b.i,
            (AnyVal::Str(a), AnyVal::Str(b)) => a.i == b.i,
            (AnyVal::IntArray(a), AnyVal::IntArray(b)) => a.i == b.i,
            _ => false,
        }
    }
}

impl PartialEq for AnyVal {
    fn eq(&self, other: &AnyVal) -> (r: bool)
        ensures
            r == (self@ == other@),
    {
        self.same(other)
    }
}

impl vstd::std_specs::cmp::PartialEqSpecImpl for AnyVal {
    open spec fn obeys_eq_spec() -> bool {
        true
    }

    open spec fn eq_spec(&self, other: &AnyVal) -> bool {
        self@ == other@
    }
}

impl Eq for AnyVal {
}

/// A program index tagged with its kind.
#[derive(Clone, Copy, Debug)]
pub enum AnyProg {
    Int(PIdx<Int>),
    Str(PIdx<Str>),
    IntArray(PIdx<IntArray>),
}

impl View for AnyProg {
    type V = (Kind, usize);

    open spec fn view(&self) -> (Kind, usize) {
        match self {
            AnyProg::Int(i) => (Kind::Int, i@),
            AnyProg::Str(i) => (Kind::Str, i@),
            AnyProg::IntArray(i) => (Kind::IntArray, i@),
        }
    }
}

impl AnyProg {
    pub fn kind(&self) -> (r: Kind)
        ensures
            r == self@.0,
    {
        match self {
            AnyProg::Int(_) => Kind::Int,
            AnyProg::Str(_) => Kind::Str,
            AnyProg::IntArray(_) => Kind::IntArray,
        }
    }

    pub fn index(&self) -> (r: usize)
        ensures
            r == self@.1,
    {
        match self {
            AnyProg::Int(i) => i.i,
            AnyProg::Str(i) => i.i,
            AnyProg::IntArray(i) => i.i,
        }
    }
}

/// A single scalar of one of the kinds that constants may take.
#[derive(Clone, Debug)]
pub enum Any {
    Int(Int),
    Str(Str),
}

/// One value per example, of a single kind.
#[derive(Clone, Debug)]
pub enum Anies {
    Int(Vec<Int>),
    Str(Vec<Str>),
    IntArray(Vec<IntArray>),
}

impl Anies {
    pub open spec fn kind(&self) -> Kind {
        match self {
            Anies::Int(_) => Kind::Int,
            Anies::Str(_) => Kind::Str,
            Anies::IntArray(_) => Kind::IntArray,
        }
    }

    pub open spec fn len(&self) -> nat {
        match self {
            Anies::Int(v) => v@.len(),
            Anies::Str(v) => v@.len(),
            Anies::IntArray(v) => v@.len(),
        }
    }

    /// The number of values held.
    pub fn size(&self) -> (r: usize)
        ensures
            r == self.len(),
    {
        match self {
            Anies::Int(v) => v.len(),
            Anies::Str(v) => v.len(),
            Anies::IntArray(v) => v.len(),
        }
    }
}

/// What the arenas need of a kind of value: a model to compare by, exact
/// comparison and copy, and the tag of its indices.
pub trait Value: Sized + View {
    spec fn kind() -> Kind;

    fn same(&self, o: &Self) -> (r: bool)
        ensures
            r == (self@ == o@),
    ;

    fn duplicate(&self) -> (r: Self)
        ensures
            r@ == self@,
    ;

    fn tag_val(i: VIdx<Self>) -> (r: AnyVal)
        ensures
            r@ == (Self::kind(), i@),
    ;

    fn tag_prog(i: PIdx<Self>) -> (r: AnyProg)
        ensures
            r@ == (Self::kind(), i@),
    ;
}

impl Value for Int {
    open spec fn kind() -> Kind {
        Kind::Int
    }

    fn same(&self, o: &Self) -> (r: bool) {
        *self == *o
    }

    fn duplicate(&self) -> (r: Self) {
        *self
    }

    fn tag_val(i: VIdx<Self>) -> (r: AnyVal) {
        AnyVal::Int(i)
    }

    fn tag_prog(i: PIdx<Self>) -> (r: AnyProg) {
        AnyProg::Int(i)
    }
}

impl Value for Str {
    open spec fn kind() -> Kind {
        Kind::Str
    }

    fn same(&self, o: &Self) -> (r: bool) {
        *self == *o
    }

    fn duplicate(&self) -> (r: Self) {
        self.clone()
    }

    fn tag_val(i: VIdx<Self>) -> (r: AnyVal) {
        AnyVal::Str(i)
    }

    fn tag_prog(i: PIdx<Self>) -> (r: AnyProg) {
        AnyProg::Str(i)
    }
}

impl Value for IntArray {
    open spec fn kind() -> Kind {
        Kind::IntArray
    }

    fn same(&self, o: &Self) -> (r: bool) {
        if self.len() != o.len() {
            return false;
        }
        let mut k: usize = 0;
        while k < self.len()
            invariant
                k <= self@.len() == o@.len(),
                forall|j: int| 0 <= j < k ==> self@[j] == o@[j],
            decreases self@.len() - k,
        {
            if self[k] != o[k] {
                return false;
            }
            k = k + 1;
        }
        proof {
            assert(self@ =~= o@);
        }
        true
    }

    fn duplicate(&self) -> (r: Self) {
        let mut r: Vec<Int> = Vec::new();
        let mut k: usize = 0;
        while k < self.len()
            invariant
                k <= self@.len(),
                r@ == self@.subrange(0, k as int),
            decreases self@.len() - k,
        {
            r.push(self[k]);
            k = k + 1;
            proof {
                assert(r@ =~= self@.subrange(0, k as int));
            }
        }
        proof {
            assert(r@ =~= self@);
        }
        r
    }

    fn tag_val(i: VIdx<Self>) -> (r: AnyVal) {
        AnyVal::IntArray(i)
    }

    fn tag_prog(i: PIdx<Self>) -> (r: AnyProg) {
        AnyProg::IntArray(i)
    }
}

} // verus!
