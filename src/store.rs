//! The bank: per-kind append-only arenas of programs and of per-example
//! values, with observational-equivalence deduplication.
use crate::cond::{empty_spec, Condition, Pointer, SlotV};
use crate::program::{max_level, Constant, Level, MaybeProgram, Program, Shape, Variable};
use crate::values::{AnyVal, Anies, Int, IntArray, Kind, PIdx, Str, VIdx, Value};
use smallvec::SmallVec;
use vstd::prelude::*;

verus! {

/// The task's variable names, in slot order.
#[verifier::external_body]
pub struct VarMap {
    v: SmallVec<[String; 4]>,
}

/// The names that a `VarMap` holds, in order.
pub uninterp spec fn names_of(m: VarMap) -> Seq<String>;

/// Relies on `SmallVec::from_vec`: the same elements in the same order.
#[verifier::external_body]
fn names_from_vec(v: Vec<String>) -> (r: VarMap)
    ensures
        names_of(r) == v@,
{
    VarMap { v: SmallVec::from_vec(v) }
}

/// Relies on `SmallVec::len`: the number of elements held.
#[verifier::external_body]
fn names_len(m: &VarMap) -> (r: usize)
    ensures
        r == names_of(*m).len(),
{
    m.v.len()
}

/// Relies on `SmallVec`'s `Index<usize>`: the element at position `i`.
#[verifier::external_body]
fn names_get(m: &VarMap, i: usize) -> (r: &String)
    requires
        i < names_of(*m).len(),
    ensures
        *r == names_of(*m)[i as int],
{
    &m.v[i]
}

/// Relies on `SmallVec`'s `Clone`, which clones each `String`.
#[verifier::external_body]
fn names_clone(m: &VarMap) -> (r: VarMap)
    ensures
        names_of(r) == names_of(*m),
{
    VarMap { v: m.v.clone() }
}

impl VarMap {
    pub fn from_names(names: Vec<String>) -> (r: VarMap)
        ensures
            names_of(r) == names@,
    {
        names_from_vec(names)
    }

    pub fn len(&self) -> (r: usize)
        ensures
            r == names_of(*self).len(),
    {
        names_len(self)
    }

    pub fn name(&self, i: usize) -> (r: &String)
        requires
            i < names_of(*self).len(),
        ensures
            *r == names_of(*self)[i as int],
    {
        names_get(self, i)
    }

    pub fn duplicate(&self) -> (r: VarMap)
        ensures
            names_of(r) == names_of(*self),
    {
        names_clone(self)
    }
}

/// The models of a sequence of values.
pub open spec fn views<T: View>(s: Seq<T>) -> Seq<T::V> {
    s.map_values(|x: T| x@)
}

/// The observational-equivalence key of a program: its values, its L-value
/// identity and its conditions.
pub type OEKey<V> = (Seq<V>, Option<Pointer>, Seq<SlotV>, Seq<SlotV>);

/// The programs of one kind and the values they produce. Values are stored
/// contiguously, one span of as many values as there are examples per
/// program.
pub struct Arena<T> {
    pub vals: Vec<T>,
    pub progs: Vec<Program<T>>,
}

impl<T: Value> Arena<T> {
    pub open spec fn span(&self, at: int, e: nat) -> Seq<T::V> {
        views(self.vals@).subrange(at, at + e)
    }

    pub open spec fn values_of(&self, p: int, e: nat) -> Seq<T::V> {
        self.span(self.progs@[p].values@ as int, e)
    }

    pub open spec fn key_of(&self, p: int, e: nat) -> OEKey<T::V> {
        (self.values_of(p, e), self.progs@[p].pointer, self.progs@[p].pre@, self.progs@[p].post@)
    }

    /// Every program's span lies inside the value arena.
    pub open spec fn spans_ok(&self, e: nat) -> bool {
        forall|p: int| 0 <= p < self.progs@.len() ==> #[trigger] self.progs@[p].values@ + e <= self.vals@.len()
    }

    /// No two programs share an observational-equivalence key.
    pub open spec fn oe_unique(&self, e: nat) -> bool {
        forall|p: int, q: int|
            0 <= p < q < self.progs@.len() ==> #[trigger] self.key_of(p, e) != #[trigger] self.key_of(q, e)
    }

    /// `self` is `o` with values and programs appended.
    pub open spec fn extends(&self, o: &Arena<T>) -> bool {
        &&& o.vals@.len() <= self.vals@.len()
        &&& self.vals@.subrange(0, o.vals@.len() as int) == o.vals@
        &&& o.progs@.len() <= self.progs@.len()
        &&& self.progs@.subrange(0, o.progs@.len() as int) == o.progs@
    }

    pub fn new() -> (r: Arena<T>)
        ensures
            r.vals@.len() == 0,
            r.progs@.len() == 0,
    {
        Arena { vals: Vec::new(), progs: Vec::new() }
    }

    /// Whether the span at `at` holds exactly `values`.
    fn span_equals(&self, at: usize, values: &Vec<T>) -> (r: bool)
        requires
            at + values@.len() <= self.vals@.len(),
        ensures
            r == (self.span(at as int, values@.len()) == views(values@)),
    {
        let n = values.len();
        let total = self.vals.len();
        let mut k: usize = 0;
        while k < n
            invariant
                n == values@.len(),
                total == self.vals@.len(),
                at + n <= self.vals@.len(),
                k <= n,
                forall|j: int| 0 <= j < k ==> #[trigger] self.vals@[at + j]@ == values@[j]@,
            decreases n - k,
        {
            if !self.vals[at + k].same(&values[k]) {
                proof {
                    assert(self.span(at as int, n as nat)[k as int] != views(values@)[k as int]);
                }
                return false;
            }
            k = k + 1;
        }
        proof {
            assert forall|j: int| 0 <= j < n implies #[trigger] self.span(at as int, n as nat)[j]
                == views(values@)[j] by {
                assert(self.vals@[at + j]@ == values@[j]@);
            }
            assert(self.span(at as int, n as nat) =~= views(values@));
        }
        true
    }

    /// The first program whose key is `(values, pointer, pre, post)`.
    fn find(
        &self,
        e: usize,
        values: &Vec<T>,
        pointer: Option<Pointer>,
        pre: &Condition,
        post: &Condition,
    ) -> (r: Option<usize>)
        requires
            values@.len() == e,
            self.spans_ok(e as nat),
        ensures
            match r {
                Some(p) => {
                    &&& p < self.progs@.len()
                    &&& self.key_of(p as int, e as nat) == (views(values@), pointer, pre@, post@)
                    &&& forall|q: int|
                        0 <= q < p ==> #[trigger] self.key_of(q, e as nat) != (
                            views(values@),
                            pointer,
                            pre@,
                            post@,
                        )
                },
                None => forall|q: int|
                    0 <= q < self.progs@.len() ==> #[trigger] self.key_of(q, e as nat) != (
                        views(values@),
                        pointer,
                        pre@,
                        post@,
                    ),
            },
    {
        let ghost key = (views(values@), pointer, pre@, post@);
        let mut p: usize = 0;
        while p < self.progs.len()
            invariant
                values@.len() == e,
                self.spans_ok(e as nat),
                p <= self.progs@.len(),
                key == (views(values@), pointer, pre@, post@),
                forall|q: int| 0 <= q < p ==> #[trigger] self.key_of(q, e as nat) != key,
            decreases self.progs@.len() - p,
        {
            let prog = &self.progs[p];
            proof {
                assert(self.progs@[p as int].values@ + e <= self.vals@.len());
            }
            if prog.pointer == pointer && prog.pre.same(pre) && prog.post.same(post)
                && self.span_equals(prog.values.index(), values) {
                return Some(p);
            }
            p = p + 1;
        }
        None
    }

    /// The first variable named `name` whose values are `values`.
    fn find_variable(&self, e: usize, name: &String, values: &Vec<T>) -> (r: Option<usize>)
        requires
            values@.len() == e,
            self.spans_ok(e as nat),
        ensures
            match r {
                Some(p) => {
                    &&& p < self.progs@.len()
                    &&& self.is_variable(p as int, name@, views(values@), e as nat)
                    &&& forall|q: int|
                        0 <= q < p ==> !#[trigger] self.is_variable(
                            q,
                            name@,
                            views(values@),
                            e as nat,
                        )
                },
                None => forall|q: int|
                    0 <= q < self.progs@.len() ==> !#[trigger] self.is_variable(
                        q,
                        name@,
                        views(values@),
                        e as nat,
                    ),
            },
    {
        let mut p: usize = 0;
        while p < self.progs.len()
            invariant
                values@.len() == e,
                self.spans_ok(e as nat),
                p <= self.progs@.len(),
                forall|q: int|
                    0 <= q < p ==> !#[trigger] self.is_variable(q, name@, views(values@), e as nat),
            decreases self.progs@.len() - p,
        {
            let prog = &self.progs[p];
            proof {
                assert(self.progs@[p as int].values@ + e <= self.vals@.len());
            }
            let hit = match &prog.shape {
                Shape::Variable(v) => v.name == *name && self.span_equals(prog.values.index(), values),
                _ => false,
            };
            if hit {
                return Some(p);
            }
            p = p + 1;
        }
        None
    }

    /// Program `p` is a variable named `name` with values `values`.
    pub open spec fn is_variable(&self, p: int, name: Seq<char>, values: Seq<T::V>, e: nat) -> bool {
        &&& self.progs@[p].shape is Variable
        &&& self.progs@[p].shape->Variable_0.name@ == name
        &&& self.values_of(p, e) == values
    }

    /// Appends `values` to the value arena and returns their offset.
    fn push_values(&mut self, values: Vec<T>) -> (at: usize)
        requires
            old(self).vals@.len() + values@.len() <= usize::MAX,
        ensures
            at == old(self).vals@.len(),
            final(self).vals@ == old(self).vals@ + values@,
            final(self).progs == old(self).progs,
    {
        let at = self.vals.len();
        let mut values = values;
        self.vals.append(&mut values);
        at
    }
}


/// Per kind, the number of programs admitted at one moment. Enumerators use
/// it to read only what existed when they were made.
#[derive(Debug)]
pub struct MaxPIdx {
    pub int: PIdx<Int>,
    pub str: PIdx<Str>,
    pub int_arrs: PIdx<IntArray>,
}

/// A bound on the program indices of kind `T`.
pub trait MaxIdx<T> {
    spec fn bound(&self) -> usize;

    fn check(&self, idx: PIdx<T>) -> (r: bool)
        ensures
            r == (idx@ < self.bound()),
    ;
}

impl MaxIdx<Int> for MaxPIdx {
    open spec fn bound(&self) -> usize {
        self.int@
    }

    fn check(&self, idx: PIdx<Int>) -> (r: bool) {
        idx.index() < self.int.index()
    }
}

impl MaxIdx<Str> for MaxPIdx {
    open spec fn bound(&self) -> usize {
        self.str@
    }

    fn check(&self, idx: PIdx<Str>) -> (r: bool) {
        idx.index() < self.str.index()
    }
}

impl MaxIdx<IntArray> for MaxPIdx {
    open spec fn bound(&self) -> usize {
        self.int_arrs@
    }

    fn check(&self, idx: PIdx<IntArray>) -> (r: bool) {
        idx.index() < self.int_arrs.index()
    }
}

/// The store of all programs and values of one synthesis run.
pub struct Bank {
    pub examples: usize,
    pub var_map: VarMap,
    pub ints: Arena<Int>,
    pub strs: Arena<Str>,
    pub int_arrs: Arena<IntArray>,
}

impl Bank {
    /// The number of examples.
    pub open spec fn e(&self) -> nat {
        self.examples as nat
    }

    /// The number of variable slots.
    pub open spec fn nvars(&self) -> nat {
        names_of(self.var_map).len()
    }

    pub open spec fn vals_len(&self, k: Kind) -> nat {
        match k {
            Kind::Int => self.ints.vals@.len(),
            Kind::Str => self.strs.vals@.len(),
            Kind::IntArray => self.int_arrs.vals@.len(),
        }
    }

    pub open spec fn progs_len(&self, k: Kind) -> nat {
        match k {
            Kind::Int => self.ints.progs@.len(),
            Kind::Str => self.strs.progs@.len(),
            Kind::IntArray => self.int_arrs.progs@.len(),
        }
    }

    /// Whether the tagged program index addresses an admitted program.
    pub open spec fn has(&self, a: (Kind, usize)) -> bool {
        a.1 < self.progs_len(a.0)
    }

    /// The level of the program at a tagged index.
    pub open spec fn level_at(&self, a: (Kind, usize)) -> u8 {
        match a.0 {
            Kind::Int => self.ints.progs@[a.1 as int].level.0,
            Kind::Str => self.strs.progs@[a.1 as int].level.0,
            Kind::IntArray => self.int_arrs.progs@[a.1 as int].level.0,
        }
    }

    /// A bound slot addresses a whole span of its kind's value arena.
    pub open spec fn slot_ok(&self, s: SlotV) -> bool {
        match s {
            Some((k, i)) => i + self.e() <= self.vals_len(k),
            None => true,
        }
    }

    /// One slot per variable, each unbound or addressing stored values.
    pub open spec fn cond_ok(&self, c: Seq<SlotV>) -> bool {
        &&& c.len() == self.nvars()
        &&& forall|i: int| 0 <= i < c.len() ==> self.slot_ok(#[trigger] c[i])
    }

    /// What each node shape demands of an admitted program: leaves have
    /// level 0 and compositions one more than their largest child; only a
    /// bare variable is an L-value, and a variable's conditions bind its own
    /// slot to its own values.
    pub open spec fn shape_ok<T: Value>(&self, p: Program<T>) -> bool {
        match p.shape {
            Shape::Variable(v) => {
                &&& p.level.0 == 0
                &&& p.pointer == Some(v.pointer)
                &&& v.pointer < self.nvars()
                &&& v.name@ == names_of(self.var_map)[v.pointer as int]@
                &&& p.pre@ == empty_spec(self.nvars()).update(
                    v.pointer as int,
                    Some((T::kind(), p.values@)),
                )
                &&& p.post@ == p.pre@
            },
            Shape::Constant(_) => {
                &&& p.level.0 == 0
                &&& p.pointer is None
                &&& p.pre@ == empty_spec(self.nvars())
                &&& p.post@ == empty_spec(self.nvars())
            },
            Shape::Unary(u) => {
                &&& self.has(u.arg@)
                &&& p.level.0 == self.level_at(u.arg@) + 1
                &&& p.pointer is None
            },
            Shape::Binary(b) => {
                &&& self.has(b.lhs@)
                &&& self.has(b.rhs@)
                &&& p.level.0 == max_level(self.level_at(b.lhs@), self.level_at(b.rhs@)) + 1
                &&& p.pointer is None
            },
        }
    }

    pub open spec fn prog_ok<T: Value>(&self, p: Program<T>) -> bool {
        &&& p.values@ + self.e() <= self.vals_len(T::kind())
        &&& self.cond_ok(p.pre@)
        &&& self.cond_ok(p.post@)
        &&& self.shape_ok(p)
    }

    /// `a` has the lengths and levels of this bank's arena of its kind.
    pub open spec fn is_arena_of<T: Value>(&self, a: Arena<T>) -> bool {
        &&& a.vals@.len() == self.vals_len(T::kind())
        &&& a.progs@.len() == self.progs_len(T::kind())
        &&& forall|i: usize|
            i < a.progs@.len() ==> #[trigger] a.progs@[i as int].level.0 == self.level_at(
                (T::kind(), i),
            )
    }

    pub open spec fn arena_ok<T: Value>(&self, a: Arena<T>) -> bool {
        &&& self.is_arena_of(a)
        &&& forall|i: int| 0 <= i < a.progs@.len() ==> self.prog_ok(#[trigger] a.progs@[i])
        &&& a.spans_ok(self.e())
        &&& a.oe_unique(self.e())
    }

    /// The bank's invariant.
    pub open spec fn wf(&self) -> bool {
        &&& self.examples > 0
        &&& self.arena_ok(self.ints)
        &&& self.arena_ok(self.strs)
        &&& self.arena_ok(self.int_arrs)
    }

    /// `self` is `o` with values and programs appended.
    pub open spec fn extends(&self, o: &Bank) -> bool {
        &&& self.examples == o.examples
        &&& self.var_map == o.var_map
        &&& self.ints.extends(&o.ints)
        &&& self.strs.extends(&o.strs)
        &&& self.int_arrs.extends(&o.int_arrs)
    }

    /// `self` and `o` differ at most in the arena of kind `k`.
    pub open spec fn same_except(&self, o: &Bank, k: Kind) -> bool {
        &&& self.examples == o.examples
        &&& self.var_map == o.var_map
        &&& (k != Kind::Int ==> self.ints == o.ints)
        &&& (k != Kind::Str ==> self.strs == o.strs)
        &&& (k != Kind::IntArray ==> self.int_arrs == o.int_arrs)
    }

    /// A candidate composition that this bank can admit: one value per
    /// example, conditions over stored values, admitted children, the level
    /// that its children give, and no L-value identity.
    pub open spec fn maybe_ok<T: Value>(&self, mp: &MaybeProgram<T>) -> bool {
        &&& mp.values@.len() == self.e()
        &&& self.cond_ok(mp.pre@)
        &&& self.cond_ok(mp.post@)
        &&& mp.pointer is None
        &&& match mp.shape {
            Shape::Unary(u) => {
                &&& self.has(u.arg@)
                &&& mp.level.0 == self.level_at(u.arg@) + 1
            },
            Shape::Binary(b) => {
                &&& self.has(b.lhs@)
                &&& self.has(b.rhs@)
                &&& mp.level.0 == max_level(self.level_at(b.lhs@), self.level_at(b.rhs@)) + 1
            },
            _ => false,
        }
    }

    /// The tagged offset `a` holds `vals`, as the values of a variable named
    /// `name`.
    pub open spec fn binds(&self, a: (Kind, usize), name: Seq<char>, vals: Anies) -> bool {
        match vals {
            Anies::Int(v) => a.0 == Kind::Int && exists|p: int|
                0 <= p < self.ints.progs@.len() && #[trigger] self.ints.is_variable(p, name, views(v@), self.e())
                    && self.ints.progs@[p].values@ == a.1,
            Anies::Str(v) => a.0 == Kind::Str && exists|p: int|
                0 <= p < self.strs.progs@.len() && #[trigger] self.strs.is_variable(p, name, views(v@), self.e())
                    && self.strs.progs@[p].values@ == a.1,
            Anies::IntArray(v) => a.0 == Kind::IntArray && exists|p: int|
                0 <= p < self.int_arrs.progs@.len() && #[trigger] self.int_arrs.is_variable(
                    p,
                    name,
                    views(v@),
                    self.e(),
                ) && self.int_arrs.progs@[p].values@ == a.1,
        }
    }

    /// The program at `a` is the variable `name` of slot `ptr`, holding
    /// `vals`.
    pub open spec fn holds_variable(&self, a: (Kind, usize), name: Seq<char>, ptr: usize, vals: Anies) -> bool {
        match vals {
            Anies::Int(v) => {
                &&& a.0 == Kind::Int
                &&& a.1 < self.ints.progs@.len()
                &&& self.ints.progs@[a.1 as int].shape is Variable
                &&& self.ints.progs@[a.1 as int].shape->Variable_0.name@ == name
                &&& self.ints.progs@[a.1 as int].shape->Variable_0.pointer == ptr
                &&& self.ints.values_of(a.1 as int, self.e()) == views(v@)
            },
            Anies::Str(v) => {
                &&& a.0 == Kind::Str
                &&& a.1 < self.strs.progs@.len()
                &&& self.strs.progs@[a.1 as int].shape is Variable
                &&& self.strs.progs@[a.1 as int].shape->Variable_0.name@ == name
                &&& self.strs.progs@[a.1 as int].shape->Variable_0.pointer == ptr
                &&& self.strs.values_of(a.1 as int, self.e()) == views(v@)
            },
            Anies::IntArray(v) => {
                &&& a.0 == Kind::IntArray
                &&& a.1 < self.int_arrs.progs@.len()
                &&& self.int_arrs.progs@[a.1 as int].shape is Variable
                &&& self.int_arrs.progs@[a.1 as int].shape->Variable_0.name@ == name
                &&& self.int_arrs.progs@[a.1 as int].shape->Variable_0.pointer == ptr
                &&& self.int_arrs.values_of(a.1 as int, self.e()) == views(v@)
            },
        }
    }

    /// Every stored program is a variable of a slot below `n`.
    pub open spec fn only_variables_below(&self, n: nat) -> bool {
        &&& forall|q: int|
            0 <= q < self.ints.progs@.len() ==> (#[trigger] self.ints.progs@[q]).shape is Variable
                && self.ints.progs@[q].shape->Variable_0.pointer < n
        &&& forall|q: int|
            0 <= q < self.strs.progs@.len() ==> (#[trigger] self.strs.progs@[q]).shape is Variable
                && self.strs.progs@[q].shape->Variable_0.pointer < n
        &&& forall|q: int|
            0 <= q < self.int_arrs.progs@.len() ==> (#[trigger] self.int_arrs.progs@[q]).shape
                is Variable && self.int_arrs.progs@[q].shape->Variable_0.pointer < n
    }

    /// Some tagged offset holds `vals` as a variable binding named `name`.
    pub open spec fn interned(&self, name: Seq<char>, vals: Anies) -> bool {
        exists|a: (Kind, usize)| self.binds(a, name, vals)
    }

    /// Room for two more spans in every value arena: one candidate and one
    /// variable binding that it writes.
    pub open spec fn has_room(&self) -> bool {
        &&& self.ints.vals@.len() + 2 * self.e() <= usize::MAX
        &&& self.strs.vals@.len() + 2 * self.e() <= usize::MAX
        &&& self.int_arrs.vals@.len() + 2 * self.e() <= usize::MAX
        &&& self.ints.progs@.len() < usize::MAX
        &&& self.strs.progs@.len() < usize::MAX
        &&& self.int_arrs.progs@.len() < usize::MAX
    }

    pub fn room(&self) -> (r: bool)
        ensures
            r == self.has_room(),
    {
        let e = self.examples;
        if e > usize::MAX / 2 {
            return false;
        }
        let m = usize::MAX - 2 * e;
        self.ints.vals.len() <= m && self.strs.vals.len() <= m && self.int_arrs.vals.len() <= m
            && self.ints.progs.len() < usize::MAX && self.strs.progs.len() < usize::MAX
            && self.int_arrs.progs.len() < usize::MAX
    }

    /// An empty bank for `examples` examples over the variables of `var_map`.
    pub fn new(examples: usize, var_map: VarMap) -> (r: Bank)
        requires
            examples > 0,
        ensures
            r.wf(),
            r.examples == examples,
            r.var_map == var_map,
            forall|k: Kind| #[trigger] r.progs_len(k) == 0,
            forall|k: Kind| #[trigger] r.vals_len(k) == 0,
    {
        Bank {
            examples,
            var_map,
            ints: Arena::new(),
            strs: Arena::new(),
            int_arrs: Arena::new(),
        }
    }

    /// The number of programs admitted so far, per kind.
    pub fn curr_max(&self) -> (r: MaxPIdx)
        ensures
            r.int@ == self.progs_len(Kind::Int),
            r.str@ == self.progs_len(Kind::Str),
            r.int_arrs@ == self.progs_len(Kind::IntArray),
    {
        MaxPIdx {
            int: PIdx::new(self.ints.progs.len()),
            str: PIdx::new(self.strs.progs.len()),
            int_arrs: PIdx::new(self.int_arrs.progs.len()),
        }
    }

    pub fn var_map(&self) -> (r: &VarMap)
        ensures
            *r == self.var_map,
    {
        &self.var_map
    }

    /// The number of variable slots.
    pub fn variables(&self) -> (r: usize)
        ensures
            r == self.nvars(),
    {
        self.var_map.len()
    }

    pub fn examples(&self) -> (r: usize)
        ensures
            r == self.examples,
    {
        self.examples
    }
}

proof fn lemma_arena_extends_refl<T: Value>(a: Arena<T>)
    ensures
        a.extends(&a),
{
    assert(a.vals@.subrange(0, a.vals@.len() as int) =~= a.vals@);
    assert(a.progs@.subrange(0, a.progs@.len() as int) =~= a.progs@);
}

pub proof fn lemma_bank_extends_refl(b: Bank)
    ensures
        b.extends(&b),
{
    lemma_arena_extends_refl(b.ints);
    lemma_arena_extends_refl(b.strs);
    lemma_arena_extends_refl(b.int_arrs);
}

pub proof fn lemma_extends_trans(b1: Bank, b2: Bank, b3: Bank)
    requires
        b2.extends(&b1),
        b3.extends(&b2),
    ensures
        b3.extends(&b1),
{
    lemma_arena_extends_trans(b1.ints, b2.ints, b3.ints);
    lemma_arena_extends_trans(b1.strs, b2.strs, b3.strs);
    lemma_arena_extends_trans(b1.int_arrs, b2.int_arrs, b3.int_arrs);
}

proof fn lemma_arena_extends_trans<T: Value>(a1: Arena<T>, a2: Arena<T>, a3: Arena<T>)
    requires
        a2.extends(&a1),
        a3.extends(&a2),
    ensures
        a3.extends(&a1),
{
    assert(a3.vals@.subrange(0, a1.vals@.len() as int) =~= a2.vals@.subrange(0, a1.vals@.len() as int));
    assert(a3.progs@.subrange(0, a1.progs@.len() as int) =~= a2.progs@.subrange(
        0,
        a1.progs@.len() as int,
    ));
}

/// A variable binding stays in place as the bank grows.
pub proof fn lemma_binds_mono(b1: Bank, b2: Bank, a: (Kind, usize), name: Seq<char>, vals: Anies)
    requires
        b1.wf(),
        b2.extends(&b1),
        b1.binds(a, name, vals),
    ensures
        b2.binds(a, name, vals),
{
    let e = b1.e();
    match vals {
        Anies::Int(v) => {
            let p = choose|p: int|
                0 <= p < b1.ints.progs@.len() && #[trigger] b1.ints.is_variable(p, name, views(v@), e)
                    && b1.ints.progs@[p].values@ == a.1;
            assert(b1.prog_ok(b1.ints.progs@[p]));
            lemma_values_of_mono(b1.ints, b2.ints, e, p);
            assert(b2.ints.is_variable(p, name, views(v@), e));
            assert(0 <= p < b2.ints.progs@.len() && b2.ints.progs@[p].values@ == a.1);
            assert(b2.e() == e);
            assert(b2.ints.is_variable(p, name, views(v@), b2.e()));
            assert(b2.binds(a, name, Anies::Int(v)));
        },
        Anies::Str(v) => {
            let p = choose|p: int|
                0 <= p < b1.strs.progs@.len() && #[trigger] b1.strs.is_variable(p, name, views(v@), e)
                    && b1.strs.progs@[p].values@ == a.1;
            assert(b1.prog_ok(b1.strs.progs@[p]));
            lemma_values_of_mono(b1.strs, b2.strs, e, p);
            assert(b2.strs.is_variable(p, name, views(v@), e));
            assert(0 <= p < b2.strs.progs@.len() && b2.strs.progs@[p].values@ == a.1);
            assert(b2.e() == e);
            assert(b2.strs.is_variable(p, name, views(v@), b2.e()));
            assert(b2.binds(a, name, Anies::Str(v)));
        },
        Anies::IntArray(v) => {
            let p = choose|p: int|
                0 <= p < b1.int_arrs.progs@.len() && #[trigger] b1.int_arrs.is_variable(
                    p,
                    name,
                    views(v@),
                    e,
                ) && b1.int_arrs.progs@[p].values@ == a.1;
            assert(b1.prog_ok(b1.int_arrs.progs@[p]));
            lemma_values_of_mono(b1.int_arrs, b2.int_arrs, e, p);
            assert(b2.int_arrs.is_variable(p, name, views(v@), e));
            assert(0 <= p < b2.int_arrs.progs@.len() && b2.int_arrs.progs@[p].values@ == a.1);
            assert(b2.e() == e);
            assert(b2.int_arrs.is_variable(p, name, views(v@), b2.e()));
            assert(b2.binds(a, name, Anies::IntArray(v)));
        },
    }
}

/// A program that is well formed in a bank stays so as the bank grows.
pub proof fn lemma_prog_ok_mono<T: Value>(b1: Bank, b2: Bank, p: Program<T>)
    requires
        b2.extends(&b1),
        b1.prog_ok(p),
    ensures
        b2.prog_ok(p),
{
    lemma_has_level_mono(b1, b2);
    assert forall|i: int| 0 <= i < p.pre@.len() implies b2.slot_ok(#[trigger] p.pre@[i]) by {
        assert(b1.slot_ok(p.pre@[i]));
    }
    assert forall|i: int| 0 <= i < p.post@.len() implies b2.slot_ok(#[trigger] p.post@[i]) by {
        assert(b1.slot_ok(p.post@[i]));
    }
}

/// Growth keeps every admitted program, with its level.
pub proof fn lemma_has_level_mono(b1: Bank, b2: Bank)
    requires
        b2.extends(&b1),
    ensures
        forall|k: Kind| b1.vals_len(k) <= #[trigger] b2.vals_len(k),
        forall|k: Kind| b1.progs_len(k) <= #[trigger] b2.progs_len(k),
        forall|a: (Kind, usize)| #[trigger] b1.has(a) ==> b2.has(a) && b2.level_at(a) == b1.level_at(a),
{
    assert forall|a: (Kind, usize)| #[trigger] b1.has(a) implies b2.has(a) && b2.level_at(a) == b1.level_at(a) by {
        let i = a.1 as int;
        match a.0 {
            Kind::Int => {
                assert(b2.ints.progs@.subrange(0, b1.ints.progs@.len() as int)[i] == b2.ints.progs@[i]);
            },
            Kind::Str => {
                assert(b2.strs.progs@.subrange(0, b1.strs.progs@.len() as int)[i] == b2.strs.progs@[i]);
            },
            Kind::IntArray => {
                assert(b2.int_arrs.progs@.subrange(0, b1.int_arrs.progs@.len() as int)[i]
                    == b2.int_arrs.progs@[i]);
            },
        }
    }
}

/// The spans of old programs read the same values after growth.
pub proof fn lemma_values_of_mono<T: Value>(a1: Arena<T>, a2: Arena<T>, e: nat, p: int)
    requires
        a2.extends(&a1),
        0 <= p < a1.progs@.len(),
        a1.progs@[p].values@ + e <= a1.vals@.len(),
    ensures
        a2.progs@[p] == a1.progs@[p],
        a2.values_of(p, e) == a1.values_of(p, e),
        a2.key_of(p, e) == a1.key_of(p, e),
{
    assert(a2.progs@.subrange(0, a1.progs@.len() as int)[p] == a2.progs@[p]);
    let at = a1.progs@[p].values@ as int;
    assert forall|j: int| 0 <= j < e implies #[trigger] a2.values_of(p, e)[j] == a1.values_of(p, e)[j] by {
        assert(a2.vals@.subrange(0, a1.vals@.len() as int)[at + j] == a2.vals@[at + j]);
    }
    assert(a2.values_of(p, e) =~= a1.values_of(p, e));
}

/// An arena that the bank did not touch stays well formed as the bank grows.
proof fn lemma_arena_mono<T: Value>(b1: Bank, b2: Bank, a: Arena<T>)
    requires
        b2.extends(&b1),
        b1.arena_ok(a),
        b2.vals_len(T::kind()) == a.vals@.len(),
        b2.progs_len(T::kind()) == a.progs@.len(),
        forall|i: usize|
            i < a.progs@.len() ==> #[trigger] a.progs@[i as int].level.0 == b2.level_at(
                (T::kind(), i),
            ),
    ensures
        b2.arena_ok(a),
{
    assert forall|i: int| 0 <= i < a.progs@.len() implies b2.prog_ok(#[trigger] a.progs@[i]) by {
        lemma_prog_ok_mono(b1, b2, a.progs@[i]);
    }
}

/// Appending one program, whose key is new, keeps the arena well formed.
proof fn lemma_admit<T: Value>(b1: Bank, b2: Bank, a1: Arena<T>, a2: Arena<T>)
    requires
        b1.arena_ok(a1),
        b2.extends(&b1),
        a2.extends(&a1),
        a2.progs@.len() == a1.progs@.len() + 1,
        b2.is_arena_of(a2),
        b2.prog_ok(a2.progs@[a1.progs@.len() as int]),
        forall|q: int|
            0 <= q < a1.progs@.len() ==> #[trigger] a1.key_of(q, b1.e()) != a2.key_of(
                a1.progs@.len() as int,
                b1.e(),
            ),
    ensures
        b2.arena_ok(a2),
{
    let e = b1.e();
    let n = a1.progs@.len() as int;
    assert forall|i: int| 0 <= i < a2.progs@.len() implies b2.prog_ok(#[trigger] a2.progs@[i]) by {
        if i < n {
            lemma_values_of_mono(a1, a2, e, i);
            lemma_prog_ok_mono(b1, b2, a1.progs@[i]);
        }
    }
    assert forall|p: int, q: int| 0 <= p < q < a2.progs@.len() implies #[trigger] a2.key_of(p, e)
        != #[trigger] a2.key_of(q, e) by {
        lemma_values_of_mono(a1, a2, e, p);
        if q < n {
            lemma_values_of_mono(a1, a2, e, q);
            assert(a1.key_of(p, e) != a1.key_of(q, e));
        } else {
            assert(a1.key_of(p, e) != a2.key_of(n, e));
        }
    }
    assert forall|p: int| 0 <= p < a2.progs@.len() implies #[trigger] a2.progs@[p].values@ + e
        <= a2.vals@.len() by {
        assert(b2.prog_ok(a2.progs@[p]));
    }
}


/// `p` is the admitted form of `mp`, with its values stored at `at`.
pub open spec fn admitted_as<T>(p: Program<T>, mp: MaybeProgram<T>, at: nat) -> bool {
    &&& p.shape == mp.shape
    &&& p.values@ == at
    &&& p.pre == mp.pre
    &&& p.post == mp.post
    &&& p.pointer == mp.pointer
    &&& p.level == mp.level
}

pub proof fn lemma_cond_ok_mono(b1: Bank, b2: Bank, c: Seq<SlotV>)
    requires
        b2.extends(&b1),
        b1.cond_ok(c),
    ensures
        b2.cond_ok(c),
{
    lemma_has_level_mono(b1, b2);
    assert forall|i: int| 0 <= i < c.len() implies b2.slot_ok(#[trigger] c[i]) by {
        assert(b1.slot_ok(c[i]));
    }
}

/// The admitted form of an admissible candidate is well formed in the grown
/// bank.
proof fn lemma_admit_candidate<T: Value>(
    b1: Bank,
    b2: Bank,
    mp: MaybeProgram<T>,
    p: Program<T>,
    at: nat,
)
    requires
        b2.extends(&b1),
        b1.maybe_ok(&mp),
        admitted_as(p, mp, at),
        at + b1.e() <= b2.vals_len(T::kind()),
    ensures
        b2.prog_ok(p),
{
    lemma_has_level_mono(b1, b2);
    lemma_cond_ok_mono(b1, b2, mp.pre@);
    lemma_cond_ok_mono(b1, b2, mp.post@);
}

/// The span appended last holds the appended values.
pub proof fn lemma_appended_span<T: Value>(a1: Arena<T>, a2: Arena<T>, values: Seq<T>)
    requires
        a2.vals@ == a1.vals@ + values,
    ensures
        a2.span(a1.vals@.len() as int, values.len()) == views(values),
{
    assert(a2.span(a1.vals@.len() as int, values.len()) =~= views(values));
}

proof fn lemma_appended_prefix<T: Value>(a1: Arena<T>, a2: Arena<T>, values: Seq<T>, p: Program<T>)
    requires
        a2.vals@ == a1.vals@ + values,
        a2.progs@ == a1.progs@.push(p),
    ensures
        a2.extends(&a1),
{
    assert(a2.vals@.subrange(0, a1.vals@.len() as int) =~= a1.vals@);
    assert(a2.progs@.subrange(0, a1.progs@.len() as int) =~= a1.progs@);
}

/// Typed access to the bank's arena of kind `T`.
pub trait Store: Value {
    spec fn arena(b: &Bank) -> Arena<Self>;

    proof fn lemma_arena(b: &Bank)
        ensures
            b.is_arena_of(Self::arena(b)),
            b.wf() ==> b.arena_ok(Self::arena(b)),
    ;

    /// The values of the span at `idx`.
    fn get_values(b: &Bank, idx: VIdx<Self>) -> (r: &[Self])
        requires
            idx@ + b.e() <= Self::arena(b).vals@.len(),
        ensures
            views(r@) == Self::arena(b).span(idx@ as int, b.e()),
    ;

    fn get_program(b: &Bank, idx: PIdx<Self>) -> (r: &Program<Self>)
        requires
            idx@ < Self::arena(b).progs@.len(),
        ensures
            *r == Self::arena(b).progs@[idx@ as int],
    ;

    fn has_program(b: &Bank, idx: PIdx<Self>) -> (r: bool)
        ensures
            r == (idx@ < Self::arena(b).progs@.len()),
    ;

    /// Admits `mp` unless a program with the same values, L-value identity
    /// and conditions is stored: then returns that program's index.
    fn put_program(b: &mut Bank, mp: MaybeProgram<Self>) -> (r: Result<PIdx<Self>, PIdx<Self>>)
        requires
            old(b).wf(),
            old(b).maybe_ok(&mp),
            Self::arena(old(b)).vals@.len() + mp.values@.len() <= usize::MAX,
        ensures
            final(b).wf(),
            final(b).extends(&*old(b)),
            final(b).same_except(&*old(b), Self::kind()),
            match r {
                Err(p) => {
                    &&& *final(b) == *old(b)
                    &&& p@ < Self::arena(old(b)).progs@.len()
                    &&& Self::arena(old(b)).key_of(p@ as int, old(b).e()) == (
                        views(mp.values@),
                        mp.pointer,
                        mp.pre@,
                        mp.post@,
                    )
                },
                Ok(p) => {
                    &&& p@ == Self::arena(old(b)).progs@.len()
                    &&& forall|q: int|
                        0 <= q < p@ ==> #[trigger] Self::arena(old(b)).key_of(q, old(b).e())
                            != (views(mp.values@), mp.pointer, mp.pre@, mp.post@)
                    &&& Self::arena(final(b)).vals@ == Self::arena(old(b)).vals@ + mp.values@
                    &&& Self::arena(final(b)).progs@ == Self::arena(old(b)).progs@.push(
                        Self::arena(final(b)).progs@[p@ as int],
                    )
                    &&& admitted_as(
                        Self::arena(final(b)).progs@[p@ as int],
                        mp,
                        Self::arena(old(b)).vals@.len(),
                    )
                },
            },
    ;

    /// Interns a variable named `name` with `values`, bound to slot
    /// `pointer`, unless a variable with that name and those values is
    /// stored: then returns that variable's index.
    fn put_variable(b: &mut Bank, name: String, values: Vec<Self>, pointer: Pointer) -> (r: Result<
        PIdx<Self>,
        PIdx<Self>,
    >)
        requires
            old(b).wf(),
            pointer < old(b).nvars(),
            name@ == names_of(old(b).var_map)[pointer as int]@,
            values@.len() == old(b).e(),
            Self::arena(old(b)).vals@.len() + values@.len() <= usize::MAX,
        ensures
            final(b).wf(),
            final(b).extends(&*old(b)),
            final(b).same_except(&*old(b), Self::kind()),
            match r {
                Err(p) => {
                    &&& *final(b) == *old(b)
                    &&& p@ < Self::arena(old(b)).progs@.len()
                    &&& Self::arena(old(b)).is_variable(
                        p@ as int,
                        name@,
                        views(values@),
                        old(b).e(),
                    )
                },
                Ok(p) => {
                    let at = Self::arena(old(b)).vals@.len();
                    let prog = Self::arena(final(b)).progs@[p@ as int];
                    &&& p@ == Self::arena(old(b)).progs@.len()
                    &&& forall|q: int|
                        0 <= q < p@ ==> !#[trigger] Self::arena(old(b)).is_variable(
                            q,
                            name@,
                            views(values@),
                            old(b).e(),
                        )
                    &&& Self::arena(final(b)).vals@ == Self::arena(old(b)).vals@ + values@
                    &&& Self::arena(final(b)).progs@ == Self::arena(old(b)).progs@.push(prog)
                    &&& prog.shape == Shape::Variable(Variable { name, pointer })
                    &&& prog.values@ == at
                    &&& prog.pre@ == empty_spec(old(b).nvars()).update(
                        pointer as int,
                        Some((Self::kind(), at as usize)),
                    )
                    &&& prog.post@ == prog.pre@
                    &&& prog.pointer == Some(pointer)
                    &&& prog.level.0 == 0
                },
            },
            ({
                let i = match r {
                    Ok(p) => p@,
                    Err(p) => p@,
                };
                &&& i < Self::arena(final(b)).progs@.len()
                &&& Self::arena(final(b)).is_variable(i as int, name@, views(values@), final(b).e())
            }),
    ;

    /// Interns the constant printed as `code` whose value is `value` on
    /// every example, unless an equivalent program is stored: then returns
    /// that program's index.
    fn put_constant(b: &mut Bank, code: &str, value: Self) -> (r: Result<PIdx<Self>, PIdx<Self>>)
        requires
            old(b).wf(),
            Self::arena(old(b)).vals@.len() + old(b).e() <= usize::MAX,
        ensures
            final(b).wf(),
            final(b).extends(&*old(b)),
            final(b).same_except(&*old(b), Self::kind()),
            ({
                let e = old(b).e();
                let empty = empty_spec(old(b).nvars());
                let key = (Seq::new(e, |i: int| value@), None::<Pointer>, empty, empty);
                match r {
                    Err(p) => {
                        &&& *final(b) == *old(b)
                        &&& p@ < Self::arena(old(b)).progs@.len()
                        &&& Self::arena(old(b)).key_of(p@ as int, e) == key
                    },
                    Ok(p) => {
                        let at = Self::arena(old(b)).vals@.len();
                        let prog = Self::arena(final(b)).progs@[p@ as int];
                        &&& p@ == Self::arena(old(b)).progs@.len()
                        &&& forall|q: int| 0 <= q < p@ ==> #[trigger] Self::arena(old(b)).key_of(q, e) != key
                        &&& Self::arena(final(b)).vals@.len() == at + e
                        &&& Self::arena(final(b)).span(at as int, e) == Seq::new(e, |i: int| value@)
                        &&& Self::arena(final(b)).progs@ == Self::arena(old(b)).progs@.push(prog)
                        &&& prog.shape is Constant
                        &&& prog.shape->Constant_0.code@ == code@
                        &&& prog.values@ == at
                        &&& prog.pre@ == empty
                        &&& prog.post@ == empty
                        &&& prog.pointer is None
                        &&& prog.level.0 == 0
                    },
                }
            }),
    ;
}

/// `e` copies of `value`.
fn repeat_value<T: Value>(value: &T, e: usize) -> (r: Vec<T>)
    ensures
        r@.len() == e,
        views(r@) == Seq::new(e as nat, |i: int| value@),
{
    let mut r: Vec<T> = Vec::new();
    let mut k: usize = 0;
    while k < e
        invariant
            k <= e,
            r@.len() == k,
            forall|j: int| 0 <= j < k ==> #[trigger] r@[j]@ == value@,
        decreases e - k,
    {
        r.push(value.duplicate());
        k = k + 1;
    }
    proof {
        assert(views(r@) =~= Seq::new(e as nat, |i: int| value@));
    }
    r
}

impl Store for Int {
    open spec fn arena(b: &Bank) -> Arena<Int> {
        b.ints
    }

    proof fn lemma_arena(b: &Bank) {
    }

    fn get_values(b: &Bank, idx: VIdx<Int>) -> (r: &[Int]) {
        let at = idx.index();
        let _len = b.ints.vals.len();
        let r = &b.ints.vals.as_slice()[at..at + b.examples];
        proof {
            assert(views(r@) =~= b.ints.span(at as int, b.e()));
        }
        r
    }

    fn get_program(b: &Bank, idx: PIdx<Int>) -> (r: &Program<Int>) {
        &b.ints.progs[idx.index()]
    }

    fn has_program(b: &Bank, idx: PIdx<Int>) -> (r: bool) {
        idx.index() < b.ints.progs.len()
    }

    fn put_program(b: &mut Bank, mp: MaybeProgram<Int>) -> (r: Result<PIdx<Int>, PIdx<Int>>) {
        let ghost b1 = *b;
        proof {
            lemma_bank_extends_refl(b1);
        }
        let ghost mp0 = mp;
        match b.ints.find(b.examples, &mp.values, mp.pointer, &mp.pre, &mp.post) {
            Some(p) => Err(PIdx::new(p)),
            None => {
                let mut mp = mp;
                let values = mp.extract_values();
                let at = b.ints.push_values(values);
                let n = b.ints.progs.len();
                let prog = mp.into_program(VIdx::new(at));
                let ghost p = prog;
                b.ints.progs.push(prog);
                proof {
                    lemma_arena_extends_refl(b.strs);
                    lemma_arena_extends_refl(b.int_arrs);
                    lemma_appended_prefix(b1.ints, b.ints, mp0.values@, p);
                    lemma_appended_span(b1.ints, b.ints, mp0.values@);
                    lemma_admit_candidate(b1, *b, mp0, p, at as nat);
                    lemma_admit(b1, *b, b1.ints, b.ints);
                    lemma_arena_mono(b1, *b, b.strs);
                    lemma_arena_mono(b1, *b, b.int_arrs);
                }
                Ok(PIdx::new(n))
            },
        }
    }

    fn put_variable(b: &mut Bank, name: String, values: Vec<Int>, pointer: Pointer) -> (r: Result<
        PIdx<Int>,
        PIdx<Int>,
    >) {
        let ghost b1 = *b;
        proof {
            lemma_bank_extends_refl(b1);
        }
        let ghost vs = values@;
        match b.ints.find_variable(b.examples, &name, &values) {
            Some(p) => Err(PIdx::new(p)),
            None => {
                let at = b.ints.push_values(values);
                let n = b.ints.progs.len();
                let vidx = VIdx::new(at);
                let cond = Condition::empty(b.var_map.len()).mutate_with_index(
                    pointer,
                    Some(Int::tag_val(vidx)),
                );
                let prog = Program {
                    shape: Shape::Variable(Variable { name, pointer }),
                    values: vidx,
                    pre: cond.duplicate(),
                    post: cond,
                    pointer: Some(pointer),
                    level: Level(0),
                };
                let ghost p = prog;
                b.ints.progs.push(prog);
                proof {
                    lemma_arena_extends_refl(b.strs);
                    lemma_arena_extends_refl(b.int_arrs);
                    lemma_appended_prefix(b1.ints, *&b.ints, vs, p);
                    lemma_appended_span(b1.ints, b.ints, vs);
                    assert(b.ints.values_of(n as int, b.e()) == views(vs));
                    lemma_fresh_variable(b1, *b, b1.ints, b.ints, p);
                    lemma_admit(b1, *b, b1.ints, b.ints);
                    lemma_arena_mono(b1, *b, b.strs);
                    lemma_arena_mono(b1, *b, b.int_arrs);
                }
                Ok(PIdx::new(n))
            },
        }
    }

    fn put_constant(b: &mut Bank, code: &str, value: Int) -> (r: Result<PIdx<Int>, PIdx<Int>>) {
        let ghost b1 = *b;
        proof {
            lemma_bank_extends_refl(b1);
        }
        let values = repeat_value(&value, b.examples);
        let empty = Condition::empty(b.var_map.len());
        match b.ints.find(b.examples, &values, None, &empty, &empty) {
            Some(p) => Err(PIdx::new(p)),
            None => {
                let ghost vs = values@;
                let at = b.ints.push_values(values);
                let n = b.ints.progs.len();
                let prog = Program {
                    shape: Shape::Constant(Constant { code: code.to_owned() }),
                    values: VIdx::new(at),
                    pre: empty.duplicate(),
                    post: empty,
                    pointer: None,
                    level: Level(0),
                };
                let ghost p = prog;
                b.ints.progs.push(prog);
                proof {
                    lemma_arena_extends_refl(b.strs);
                    lemma_arena_extends_refl(b.int_arrs);
                    lemma_appended_prefix(b1.ints, b.ints, vs, p);
                    lemma_appended_span(b1.ints, b.ints, vs);
                    lemma_has_level_mono(b1, *b);
                    assert(b.prog_ok(p));
                    lemma_admit(b1, *b, b1.ints, b.ints);
                    lemma_arena_mono(b1, *b, b.strs);
                    lemma_arena_mono(b1, *b, b.int_arrs);
                }
                Ok(PIdx::new(n))
            },
        }
    }
}

impl Store for Str {
    open spec fn arena(b: &Bank) -> Arena<Str> {
        b.strs
    }

    proof fn lemma_arena(b: &Bank) {
    }

    fn get_values(b: &Bank, idx: VIdx<Str>) -> (r: &[Str]) {
        let at = idx.index();
        let _len = b.strs.vals.len();
        let r = &b.strs.vals.as_slice()[at..at + b.examples];
        proof {
            assert(views(r@) =~= b.strs.span(at as int, b.e()));
        }
        r
    }

    fn get_program(b: &Bank, idx: PIdx<Str>) -> (r: &Program<Str>) {
        &b.strs.progs[idx.index()]
    }

    fn has_program(b: &Bank, idx: PIdx<Str>) -> (r: bool) {
        idx.index() < b.strs.progs.len()
    }

    fn put_program(b: &mut Bank, mp: MaybeProgram<Str>) -> (r: Result<PIdx<Str>, PIdx<Str>>) {
        let ghost b1 = *b;
        proof {
            lemma_bank_extends_refl(b1);
        }
        let ghost mp0 = mp;
        match b.strs.find(b.examples, &mp.values, mp.pointer, &mp.pre, &mp.post) {
            Some(p) => Err(PIdx::new(p)),
            None => {
                let mut mp = mp;
                let values = mp.extract_values();
                let at = b.strs.push_values(values);
                let n = b.strs.progs.len();
                let prog = mp.into_program(VIdx::new(at));
                let ghost p = prog;
                b.strs.progs.push(prog);
                proof {
                    lemma_arena_extends_refl(b.ints);
                    lemma_arena_extends_refl(b.int_arrs);
                    lemma_appended_prefix(b1.strs, b.strs, mp0.values@, p);
                    lemma_appended_span(b1.strs, b.strs, mp0.values@);
                    lemma_admit_candidate(b1, *b, mp0, p, at as nat);
                    lemma_admit(b1, *b, b1.strs, b.strs);
                    lemma_arena_mono(b1, *b, b.ints);
                    lemma_arena_mono(b1, *b, b.int_arrs);
                }
                Ok(PIdx::new(n))
            },
        }
    }

    fn put_variable(b: &mut Bank, name: String, values: Vec<Str>, pointer: Pointer) -> (r: Result<
        PIdx<Str>,
        PIdx<Str>,
    >) {
        let ghost b1 = *b;
        proof {
            lemma_bank_extends_refl(b1);
        }
        let ghost vs = values@;
        match b.strs.find_variable(b.examples, &name, &values) {
            Some(p) => Err(PIdx::new(p)),
            None => {
                let at = b.strs.push_values(values);
                let n = b.strs.progs.len();
                let vidx = VIdx::new(at);
                let cond = Condition::empty(b.var_map.len()).mutate_with_index(
                    pointer,
                    Some(Str::tag_val(vidx)),
                );
                let prog = Program {
                    shape: Shape::Variable(Variable { name, pointer }),
                    values: vidx,
                    pre: cond.duplicate(),
                    post: cond,
                    pointer: Some(pointer),
                    level: Level(0),
                };
                let ghost p = prog;
                b.strs.progs.push(prog);
                proof {
                    lemma_arena_extends_refl(b.ints);
                    lemma_arena_extends_refl(b.int_arrs);
                    lemma_appended_prefix(b1.strs, *&b.strs, vs, p);
                    lemma_appended_span(b1.strs, b.strs, vs);
                    assert(b.strs.values_of(n as int, b.e()) == views(vs));
                    lemma_fresh_variable(b1, *b, b1.strs, b.strs, p);
                    lemma_admit(b1, *b, b1.strs, b.strs);
                    lemma_arena_mono(b1, *b, b.ints);
                    lemma_arena_mono(b1, *b, b.int_arrs);
                }
                Ok(PIdx::new(n))
            },
        }
    }

    fn put_constant(b: &mut Bank, code: &str, value: Str) -> (r: Result<PIdx<Str>, PIdx<Str>>) {
        let ghost b1 = *b;
        proof {
            lemma_bank_extends_refl(b1);
        }
        let values = repeat_value(&value, b.examples);
        let empty = Condition::empty(b.var_map.len());
        match b.strs.find(b.examples, &values, None, &empty, &empty) {
            Some(p) => Err(PIdx::new(p)),
            None => {
                let ghost vs = values@;
                let at = b.strs.push_values(values);
                let n = b.strs.progs.len();
                let prog = Program {
                    shape: Shape::Constant(Constant { code: code.to_owned() }),
                    values: VIdx::new(at),
                    pre: empty.duplicate(),
                    post: empty,
                    pointer: None,
                    level: Level(0),
                };
                let ghost p = prog;
                b.strs.progs.push(prog);
                proof {
                    lemma_arena_extends_refl(b.ints);
                    lemma_arena_extends_refl(b.int_arrs);
                    lemma_appended_prefix(b1.strs, b.strs, vs, p);
                    lemma_appended_span(b1.strs, b.strs, vs);
                    lemma_has_level_mono(b1, *b);
                    assert(b.prog_ok(p));
                    lemma_admit(b1, *b, b1.strs, b.strs);
                    lemma_arena_mono(b1, *b, b.ints);
                    lemma_arena_mono(b1, *b, b.int_arrs);
                }
                Ok(PIdx::new(n))
            },
        }
    }
}

impl Store for IntArray {
    open spec fn arena(b: &Bank) -> Arena<IntArray> {
        b.int_arrs
    }

    proof fn lemma_arena(b: &Bank) {
    }

    fn get_values(b: &Bank, idx: VIdx<IntArray>) -> (r: &[IntArray]) {
        let at = idx.index();
        let _len = b.int_arrs.vals.len();
        let r = &b.int_arrs.vals.as_slice()[at..at + b.examples];
        proof {
            assert(views(r@) =~= b.int_arrs.span(at as int, b.e()));
        }
        r
    }

    fn get_program(b: &Bank, idx: PIdx<IntArray>) -> (r: &Program<IntArray>) {
        &b.int_arrs.progs[idx.index()]
    }

    fn has_program(b: &Bank, idx: PIdx<IntArray>) -> (r: bool) {
        idx.index() < b.int_arrs.progs.len()
    }

    fn put_program(b: &mut Bank, mp: MaybeProgram<IntArray>) -> (r: Result<PIdx<IntArray>, PIdx<IntArray>>) {
        let ghost b1 = *b;
        proof {
            lemma_bank_extends_refl(b1);
        }
        let ghost mp0 = mp;
        match b.int_arrs.find(b.examples, &mp.values, mp.pointer, &mp.pre, &mp.post) {
            Some(p) => Err(PIdx::new(p)),
            None => {
                let mut mp = mp;
                let values = mp.extract_values();
                let at = b.int_arrs.push_values(values);
                let n = b.int_arrs.progs.len();
                let prog = mp.into_program(VIdx::new(at));
                let ghost p = prog;
                b.int_arrs.progs.push(prog);
                proof {
                    lemma_arena_extends_refl(b.ints);
                    lemma_arena_extends_refl(b.strs);
                    lemma_appended_prefix(b1.int_arrs, b.int_arrs, mp0.values@, p);
                    lemma_appended_span(b1.int_arrs, b.int_arrs, mp0.values@);
                    lemma_admit_candidate(b1, *b, mp0, p, at as nat);
                    lemma_admit(b1, *b, b1.int_arrs, b.int_arrs);
                    lemma_arena_mono(b1, *b, b.ints);
                    lemma_arena_mono(b1, *b, b.strs);
                }
                Ok(PIdx::new(n))
            },
        }
    }

    fn put_variable(b: &mut Bank, name: String, values: Vec<IntArray>, pointer: Pointer) -> (r: Result<
        PIdx<IntArray>,
        PIdx<IntArray>,
    >) {
        let ghost b1 = *b;
        proof {
            lemma_bank_extends_refl(b1);
        }
        let ghost vs = values@;
        match b.int_arrs.find_variable(b.examples, &name, &values) {
            Some(p) => Err(PIdx::new(p)),
            None => {
                let at = b.int_arrs.push_values(values);
                let n = b.int_arrs.progs.len();
                let vidx = VIdx::new(at);
                let cond = Condition::empty(b.var_map.len()).mutate_with_index(
                    pointer,
                    Some(IntArray::tag_val(vidx)),
                );
                let prog = Program {
                    shape: Shape::Variable(Variable { name, pointer }),
                    values: vidx,
                    pre: cond.duplicate(),
                    post: cond,
                    pointer: Some(pointer),
                    level: Level(0),
                };
                let ghost p = prog;
                b.int_arrs.progs.push(prog);
                proof {
                    lemma_arena_extends_refl(b.ints);
                    lemma_arena_extends_refl(b.strs);
                    lemma_appended_prefix(b1.int_arrs, *&b.int_arrs, vs, p);
                    lemma_appended_span(b1.int_arrs, b.int_arrs, vs);
                    assert(b.int_arrs.values_of(n as int, b.e()) == views(vs));
                    lemma_fresh_variable(b1, *b, b1.int_arrs, b.int_arrs, p);
                    lemma_admit(b1, *b, b1.int_arrs, b.int_arrs);
                    lemma_arena_mono(b1, *b, b.ints);
                    lemma_arena_mono(b1, *b, b.strs);
                }
                Ok(PIdx::new(n))
            },
        }
    }

    fn put_constant(b: &mut Bank, code: &str, value: IntArray) -> (r: Result<PIdx<IntArray>, PIdx<IntArray>>) {
        let ghost b1 = *b;
        proof {
            lemma_bank_extends_refl(b1);
        }
        let values = repeat_value(&value, b.examples);
        let empty = Condition::empty(b.var_map.len());
        match b.int_arrs.find(b.examples, &values, None, &empty, &empty) {
            Some(p) => Err(PIdx::new(p)),
            None => {
                let ghost vs = values@;
                let at = b.int_arrs.push_values(values);
                let n = b.int_arrs.progs.len();
                let prog = Program {
                    shape: Shape::Constant(Constant { code: code.to_owned() }),
                    values: VIdx::new(at),
                    pre: empty.duplicate(),
                    post: empty,
                    pointer: None,
                    level: Level(0),
                };
                let ghost p = prog;
                b.int_arrs.progs.push(prog);
                proof {
                    lemma_arena_extends_refl(b.ints);
                    lemma_arena_extends_refl(b.strs);
                    lemma_appended_prefix(b1.int_arrs, b.int_arrs, vs, p);
                    lemma_appended_span(b1.int_arrs, b.int_arrs, vs);
                    lemma_has_level_mono(b1, *b);
                    assert(b.prog_ok(p));
                    lemma_admit(b1, *b, b1.int_arrs, b.int_arrs);
                    lemma_arena_mono(b1, *b, b.ints);
                    lemma_arena_mono(b1, *b, b.strs);
                }
                Ok(PIdx::new(n))
            },
        }
    }
}

/// A new variable's key differs from every stored key: its conditions bind
/// its slot to an offset that no stored condition can address yet.
proof fn lemma_fresh_variable<T: Value>(
    b1: Bank,
    b2: Bank,
    a1: Arena<T>,
    a2: Arena<T>,
    p: Program<T>,
)
    requires
        b1.arena_ok(a1),
        b1.examples > 0,
        b2.extends(&b1),
        a2.extends(&a1),
        a2.progs@ == a1.progs@.push(p),
        b2.is_arena_of(a2),
        p.shape is Variable,
        p.pointer == Some(p.shape->Variable_0.pointer),
        p.shape->Variable_0.pointer < b1.nvars(),
        p.shape->Variable_0.name@ == names_of(b1.var_map)[p.shape->Variable_0.pointer as int]@,
        p.values@ == a1.vals@.len(),
        p.values@ + b1.e() <= a2.vals@.len(),
        p.level.0 == 0,
        p.pre@ == empty_spec(b1.nvars()).update(
            p.shape->Variable_0.pointer as int,
            Some((T::kind(), p.values@)),
        ),
        p.post@ == p.pre@,
    ensures
        b2.prog_ok(p),
        forall|q: int|
            0 <= q < a1.progs@.len() ==> #[trigger] a1.key_of(q, b1.e()) != a2.key_of(
                a1.progs@.len() as int,
                b1.e(),
            ),
{
    let ptr = p.shape->Variable_0.pointer as int;
    assert forall|i: int| 0 <= i < p.pre@.len() implies b2.slot_ok(#[trigger] p.pre@[i]) by {
    }
    assert(b2.prog_ok(p));
    assert forall|q: int| 0 <= q < a1.progs@.len() implies #[trigger] a1.key_of(q, b1.e())
        != a2.key_of(a1.progs@.len() as int, b1.e()) by {
        let pq = a1.progs@[q];
        assert(b1.prog_ok(pq));
        assert(b1.slot_ok(pq.pre@[ptr]));
        assert(a2.progs@[a1.progs@.len() as int] == p);
        assert(pq.pre@[ptr] != p.pre@[ptr]);
    }
}


/// Every admitted program has one value per example.
pub proof fn lemma_values_len<T: Store>(b: &Bank, p: int)
    requires
        b.wf(),
        0 <= p < T::arena(b).progs@.len(),
    ensures
        T::arena(b).values_of(p, b.e()).len() == b.e(),
{
    T::lemma_arena(b);
    assert(b.prog_ok(T::arena(b).progs@[p]));
}

/// An admitted program has level 0 exactly when it is a leaf: a variable or
/// a constant.
pub proof fn lemma_level_zero_iff_leaf<T: Store>(b: &Bank, p: int)
    requires
        b.wf(),
        0 <= p < T::arena(b).progs@.len(),
    ensures
        T::arena(b).progs@[p].level.0 == 0 <==> T::arena(b).progs@[p].shape.is_leaf(),
{
    T::lemma_arena(b);
    assert(b.prog_ok(T::arena(b).progs@[p]));
}

/// An admitted composition is one level above its highest child, and its
/// children are admitted.
pub proof fn lemma_composite_level<T: Store>(b: &Bank, p: int)
    requires
        b.wf(),
        0 <= p < T::arena(b).progs@.len(),
    ensures
        ({
            let prog = T::arena(b).progs@[p];
            match prog.shape {
                Shape::Unary(u) => b.has(u.arg@) && prog.level.0 == b.level_at(u.arg@) + 1,
                Shape::Binary(n) => b.has(n.lhs@) && b.has(n.rhs@) && prog.level.0 == max_level(
                    b.level_at(n.lhs@),
                    b.level_at(n.rhs@),
                ) + 1,
                _ => true,
            }
        }),
{
    T::lemma_arena(b);
    assert(b.prog_ok(T::arena(b).progs@[p]));
}

/// No two admitted programs of a kind agree on values, L-value identity,
/// precondition and postcondition.
pub proof fn lemma_oe_unique<T: Store>(b: &Bank, p: int, q: int)
    requires
        b.wf(),
        0 <= p < T::arena(b).progs@.len(),
        0 <= q < T::arena(b).progs@.len(),
        p != q,
    ensures
        T::arena(b).key_of(p, b.e()) != T::arena(b).key_of(q, b.e()),
{
    T::lemma_arena(b);
    if p < q {
        assert(T::arena(b).key_of(p, b.e()) != T::arena(b).key_of(q, b.e()));
    } else {
        assert(T::arena(b).key_of(q, b.e()) != T::arena(b).key_of(p, b.e()));
    }
}

/// Only a bare variable is an L-value, and it denotes its own slot.
pub proof fn lemma_pointer_only_variable<T: Store>(b: &Bank, p: int)
    requires
        b.wf(),
        0 <= p < T::arena(b).progs@.len(),
        T::arena(b).progs@[p].pointer is Some,
    ensures
        T::arena(b).progs@[p].shape is Variable,
        T::arena(b).progs@[p].pointer == Some(T::arena(b).progs@[p].shape->Variable_0.pointer),
{
    T::lemma_arena(b);
    assert(b.prog_ok(T::arena(b).progs@[p]));
}


/// A variable stays where it is, with its values, as the bank grows.
pub proof fn lemma_holds_mono(b1: Bank, b2: Bank, a: (Kind, usize), name: Seq<char>, ptr: usize, vals: Anies)
    requires
        b1.wf(),
        b2.extends(&b1),
        b1.holds_variable(a, name, ptr, vals),
    ensures
        b2.holds_variable(a, name, ptr, vals),
{
    let e = b1.e();
    let q = a.1 as int;
    match vals {
        Anies::Int(v) => {
            assert(b1.prog_ok(b1.ints.progs@[q]));
            lemma_values_of_mono(b1.ints, b2.ints, e, q);
        },
        Anies::Str(v) => {
            assert(b1.prog_ok(b1.strs.progs@[q]));
            lemma_values_of_mono(b1.strs, b2.strs, e, q);
        },
        Anies::IntArray(v) => {
            assert(b1.prog_ok(b1.int_arrs.progs@[q]));
            lemma_values_of_mono(b1.int_arrs, b2.int_arrs, e, q);
        },
    }
}

} // verus!
