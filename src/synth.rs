//! The driver: cycles through the operators at each level and hands out the
//! admitted programs one at a time.
use crate::enumerate::{Builder, Enumerator, Skip, Step};
use crate::program::{Level, Shape};
use crate::store::{
    lemma_bank_extends_refl, lemma_binds_mono, lemma_extends_trans, lemma_holds_mono,
    lemma_values_of_mono, names_of, views,
    Bank, Store,
};
use crate::task::{rank, SynthesisTask};
use crate::values::{AnyProg, Anies, Int, IntArray, Kind, Str, Value};
use crate::vocab::{constants, ConstVal};
use vstd::prelude::*;

verus! {

pub struct Synthesizer {
    vocab: Vec<Builder>,
    store: Bank,
    task: SynthesisTask,
    curr_enum: Option<Enumerator>,
    curr_level: Level,
    curr_vocab: usize,
}

/// A copy of `v`, value by value.
fn copy_values<T: Value>(v: &Vec<T>) -> (r: Vec<T>)
    ensures
        r@.len() == v@.len(),
        views(r@) == views(v@),
{
    let mut r: Vec<T> = Vec::new();
    let mut k: usize = 0;
    while k < v.len()
        invariant
            k <= v@.len(),
            r@.len() == k,
            forall|j: int| 0 <= j < k ==> #[trigger] r@[j]@ == v@[j]@,
        decreases v@.len() - k,
    {
        r.push(v[k].duplicate());
        k = k + 1;
    }
    proof {
        assert(views(r@) =~= views(v@));
    }
    r
}

/// The constants of the table stand, in table order, right after the
/// first `ni`, `ns` and `na` programs of each kind.
pub open spec fn constants_after(b: Bank, ni: nat, ns: nat, na: nat) -> bool {
    let e = b.e();
    &&& b.ints.progs@.len() == ni + 2
    &&& b.strs.progs@.len() == ns + 2
    &&& b.int_arrs.progs@.len() == na + 1
    &&& constant_at(b.ints.progs@[ni as int].shape, "0"@)
    &&& b.ints.values_of(ni as int, e) == Seq::new(e, |j: int| 0i32)
    &&& constant_at(b.ints.progs@[ni + 1int].shape, "1"@)
    &&& b.ints.values_of(ni + 1int, e) == Seq::new(e, |j: int| 1i32)
    &&& constant_at(b.strs.progs@[ns as int].shape, "\"\""@)
    &&& b.strs.values_of(ns as int, e) == Seq::new(e, |j: int| ""@)
    &&& constant_at(b.strs.progs@[ns + 1int].shape, "\" \""@)
    &&& b.strs.values_of(ns + 1int, e) == Seq::new(e, |j: int| " "@)
    &&& constant_at(b.int_arrs.progs@[na as int].shape, "[]"@)
    &&& b.int_arrs.values_of(na as int, e) == Seq::new(e, |j: int| Seq::<i32>::empty())
}

pub open spec fn constant_at(s: Shape, code: Seq<char>) -> bool {
    s is Constant && s->Constant_0.code@ == code
}

proof fn lemma_rank_bound(st: Seq<Anies>, i: int, k: Kind)
    requires
        0 <= i,
    ensures
        rank(st, i, k) <= i,
    decreases i,
{
    if i > 0 {
        lemma_rank_bound(st, i - 1, k);
    }
}

proof fn lemma_rank_step(st: Seq<Anies>, i: int)
    requires
        0 <= i,
    ensures
        forall|k: Kind|
            #[trigger] rank(st, i + 1, k) == rank(st, i, k) + if st[i].kind() == k {
                1nat
            } else {
                0nat
            },
{
}

/// Interns the constant table into a bank that holds variables only.
fn intern_constants(store: &mut Bank)
    requires
        old(store).wf(),
        old(store).only_variables_below(old(store).nvars()),
        forall|k: Kind| #[trigger] old(store).vals_len(k) + 5 * old(store).e() <= usize::MAX,
    ensures
        final(store).wf(),
        final(store).extends(&*old(store)),
        constants_after(
            *final(store),
            old(store).progs_len(Kind::Int),
            old(store).progs_len(Kind::Str),
            old(store).progs_len(Kind::IntArray),
        ),
{
    let ghost b0 = *store;
    let e = store.examples;
    let consts = constants();
    proof {
        lemma_bank_extends_refl(b0);
        reveal_strlit("0");
        reveal_strlit("1");
        reveal_strlit("");
        reveal_strlit(" ");
    }
    if let ConstVal::Int(code, v) = &consts[0] {
        let res = <Int as Store>::put_constant(store, code, *v);
        proof {
            if res is Err {
                let p = res->Err_0@ as int;
                assert(b0.prog_ok(b0.ints.progs@[p]));
            }
        }
    }
    let ghost b1 = *store;
    if let ConstVal::Int(code, v) = &consts[1] {
        let res = <Int as Store>::put_constant(store, code, *v);
        proof {
            if res is Err {
                let p = res->Err_0@ as int;
                if p < b0.ints.progs@.len() {
                    assert(b1.ints.progs@[p] == b0.ints.progs@[p]);
                    assert(b0.prog_ok(b0.ints.progs@[p]));
                } else {
                    assert(b1.ints.values_of(p, b1.e())[0] == 0i32);
                }
            }
        }
    }
    let ghost b2 = *store;
    if let ConstVal::Str(code, v) = &consts[2] {
        let res = <Str as Store>::put_constant(store, code, v.clone());
        proof {
            if res is Err {
                let p = res->Err_0@ as int;
                assert(b2.prog_ok(b2.strs.progs@[p]));
            }
        }
    }
    let ghost b3 = *store;
    if let ConstVal::Str(code, v) = &consts[3] {
        let res = <Str as Store>::put_constant(store, code, v.clone());
        proof {
            if res is Err {
                let p = res->Err_0@ as int;
                if p < b0.strs.progs@.len() {
                    assert(b3.strs.progs@[p] == b0.strs.progs@[p]);
                    assert(b0.prog_ok(b0.strs.progs@[p]));
                } else {
                    assert(b3.strs.values_of(p, b3.e())[0] == ""@);
                }
            }
        }
    }
    let ghost b4 = *store;
    if let ConstVal::IntArray(code, v) = &consts[4] {
        let c = v.clone();
        proof {
            assert(c@ =~= Seq::<i32>::empty());
            assert(Seq::new(e as nat, |j: int| c@) =~= Seq::new(e as nat, |j: int| Seq::<i32>::empty()));
        }
        let res = <IntArray as Store>::put_constant(store, code, c);
        proof {
            if res is Err {
                let p = res->Err_0@ as int;
                assert(b4.prog_ok(b4.int_arrs.progs@[p]));
            }
        }
    }
    proof {
        lemma_extends_trans(b0, b1, b2);
        lemma_extends_trans(b0, b2, b3);
        lemma_extends_trans(b0, b3, b4);
        lemma_extends_trans(b0, b4, *store);
        let ni = b0.ints.progs@.len() as int;
        let ns = b0.strs.progs@.len() as int;
        assert(b1.prog_ok(b1.ints.progs@[ni]));
        lemma_values_of_mono(b1.ints, b2.ints, b0.e(), ni);
        assert(b3.prog_ok(b3.strs.progs@[ns]));
        lemma_values_of_mono(b3.strs, b4.strs, b0.e(), ns);
    }
}

impl Synthesizer {
    /// The bank is well formed and the live enumerator belongs to the
    /// current operator and level; with no operators there is none.
    pub closed spec fn inv(&self) -> bool {
        &&& self.store.wf()
        &&& self.curr_level.0 >= 1
        &&& match self.curr_enum {
            Some(e) => {
                &&& e.inv(&self.store)
                &&& e.level() == self.curr_level
                &&& self.curr_vocab < self.vocab@.len()
            },
            None => self.vocab@.len() == 0,
        }
    }

    pub closed spec fn bank(&self) -> Bank {
        self.store
    }

    /// The number of operators in the vocabulary.
    pub closed spec fn operators(&self) -> nat {
        self.vocab@.len()
    }

    /// The level being enumerated.
    pub closed spec fn level(&self) -> Level {
        self.curr_level
    }

    /// The position of the current operator in the vocabulary.
    pub closed spec fn vocab_idx(&self) -> usize {
        self.curr_vocab
    }

    /// The enumeration state: level, operator and what the live enumerator
    /// has left, compared in that order.
    pub closed spec fn progress(&self) -> (int, int, nat) {
        (
            u8::MAX - self.curr_level.0,
            self.vocab@.len() - self.curr_vocab,
            match self.curr_enum {
                Some(e) => e.remaining(),
                None => 0,
            },
        )
    }

    /// Builds the bank for `task`: interns its variables in slot order and
    /// the constant table, then starts at level 1 with the first operator
    /// over the programs stored then. Per kind, the variables of that kind
    /// come first, in slot order, and the constants follow in table order.
    #[verifier::rlimit(100)]
    #[verifier::spinoff_prover]
    pub fn new(vocab: Vec<Builder>, task: SynthesisTask) -> (r: Self)
        requires
            task.wf(),
        ensures
            r.inv(),
            r.bank().examples == task.examples,
            names_of(r.bank().var_map) == names_of(task.var_map),
            r.level().0 == 1,
            r.vocab_idx() == 0,
            r.operators() == vocab@.len(),
            r.started(),
            forall|i: int|
                0 <= i < task.before_state@.len() ==> r.bank().holds_variable(
                    (
                        task.before_state@[i].kind(),
                        rank(task.before_state@, i, task.before_state@[i].kind()) as usize,
                    ),
                    names_of(task.var_map)[i]@,
                    i as usize,
                    #[trigger] task.before_state@[i],
                ),
            ({
                let st = task.before_state@;
                let n = st.len() as int;
                constants_after(
                    r.bank(),
                    rank(st, n, Kind::Int),
                    rank(st, n, Kind::Str),
                    rank(st, n, Kind::IntArray),
                )
            }),
    {
        let mut store = Bank::new(task.examples, task.var_map.duplicate());
        let n = task.before_state.len();
        let e = task.examples;
        let ghost st = task.before_state@;
        let mut i: usize = 0;
        while i < n
            invariant
                task.wf(),
                st == task.before_state@,
                n == st.len(),
                e == task.examples,
                i <= n,
                store.wf(),
                store.examples == task.examples,
                names_of(store.var_map) == names_of(task.var_map),
                forall|k: Kind| #[trigger] store.vals_len(k) <= i * e,
                forall|k: Kind| #[trigger] store.progs_len(k) == rank(st, i as int, k),
                store.only_variables_below(i as nat),
                forall|j: int|
                    0 <= j < i ==> store.holds_variable(
                        (st[j].kind(), rank(st, j, st[j].kind()) as usize),
                        names_of(task.var_map)[j]@,
                        j as usize,
                        #[trigger] st[j],
                    ),
            decreases n - i,
        {
            proof {
                assert(st[i as int].len() == task.examples);
                assert((i + 2) * e <= (n + 8) * e) by (nonlinear_arith)
                    requires i <= n;
                assert(i * e + 2 * e == (i + 2) * e) by (nonlinear_arith);
                assert(n + 8 <= (n + 8) * e) by (nonlinear_arith)
                    requires e >= 1;
                assert forall|k: Kind| #[trigger] rank(st, i as int, k) <= i by {
                    lemma_rank_bound(st, i as int, k);
                }
            }
            let ghost b1 = store;
            let ghost nm = names_of(task.var_map)[i as int]@;
            let name = task.var_map.name(i).clone();
            match &task.before_state[i] {
                Anies::Int(v) => {
                    let vs = copy_values(v);
                    let res = <Int as Store>::put_variable(&mut store, name, vs, i);
                    proof {
                        if res is Err {
                            let p = res->Err_0@ as int;
                            assert(b1.prog_ok(b1.ints.progs@[p]));
                            let ptr = b1.ints.progs@[p].shape->Variable_0.pointer as int;
                            assert(names_of(task.var_map)[ptr]@ != nm);
                        }
                        let q = res->Ok_0@ as int;
                        assert(q == rank(st, i as int, Kind::Int));
                        assert(store.holds_variable((Kind::Int, q as usize), nm, i, st[i as int]));
                        assert(store.ints.progs@.subrange(0, q) == b1.ints.progs@);
                        assert forall|r: int| 0 <= r < q implies store.ints.progs@[r] == b1.ints.progs@[r] by {
                            assert(store.ints.progs@.subrange(0, q)[r] == store.ints.progs@[r]);
                        }
                    }
                },
                Anies::Str(v) => {
                    let vs = copy_values(v);
                    let res = <Str as Store>::put_variable(&mut store, name, vs, i);
                    proof {
                        if res is Err {
                            let p = res->Err_0@ as int;
                            assert(b1.prog_ok(b1.strs.progs@[p]));
                            let ptr = b1.strs.progs@[p].shape->Variable_0.pointer as int;
                            assert(names_of(task.var_map)[ptr]@ != nm);
                        }
                        let q = res->Ok_0@ as int;
                        assert(q == rank(st, i as int, Kind::Str));
                        assert(store.holds_variable((Kind::Str, q as usize), nm, i, st[i as int]));
                        assert(store.strs.progs@.subrange(0, q) == b1.strs.progs@);
                        assert forall|r: int| 0 <= r < q implies store.strs.progs@[r] == b1.strs.progs@[r] by {
                            assert(store.strs.progs@.subrange(0, q)[r] == store.strs.progs@[r]);
                        }
                    }
                },
                Anies::IntArray(v) => {
                    let vs = copy_values(v);
                    let res = <IntArray as Store>::put_variable(&mut store, name, vs, i);
                    proof {
                        if res is Err {
                            let p = res->Err_0@ as int;
                            assert(b1.prog_ok(b1.int_arrs.progs@[p]));
                            let ptr = b1.int_arrs.progs@[p].shape->Variable_0.pointer as int;
                            assert(names_of(task.var_map)[ptr]@ != nm);
                        }
                        let q = res->Ok_0@ as int;
                        assert(q == rank(st, i as int, Kind::IntArray));
                        assert(store.holds_variable((Kind::IntArray, q as usize), nm, i, st[i as int]));
                        assert(store.int_arrs.progs@.subrange(0, q) == b1.int_arrs.progs@);
                        assert forall|r: int| 0 <= r < q implies store.int_arrs.progs@[r] == b1.int_arrs.progs@[r] by {
                            assert(store.int_arrs.progs@.subrange(0, q)[r] == store.int_arrs.progs@[r]);
                        }
                    }
                },
            }
            proof {
                lemma_rank_step(st, i as int);
                assert forall|j: int|
                    0 <= j < i + 1 implies store.holds_variable(
                        (st[j].kind(), rank(st, j, st[j].kind()) as usize),
                        names_of(task.var_map)[j]@,
                        j as usize,
                        #[trigger] st[j],
                    ) by {
                    if j < i {
                        lemma_holds_mono(
                            b1,
                            store,
                            (st[j].kind(), rank(st, j, st[j].kind()) as usize),
                            names_of(task.var_map)[j]@,
                            j as usize,
                            st[j],
                        );
                    }
                }
                assert((i + 1) * e == i * e + e) by (nonlinear_arith);
                assert forall|k: Kind| #[trigger] store.vals_len(k) <= (i + 1) * e by {
                    assert(store.vals_len(k) <= b1.vals_len(k) + e);
                }
            }
            i = i + 1;
        }
        proof {
            assert((n + 5) * e <= (n + 8) * e) by (nonlinear_arith);
            assert(n * e + 5 * e == (n + 5) * e) by (nonlinear_arith);
        }
        let ghost b2 = store;
        intern_constants(&mut store);
        proof {
            assert forall|j: int|
                0 <= j < n implies store.holds_variable(
                    (st[j].kind(), rank(st, j, st[j].kind()) as usize),
                    names_of(task.var_map)[j]@,
                    j as usize,
                    #[trigger] st[j],
                ) by {
                lemma_holds_mono(
                    b2,
                    store,
                    (st[j].kind(), rank(st, j, st[j].kind()) as usize),
                    names_of(task.var_map)[j]@,
                    j as usize,
                    st[j],
                );
            }
        }
        let curr_level = Level(1);
        let curr_enum = if vocab.len() > 0 {
            Some(vocab[0].enumerator(curr_level, &store))
        } else {
            None
        };
        Synthesizer { vocab, store, task, curr_enum, curr_level, curr_vocab: 0 }
    }

    /// The live enumerator is the current operator's, made at the current
    /// level over the programs stored when the synthesizer was built.
    pub closed spec fn started(&self) -> bool {
        self.curr_enum matches Some(e) ==> self.vocab@[0].makes(e, self.curr_level, self.store)
    }

    /// The bank, to print code or read values.
    pub fn store(&self) -> (r: &Bank)
        requires
            self.inv(),
        ensures
            *r == self.bank(),
            r.wf(),
    {
        &self.store
    }

    /// The next admitted program, or `None` once every level up to the
    /// largest has been enumerated (at once, with no operators) or the
    /// arenas are full.
    pub fn next(&mut self) -> (r: Option<AnyProg>)
        requires
            old(self).inv(),
        ensures
            final(self).inv(),
            final(self).bank().extends(&old(self).bank()),
            r matches Some(p) ==> final(self).bank().has(p@) && p@.1 + 1 == final(self).bank().progs_len(
                p@.0,
            ) && p@.1 >= old(self).bank().progs_len(p@.0),
            old(self).operators() == 0 ==> r is None && *final(self) == *old(self),
            r matches Some(p) ==> final(self).bank().level_at(p@) == final(self).level().0,
            final(self).level().0 > old(self).level().0 || (final(self).level() == old(self).level()
                && final(self).vocab_idx() >= old(self).vocab_idx()),
            r matches Some(p) ==> exists|t: Seq<Synthesizer>|
                {
                    &&& #[trigger] run(t)
                    &&& t[0] == *old(self)
                    &&& emits(t.last(), *final(self), p)
                },
            r is None ==> old(self).operators() == 0 || exists|t: Seq<Synthesizer>|
                {
                    &&& #[trigger] run(t)
                    &&& t[0] == *old(self)
                    &&& t.last().bank() == final(self).bank()
                    &&& (!final(self).bank().has_room() || terminal(t.last()))
                },
    {
        let ghost b0 = self.store;
        proof {
            lemma_bank_extends_refl(b0);
        }
        if self.curr_enum.is_none() {
            return None;
        }
        let ghost mut trace: Seq<Synthesizer> = seq![*self];
        loop
            invariant
                self.inv(),
                self.store.extends(&b0),
                b0 == old(self).store,
                self.vocab@.len() == old(self).vocab@.len(),
                self.vocab@.len() > 0,
                run(trace),
                trace[0] == *old(self),
                self.curr_level.0 > old(self).curr_level.0 || (self.curr_level == old(self).curr_level
                    && self.curr_vocab >= old(self).curr_vocab),
                trace.last() == *self,
            decreases self.progress().0, self.progress().1, self.progress().2,
        {
            if !self.store.room() {
                return None;
            }
            let ghost s1 = *self;
            let ghost b1 = self.store;
            let step = match &mut self.curr_enum {
                Some(e) => e.next(&mut self.store),
                None => {
                    return None;
                },
            };
            proof {
                lemma_extends_trans(b0, b1, self.store);
            }
            match step {
                Step::Emitted(p) => {
                    proof {
                        assert(emits(trace.last(), *self, p));
                    }
                    return Some(p);
                },
                Step::Skipped(k) => {
                    proof {
                        let e1 = s1.curr_enum->Some_0;
                        let e2 = self.curr_enum->Some_0;
                        assert(e1.stepped(&e2, s1.store, self.store, Step::Skipped(k)));
                        assert(quiet_step(s1, *self));
                        lemma_run_push(trace, *self);
                        trace = trace.push(*self);
                    }
                },
                Step::Done => {
                    proof {
                        assert(self.curr_enum is Some);
                        assert(self.curr_vocab < self.vocab@.len());
                    }
                    if self.vocab.len() - self.curr_vocab > 1 {
                        self.curr_vocab = self.curr_vocab + 1;
                    } else {
                        if self.curr_level.0 == u8::MAX {
                            return None;
                        }
                        self.curr_level.inc();
                        self.curr_vocab = 0;
                    }
                    self.curr_enum = Some(
                        self.vocab[self.curr_vocab].enumerator(self.curr_level, &self.store),
                    );
                    proof {
                        assert(quiet_step(s1, *self));
                        lemma_run_push(trace, *self);
                        trace = trace.push(*self);
                    }
                },
            }
        }
    }
}

/// One driver step that admits nothing: the live enumerator skips a
/// candidate, or it is exhausted and the driver starts the next operator,
/// or the first operator at the next level after the last operator.
pub closed spec fn quiet_step(s1: Synthesizer, s2: Synthesizer) -> bool {
    &&& s2.vocab == s1.vocab
    &&& s2.task == s1.task
    &&& s1.curr_enum is Some
    &&& s2.curr_enum is Some
    &&& {
        let e1 = s1.curr_enum->Some_0;
        let e2 = s2.curr_enum->Some_0;
        ||| {
            &&& exists|k: Skip| #[trigger] e1.stepped(&e2, s1.store, s2.store, Step::Skipped(k))
            &&& s2.curr_level == s1.curr_level
            &&& s2.curr_vocab == s1.curr_vocab
        }
        ||| {
            &&& e1.remaining() == 0
            &&& s2.store == s1.store
            &&& if s1.curr_vocab + 1 < s1.vocab@.len() {
                &&& s2.curr_vocab == s1.curr_vocab + 1
                &&& s2.curr_level == s1.curr_level
            } else {
                &&& s1.curr_level.0 < u8::MAX
                &&& s2.curr_vocab == 0
                &&& s2.curr_level.0 == s1.curr_level.0 + 1
            }
            &&& s1.vocab@[s2.curr_vocab as int].makes(e2, s2.curr_level, s2.store)
        }
    }
}

/// Consecutive states are related by quiet steps.
pub closed spec fn run(t: Seq<Synthesizer>) -> bool {
    &&& t.len() >= 1
    &&& forall|i: int| 0 <= i < t.len() - 1 ==> #[trigger] quiet_step(t[i], t[i + 1])
}

/// The live enumerator of `s1` admits `p`, giving `s2`.
pub closed spec fn emits(s1: Synthesizer, s2: Synthesizer, p: AnyProg) -> bool {
    &&& s1.curr_enum is Some
    &&& s2.curr_enum is Some
    &&& s2.curr_level == s1.curr_level
    &&& s2.curr_vocab == s1.curr_vocab
    &&& (s1.curr_enum->Some_0).stepped(&(s2.curr_enum->Some_0), s1.store, s2.store, Step::Emitted(p))
}

/// The last operator at the highest level has nothing left.
pub closed spec fn terminal(s: Synthesizer) -> bool {
    &&& s.curr_level.0 == u8::MAX
    &&& s.curr_vocab + 1 == s.vocab@.len()
    &&& s.curr_enum is Some
    &&& (s.curr_enum->Some_0).remaining() == 0
}

proof fn lemma_run_push(t: Seq<Synthesizer>, s: Synthesizer)
    requires
        run(t),
        quiet_step(t.last(), s),
    ensures
        run(t.push(s)),
{
    let u = t.push(s);
    assert forall|i: int| 0 <= i < u.len() - 1 implies #[trigger] quiet_step(u[i], u[i + 1]) by {
        if i < t.len() - 1 {
            assert(u[i] == t[i] && u[i + 1] == t[i + 1]);
        } else {
            assert(u[i] == t.last() && u[i + 1] == s);
        }
    }
}

} // verus!
