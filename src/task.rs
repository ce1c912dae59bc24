//! A synthesis task as the core sees it: the variables, in slot order, with
//! their values on each example.
use crate::store::{names_of, VarMap};
use crate::values::{Anies, Kind};
use vstd::prelude::*;

verus! {

pub struct SynthesisTask {
    /// The variable names; a name's position is its slot.
    pub var_map: VarMap,
    /// The values of each variable, one per example, in slot order.
    pub before_state: Vec<Anies>,
    pub examples: usize,
}

/// How many of the first `i` variables are of kind `k`: the position of
/// variable `i` among the programs of its kind.
pub open spec fn rank(states: Seq<Anies>, i: int, k: Kind) -> nat
    decreases i,
{
    if i <= 0 {
        0
    } else {
        rank(states, i - 1, k) + if states[i - 1].kind() == k {
            1nat
        } else {
            0nat
        }
    }
}

impl SynthesisTask {
    /// At least one example, one value per example for every variable, and
    /// few enough values that the bank's arenas can be addressed.
    pub open spec fn wf(&self) -> bool {
        &&& self.examples > 0
        &&& names_of(self.var_map).len() == self.before_state@.len()
        &&& forall|i: int|
            0 <= i < self.before_state@.len() ==> #[trigger] self.before_state@[i].len()
                == self.examples
        &&& (self.before_state@.len() + 8) * self.examples <= usize::MAX
        &&& forall|i: int, j: int|
            0 <= i < j < names_of(self.var_map).len() ==> (#[trigger] names_of(self.var_map)[i])@
                != (#[trigger] names_of(self.var_map)[j])@
    }

    /// The task with `variables`, in the given order, over `examples`
    /// examples.
    pub fn new(variables: Vec<(String, Anies)>, examples: usize) -> (r: SynthesisTask)
        ensures
            r.examples == examples,
            names_of(r.var_map) == variables@.map_values(|v: (String, Anies)| v.0),
            r.before_state@ == variables@.map_values(|v: (String, Anies)| v.1),
    {
        let ghost orig = variables@;
        let mut rest = variables;
        let mut names: Vec<String> = Vec::new();
        let mut states: Vec<Anies> = Vec::new();
        while rest.len() > 0
            invariant
                names@.len() == states@.len(),
                names@.len() + rest@.len() == orig.len(),
                rest@ == orig.subrange(names@.len() as int, orig.len() as int),
                names@ == orig.subrange(0, names@.len() as int).map_values(|v: (String, Anies)| v.0),
                states@ == orig.subrange(0, states@.len() as int).map_values(|v: (String, Anies)| v.1),
            decreases rest@.len(),
        {
            let ghost k = names@.len() as int;
            let (name, state) = rest.remove(0);
            names.push(name);
            states.push(state);
            proof {
                assert(rest@ =~= orig.subrange(k + 1, orig.len() as int));
                assert(names@ =~= orig.subrange(0, k + 1).map_values(|v: (String, Anies)| v.0));
                assert(states@ =~= orig.subrange(0, k + 1).map_values(|v: (String, Anies)| v.1));
            }
        }
        proof {
            assert(orig.subrange(0, orig.len() as int) =~= orig);
        }
        SynthesisTask { var_map: VarMap::from_names(names), before_state: states, examples }
    }

    pub fn examples(&self) -> (r: usize)
        ensures
            r == self.examples,
    {
        self.examples
    }

    /// The number of variables.
    pub fn variables(&self) -> (r: usize)
        ensures
            r == self.before_state@.len(),
    {
        self.before_state.len()
    }

    /// The name and values of the variable in slot `i`.
    pub fn variable(&self, i: usize) -> (r: (&String, &Anies))
        requires
            self.wf(),
            i < self.before_state@.len(),
        ensures
            *r.0 == names_of(self.var_map)[i as int],
            *r.1 == self.before_state@[i as int],
    {
        (self.var_map.name(i), &self.before_state[i])
    }

    /// Whether the task meets `wf`.
    pub fn is_valid(&self) -> (r: bool)
        ensures
            r == self.wf(),
    {
        if self.examples == 0 || self.var_map.len() != self.before_state.len() {
            return false;
        }
        if self.before_state.len() > usize::MAX - 8 {
            proof {
                let n = self.before_state@.len() as int;
                let e = self.examples as int;
                assert((n + 8) * e >= n + 8) by (nonlinear_arith)
                    requires e >= 1, n >= 0;
            }
            return false;
        }
        match (self.before_state.len() + 8).checked_mul(self.examples) {
            Some(_) => {},
            None => {
                return false;
            },
        }
        let n = self.var_map.len();
        let mut a: usize = 0;
        while a < n
            invariant
                n == names_of(self.var_map).len(),
                a <= n,
                forall|i: int, j: int|
                    0 <= i < j < n && i < a ==> (#[trigger] names_of(self.var_map)[i])@ != (
                    #[trigger] names_of(self.var_map)[j])@,
            decreases n - a,
        {
            let mut b: usize = a + 1;
            while b < n
                invariant
                    n == names_of(self.var_map).len(),
                    a < n,
                    a + 1 <= b <= n,
                    forall|i: int, j: int|
                        0 <= i < j < n && i < a ==> (#[trigger] names_of(self.var_map)[i])@ != (
                        #[trigger] names_of(self.var_map)[j])@,
                    forall|j: int|
                        a < j < b ==> names_of(self.var_map)[a as int]@ != (
                        #[trigger] names_of(self.var_map)[j])@,
                decreases n - b,
            {
                if *self.var_map.name(a) == *self.var_map.name(b) {
                    return false;
                }
                b = b + 1;
            }
            a = a + 1;
        }
        let mut i: usize = 0;
        while i < self.before_state.len()
            invariant
                i <= self.before_state@.len(),
                forall|j: int| 0 <= j < i ==> #[trigger] self.before_state@[j].len() == self.examples,
            decreases self.before_state@.len() - i,
        {
            if self.before_state[i].size() != self.examples {
                return false;
            }
            i = i + 1;
        }
        true
    }
}

} // verus!
