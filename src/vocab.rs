//! The operators of the vocabulary: how each evaluates across the examples,
//! and how each prints.
use crate::cond::{Mutation, Pointer};
use crate::enumerate::{BinBuilder, Builder, UniBuilder};
use crate::program::{BinaryOp, UnaryOp};
use crate::store::views;
use crate::values::{Anies, Int, IntArray, Str};
use vstd::prelude::*;
use vstd::string::{StrSliceExecFns, StringExecFns};
use vstd::utf8::is_ascii_chars;

verus! {

pub open spec fn in_i32(x: int) -> bool {
    i32::MIN <= x <= i32::MAX
}

/// The models of `i32` values are the values themselves.
pub proof fn lemma_views_int(s: Seq<i32>)
    ensures
        views(s) == s,
{
    assert(views(s) =~= s);
}

/// Element-wise sum; undefined where a sum leaves `i32`.
pub open spec fn sum_spec(a: Seq<i32>, b: Seq<i32>) -> Option<Seq<i32>> {
    if forall|i: int| 0 <= i < a.len() ==> in_i32(#[trigger] a[i] + b[i]) {
        Some(Seq::new(a.len(), |i: int| (a[i] + b[i]) as i32))
    } else {
        None
    }
}

/// Element-wise difference; undefined where a difference leaves `i32`.
pub open spec fn sub_spec(a: Seq<i32>, b: Seq<i32>) -> Option<Seq<i32>> {
    if forall|i: int| 0 <= i < a.len() ==> in_i32(#[trigger] a[i] - b[i]) {
        Some(Seq::new(a.len(), |i: int| (a[i] - b[i]) as i32))
    } else {
        None
    }
}

/// Element-wise negation; undefined on `i32::MIN`.
pub open spec fn minus_spec(a: Seq<i32>) -> Option<Seq<i32>> {
    if forall|i: int| 0 <= i < a.len() ==> in_i32(-#[trigger] a[i]) {
        Some(Seq::new(a.len(), |i: int| (-a[i]) as i32))
    } else {
        None
    }
}

/// The values that a postfix increment writes back.
pub open spec fn inc_write(a: Seq<i32>) -> Seq<i32> {
    Seq::new(a.len(), |i: int| (a[i] + 1) as i32)
}

/// A postfix increment yields the old values; it is defined only on an
/// L-value whose increment stays in `i32`.
pub open spec fn inc_spec(a: Seq<i32>, pointer: Option<Pointer>) -> Option<Seq<i32>> {
    if pointer is Some && forall|i: int| 0 <= i < a.len() ==> in_i32(#[trigger] a[i] + 1) {
        Some(a)
    } else {
        None
    }
}

/// The number of characters of each string; undefined where it exceeds
/// `i32`.
pub open spec fn str_len_spec(a: Seq<Seq<char>>) -> Option<Seq<i32>> {
    if forall|i: int| 0 <= i < a.len() ==> #[trigger] a[i].len() <= i32::MAX {
        Some(Seq::new(a.len(), |i: int| a[i].len() as i32))
    } else {
        None
    }
}

/// The character at an index of an ASCII string, as a string; undefined on
/// a non-ASCII string or an index out of range.
pub open spec fn str_deref_spec(a: Seq<Seq<char>>, b: Seq<i32>) -> Option<Seq<Seq<char>>> {
    if forall|i: int|
        0 <= i < a.len() ==> is_ascii_chars(#[trigger] a[i]) && 0 <= b[i] < a[i].len() {
        Some(Seq::new(a.len(), |i: int| a[i].subrange(b[i] as int, b[i] + 1)))
    } else {
        None
    }
}

/// The element at an index; undefined on an index out of range.
pub open spec fn arr_deref_spec(a: Seq<Seq<i32>>, b: Seq<i32>) -> Option<Seq<i32>> {
    if forall|i: int| 0 <= i < a.len() ==> 0 <= #[trigger] b[i] < a[i].len() {
        Some(Seq::new(a.len(), |i: int| a[i][b[i] as int]))
    } else {
        None
    }
}

/// The length of each array; undefined where it exceeds `i32`.
pub open spec fn arr_len_spec(a: Seq<Seq<i32>>) -> Option<Seq<i32>> {
    if forall|i: int| 0 <= i < a.len() ==> #[trigger] a[i].len() <= i32::MAX {
        Some(Seq::new(a.len(), |i: int| a[i].len() as i32))
    } else {
        None
    }
}

/// `push` yields the new length of each array; undefined where it exceeds
/// `i32`.
pub open spec fn push_spec(a: Seq<Seq<i32>>) -> Option<Seq<i32>> {
    if forall|i: int| 0 <= i < a.len() ==> #[trigger] a[i].len() + 1 <= i32::MAX {
        Some(Seq::new(a.len(), |i: int| (a[i].len() + 1) as i32))
    } else {
        None
    }
}

/// The arrays that `push` writes back.
pub open spec fn push_write(a: Seq<Seq<i32>>, b: Seq<i32>) -> Seq<Seq<i32>> {
    Seq::new(a.len(), |i: int| a[i].push(b[i]))
}

/// Where a slice starts: a negative index counts from the end (clamped at
/// 0), an index past the end is clamped to the end.
pub open spec fn slice_start(len: int, idx: int) -> int {
    if idx < 0 {
        if idx + len < 0 {
            0
        } else {
            idx + len
        }
    } else if idx > len {
        len
    } else {
        idx
    }
}

/// The suffix of each array from its slice start.
pub open spec fn slice_spec(a: Seq<Seq<i32>>, b: Seq<i32>) -> Seq<Seq<i32>> {
    Seq::new(a.len(), |i: int| a[i].subrange(slice_start(a[i].len() as int, b[i] as int), a[i].len() as int))
}

pub fn sum_eval(lhs: &[Int], rhs: &[Int]) -> (r: Option<Vec<Int>>)
    requires
        lhs@.len() == rhs@.len(),
    ensures
        match r {
            Some(v) => sum_spec(lhs@, rhs@) == Some(v@),
            None => sum_spec(lhs@, rhs@) is None,
        },
{
    let mut out: Vec<Int> = Vec::new();
    let mut k: usize = 0;
    while k < lhs.len()
        invariant
            lhs@.len() == rhs@.len(),
            k <= lhs@.len(),
            out@ == Seq::new(k as nat, |i: int| (lhs@[i] + rhs@[i]) as i32),
            forall|i: int| 0 <= i < k ==> in_i32(#[trigger] lhs@[i] + rhs@[i]),
        decreases lhs@.len() - k,
    {
        match lhs[k].checked_add(rhs[k]) {
            Some(x) => {
                out.push(x);
            },
            None => {
                return None;
            },
        }
        k = k + 1;
        proof {
            assert(out@ =~= Seq::new(k as nat, |i: int| (lhs@[i] + rhs@[i]) as i32));
        }
    }
    Some(out)
}

pub fn sub_eval(lhs: &[Int], rhs: &[Int]) -> (r: Option<Vec<Int>>)
    requires
        lhs@.len() == rhs@.len(),
    ensures
        match r {
            Some(v) => sub_spec(lhs@, rhs@) == Some(v@),
            None => sub_spec(lhs@, rhs@) is None,
        },
{
    let mut out: Vec<Int> = Vec::new();
    let mut k: usize = 0;
    while k < lhs.len()
        invariant
            lhs@.len() == rhs@.len(),
            k <= lhs@.len(),
            out@ == Seq::new(k as nat, |i: int| (lhs@[i] - rhs@[i]) as i32),
            forall|i: int| 0 <= i < k ==> in_i32(#[trigger] lhs@[i] - rhs@[i]),
        decreases lhs@.len() - k,
    {
        match lhs[k].checked_sub(rhs[k]) {
            Some(x) => {
                out.push(x);
            },
            None => {
                return None;
            },
        }
        k = k + 1;
        proof {
            assert(out@ =~= Seq::new(k as nat, |i: int| (lhs@[i] - rhs@[i]) as i32));
        }
    }
    Some(out)
}

pub fn minus_eval(arg: &[Int]) -> (r: Option<Vec<Int>>)
    ensures
        match r {
            Some(v) => minus_spec(arg@) == Some(v@),
            None => minus_spec(arg@) is None,
        },
{
    let mut out: Vec<Int> = Vec::new();
    let mut k: usize = 0;
    while k < arg.len()
        invariant
            k <= arg@.len(),
            out@ == Seq::new(k as nat, |i: int| (-arg@[i]) as i32),
            forall|i: int| 0 <= i < k ==> in_i32(-#[trigger] arg@[i]),
        decreases arg@.len() - k,
    {
        if arg[k] == i32::MIN {
            return None;
        }
        out.push(-arg[k]);
        k = k + 1;
        proof {
            assert(out@ =~= Seq::new(k as nat, |i: int| (-arg@[i]) as i32));
        }
    }
    Some(out)
}

/// `x++` on every example: the old values, and a write of the incremented
/// ones to the variable's slot.
pub fn inc_eval(arg: &[Int], pointer: Option<Pointer>) -> (r: Option<(Vec<Int>, Option<Mutation>)>)
    ensures
        match r {
            Some((v, m)) => {
                &&& inc_spec(arg@, pointer) == Some(v@)
                &&& m is Some
                &&& pointer == Some(m->Some_0.pointer)
                &&& m->Some_0.values is Int
                &&& m->Some_0.values->Int_0@ == inc_write(arg@)
            },
            None => inc_spec(arg@, pointer) is None,
        },
{
    let ptr = match pointer {
        Some(p) => p,
        None => {
            return None;
        },
    };
    let mut old_vals: Vec<Int> = Vec::new();
    let mut new_vals: Vec<Int> = Vec::new();
    let mut k: usize = 0;
    while k < arg.len()
        invariant
            k <= arg@.len(),
            old_vals@ == arg@.subrange(0, k as int),
            new_vals@ == Seq::new(k as nat, |i: int| (arg@[i] + 1) as i32),
            forall|i: int| 0 <= i < k ==> in_i32(#[trigger] arg@[i] + 1),
        decreases arg@.len() - k,
    {
        match arg[k].checked_add(1) {
            Some(x) => {
                new_vals.push(x);
            },
            None => {
                return None;
            },
        }
        old_vals.push(arg[k]);
        k = k + 1;
        proof {
            assert(old_vals@ =~= arg@.subrange(0, k as int));
            assert(new_vals@ =~= Seq::new(k as nat, |i: int| (arg@[i] + 1) as i32));
        }
    }
    proof {
        assert(old_vals@ =~= arg@);
    }
    Some((old_vals, Some(Mutation::new(ptr, Anies::Int(new_vals)))))
}

pub fn str_len_eval(arg: &[Str]) -> (r: Option<Vec<Int>>)
    ensures
        match r {
            Some(v) => str_len_spec(views(arg@)) == Some(v@),
            None => str_len_spec(views(arg@)) is None,
        },
{
    let mut out: Vec<Int> = Vec::new();
    let mut k: usize = 0;
    while k < arg.len()
        invariant
            k <= arg@.len(),
            out@ == Seq::new(k as nat, |i: int| arg@[i]@.len() as i32),
            forall|i: int| 0 <= i < k ==> #[trigger] arg@[i]@.len() <= i32::MAX,
        decreases arg@.len() - k,
    {
        proof {
            assert(views(arg@)[k as int] == arg@[k as int]@);
        }
        let n = arg[k].as_str().unicode_len();
        if n > i32::MAX as usize {
            return None;
        }
        out.push(n as i32);
        k = k + 1;
        proof {
            assert(out@ =~= Seq::new(k as nat, |i: int| arg@[i]@.len() as i32));
        }
    }
    proof {
        assert(views(arg@).len() == arg@.len());
        assert forall|i: int| 0 <= i < arg@.len() implies #[trigger] views(arg@)[i] == arg@[i]@ by {}
        assert(Seq::new(arg@.len(), |i: int| views(arg@)[i].len() as i32) =~= out@);
    }
    Some(out)
}

pub fn str_deref_eval(lhs: &[Str], rhs: &[Int]) -> (r: Option<Vec<Str>>)
    requires
        lhs@.len() == rhs@.len(),
    ensures
        match r {
            Some(v) => str_deref_spec(views(lhs@), rhs@) == Some(views(v@)),
            None => str_deref_spec(views(lhs@), rhs@) is None,
        },
{
    let mut out: Vec<Str> = Vec::new();
    let mut k: usize = 0;
    while k < lhs.len()
        invariant
            lhs@.len() == rhs@.len(),
            k <= lhs@.len(),
            out@.len() == k,
            forall|i: int|
                0 <= i < k ==> is_ascii_chars(#[trigger] lhs@[i]@) && 0 <= rhs@[i] < lhs@[i]@.len(),
            forall|i: int|
                0 <= i < k ==> #[trigger] out@[i]@ == lhs@[i]@.subrange(rhs@[i] as int, rhs@[i] + 1),
        decreases lhs@.len() - k,
    {
        proof {
            assert(views(lhs@)[k as int] == lhs@[k as int]@);
        }
        let s = lhs[k].as_str();
        let i = rhs[k];
        if !s.is_ascii() || i < 0 {
            return None;
        }
        let iu = i as usize;
        if iu >= s.unicode_len() {
            return None;
        }
        let c = s.substring_ascii(iu, iu + 1).to_owned();
        out.push(c);
        k = k + 1;
    }
    proof {
        assert(views(out@) =~= Seq::new(
            views(lhs@).len(),
            |i: int| views(lhs@)[i].subrange(rhs@[i] as int, rhs@[i] + 1),
        ));
    }
    Some(out)
}

pub fn arr_deref_eval(lhs: &[IntArray], rhs: &[Int]) -> (r: Option<Vec<Int>>)
    requires
        lhs@.len() == rhs@.len(),
    ensures
        match r {
            Some(v) => arr_deref_spec(views(lhs@), rhs@) == Some(v@),
            None => arr_deref_spec(views(lhs@), rhs@) is None,
        },
{
    let mut out: Vec<Int> = Vec::new();
    let mut k: usize = 0;
    while k < lhs.len()
        invariant
            lhs@.len() == rhs@.len(),
            k <= lhs@.len(),
            out@.len() == k,
            forall|i: int| 0 <= i < k ==> 0 <= #[trigger] rhs@[i] < lhs@[i]@.len(),
            forall|i: int| 0 <= i < k ==> #[trigger] out@[i] == lhs@[i]@[rhs@[i] as int],
        decreases lhs@.len() - k,
    {
        let i = rhs[k];
        if i < 0 || i as usize >= lhs[k].len() {
            return None;
        }
        out.push(lhs[k][i as usize]);
        k = k + 1;
    }
    proof {
        assert(out@ =~= Seq::new(views(lhs@).len(), |i: int| views(lhs@)[i][rhs@[i] as int]));
    }
    Some(out)
}

pub fn arr_len_eval(arg: &[IntArray]) -> (r: Option<Vec<Int>>)
    ensures
        match r {
            Some(v) => arr_len_spec(views(arg@)) == Some(v@),
            None => arr_len_spec(views(arg@)) is None,
        },
{
    let mut out: Vec<Int> = Vec::new();
    let mut k: usize = 0;
    while k < arg.len()
        invariant
            k <= arg@.len(),
            out@.len() == k,
            forall|i: int| 0 <= i < k ==> #[trigger] arg@[i]@.len() <= i32::MAX,
            forall|i: int| 0 <= i < k ==> #[trigger] out@[i] == arg@[i]@.len() as i32,
        decreases arg@.len() - k,
    {
        proof {
            assert(views(arg@)[k as int] == arg@[k as int]@);
        }
        let n = arg[k].len();
        if n > i32::MAX as usize {
            return None;
        }
        out.push(n as i32);
        k = k + 1;
    }
    proof {
        assert(out@ =~= Seq::new(views(arg@).len(), |i: int| views(arg@)[i].len() as i32));
    }
    Some(out)
}

/// `arr.push(elem)` on every example: the new lengths, and, where `arr` is
/// an L-value, a write of the grown arrays to its slot.
pub fn push_eval(arr: &[IntArray], elem: &[Int], pointer: Option<Pointer>) -> (r: Option<
    (Vec<Int>, Option<Mutation>),
>)
    requires
        arr@.len() == elem@.len(),
    ensures
        match r {
            Some((v, m)) => {
                &&& push_spec(views(arr@)) == Some(v@)
                &&& match m {
                    Some(mm) => {
                        &&& pointer == Some(mm.pointer)
                        &&& mm.values is IntArray
                        &&& views(mm.values->IntArray_0@) == push_write(views(arr@), elem@)
                    },
                    None => pointer is None,
                }
            },
            None => push_spec(views(arr@)) is None,
        },
{
    let mut lens: Vec<Int> = Vec::new();
    let mut grown: Vec<IntArray> = Vec::new();
    let mut k: usize = 0;
    while k < arr.len()
        invariant
            arr@.len() == elem@.len(),
            k <= arr@.len(),
            lens@.len() == k,
            grown@.len() == k,
            forall|i: int| 0 <= i < k ==> #[trigger] arr@[i]@.len() + 1 <= i32::MAX,
            forall|i: int| 0 <= i < k ==> #[trigger] lens@[i] == (arr@[i]@.len() + 1) as i32,
            forall|i: int| 0 <= i < k ==> #[trigger] grown@[i]@ == arr@[i]@.push(elem@[i]),
        decreases arr@.len() - k,
    {
        proof {
            assert(views(arr@)[k as int] == arr@[k as int]@);
        }
        let n = arr[k].len();
        if n >= i32::MAX as usize {
            return None;
        }
        lens.push((n + 1) as i32);
        let mut a = arr[k].clone();
        proof {
            assert(a@ =~= arr@[k as int]@);
        }
        a.push(elem[k]);
        grown.push(a);
        k = k + 1;
    }
    proof {
        assert(lens@ =~= Seq::new(views(arr@).len(), |i: int| (views(arr@)[i].len() + 1) as i32));
        assert(views(grown@) =~= push_write(views(arr@), elem@));
    }
    let m = match pointer {
        Some(p) => Some(Mutation::new(p, Anies::IntArray(grown))),
        None => None,
    };
    Some((lens, m))
}

/// The suffix of `arr` that a slice from `idx` keeps.
fn slice_one(arr: &IntArray, idx: Int) -> (r: IntArray)
    ensures
        r@ == arr@.subrange(slice_start(arr@.len() as int, idx as int), arr@.len() as int),
{
    let len = arr.len();
    let start: usize = if idx < 0 {
        let back = (-(idx as i64)) as usize;
        if back > len {
            0
        } else {
            len - back
        }
    } else if idx as usize > len {
        len
    } else {
        idx as usize
    };
    let mut out: IntArray = Vec::new();
    let mut k: usize = start;
    while k < len
        invariant
            start <= k <= len == arr@.len(),
            start == slice_start(arr@.len() as int, idx as int),
            out@ == arr@.subrange(start as int, k as int),
        decreases len - k,
    {
        out.push(arr[k]);
        k = k + 1;
        proof {
            assert(out@ =~= arr@.subrange(start as int, k as int));
        }
    }
    out
}

pub fn bin_slice_eval(arr: &[IntArray], idx: &[Int]) -> (r: Vec<IntArray>)
    requires
        arr@.len() == idx@.len(),
    ensures
        views(r@) == slice_spec(views(arr@), idx@),
{
    let mut out: Vec<IntArray> = Vec::new();
    let mut k: usize = 0;
    while k < arr.len()
        invariant
            arr@.len() == idx@.len(),
            k <= arr@.len(),
            out@.len() == k,
            forall|i: int|
                0 <= i < k ==> #[trigger] out@[i]@ == arr@[i]@.subrange(
                    slice_start(arr@[i]@.len() as int, idx@[i] as int),
                    arr@[i]@.len() as int,
                ),
        decreases arr@.len() - k,
    {
        out.push(slice_one(&arr[k], idx[k]));
        k = k + 1;
    }
    proof {
        assert(views(out@) =~= slice_spec(views(arr@), idx@));
    }
    out
}


/// How a unary operator prints around its argument's code.
pub open spec fn unary_code_spec(op: UnaryOp, a: Seq<char>) -> Seq<char> {
    match op {
        UnaryOp::StrLen => a + ".length"@,
        UnaryOp::ArrLen => a + ".length"@,
        UnaryOp::Minus => "-"@ + a,
        UnaryOp::Inc => a + "++"@,
    }
}

/// How a binary operator prints around its arguments' code.
pub open spec fn binary_code_spec(op: BinaryOp, a: Seq<char>, b: Seq<char>) -> Seq<char> {
    match op {
        BinaryOp::StrDeref => a + "["@ + b + "]"@,
        BinaryOp::ArrDeref => a + "["@ + b + "]"@,
        BinaryOp::Sum => a + " + "@ + b,
        BinaryOp::Sub => a + " - "@ + b,
        BinaryOp::Push => a + ".push("@ + b + ")"@,
        BinaryOp::Slice => a + ".slice("@ + b + ")"@,
    }
}

pub fn len_code(arg: &str) -> (r: String)
    ensures
        r@ == arg@ + ".length"@,
{
    arg.to_owned().concat(".length")
}

pub fn minus_code(arg: &str) -> (r: String)
    ensures
        r@ == "-"@ + arg@,
{
    "-".to_owned().concat(arg)
}

pub fn inc_code(arg: &str) -> (r: String)
    ensures
        r@ == arg@ + "++"@,
{
    arg.to_owned().concat("++")
}

pub fn deref_code(lhs: &str, rhs: &str) -> (r: String)
    ensures
        r@ == lhs@ + "["@ + rhs@ + "]"@,
{
    lhs.to_owned().concat("[").concat(rhs).concat("]")
}

pub fn sum_code(lhs: &str, rhs: &str) -> (r: String)
    ensures
        r@ == lhs@ + " + "@ + rhs@,
{
    lhs.to_owned().concat(" + ").concat(rhs)
}

pub fn sub_code(lhs: &str, rhs: &str) -> (r: String)
    ensures
        r@ == lhs@ + " - "@ + rhs@,
{
    lhs.to_owned().concat(" - ").concat(rhs)
}

pub fn push_code(arr: &str, elem: &str) -> (r: String)
    ensures
        r@ == arr@ + ".push("@ + elem@ + ")"@,
{
    arr.to_owned().concat(".push(").concat(elem).concat(")")
}

pub fn bin_slice_code(arr: &str, idx: &str) -> (r: String)
    ensures
        r@ == arr@ + ".slice("@ + idx@ + ")"@,
{
    arr.to_owned().concat(".slice(").concat(idx).concat(")")
}

pub fn unary_code(op: UnaryOp, arg: &str) -> (r: String)
    ensures
        r@ == unary_code_spec(op, arg@),
{
    match op {
        UnaryOp::StrLen => len_code(arg),
        UnaryOp::ArrLen => len_code(arg),
        UnaryOp::Minus => minus_code(arg),
        UnaryOp::Inc => inc_code(arg),
    }
}

pub fn binary_code(op: BinaryOp, lhs: &str, rhs: &str) -> (r: String)
    ensures
        r@ == binary_code_spec(op, lhs@, rhs@),
{
    match op {
        BinaryOp::StrDeref => deref_code(lhs, rhs),
        BinaryOp::ArrDeref => deref_code(lhs, rhs),
        BinaryOp::Sum => sum_code(lhs, rhs),
        BinaryOp::Sub => sub_code(lhs, rhs),
        BinaryOp::Push => push_code(lhs, rhs),
        BinaryOp::Slice => bin_slice_code(lhs, rhs),
    }
}

/// Evaluation of a unary operator from kind `I` to kind `O`. An operator
/// that does not take this signature is undefined everywhere on it.
pub trait UnaryEval<I: View, O: View> {
    /// The values yielded on arguments `a`, where `pointer` is the argument's
    /// L-value identity; `None` where undefined.
    spec fn eval_spec(&self, a: Seq<I::V>, pointer: Option<Pointer>) -> Option<Seq<O::V>>;

    /// `m` is the write that the operator makes.
    spec fn write_spec(&self, a: Seq<I::V>, pointer: Option<Pointer>, m: Option<Mutation>) -> bool;

    fn eval(&self, arg: &[I], pointer: Option<Pointer>) -> (r: Option<
        (Vec<O>, Option<Mutation>, Option<Pointer>),
    >)
        ensures
            match r {
                Some((v, m, p)) => {
                    &&& self.eval_spec(views(arg@), pointer) == Some(views(v@))
                    &&& v@.len() == arg@.len()
                    &&& p is None
                    &&& self.write_spec(views(arg@), pointer, m)
                    &&& m is Some ==> pointer == Some(m->Some_0.pointer)
                        && m->Some_0.values.len() == arg@.len()
                },
                None => self.eval_spec(views(arg@), pointer) is None,
            },
    ;
}

/// Evaluation of a binary operator from kinds `L` and `R` to kind `O`.
pub trait BinaryEval<L: View, R: View, O: View> {
    /// The values yielded on arguments `a` and `b`, where `pointer` is the
    /// left argument's L-value identity; `None` where undefined.
    spec fn eval_spec(&self, a: Seq<L::V>, b: Seq<R::V>, pointer: Option<Pointer>) -> Option<
        Seq<O::V>,
    >;

    /// `m` is the write that the operator makes.
    spec fn write_spec(
        &self,
        a: Seq<L::V>,
        b: Seq<R::V>,
        pointer: Option<Pointer>,
        m: Option<Mutation>,
    ) -> bool;

    fn eval(&self, lhs: &[L], rhs: &[R], pointer: Option<Pointer>) -> (r: Option<
        (Vec<O>, Option<Mutation>, Option<Pointer>),
    >)
        requires
            lhs@.len() == rhs@.len(),
        ensures
            match r {
                Some((v, m, p)) => {
                    &&& self.eval_spec(views(lhs@), views(rhs@), pointer) == Some(views(v@))
                    &&& v@.len() == lhs@.len()
                    &&& p is None
                    &&& self.write_spec(views(lhs@), views(rhs@), pointer, m)
                    &&& m is Some ==> pointer == Some(m->Some_0.pointer)
                        && m->Some_0.values.len() == lhs@.len()
                },
                None => self.eval_spec(views(lhs@), views(rhs@), pointer) is None,
            },
    ;
}

impl UnaryEval<Str, Int> for UnaryOp {
    open spec fn eval_spec(&self, a: Seq<Seq<char>>, pointer: Option<Pointer>) -> Option<Seq<i32>> {
        match self {
            UnaryOp::StrLen => str_len_spec(a),
            _ => None,
        }
    }

    open spec fn write_spec(&self, a: Seq<Seq<char>>, pointer: Option<Pointer>, m: Option<Mutation>) -> bool {
        m is None
    }

    fn eval(&self, arg: &[Str], pointer: Option<Pointer>) -> (r: Option<
        (Vec<Int>, Option<Mutation>, Option<Pointer>),
    >) {
        match self {
            UnaryOp::StrLen => match str_len_eval(arg) {
                Some(v) => {
                    proof {
                        lemma_views_int(v@);
                    }
                    Some((v, None, None))
                },
                None => None,
            },
            _ => None,
        }
    }
}

impl UnaryEval<Int, Int> for UnaryOp {
    open spec fn eval_spec(&self, a: Seq<i32>, pointer: Option<Pointer>) -> Option<Seq<i32>> {
        match self {
            UnaryOp::Minus => minus_spec(a),
            UnaryOp::Inc => inc_spec(a, pointer),
            _ => None,
        }
    }

    open spec fn write_spec(&self, a: Seq<i32>, pointer: Option<Pointer>, m: Option<Mutation>) -> bool {
        match self {
            UnaryOp::Inc => {
                &&& m is Some
                &&& m->Some_0.values is Int
                &&& m->Some_0.values->Int_0@ == inc_write(a)
            },
            _ => m is None,
        }
    }

    fn eval(&self, arg: &[Int], pointer: Option<Pointer>) -> (r: Option<
        (Vec<Int>, Option<Mutation>, Option<Pointer>),
    >) {
        proof {
            lemma_views_int(arg@);
        }
        match self {
            UnaryOp::Minus => match minus_eval(arg) {
                Some(v) => {
                    proof {
                        lemma_views_int(v@);
                    }
                    Some((v, None, None))
                },
                None => None,
            },
            UnaryOp::Inc => match inc_eval(arg, pointer) {
                Some((v, m)) => {
                    proof {
                        lemma_views_int(v@);
                    }
                    Some((v, m, None))
                },
                None => None,
            },
            _ => None,
        }
    }
}

impl UnaryEval<IntArray, Int> for UnaryOp {
    open spec fn eval_spec(&self, a: Seq<Seq<i32>>, pointer: Option<Pointer>) -> Option<Seq<i32>> {
        match self {
            UnaryOp::ArrLen => arr_len_spec(a),
            _ => None,
        }
    }

    open spec fn write_spec(&self, a: Seq<Seq<i32>>, pointer: Option<Pointer>, m: Option<Mutation>) -> bool {
        m is None
    }

    fn eval(&self, arg: &[IntArray], pointer: Option<Pointer>) -> (r: Option<
        (Vec<Int>, Option<Mutation>, Option<Pointer>),
    >) {
        match self {
            UnaryOp::ArrLen => match arr_len_eval(arg) {
                Some(v) => {
                    proof {
                        lemma_views_int(v@);
                    }
                    Some((v, None, None))
                },
                None => None,
            },
            _ => None,
        }
    }
}

impl BinaryEval<Str, Int, Str> for BinaryOp {
    open spec fn eval_spec(&self, a: Seq<Seq<char>>, b: Seq<i32>, pointer: Option<Pointer>) -> Option<
        Seq<Seq<char>>,
    > {
        match self {
            BinaryOp::StrDeref => str_deref_spec(a, b),
            _ => None,
        }
    }

    open spec fn write_spec(
        &self,
        a: Seq<Seq<char>>,
        b: Seq<i32>,
        pointer: Option<Pointer>,
        m: Option<Mutation>,
    ) -> bool {
        m is None
    }

    fn eval(&self, lhs: &[Str], rhs: &[Int], pointer: Option<Pointer>) -> (r: Option<
        (Vec<Str>, Option<Mutation>, Option<Pointer>),
    >) {
        proof {
            lemma_views_int(rhs@);
        }
        match self {
            BinaryOp::StrDeref => match str_deref_eval(lhs, rhs) {
                Some(v) => {
                    proof {
                        assert(views(v@).len() == v@.len());
                        assert(views(lhs@).len() == lhs@.len());
                    }
                    Some((v, None, None))
                },
                None => None,
            },
            _ => None,
        }
    }
}

impl BinaryEval<Int, Int, Int> for BinaryOp {
    open spec fn eval_spec(&self, a: Seq<i32>, b: Seq<i32>, pointer: Option<Pointer>) -> Option<
        Seq<i32>,
    > {
        match self {
            BinaryOp::Sum => sum_spec(a, b),
            BinaryOp::Sub => sub_spec(a, b),
            _ => None,
        }
    }

    open spec fn write_spec(
        &self,
        a: Seq<i32>,
        b: Seq<i32>,
        pointer: Option<Pointer>,
        m: Option<Mutation>,
    ) -> bool {
        m is None
    }

    fn eval(&self, lhs: &[Int], rhs: &[Int], pointer: Option<Pointer>) -> (r: Option<
        (Vec<Int>, Option<Mutation>, Option<Pointer>),
    >) {
        proof {
            lemma_views_int(lhs@);
            lemma_views_int(rhs@);
        }
        match self {
            BinaryOp::Sum => match sum_eval(lhs, rhs) {
                Some(v) => {
                    proof {
                        lemma_views_int(v@);
                    }
                    Some((v, None, None))
                },
                None => None,
            },
            BinaryOp::Sub => match sub_eval(lhs, rhs) {
                Some(v) => {
                    proof {
                        lemma_views_int(v@);
                    }
                    Some((v, None, None))
                },
                None => None,
            },
            _ => None,
        }
    }
}

impl BinaryEval<IntArray, Int, Int> for BinaryOp {
    open spec fn eval_spec(&self, a: Seq<Seq<i32>>, b: Seq<i32>, pointer: Option<Pointer>) -> Option<
        Seq<i32>,
    > {
        match self {
            BinaryOp::Push => push_spec(a),
            BinaryOp::ArrDeref => arr_deref_spec(a, b),
            _ => None,
        }
    }

    open spec fn write_spec(
        &self,
        a: Seq<Seq<i32>>,
        b: Seq<i32>,
        pointer: Option<Pointer>,
        m: Option<Mutation>,
    ) -> bool {
        match self {
            BinaryOp::Push => {
                &&& (m is Some <==> pointer is Some)
                &&& m is Some ==> m->Some_0.values is IntArray && views(m->Some_0.values->IntArray_0@)
                    == push_write(a, b)
            },
            _ => m is None,
        }
    }

    fn eval(&self, lhs: &[IntArray], rhs: &[Int], pointer: Option<Pointer>) -> (r: Option<
        (Vec<Int>, Option<Mutation>, Option<Pointer>),
    >) {
        proof {
            lemma_views_int(rhs@);
        }
        match self {
            BinaryOp::Push => match push_eval(lhs, rhs, pointer) {
                Some((v, m)) => {
                    proof {
                        lemma_views_int(v@);
                        if m is Some {
                            assert(push_write(views(lhs@), rhs@).len() == lhs@.len());
                        }
                    }
                    Some((v, m, None))
                },
                None => None,
            },
            BinaryOp::ArrDeref => match arr_deref_eval(lhs, rhs) {
                Some(v) => {
                    proof {
                        lemma_views_int(v@);
                    }
                    Some((v, None, None))
                },
                None => None,
            },
            _ => None,
        }
    }
}

impl BinaryEval<IntArray, Int, IntArray> for BinaryOp {
    open spec fn eval_spec(&self, a: Seq<Seq<i32>>, b: Seq<i32>, pointer: Option<Pointer>) -> Option<
        Seq<Seq<i32>>,
    > {
        match self {
            BinaryOp::Slice => Some(slice_spec(a, b)),
            _ => None,
        }
    }

    open spec fn write_spec(
        &self,
        a: Seq<Seq<i32>>,
        b: Seq<i32>,
        pointer: Option<Pointer>,
        m: Option<Mutation>,
    ) -> bool {
        m is None
    }

    fn eval(&self, lhs: &[IntArray], rhs: &[Int], pointer: Option<Pointer>) -> (r: Option<
        (Vec<IntArray>, Option<Mutation>, Option<Pointer>),
    >) {
        proof {
            lemma_views_int(rhs@);
        }
        match self {
            BinaryOp::Slice => {
                let v = bin_slice_eval(lhs, rhs);
                proof {
                    assert(views(v@).len() == v@.len());
                }
                Some((v, None, None))
            },
            _ => None,
        }
    }
}


/// A constant of the initial table: its printed code and its value.
pub enum ConstVal {
    Int(&'static str, Int),
    Str(&'static str, Str),
    IntArray(&'static str, IntArray),
}

/// The constants that every task starts with: `0`, `1`, `""`, `" "` and
/// `[]`.
pub fn constants() -> (r: Vec<ConstVal>)
    ensures
        r@.len() == 5,
        r@[0] is Int && r@[0]->Int_0@ == "0"@ && r@[0]->Int_1 == 0,
        r@[1] is Int && r@[1]->Int_0@ == "1"@ && r@[1]->Int_1 == 1,
        r@[2] is Str && r@[2]->Str_0@ == "\"\""@ && r@[2]->Str_1@ == ""@,
        r@[3] is Str && r@[3]->Str_0@ == "\" \""@ && r@[3]->Str_1@ == " "@,
        r@[4] is IntArray && r@[4]->IntArray_0@ == "[]"@ && r@[4]->IntArray_1@.len() == 0,
{
    vec![
        ConstVal::Int("0", 0),
        ConstVal::Int("1", 1),
        ConstVal::Str("\"\"", "".to_owned()),
        ConstVal::Str("\" \"", " ".to_owned()),
        ConstVal::IntArray("[]", Vec::new()),
    ]
}

/// The operator table, in enumeration order: string length, string index,
/// negation, sum, difference, postfix increment, array push, array index,
/// array length and array slice.
pub fn vocab() -> (r: Vec<Builder>)
    ensures
        r@.len() == 10,
        r@[0] is UnaryStrInt && r@[0]->UnaryStrInt_0.op == UnaryOp::StrLen,
        r@[1] is BinaryStrIntStr && r@[1]->BinaryStrIntStr_0.op == BinaryOp::StrDeref,
        r@[2] is UnaryIntInt && r@[2]->UnaryIntInt_0.op == UnaryOp::Minus,
        r@[3] is BinaryIntIntInt && r@[3]->BinaryIntIntInt_0.op == BinaryOp::Sum,
        r@[4] is BinaryIntIntInt && r@[4]->BinaryIntIntInt_0.op == BinaryOp::Sub,
        r@[5] is UnaryIntInt && r@[5]->UnaryIntInt_0.op == UnaryOp::Inc,
        r@[6] is BinaryIntArrIntInt && r@[6]->BinaryIntArrIntInt_0.op == BinaryOp::Push,
        r@[7] is BinaryIntArrIntInt && r@[7]->BinaryIntArrIntInt_0.op == BinaryOp::ArrDeref,
        r@[8] is UnaryIntArrInt && r@[8]->UnaryIntArrInt_0.op == UnaryOp::ArrLen,
        r@[9] is BinaryIntArrIntIntArr && r@[9]->BinaryIntArrIntIntArr_0.op == BinaryOp::Slice,
{
    vec![
        Builder::UnaryStrInt(UniBuilder::new(UnaryOp::StrLen)),
        Builder::BinaryStrIntStr(BinBuilder::new(BinaryOp::StrDeref)),
        Builder::UnaryIntInt(UniBuilder::new(UnaryOp::Minus)),
        Builder::BinaryIntIntInt(BinBuilder::new(BinaryOp::Sum)),
        Builder::BinaryIntIntInt(BinBuilder::new(BinaryOp::Sub)),
        Builder::UnaryIntInt(UniBuilder::new(UnaryOp::Inc)),
        Builder::BinaryIntArrIntInt(BinBuilder::new(BinaryOp::Push)),
        Builder::BinaryIntArrIntInt(BinBuilder::new(BinaryOp::ArrDeref)),
        Builder::UnaryIntArrInt(UniBuilder::new(UnaryOp::ArrLen)),
        Builder::BinaryIntArrIntIntArr(BinBuilder::new(BinaryOp::Slice)),
    ]
}

} // verus!
