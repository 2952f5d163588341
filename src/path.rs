use crate::select::{Bound, lemma_positions_valid, positions, select};
use crate::slice::JMESSlice;
use crate::value::Value;
use vstd::prelude::*;

verus! {

/// The value under `key` among an object's entries: the first entry with that
/// key, or null when there is none.
pub open spec fn lookup(es: Seq<(String, Value)>, key: Seq<char>) -> Value
    decreases es.len(),
{
    if es.len() == 0 {
        Value::Null
    } else if es[0].0@ == key {
        es[0].1
    } else {
        lookup(es.subrange(1, es.len() as int), key)
    }
}

/// What `identify` returns.
pub open spec fn identified(v: Value, key: Seq<char>) -> Value {
    match v {
        Value::Object(es) => lookup(es@, key),
        _ => Value::Null,
    }
}

/// What `index` returns: a negative index counts from the rear, and a
/// position outside the array gives null.
pub open spec fn indexed(v: Value, i: int) -> Value {
    match v {
        Value::Array(xs) => {
            let p = if i < 0 { xs@.len() + i } else { i };
            if 0 <= p < xs@.len() {
                xs@[p]
            } else {
                Value::Null
            }
        },
        _ => Value::Null,
    }
}

/// A descriptor's bound as the slicer takes it: negative counts from the rear.
pub open spec fn bound_of(i: Option<isize>) -> Bound {
    match i {
        Some(k) => if k < 0 {
            Bound::Tail((-k) as usize)
        } else {
            Bound::Head(k as usize)
        },
        None => Bound::Open,
    }
}

/// The elements of `xs` that the descriptor selects, in the order visited.
pub open spec fn slice_elems(xs: Seq<Value>, d: JMESSlice) -> Seq<Value> {
    positions(xs.len() as int, bound_of(d.start), bound_of(d.end), d.step).map_values(
        |p: int| xs[p],
    )
}

/// `v` is an array holding exactly `s`.
pub open spec fn array_of(v: Value, s: Seq<Value>) -> bool {
    match v {
        Value::Array(xs) => xs@ == s,
        _ => false,
    }
}

/// `s` without its null values, order kept.
pub open spec fn drop_nulls(s: Seq<Value>) -> Seq<Value>
    decreases s.len(),
{
    if s.len() == 0 {
        s
    } else if s.last() is Null {
        drop_nulls(s.drop_last())
    } else {
        drop_nulls(s.drop_last()).push(s.last())
    }
}

/// What one element contributes to a flattened array: an array its
/// elements, anything else itself.
pub open spec fn pieces(v: Value) -> Seq<Value> {
    match v {
        Value::Array(xs) => xs@,
        _ => seq![v],
    }
}

/// `s` with one level of nested arrays merged into it.
pub open spec fn flatten_once(s: Seq<Value>) -> Seq<Value>
    decreases s.len(),
{
    if s.len() == 0 {
        s
    } else {
        flatten_once(s.drop_last()) + pieces(s.last())
    }
}

/// `ys` is a possible outcome of applying `f` to each element of `xs`.
pub open spec fn maps_to<F: Fn(Value) -> Value>(f: F, xs: Seq<Value>, ys: Seq<Value>) -> bool {
    &&& ys.len() == xs.len()
    &&& forall|i: int| 0 <= i < xs.len() ==> f.ensures((xs[i],), #[trigger] ys[i])
}

/// `r` is what projecting `f` over `xs` may give: the results of `f` on each
/// element, in order, with the null ones left out.
pub open spec fn projected<F: Fn(Value) -> Value>(f: F, xs: Seq<Value>, r: Value) -> bool {
    exists|ys: Seq<Value>| maps_to(f, xs, ys) && array_of(r, drop_nulls(ys))
}

/// The values of an object's entries, in entry order.
pub open spec fn entry_values(es: Seq<(String, Value)>) -> Seq<Value> {
    es.map_values(|e: (String, Value)| e.1)
}

/// Navigation over a JSON-like value. Each operation consumes the value and
/// returns a new one; a lookup that does not apply gives null.
pub trait JMESPath: Sized {
    /// The value under `key` of an object.
    fn identify(self, key: &str) -> Self;

    /// The element at `index` of an array; a negative index counts from the rear.
    fn index(self, index: isize) -> Self;

    /// The elements of an array that a slice descriptor selects.
    fn slice(self, slice: JMESSlice) -> Self
        requires
            slice.wf(),
    ;

    /// `projection` applied to each element of an array, null results left out.
    fn list_project<F: Fn(Self) -> Self>(self, projection: F) -> Self
        requires
            forall|v: Self| projection.requires((v,)),
    ;

    /// `projection` applied to each element of a slice of an array, null
    /// results left out.
    fn slice_project<F: Fn(Self) -> Self>(self, slice: JMESSlice, projection: F) -> Self
        requires
            slice.wf(),
            forall|v: Self| projection.requires((v,)),
    ;

    /// `projection` applied to each value of an object, null results left
    /// out, collected into an array.
    fn object_project<F: Fn(Self) -> Self>(self, projection: F) -> Self
        requires
            forall|v: Self| projection.requires((v,)),
    ;

    /// An array with one level of nested arrays merged into it.
    fn flatten(self) -> Self;
}

/// Slicing with the default descriptor selects every element, in order.
pub proof fn lemma_default_slice_is_identity(xs: Seq<Value>)
    ensures
        slice_elems(xs, JMESSlice::spec_default()) == xs,
{
    let n = xs.len() as int;
    if n > 0 {
        assert((n - 0 + 1 - 1) / 1 == n);
    }
    assert(slice_elems(xs, JMESSlice::spec_default()) =~= xs);
}

/// `v` in reverse order.
fn reversed<T>(v: Vec<T>) -> (r: Vec<T>)
    ensures
        r@.len() == v@.len(),
        forall|i: int| 0 <= i < v@.len() ==> #[trigger] r@[i] == v@[v@.len() - 1 - i],
{
    let ghost orig = v@;
    let mut v = v;
    let mut r: Vec<T> = Vec::new();
    while v.len() > 0
        invariant
            r@.len() + v@.len() == orig.len(),
            v@ == orig.take(v@.len() as int),
            forall|i: int| 0 <= i < r@.len() ==> #[trigger] r@[i] == orig[orig.len() - 1 - i],
        decreases v@.len(),
    {
        let x = v.pop().unwrap();
        r.push(x);
        assert(v@ =~= orig.take(v@.len() as int));
    }
    r
}

/// The values of an object's entries, in entry order.
fn into_values(es: Vec<(String, Value)>) -> (r: Vec<Value>)
    ensures
        r@ == entry_values(es@),
{
    let ghost orig = es@;
    let n = es.len();
    let mut rest = reversed(es);
    let mut r: Vec<Value> = Vec::new();
    while rest.len() > 0
        invariant
            rest@.len() + r@.len() == n,
            n == orig.len(),
            forall|k: int| 0 <= k < rest@.len() ==> #[trigger] rest@[k] == orig[n - 1 - k],
            r@ == entry_values(orig.take(r@.len() as int)),
        decreases rest@.len(),
    {
        let ghost i = r@.len() as int;
        let e = rest.pop().unwrap();
        assert(e == orig[i]);
        r.push(e.1);
        assert(entry_values(orig.take(i + 1)) =~= entry_values(orig.take(i)).push(e.1));
    }
    assert(orig.take(n as int) =~= orig);
    r
}

/// The results of `f` on each element of `xs`, in order, null ones left out.
fn project_all<F: Fn(Value) -> Value>(xs: Vec<Value>, f: F) -> (r: Vec<Value>)
    requires
        forall|v: Value| f.requires((v,)),
    ensures
        exists|ys: Seq<Value>| maps_to(f, xs@, ys) && r@ == drop_nulls(ys),
{
    let ghost orig = xs@;
    let n = xs.len();
    let mut rest = reversed(xs);
    let mut r: Vec<Value> = Vec::new();
    let ghost mut ys: Seq<Value> = Seq::empty();
    while rest.len() > 0
        invariant
            forall|v: Value| f.requires((v,)),
            rest@.len() + ys.len() == n,
            n == orig.len(),
            forall|k: int| 0 <= k < rest@.len() ==> #[trigger] rest@[k] == orig[n - 1 - k],
            forall|k: int| 0 <= k < ys.len() ==> f.ensures((orig[k],), #[trigger] ys[k]),
            r@ == drop_nulls(ys),
        decreases rest@.len(),
    {
        let ghost i = ys.len() as int;
        let x = rest.pop().unwrap();
        assert(x == orig[i]);
        let y = f(x);
        let ghost prev = ys;
        proof {
            ys = ys.push(y);
            assert(ys.drop_last() =~= prev);
        }
        if !y.is_null() {
            r.push(y);
        }
    }
    assert(maps_to(f, orig, ys));
    r
}

/// The element at `i` is moved out of `v`; null is left in its place.
fn take_at(v: &mut Vec<Value>, i: usize) -> (r: Value)
    requires
        i < old(v)@.len(),
    ensures
        r == old(v)@[i as int],
        final(v)@ == old(v)@.update(i as int, Value::Null),
{
    let mut x = Value::Null;
    std::mem::swap(&mut x, &mut v[i]);
    x
}

/// `0, 1, ..., n - 1`.
fn all_positions(n: usize) -> (r: Vec<usize>)
    ensures
        r@.len() == n,
        forall|k: int| 0 <= k < n ==> #[trigger] r@[k] == k,
{
    let mut r: Vec<usize> = Vec::new();
    let mut k: usize = 0;
    while k < n
        invariant
            k <= n,
            r@.len() == k,
            forall|j: int| 0 <= j < k ==> #[trigger] r@[j] == j,
        decreases n - k,
    {
        r.push(k);
        k = k + 1;
    }
    r
}

fn bound(i: Option<isize>) -> (b: Bound)
    ensures
        b == bound_of(i),
{
    match i {
        Some(k) => if k < 0 {
            Bound::Tail((-(k as i128)) as usize)
        } else {
            Bound::Head(k as usize)
        },
        None => Bound::Open,
    }
}

/// The elements of `xs` that `d` selects.
fn slice_vec(xs: Vec<Value>, d: JMESSlice) -> (r: Vec<Value>)
    ensures
        r@ == slice_elems(xs@, d),
{
    let ghost orig = xs@;
    let n = xs.len();
    let idx = all_positions(n);
    let sel = select(&idx, bound(d.start), bound(d.end), d.step);
    let ghost p = positions(n as int, bound_of(d.start), bound_of(d.end), d.step);
    proof {
        lemma_positions_valid(n as int, bound_of(d.start), bound_of(d.end), d.step);
        assert(idx@.len() == n);
    }
    assert(forall|k: int| 0 <= k < sel@.len() ==> #[trigger] sel@[k] == p[k]);
    let mut slots = xs;
    let mut r: Vec<Value> = Vec::new();
    let mut j: usize = 0;
    while j < sel.len()
        invariant
            sel@.len() == p.len(),
            forall|k: int| 0 <= k < sel@.len() ==> #[trigger] sel@[k] == p[k],
            forall|k: int| 0 <= k < p.len() ==> 0 <= #[trigger] p[k] < n,
            forall|a: int, b: int|
                0 <= a < p.len() && 0 <= b < p.len() && a != b ==> #[trigger] p[a]
                    != #[trigger] p[b],
            n == orig.len(),
            slots@.len() == n,
            j <= sel@.len(),
            r@.len() == j,
            forall|k: int| 0 <= k < j ==> #[trigger] r@[k] == orig[p[k]],
            forall|k: int| j <= k < p.len() ==> slots@[#[trigger] p[k]] == orig[p[k]],
        decreases sel@.len() - j,
    {
        let ghost before = slots@;
        let x = take_at(&mut slots, sel[j]);
        assert forall|k: int| j + 1 <= k < p.len() implies slots@[#[trigger] p[k]]
            == orig[p[k]] by {
            assert(p[k] != p[j as int]);
            assert(slots@[p[k]] == before[p[k]]);
        }
        r.push(x);
        j = j + 1;
    }
    assert(r@ =~= slice_elems(orig, d));
    r
}

/// `xs` with one level of nested arrays merged into it.
fn flatten_vec(xs: Vec<Value>) -> (r: Vec<Value>)
    ensures
        r@ == flatten_once(xs@),
{
    let ghost orig = xs@;
    let n = xs.len();
    let mut rest = reversed(xs);
    let mut r: Vec<Value> = Vec::new();
    let ghost mut i: int = 0;
    while rest.len() > 0
        invariant
            rest@.len() + i == n,
            n == orig.len(),
            0 <= i <= n,
            forall|k: int| 0 <= k < rest@.len() ==> #[trigger] rest@[k] == orig[n - 1 - k],
            r@ == flatten_once(orig.take(i)),
        decreases rest@.len(),
    {
        let x = rest.pop().unwrap();
        assert(x == orig[i]);
        assert(orig.take(i + 1).drop_last() =~= orig.take(i));
        match x {
            Value::Array(mut inner) => {
                r.append(&mut inner);
            },
            other => {
                r.push(other);
            },
        }
        proof {
            i = i + 1;
        }
        assert(r@ =~= flatten_once(orig.take(i)));
    }
    assert(orig.take(n as int) =~= orig);
    r
}

impl JMESPath for Value {
    fn identify(self, key: &str) -> (r: Value)
        ensures
            r == identified(self, key@),
            !(self is Object) ==> r is Null,
    {
        match self {
            Value::Object(mut es) => {
                let k = key.to_owned();
                let ghost orig = es@;
                let mut i: usize = 0;
                assert(orig.subrange(0, orig.len() as int) =~= orig);
                while i < es.len()
                    invariant
                        es@ == orig,
                        identified(self, key@) == lookup(orig, key@),
                        k@ == key@,
                        i <= orig.len(),
                        lookup(orig, key@) == lookup(orig.subrange(i as int, orig.len() as int), key@),
                    decreases orig.len() - i,
                {
                    let ghost tail = orig.subrange(i as int, orig.len() as int);
                    assert(tail[0] == orig[i as int]);
                    if es[i].0 == k {
                        assert(tail[0].0@ == key@);
                        assert(lookup(tail, key@) == orig[i as int].1);
                        let e = es.remove(i);
                        assert(e == orig[i as int]);
                        return e.1;
                    }
                    assert(tail.subrange(1, tail.len() as int) =~= orig.subrange(i + 1, orig.len() as int));
                    i = i + 1;
                }
                Value::Null
            },
            _ => Value::Null,
        }
    }

    fn index(self, index: isize) -> (r: Value)
        ensures
            r == indexed(self, index as int),
            !(self is Array) ==> r is Null,
    {
        match self {
            Value::Array(mut xs) => {
                let n = xs.len() as i128;
                let p: i128 = if index < 0 { n + index as i128 } else { index as i128 };
                if 0 <= p && p < n {
                    xs.remove(p as usize)
                } else {
                    Value::Null
                }
            },
            _ => Value::Null,
        }
    }

    fn slice(self, slice: JMESSlice) -> (r: Value)
        ensures
            self is Array ==> array_of(r, slice_elems(self->Array_0@, slice)),
            !(self is Array) ==> r is Null,
    {
        match self {
            Value::Array(xs) => Value::Array(slice_vec(xs, slice)),
            _ => Value::Null,
        }
    }

    fn list_project<F: Fn(Value) -> Value>(self, projection: F) -> (r: Value)
        ensures
            self is Array ==> projected(projection, self->Array_0@, r),
            !(self is Array) ==> r is Null,
    {
        match self {
            Value::Array(xs) => Value::Array(project_all(xs, projection)),
            _ => Value::Null,
        }
    }

    fn slice_project<F: Fn(Value) -> Value>(self, slice: JMESSlice, projection: F) -> (r: Value)
        ensures
            self is Array ==> projected(projection, slice_elems(self->Array_0@, slice), r),
            !(self is Array) ==> r is Null,
    {
        match self {
            Value::Array(xs) => Value::Array(project_all(slice_vec(xs, slice), projection)),
            _ => Value::Null,
        }
    }

    fn object_project<F: Fn(Value) -> Value>(self, projection: F) -> (r: Value)
        ensures
            self is Object ==> projected(projection, entry_values(self->Object_0@), r),
            !(self is Object) ==> r is Null,
    {
        match self {
            Value::Object(es) => Value::Array(project_all(into_values(es), projection)),
            _ => Value::Null,
        }
    }

    fn flatten(self) -> (r: Value)
        ensures
            self is Array ==> array_of(r, flatten_once(self->Array_0@)),
            !(self is Array) ==> r is Null,
    {
        match self {
            Value::Array(xs) => Value::Array(flatten_vec(xs)),
            _ => Value::Null,
        }
    }
}

} // verus!
