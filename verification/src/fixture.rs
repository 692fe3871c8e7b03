//! A tiny call graph, for exercising a language server end to end:
//! `root` calls `middle`, which calls `leaf` twice, and `with_closure` holds
//! an anonymous closure, which must not appear as a named callable.

use vstd::prelude::*;

verus! {

pub fn leaf(x: i32) -> (r: i32)
    requires
        x < i32::MAX,
    ensures
        r == x + 1,
{
    x + 1
}

pub fn middle(x: i32) -> (r: i32)
    requires
        x + 2 <= i32::MAX,
        (x + 1) + (x + 2) <= i32::MAX,
        (x + 1) + (x + 2) >= i32::MIN,
    ensures
        r == (x + 1) + (x + 2),
{
    leaf(x) + leaf(x + 1)
}

pub fn root(x: i32) -> (r: i32)
    requires
        x + 2 <= i32::MAX,
        (x + 1) + (x + 2) <= i32::MAX,
        (x + 1) + (x + 2) >= i32::MIN,
    ensures
        r == (x + 1) + (x + 2),
{
    middle(x)
}

pub fn with_closure(v: &[i32]) -> (r: Vec<i32>)
    requires
        forall|i: int| 0 <= i < v@.len() ==> i32::MIN <= 2 * #[trigger] v@[i] <= i32::MAX,
    ensures
        r@.len() == v@.len(),
        forall|i: int| 0 <= i < v@.len() ==> #[trigger] r@[i] == 2 * v@[i],
{
    let double = |n: i32| -> (m: i32)
        requires
            i32::MIN <= 2 * n <= i32::MAX,
        ensures
            m == 2 * n,
        { n * 2 };
    let mut out: Vec<i32> = Vec::new();
    let mut i: usize = 0;
    while i < v.len()
        invariant
            i <= v@.len(),
            out@.len() == i,
            forall|j: int| 0 <= j < v@.len() ==> i32::MIN <= 2 * #[trigger] v@[j] <= i32::MAX,
            forall|j: int| 0 <= j < i ==> #[trigger] out@[j] == 2 * v@[j],
            forall|n: i32| i32::MIN <= 2 * n <= i32::MAX ==> call_requires(double, (n,)),
            forall|n: i32, m: i32| call_ensures(double, (n,), m) ==> m == 2 * n,
        decreases v.len() - i,
    {
        out.push(double(v[i]));
        i = i + 1;
    }
    out
}

} // verus!
