//! Reasoning helpers for caller-supplied scalar functions.
//!
//! The matrix and network operations take their scalar arithmetic (addition,
//! multiplication, the activation functions, ...) as function values. A
//! contract can only pin the result of such an operation when the supplied
//! function behaves like a mathematical function: it must be callable on
//! every input and it must relate each input to at most one output. The
//! predicates below state exactly that, and `un_val` / `bin_val` name the
//! unique result, so that callers' postconditions can speak of it.

use vstd::prelude::*;

verus! {

/// The unary function `f` may be called on every argument.
pub open spec fn un_callable<A, R, F: Fn(A) -> R>(f: F) -> bool {
    forall|a: A| #[trigger] call_requires(f, (a,))
}

/// The unary function `f` admits at most one result for each argument.
pub open spec fn un_deterministic<A, R, F: Fn(A) -> R>(f: F) -> bool {
    forall|a: A, r1: R, r2: R|
        #![trigger call_ensures(f, (a,), r1), call_ensures(f, (a,), r2)]
        call_ensures(f, (a,), r1) && call_ensures(f, (a,), r2) ==> r1 == r2
}

/// `f` behaves as a total mathematical function of one argument.
pub open spec fn un_ok<A, R, F: Fn(A) -> R>(f: F) -> bool {
    un_callable(f) && un_deterministic(f)
}

/// The result of applying `f` to `a`, meaningful when `un_ok(f)` holds and
/// `f` can return at all.
pub open spec fn un_val<A, R, F: Fn(A) -> R>(f: F, a: A) -> R {
    choose|r: R| call_ensures(f, (a,), r)
}

/// An observed return value of a deterministic unary function is its value.
pub proof fn lemma_un_val<A, R, F: Fn(A) -> R>(f: F, a: A, r: R)
    requires
        un_deterministic(f),
        call_ensures(f, (a,), r),
    ensures
        un_val(f, a) == r,
{
    assert(call_ensures(f, (a,), un_val(f, a)));
}

/// The ternary function `f` may be called on every triple of arguments.
pub open spec fn tri_callable<A, B, C, R, F: Fn(A, B, C) -> R>(f: F) -> bool {
    forall|a: A, b: B, c: C| #[trigger] call_requires(f, (a, b, c))
}

/// The ternary function `f` admits at most one result per argument triple.
pub open spec fn tri_deterministic<A, B, C, R, F: Fn(A, B, C) -> R>(f: F) -> bool {
    forall|a: A, b: B, c: C, r1: R, r2: R|
        #![trigger call_ensures(f, (a, b, c), r1), call_ensures(f, (a, b, c), r2)]
        call_ensures(f, (a, b, c), r1) && call_ensures(f, (a, b, c), r2) ==> r1 == r2
}

/// `f` behaves as a total mathematical function of three arguments.
pub open spec fn tri_ok<A, B, C, R, F: Fn(A, B, C) -> R>(f: F) -> bool {
    tri_callable(f) && tri_deterministic(f)
}

/// The result of applying `f` to `(a, b, c)`, meaningful when `tri_ok(f)`
/// holds and `f` can return at all.
pub open spec fn tri_val<A, B, C, R, F: Fn(A, B, C) -> R>(f: F, a: A, b: B, c: C) -> R {
    choose|r: R| call_ensures(f, (a, b, c), r)
}

/// An observed return value of a deterministic ternary function is its value.
pub proof fn lemma_tri_val<A, B, C, R, F: Fn(A, B, C) -> R>(f: F, a: A, b: B, c: C, r: R)
    requires
        tri_deterministic(f),
        call_ensures(f, (a, b, c), r),
    ensures
        tri_val(f, a, b, c) == r,
{
    assert(call_ensures(f, (a, b, c), tri_val(f, a, b, c)));
}

/// The binary function `f` may be called on every pair of arguments.
pub open spec fn bin_callable<A, B, R, F: Fn(A, B) -> R>(f: F) -> bool {
    forall|a: A, b: B| #[trigger] call_requires(f, (a, b))
}

/// The binary function `f` admits at most one result for each argument pair.
pub open spec fn bin_deterministic<A, B, R, F: Fn(A, B) -> R>(f: F) -> bool {
    forall|a: A, b: B, r1: R, r2: R|
        #![trigger call_ensures(f, (a, b), r1), call_ensures(f, (a, b), r2)]
        call_ensures(f, (a, b), r1) && call_ensures(f, (a, b), r2) ==> r1 == r2
}

/// `f` behaves as a total mathematical function of two arguments.
pub open spec fn bin_ok<A, B, R, F: Fn(A, B) -> R>(f: F) -> bool {
    bin_callable(f) && bin_deterministic(f)
}

/// The result of applying `f` to `(a, b)`, meaningful when `bin_ok(f)` holds
/// and `f` can return at all.
pub open spec fn bin_val<A, B, R, F: Fn(A, B) -> R>(f: F, a: A, b: B) -> R {
    choose|r: R| call_ensures(f, (a, b), r)
}

/// An observed return value of a deterministic binary function is its value.
pub proof fn lemma_bin_val<A, B, R, F: Fn(A, B) -> R>(f: F, a: A, b: B, r: R)
    requires
        bin_deterministic(f),
        call_ensures(f, (a, b), r),
    ensures
        bin_val(f, a, b) == r,
{
    assert(call_ensures(f, (a, b), bin_val(f, a, b)));
}

} // verus!
