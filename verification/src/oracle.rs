//! What it means for a function handed to the library to be a function.
//!
//! Geometry on real numbers is supplied by the caller as closures. Contracts
//! that depend on their answers ask that a closure gives one answer per
//! argument, speak of that answer, and say where it was given.

use vstd::prelude::*;

verus! {

/// `f` has at most one answer for each argument.
pub open spec fn single_valued1<A, R, F: Fn(A) -> R>(f: F) -> bool {
    forall|a: A, r: R, s: R| #[trigger]
        f.ensures((a,), r) && #[trigger] f.ensures((a,), s) ==> r == s
}

/// `f` has at most one answer for each pair of arguments.
pub open spec fn single_valued2<A, B, R, F: Fn(A, B) -> R>(f: F) -> bool {
    forall|a: A, b: B, r: R, s: R| #[trigger]
        f.ensures((a, b), r) && #[trigger] f.ensures((a, b), s) ==> r == s
}

/// `f` has at most one answer for each triple of arguments.
pub open spec fn single_valued3<A, B, C, R, F: Fn(A, B, C) -> R>(f: F) -> bool {
    forall|a: A, b: B, c: C, r: R, s: R| #[trigger]
        f.ensures((a, b, c), r) && #[trigger] f.ensures((a, b, c), s) ==> r == s
}

/// `f` has at most one answer for each quadruple of arguments.
pub open spec fn single_valued4<A, B, C, D, R, F: Fn(A, B, C, D) -> R>(f: F) -> bool {
    forall|a: A, b: B, c: C, d: D, r: R, s: R| #[trigger]
        f.ensures((a, b, c, d), r) && #[trigger] f.ensures((a, b, c, d), s) ==> r == s
}

/// The answer of `f`.
pub open spec fn answer1<A, R, F: Fn(A) -> R>(f: F, a: A) -> R {
    choose|r: R| f.ensures((a,), r)
}

/// `f` has given its answer.
pub open spec fn answered1<A, R, F: Fn(A) -> R>(f: F, a: A) -> bool {
    f.ensures((a,), answer1(f, a))
}

/// What a single-valued function has answered is its answer.
pub proof fn lemma_answer1<A, R, F: Fn(A) -> R>(f: F, a: A, r: R)
    requires
        single_valued1(f),
        f.ensures((a,), r),
    ensures
        answer1(f, a) == r,
        answered1(f, a),
{
}

/// The answer of `f`.
pub open spec fn answer2<A, B, R, F: Fn(A, B) -> R>(f: F, a: A, b: B) -> R {
    choose|r: R| f.ensures((a, b), r)
}

/// `f` has given its answer.
pub open spec fn answered2<A, B, R, F: Fn(A, B) -> R>(f: F, a: A, b: B) -> bool {
    f.ensures((a, b), answer2(f, a, b))
}

/// What a single-valued function has answered is its answer.
pub proof fn lemma_answer2<A, B, R, F: Fn(A, B) -> R>(f: F, a: A, b: B, r: R)
    requires
        single_valued2(f),
        f.ensures((a, b), r),
    ensures
        answer2(f, a, b) == r,
        answered2(f, a, b),
{
}

/// The answer of `f`.
pub open spec fn answer3<A, B, C, R, F: Fn(A, B, C) -> R>(f: F, a: A, b: B, c: C) -> R {
    choose|r: R| f.ensures((a, b, c), r)
}

/// `f` has given its answer.
pub open spec fn answered3<A, B, C, R, F: Fn(A, B, C) -> R>(f: F, a: A, b: B, c: C) -> bool {
    f.ensures((a, b, c), answer3(f, a, b, c))
}

/// What a single-valued function has answered is its answer.
pub proof fn lemma_answer3<A, B, C, R, F: Fn(A, B, C) -> R>(f: F, a: A, b: B, c: C, r: R)
    requires
        single_valued3(f),
        f.ensures((a, b, c), r),
    ensures
        answer3(f, a, b, c) == r,
        answered3(f, a, b, c),
{
}

/// The answer of `f`.
pub open spec fn answer4<A, B, C, D, R, F: Fn(A, B, C, D) -> R>(f: F, a: A, b: B, c: C, d: D) -> R {
    choose|r: R| f.ensures((a, b, c, d), r)
}

/// `f` has given its answer.
pub open spec fn answered4<A, B, C, D, R, F: Fn(A, B, C, D) -> R>(f: F, a: A, b: B, c: C, d: D) -> bool {
    f.ensures((a, b, c, d), answer4(f, a, b, c, d))
}

/// What a single-valued function has answered is its answer.
pub proof fn lemma_answer4<A, B, C, D, R, F: Fn(A, B, C, D) -> R>(f: F, a: A, b: B, c: C, d: D, r: R)
    requires
        single_valued4(f),
        f.ensures((a, b, c, d), r),
    ensures
        answer4(f, a, b, c, d) == r,
        answered4(f, a, b, c, d),
{
}

} // verus!
