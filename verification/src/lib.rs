//! Compile-time dependency wiring: one trait, one derive.
//!
//! A *service* is a struct whose fields are its dependencies. The derive logic
//! in this crate turns the token trees of such a struct into the `Wire` impl
//! that builds every field from one shared context.
use vstd::prelude::*;

pub mod attrs;
pub mod context;
pub mod derive;
pub mod emit;
pub mod expand;
pub mod laws;
pub mod model;
pub mod parse;
pub mod readback;
pub mod rules;
pub mod scan;
pub mod tokens;

verus! {

/// Construct `Self` by wiring each dependency from a shared context.
///
/// Implement this by hand for leaves (pools, clocks, senders), the handles the
/// context actually owns, and derive it for services whose fields are
/// themselves `Wire<Ctx>`.
pub trait Wire<Ctx>: Sized {
    /// Build `Self` from `ctx`. This is pure construction: no async, no I/O.
    fn wire(ctx: &Ctx) -> Self;
}

/// An array of a wired service wires each of its `N` elements from the same
/// context, independently: element `i` is what `T::wire(ctx)` returns.
impl<Ctx, T: Wire<Ctx>, const N: usize> Wire<Ctx> for [T; N] {
    fn wire(ctx: &Ctx) -> (r: Self)
        ensures
            forall|i: int| 0 <= i < N ==> call_ensures(T::wire, (ctx,), #[trigger] r@[i]),
    {
        let mut items: Vec<T> = Vec::new();
        let mut i: usize = 0;
        while i < N
            invariant
                i <= N,
                items.len() == i,
                forall|k: int| 0 <= k < i ==> call_ensures(T::wire, (ctx,), #[trigger] items@[k]),
            decreases N - i,
        {
            let wire_one = T::wire;
            let item = wire_one(ctx);
            items.push(item);
            i = i + 1;
        }
        match array_from_vec::<T, N>(items) {
            Ok(a) => a,
            Err(_) => vstd::pervasive::unreached(),
        }
    }
}

/// Calls `<[T; N] as TryFrom<Vec<T>>>::try_from`: it gives the vector's
/// elements as an array when the vector has exactly `N` of them, and gives
/// the vector back unchanged otherwise.
#[verifier::external_body]
fn array_from_vec<T, const N: usize>(v: Vec<T>) -> (r: Result<[T; N], Vec<T>>)
    ensures
        match r {
            Ok(a) => v.len() == N && a@ == v@,
            Err(w) => v.len() != N && w@ == v@,
        },
{
    <[T; N]>::try_from(v)
}

} // verus!
