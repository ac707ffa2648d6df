//! Operations of a queue that guest memory serves.
//!
//! Guest memory is given by what each region holds when the operation performs
//! its accesses, which are numbered in order. The driver may change any of it
//! between two accesses.

use crate::memory::{Region, Request, Step};
use vstd::prelude::*;

verus! {

/// What access number `k` brings: the bytes that it reads, if it reads any.
pub open spec fn fetched(
    mem: spec_fn(int, Region) -> Seq<u8>,
    k: int,
    request: Request,
) -> Seq<u8> {
    match request {
        Request::Read { region, offset, len } => mem(k, region).subrange(
            offset as int,
            offset + len,
        ),
        _ => Seq::empty(),
    }
}

/// Where an operation stands after `n` accesses from number `from` on, all of
/// which succeed. `resume` says what it does on a reply.
pub open spec fn served<Q, S, T, E>(
    state: Q,
    step: Step<S, T, E>,
    resume: spec_fn(Q, S, Result<Seq<u8>, E>) -> (Q, Step<S, T, E>),
    mem: spec_fn(int, Region) -> Seq<u8>,
    from: int,
    n: nat,
) -> (Q, Step<S, T, E>)
    decreases n,
{
    if n == 0 {
        (state, step)
    } else {
        let before = served(state, step, resume, mem, from, (n - 1) as nat);
        match before.1 {
            Step::Wait { at, request } => resume(
                before.0,
                at,
                Ok(fetched(mem, from + n - 1, request)),
            ),
            Step::Done(_) => before,
        }
    }
}

/// The requests of the `n` accesses.
pub open spec fn asked<Q, S, T, E>(
    state: Q,
    step: Step<S, T, E>,
    resume: spec_fn(Q, S, Result<Seq<u8>, E>) -> (Q, Step<S, T, E>),
    mem: spec_fn(int, Region) -> Seq<u8>,
    from: int,
    n: nat,
) -> Seq<Request>
    decreases n,
{
    if n == 0 {
        Seq::empty()
    } else {
        let before = asked(state, step, resume, mem, from, (n - 1) as nat);
        match served(state, step, resume, mem, from, (n - 1) as nat).1 {
            Step::Wait { at, request } => before.push(request),
            Step::Done(_) => before,
        }
    }
}

/// One more access.
pub proof fn lemma_served_once<Q, S, T, E>(
    state: Q,
    step: Step<S, T, E>,
    resume: spec_fn(Q, S, Result<Seq<u8>, E>) -> (Q, Step<S, T, E>),
    mem: spec_fn(int, Region) -> Seq<u8>,
    from: int,
    n: nat,
)
    ensures
        ({
            let before = served(state, step, resume, mem, from, n);
            &&& served(state, step, resume, mem, from, n + 1) == (match before.1 {
                Step::Wait { at, request } => resume(
                    before.0,
                    at,
                    Ok(fetched(mem, from + n, request)),
                ),
                Step::Done(_) => before,
            })
            &&& asked(state, step, resume, mem, from, n + 1) == (match before.1 {
                Step::Wait { at, request } => asked(state, step, resume, mem, from, n).push(
                    request,
                ),
                Step::Done(_) => asked(state, step, resume, mem, from, n),
            })
        }),
        n == 0 ==> {
            &&& served(state, step, resume, mem, from, n) == (state, step)
            &&& asked(state, step, resume, mem, from, n) == Seq::<Request>::empty()
        },
{
}

/// An operation goes on from where it stands.
pub proof fn lemma_served_append<Q, S, T, E>(
    state: Q,
    step: Step<S, T, E>,
    resume: spec_fn(Q, S, Result<Seq<u8>, E>) -> (Q, Step<S, T, E>),
    mem: spec_fn(int, Region) -> Seq<u8>,
    from: int,
    n: nat,
    more: nat,
)
    ensures
        served(state, step, resume, mem, from, n + more) == ({
            let between = served(state, step, resume, mem, from, n);
            served(between.0, between.1, resume, mem, from + n, more)
        }),
    decreases more,
{
    if more > 0 {
        lemma_served_append(state, step, resume, mem, from, n, (more - 1) as nat);
    }
}

} // verus!
