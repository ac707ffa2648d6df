//! What a queue asks of guest memory, and how it is answered.
//!
//! A queue never touches guest memory itself. Every operation of a queue is a
//! function from its state and an [`Event`] to its next state and a [`Step`]:
//! either one [`Request`] for the caller to perform, with the point at which
//! the operation waits for the reply, or the operation's result. The caller
//! hands the reply back with that point. Guest memory is shared with the
//! driver, so nothing relates the reply to one read to the reply to another.

use crate::layout::{PackedDescriptor, UsedElement};
use crate::le;
use vstd::prelude::*;

verus! {

/// A range of guest memory that a queue works on.
#[derive(Debug, Clone, Copy, PartialEq, Eq)]
pub enum Region {
    /// The table of descriptors.
    Descriptors,
    /// The descriptor ring of a packed queue.
    PackedRing,
    /// The available ring of a split queue.
    Available,
    /// The used ring of a split queue.
    Used,
    /// The event suppression structure that the device of a packed queue writes.
    DeviceEvent,
    /// The event suppression structure that the driver of a packed queue writes.
    DriverEvent,
    /// The indirect table that the current descriptor chain has entered.
    Indirect,
}

/// How a fence orders the memory accesses around it.
#[derive(Debug, Clone, Copy, PartialEq, Eq)]
pub enum Fence {
    Acquire,
    Release,
    SeqCst,
}

/// A value to be written to guest memory.
#[derive(Debug, Clone, Copy, PartialEq, Eq)]
pub enum Plain {
    U16(u16),
    U32(u32),
    UsedElement(UsedElement),
    PackedDescriptor(PackedDescriptor),
}

/// One access to guest memory.
#[derive(Debug, Clone, Copy, PartialEq, Eq)]
pub enum Request {
    /// Take `len` bytes of guest memory from the guest address `addr` on as
    /// the given region, with preemptive locking allowed.
    Subrange { region: Region, addr: u64, len: u64 },
    /// Read `len` bytes at `offset` of a region.
    Read { region: Region, offset: u64, len: u64 },
    /// Write the bytes of a value at `offset` of a region.
    Write { region: Region, offset: u64, value: Plain },
    /// Order the accesses before the fence and those after it.
    Fence(Fence),
}

/// Why an operation of a queue failed. `E` is the error of guest memory.
#[derive(Debug, PartialEq, Eq)]
pub enum QueueError<E> {
    /// Queue memory could not be accessed.
    Memory(E),
    /// An indirect descriptor had the indirect flag set.
    DoubleIndirect,
    /// A descriptor chain is too long or has a cycle.
    TooLong,
    /// A completed descriptor index was not found.
    CompletedDescriptorIndexNotFound(u16),
    /// The queue size is not a power of 2.
    InvalidQueueSize(u16),
}

/// What moves an operation on.
#[derive(Debug)]
pub enum Event<S, E> {
    /// The operation is called.
    Start,
    /// Guest memory has answered the request that the operation waits for.
    Reply { at: S, reply: Result<Vec<u8>, E> },
}

/// What an operation does next.
#[derive(Debug, PartialEq, Eq)]
pub enum Step<S, T, E> {
    /// It waits at `at` for the reply to a request.
    Wait { at: S, request: Request },
    /// It is over.
    Done(Result<T, QueueError<E>>),
}

/// A reply with the bytes it brings as a sequence.
pub open spec fn reply_view<E>(reply: Result<Vec<u8>, E>) -> Result<Seq<u8>, E> {
    match reply {
        Ok(data) => Ok(data@),
        Err(e) => Err(e),
    }
}

/// What guest memory owes in reply to a request: a range that it grants lies
/// in the address space, a read that succeeds brings the bytes that were asked
/// for, and a fence does not fail.
pub open spec fn answers<E>(request: Request, reply: Result<Seq<u8>, E>) -> bool {
    match request {
        Request::Subrange { region, addr, len } => reply is Ok ==> addr + len <= u64::MAX,
        Request::Read { region, offset, len } => reply matches Ok(data) ==> data.len() == len,
        Request::Write { region, offset, value } => true,
        Request::Fence(fence) => reply is Ok,
    }
}

/// Whether a reply is one that guest memory can give to a request.
pub fn is_answer<E>(request: &Request, reply: &Result<Vec<u8>, E>) -> (is_answer: bool)
    ensures
        is_answer == answers(*request, reply_view(*reply)),
{
    match (request, reply) {
        (Request::Fence(_), Err(_)) => false,
        (Request::Subrange { region: _, addr, len }, Ok(_)) => *addr <= u64::MAX - *len,
        (Request::Read { region: _, offset: _, len }, Ok(data)) => data.len() as u64 == *len,
        _ => true,
    }
}

/// Whether the bytes that a request reads or writes lie in the first `len`
/// bytes of a region.
pub open spec fn within(request: Request, region: Region, len: u64) -> bool {
    match request {
        Request::Read { region: r, offset, len: l } => r == region && offset + l <= len,
        Request::Write { region: r, offset, value } => r == region && offset
            + value.spec_bytes().len() <= len,
        _ => false,
    }
}

/// What a region holds after a request, if it held `contents` before: a write to
/// the region replaces as many bytes as the value has.
pub open spec fn stored(contents: Seq<u8>, region: Region, request: Request) -> Seq<u8> {
    match request {
        Request::Write { region: r, offset, value } => if r == region {
            contents.subrange(0, offset as int) + value.spec_bytes() + contents.subrange(
                offset + value.spec_bytes().len(),
                contents.len() as int,
            )
        } else {
            contents
        },
        _ => contents,
    }
}

/// What a region holds after the requests in order.
pub open spec fn stored_all(contents: Seq<u8>, region: Region, requests: Seq<Request>) -> Seq<u8>
    decreases requests.len(),
{
    if requests.len() == 0 {
        contents
    } else {
        stored(stored_all(contents, region, requests.drop_last()), region, requests.last())
    }
}

/// Where an operation stands after its first step `step`, in the state `state`,
/// and the replies in order. `resume` says what it does on a reply.
pub open spec fn run<Q, S, T, E>(
    state: Q,
    step: Step<S, T, E>,
    resume: spec_fn(Q, S, Result<Seq<u8>, E>) -> (Q, Step<S, T, E>),
    replies: Seq<Result<Seq<u8>, E>>,
) -> (Q, Step<S, T, E>)
    decreases replies.len(),
{
    if replies.len() == 0 {
        (state, step)
    } else {
        let before = run(state, step, resume, replies.drop_last());
        match before.1 {
            Step::Wait { at, request } => resume(before.0, at, replies.last()),
            Step::Done(_) => before,
        }
    }
}

/// The requests that an operation has made after its first step and the
/// replies in order.
pub open spec fn requests<Q, S, T, E>(
    state: Q,
    step: Step<S, T, E>,
    resume: spec_fn(Q, S, Result<Seq<u8>, E>) -> (Q, Step<S, T, E>),
    replies: Seq<Result<Seq<u8>, E>>,
) -> Seq<Request>
    decreases replies.len(),
{
    if replies.len() == 0 {
        made(Seq::empty(), step)
    } else {
        let before = requests(state, step, resume, replies.drop_last());
        if run(state, step, resume, replies.drop_last()).1 is Wait {
            made(before, run(state, step, resume, replies).1)
        } else {
            before
        }
    }
}

/// The requests with the one that `step` makes, if it makes one.
pub open spec fn made<S, T, E>(requests: Seq<Request>, step: Step<S, T, E>) -> Seq<Request> {
    match step {
        Step::Wait { at, request } => requests.push(request),
        Step::Done(_) => requests,
    }
}

/// One more reply takes one more step.
pub proof fn lemma_run_push<Q, S, T, E>(
    state: Q,
    step: Step<S, T, E>,
    resume: spec_fn(Q, S, Result<Seq<u8>, E>) -> (Q, Step<S, T, E>),
    replies: Seq<Result<Seq<u8>, E>>,
    reply: Result<Seq<u8>, E>,
)
    ensures
        ({
            let before = run(state, step, resume, replies);
            let after = run(state, step, resume, replies.push(reply));
            &&& after == (match before.1 {
                Step::Wait { at, request } => resume(before.0, at, reply),
                Step::Done(_) => before,
            })
            &&& requests(state, step, resume, replies.push(reply)) == (if before.1 is Wait {
                made(requests(state, step, resume, replies), after.1)
            } else {
                requests(state, step, resume, replies)
            })
        }),
{
    assert(replies.push(reply).drop_last() =~= replies);
}

/// Where an operation stands after `k + 1` replies follows from where it stands
/// after `k`.
pub proof fn lemma_run_take<Q, S, T, E>(
    state: Q,
    step: Step<S, T, E>,
    resume: spec_fn(Q, S, Result<Seq<u8>, E>) -> (Q, Step<S, T, E>),
    replies: Seq<Result<Seq<u8>, E>>,
    k: int,
)
    requires
        0 <= k < replies.len(),
    ensures
        ({
            let before = run(state, step, resume, replies.take(k));
            let after = run(state, step, resume, replies.take(k + 1));
            &&& after == (match before.1 {
                Step::Wait { at, request } => resume(before.0, at, replies[k]),
                Step::Done(_) => before,
            })
            &&& requests(state, step, resume, replies.take(k + 1)) == (if before.1 is Wait {
                made(requests(state, step, resume, replies.take(k)), after.1)
            } else {
                requests(state, step, resume, replies.take(k))
            })
        }),
        k == 0 ==> {
            &&& run(state, step, resume, replies.take(k)) == (state, step)
            &&& requests(state, step, resume, replies.take(k)) == made(Seq::empty(), step)
        },
        k + 1 == replies.len() ==> replies.take(k + 1) == replies,
{
    lemma_run_push(state, step, resume, replies.take(k), replies[k]);
    assert(replies.take(k + 1) =~= replies.take(k).push(replies[k]));
}

/// The replies that bring the given bytes.
pub open spec fn oks<E>(data: Seq<Seq<u8>>) -> Seq<Result<Seq<u8>, E>> {
    Seq::new(data.len(), |i: int| Ok(data[i]))
}

/// An operation goes on from where it stands.
pub proof fn lemma_run_append<Q, S, T, E>(
    state: Q,
    step: Step<S, T, E>,
    resume: spec_fn(Q, S, Result<Seq<u8>, E>) -> (Q, Step<S, T, E>),
    replies: Seq<Result<Seq<u8>, E>>,
    more: Seq<Result<Seq<u8>, E>>,
)
    ensures
        run(state, step, resume, replies + more) == ({
            let between = run(state, step, resume, replies);
            run(between.0, between.1, resume, more)
        }),
    decreases more.len(),
{
    if more.len() == 0 {
        assert(replies + more =~= replies);
    } else {
        lemma_run_append(state, step, resume, replies, more.drop_last());
        assert((replies + more).drop_last() =~= replies + more.drop_last());
    }
}

impl Plain {
    /// The bytes of the value.
    pub open spec fn spec_bytes(&self) -> Seq<u8> {
        match *self {
            Plain::U16(v) => le::u16_bytes(v),
            Plain::U32(v) => le::u32_bytes(v),
            Plain::UsedElement(element) => element.bytes(),
            Plain::PackedDescriptor(descriptor) => descriptor.bytes(),
        }
    }

    /// The bytes of the value.
    pub fn bytes(&self) -> (bytes: Vec<u8>)
        ensures
            bytes@ == self.spec_bytes(),
    {
        let mut bytes: Vec<u8> = Vec::new();
        match *self {
            Plain::U16(v) => {
                push_u16(&mut bytes, v);
            },
            Plain::U32(v) => {
                push_u32(&mut bytes, v);
            },
            Plain::UsedElement(element) => {
                push_u32(&mut bytes, element.id);
                push_u32(&mut bytes, element.len);
            },
            Plain::PackedDescriptor(descriptor) => {
                push_u64(&mut bytes, descriptor.address);
                push_u32(&mut bytes, descriptor.length);
                push_u16(&mut bytes, descriptor.buffer_id);
                push_u16(&mut bytes, descriptor.flags.bits);
            },
        }
        assert(bytes@ =~= self.spec_bytes());
        bytes
    }
}

fn push_u16(bytes: &mut Vec<u8>, v: u16)
    ensures
        final(bytes)@ == old(bytes)@ + le::u16_bytes(v),
{
    let part: [u8; 2] = le::u16_le_new(v);
    bytes.push(part[0]);
    bytes.push(part[1]);
    assert(bytes@ =~= old(bytes)@ + le::u16_bytes(v));
}

fn push_u32(bytes: &mut Vec<u8>, v: u32)
    ensures
        final(bytes)@ == old(bytes)@ + le::u32_bytes(v),
{
    let part: [u8; 4] = le::u32_le_new(v);
    bytes.push(part[0]);
    bytes.push(part[1]);
    bytes.push(part[2]);
    bytes.push(part[3]);
    assert(bytes@ =~= old(bytes)@ + le::u32_bytes(v));
}

fn push_u64(bytes: &mut Vec<u8>, v: u64)
    ensures
        final(bytes)@ == old(bytes)@ + le::u64_bytes(v),
{
    let part: [u8; 8] = le::u64_le_new(v);
    bytes.push(part[0]);
    bytes.push(part[1]);
    bytes.push(part[2]);
    bytes.push(part[3]);
    bytes.push(part[4]);
    bytes.push(part[5]);
    bytes.push(part[6]);
    bytes.push(part[7]);
    assert(bytes@ =~= old(bytes)@ + le::u64_bytes(v));
}

} // verus!
