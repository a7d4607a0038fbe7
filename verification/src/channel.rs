//! The bounded channels and queues that carry values between threads, each held by a
//! handle that keeps a log of what went through it.
//!
//! What a channel answers depends on what the other threads do meanwhile, and is not
//! promised. What is handed over, in what order, and what the answer was, is written
//! into the log of the handle, and the contracts of the functions that hold one speak
//! of it. The log is a mathematical value and takes no room.

use crossbeam_channel::{Receiver, Sender};
use crossbeam_queue::ArrayQueue;
use std::sync::atomic::{AtomicBool, AtomicU64};
use std::sync::Arc;
use vstd::prelude::*;

verus! {

/// The sending side of a channel of `crossbeam_channel`.
#[verifier::external_type_specification]
#[verifier::external_body]
#[verifier::reject_recursive_types(T)]
pub struct ExSender<T>(Sender<T>);

/// The receiving side of a channel of `crossbeam_channel`.
#[verifier::external_type_specification]
#[verifier::external_body]
#[verifier::reject_recursive_types(T)]
pub struct ExReceiver<T>(Receiver<T>);

/// The bounded queue of `crossbeam_queue`.
#[verifier::external_type_specification]
#[verifier::external_body]
#[verifier::reject_recursive_types(T)]
pub struct ExArrayQueue<T>(ArrayQueue<T>);

/// A message that was offered to a channel, and whether the channel took it.
pub struct Offer<T> {
    pub message: T,
    pub taken: bool,
}

/// The sending side of a channel.
#[verifier::reject_recursive_types(T)]
pub struct Outbox<T> {
    tx: Sender<T>,
    log: Ghost<Seq<Offer<T>>>,
}

impl<T> Outbox<T> {
    /// What was offered through this handle so far.
    pub closed spec fn offers(self) -> Seq<Offer<T>> {
        self.log@
    }

    /// A handle through which nothing was offered yet.
    pub fn new(tx: Sender<T>) -> (r: Self)
        ensures
            r.offers() == Seq::<Offer<T>>::empty(),
    {
        Outbox { tx, log: Ghost(Seq::empty()) }
    }

    /// `crossbeam_channel::Sender::try_send`: offers a message without waiting. A message
    /// that finds no room, or no receiver any more, comes back as it was. Whether it does
    /// rests on the receiving thread, and is not stated; the log notes the message and
    /// the answer.
    #[verifier::external_body]
    pub(crate) fn try_send(&mut self, message: T) -> (r: Result<(), T>)
        ensures
            final(self).offers() == old(self).offers().push(
                (Offer { message, taken: r is Ok }),
            ),
            r matches Err(back) ==> back == message,
    {
        match self.tx.try_send(message) {
            Ok(()) => Ok(()),
            Err(e) => Err(e.into_inner()),
        }
    }
}

/// The receiving side of a channel.
#[verifier::reject_recursive_types(T)]
pub struct Inbox<T> {
    rx: Receiver<T>,
    log: Ghost<Seq<Option<T>>>,
}

impl<T> Inbox<T> {
    /// What was found through this handle so far, each time that it was looked for.
    pub closed spec fn found(self) -> Seq<Option<T>> {
        self.log@
    }

    /// A handle through which nothing was looked for yet.
    pub fn new(rx: Receiver<T>) -> (r: Self)
        ensures
            r.found() == Seq::<Option<T>>::empty(),
    {
        Inbox { rx, log: Ghost(Seq::empty()) }
    }

    /// `crossbeam_channel::Receiver::try_recv`: takes the next message without waiting, or
    /// nothing where there is none. What is found rests on the sending thread, and is not
    /// stated; the log notes it.
    #[verifier::external_body]
    pub(crate) fn try_recv(&mut self) -> (r: Option<T>)
        ensures
            final(self).found() == old(self).found().push(r),
    {
        self.rx.try_recv().ok()
    }

    /// `crossbeam_channel::Receiver::recv_timeout`: waits for the next message, for
    /// `timeout_ms` milliseconds at most; nothing where none came in time, or where none
    /// can come any more. What is received rests on the sending thread, and is not
    /// stated; the log notes it.
    #[verifier::external_body]
    pub(crate) fn recv_timeout(&mut self, timeout_ms: u32) -> (r: Option<T>)
        ensures
            final(self).found() == old(self).found().push(r),
    {
        self.rx.recv_timeout(std::time::Duration::from_millis(u64::from(timeout_ms))).ok()
    }
}

/// The side of a queue where values are put in.
#[verifier::reject_recursive_types(T)]
pub struct Feed<T> {
    queue: Arc<ArrayQueue<T>>,
    values: Ghost<Seq<T>>,
    answers: Ghost<Seq<Option<T>>>,
}

impl<T> Feed<T> {
    /// What was put in through this handle so far.
    pub closed spec fn fed(self) -> Seq<T> {
        self.values@
    }

    /// What came back each time that a value was put in.
    pub closed spec fn returned(self) -> Seq<Option<T>> {
        self.answers@
    }

    /// A handle through which nothing was put in yet.
    pub fn new(queue: Arc<ArrayQueue<T>>) -> (r: Self)
        ensures
            r.fed() == Seq::<T>::empty(),
            r.returned() == Seq::<Option<T>>::empty(),
    {
        Feed { queue, values: Ghost(Seq::empty()), answers: Ghost(Seq::empty()) }
    }

    /// `crossbeam_queue::ArrayQueue::force_push`: puts a value at the end of the queue.
    /// Where the queue was full, its oldest value leaves and is returned. Which one that
    /// is, and whether there is one, rests on the other threads, and is not stated; the
    /// logs note the value and what came back.
    #[verifier::external_body]
    pub(crate) fn force_push(&mut self, value: T) -> (r: Option<T>)
        ensures
            final(self).fed() == old(self).fed().push(value),
            final(self).returned() == old(self).returned().push(r),
    {
        self.queue.force_push(value)
    }
}

/// The side of a queue where values are taken out.
#[verifier::reject_recursive_types(T)]
pub struct Tap<T> {
    queue: Arc<ArrayQueue<T>>,
    log: Ghost<Seq<Option<T>>>,
}

impl<T> Tap<T> {
    /// What was found through this handle so far, each time that it was looked for.
    pub closed spec fn found(self) -> Seq<Option<T>> {
        self.log@
    }

    /// A handle through which nothing was taken out yet.
    pub fn new(queue: Arc<ArrayQueue<T>>) -> (r: Self)
        ensures
            r.found() == Seq::<Option<T>>::empty(),
    {
        Tap { queue, log: Ghost(Seq::empty()) }
    }

    /// `crossbeam_queue::ArrayQueue::pop`: takes the oldest value out of the queue, or
    /// nothing where it is empty. What is found rests on the other threads, and is not
    /// stated; the log notes it.
    #[verifier::external_body]
    pub(crate) fn pop(&mut self) -> (r: Option<T>)
        ensures
            final(self).found() == old(self).found().push(r),
    {
        self.queue.pop()
    }
}

/// A flag that another thread raises.
pub struct Signal {
    flag: Arc<AtomicBool>,
    log: Ghost<Seq<bool>>,
}

impl Signal {
    /// What was seen through this handle so far.
    pub closed spec fn seen(self) -> Seq<bool> {
        self.log@
    }

    /// A handle through which the flag was not looked at yet.
    pub fn new(flag: Arc<AtomicBool>) -> (r: Self)
        ensures
            r.seen() == Seq::<bool>::empty(),
    {
        Signal { flag, log: Ghost(Seq::empty()) }
    }

    /// Looks at the flag. What is seen rests on the other thread; the log notes it.
    pub fn is_raised(&mut self) -> (r: bool)
        ensures
            final(self).seen() == old(self).seen().push(r),
    {
        let raised: bool = self.flag.load(std::sync::atomic::Ordering::Relaxed);
        proof {
            self.log@ = self.log@.push(raised);
        }
        raised
    }
}

/// A counter that other threads read.
pub struct Tally {
    counter: Arc<AtomicU64>,
    log: Ghost<int>,
}

impl Tally {
    /// How much was counted through this handle so far.
    pub closed spec fn counted(self) -> int {
        self.log@
    }

    /// A handle through which nothing was counted yet.
    pub fn new(counter: Arc<AtomicU64>) -> (r: Self)
        ensures
            r.counted() == 0,
    {
        Tally { counter, log: Ghost(0) }
    }

    /// Counts `n` more.
    pub fn count(&mut self, n: u64)
        ensures
            final(self).counted() == old(self).counted() + n,
    {
        self.counter.fetch_add(n, std::sync::atomic::Ordering::Relaxed);
        proof {
            self.log@ = self.log@ + n;
        }
    }
}

} // verus!
