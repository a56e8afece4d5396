//! The mailbox of an actor: any number of senders, one consumer, and three
//! classes of delivery. Immediate messages overtake normal ones, and a timed
//! message is delivered only once its instant has passed.

use vstd::prelude::*;
use std::time::Duration;
use crate::world::clock_millis;

verus! {

#[verifier::external_type_specification]
#[verifier::external_body]
#[verifier::reject_recursive_types(T)]
pub struct ExFlumeSender<T>(flume::Sender<T>);

#[verifier::external_type_specification]
#[verifier::external_body]
#[verifier::reject_recursive_types(T)]
pub struct ExFlumeReceiver<T>(flume::Receiver<T>);

/// Relies on `flume::unbounded`: a fresh channel of unbounded capacity.
#[verifier::external_body]
fn channel<T>() -> (r: (flume::Sender<T>, flume::Receiver<T>)) {
    flume::unbounded()
}

/// Relies on `flume::Sender::send`, which fails only once the receiver is
/// gone; the message is then dropped.
#[verifier::external_body]
fn post<T>(tx: &flume::Sender<T>, value: T) {
    let _ = tx.send(value);
}

/// Relies on `flume::Sender::clone`: another handle on the same channel.
#[verifier::external_body]
fn clone_sender<T>(tx: &flume::Sender<T>) -> (r: flume::Sender<T>) {
    tx.clone()
}

/// Relies on `flume::Receiver::drain`: the messages that sit in the channel,
/// in the order they were sent; which ones these are depends on the senders.
#[verifier::external_body]
fn drain_pending<T>(rx: &flume::Receiver<T>) -> (r: Vec<T>) {
    rx.drain().collect()
}

/// Relies on `flume::Receiver::recv_timeout`: the next message, where one
/// arrives within `millis` milliseconds.
#[verifier::external_body]
fn wait_next<T>(rx: &flume::Receiver<T>, millis: u64) -> (r: Option<T>)
    requires
        millis <= MAX_WAIT_MILLIS,
{
    rx.recv_timeout(Duration::from_millis(millis)).ok()
}

/// The longest that a receiver waits in one call, in milliseconds: a day.
pub const MAX_WAIT_MILLIS: u64 = 86_400_000;

/// A message that is due at instant `at`, in milliseconds.
pub struct Timed<E> {
    pub at: u64,
    pub value: E,
}

/// A message with its class of delivery.
pub enum Envelope<E> {
    Normal(E),
    Immediate(E),
    Timer(Timed<E>),
}

/// What a mailbox holds: immediate, normal and timed messages, each in the
/// order they arrived.
pub struct MailView<E> {
    pub immediate: Seq<E>,
    pub normal: Seq<E>,
    pub timers: Seq<Timed<E>>,
}

/// The mailbox after `env` arrived.
pub open spec fn absorbed<E>(v: MailView<E>, env: Envelope<E>) -> MailView<E> {
    match env {
        Envelope::Normal(e) => MailView { normal: v.normal.push(e), ..v },
        Envelope::Immediate(e) => MailView { immediate: v.immediate.push(e), ..v },
        Envelope::Timer(t) => MailView { timers: v.timers.push(t), ..v },
    }
}

/// `k` is the first timed message that is due at `now`.
pub open spec fn is_first_due<E>(timers: Seq<Timed<E>>, now: u64, k: int) -> bool {
    &&& 0 <= k < timers.len()
    &&& timers[k].at <= now
    &&& forall|j: int| 0 <= j < k ==> (#[trigger] timers[j]).at > now
}

pub open spec fn has_due<E>(timers: Seq<Timed<E>>, now: u64) -> bool {
    exists|k: int| 0 <= k < timers.len() && (#[trigger] timers[k]).at <= now
}

pub open spec fn first_due<E>(timers: Seq<Timed<E>>, now: u64) -> int {
    choose|k: int| is_first_due(timers, now, k)
}

/// The message a consumer receives next at `now`: the first immediate one;
/// else the first timed one that is due; else the first normal one.
pub open spec fn next_ready<E>(v: MailView<E>, now: u64) -> Option<E> {
    if v.immediate.len() > 0 {
        Some(v.immediate[0])
    } else if has_due(v.timers, now) {
        Some(v.timers[first_due(v.timers, now)].value)
    } else if v.normal.len() > 0 {
        Some(v.normal[0])
    } else {
        None
    }
}

/// The mailbox once the message `next_ready` gives was taken out.
pub open spec fn after_take<E>(v: MailView<E>, now: u64) -> MailView<E> {
    if v.immediate.len() > 0 {
        MailView { immediate: v.immediate.drop_first(), ..v }
    } else if has_due(v.timers, now) {
        MailView { timers: v.timers.remove(first_due(v.timers, now)), ..v }
    } else if v.normal.len() > 0 {
        MailView { normal: v.normal.drop_first(), ..v }
    } else {
        v
    }
}

proof fn lemma_first_due_unique<E>(timers: Seq<Timed<E>>, now: u64, k: int)
    requires
        is_first_due(timers, now, k),
    ensures
        has_due(timers, now),
        first_due(timers, now) == k,
{
    let c = first_due(timers, now);
    assert(is_first_due(timers, now, c));
    if c < k {
        assert(timers[c].at > now);
    }
    if k < c {
        assert(timers[k].at > now);
    }
}

/// Given one normal and one immediate message that arrived in either order
/// at a mailbox with no immediate message, the next one received is the
/// immediate one.
pub proof fn lemma_immediate_first<E>(v: MailView<E>, n: E, i: E, now: u64)
    requires
        v.immediate.len() == 0,
    ensures
        next_ready(absorbed(absorbed(v, Envelope::Normal(n)), Envelope::Immediate(i)), now) == Some(i),
        next_ready(absorbed(absorbed(v, Envelope::Immediate(i)), Envelope::Normal(n)), now) == Some(i),
{
}

/// Messages that arrived, sorted by class, waiting for the consumer.
pub struct Mailbox<E> {
    pub immediate: Vec<E>,
    pub normal: Vec<E>,
    pub timers: Vec<Timed<E>>,
}

impl<E> Mailbox<E> {
    pub open spec fn view(&self) -> MailView<E> {
        MailView { immediate: self.immediate@, normal: self.normal@, timers: self.timers@ }
    }

    pub fn new() -> (r: Self)
        ensures
            r.view().immediate.len() == 0,
            r.view().normal.len() == 0,
            r.view().timers.len() == 0,
    {
        Mailbox { immediate: Vec::new(), normal: Vec::new(), timers: Vec::new() }
    }

    /// Files a message under its class.
    pub fn absorb(&mut self, env: Envelope<E>)
        ensures
            final(self).view() == absorbed(old(self).view(), env),
    {
        match env {
            Envelope::Normal(e) => self.normal.push(e),
            Envelope::Immediate(e) => self.immediate.push(e),
            Envelope::Timer(t) => self.timers.push(t),
        }
    }

    /// Takes out the message that `next_ready` gives at `now`.
    pub fn take_ready(&mut self, now: u64) -> (r: Option<E>)
        ensures
            r == next_ready(old(self).view(), now),
            final(self).view() == after_take(old(self).view(), now),
    {
        if self.immediate.len() > 0 {
            let e = self.immediate.remove(0);
            proof {
                assert(old(self).immediate@.remove(0) =~= old(self).immediate@.drop_first());
            }
            return Some(e);
        }
        let mut k: usize = 0;
        while k < self.timers.len()
            invariant
                self.view() == old(self).view(),
                old(self).immediate@.len() == 0,
                k <= self.timers@.len(),
                forall|j: int| 0 <= j < k ==> (#[trigger] self.timers@[j]).at > now,
            decreases self.timers@.len() - k,
        {
            if self.timers[k].at <= now {
                proof {
                    lemma_first_due_unique(self.timers@, now, k as int);
                }
                let t = self.timers.remove(k);
                proof {
                    let o = old(self).view();
                    assert(o.immediate.len() == 0);
                    assert(has_due(o.timers, now));
                    assert(first_due(o.timers, now) == k);
                    assert(t == o.timers[k as int]);
                    assert(self.view() == MailView { timers: o.timers.remove(k as int), ..o });
                }
                return Some(t.value);
            }
            k = k + 1;
        }
        proof {
            assert(!has_due(self.timers@, now));
        }
        if self.normal.len() > 0 {
            let e = self.normal.remove(0);
            proof {
                assert(old(self).normal@.remove(0) =~= old(self).normal@.drop_first());
            }
            return Some(e);
        }
        None
    }
}

/// The handle that other actors hold to send to a mailbox.
#[verifier::reject_recursive_types(E)]
pub struct EventSender<E> {
    tx: flume::Sender<Envelope<E>>,
}

impl<E> EventSender<E> {
    /// Sends `value` as a normal message. Where the consumer is gone the
    /// message is dropped.
    pub fn send(&self, value: E) {
        post(&self.tx, Envelope::Normal(value));
    }

    /// Sends `value` ahead of every normal message.
    pub fn send_immediate(&self, value: E) {
        post(&self.tx, Envelope::Immediate(value));
    }

    /// Sends `value` to be delivered once `after_millis` milliseconds have
    /// passed.
    pub fn send_after(&self, value: E, after_millis: u64) {
        let now = clock_millis();
        let at = if now > u64::MAX - after_millis {
            u64::MAX
        } else {
            now + after_millis
        };
        post(&self.tx, Envelope::Timer(Timed { at, value }));
    }

    /// The channel this handle sends on.
    pub fn inner(&self) -> &flume::Sender<Envelope<E>> {
        &self.tx
    }

    /// Another handle on the same mailbox.
    pub fn duplicate(&self) -> Self {
        EventSender { tx: clone_sender(&self.tx) }
    }
}

/// The consuming end of a mailbox, owned by one control loop.
#[verifier::reject_recursive_types(E)]
pub struct EventQueue<E> {
    sender: EventSender<E>,
    recv: flume::Receiver<Envelope<E>>,
    /// Messages that arrived and were not received yet.
    pending: Mailbox<E>,
}

impl<E> EventQueue<E> {
    pub closed spec fn pending(&self) -> MailView<E> {
        self.pending.view()
    }

    /// An empty mailbox.
    pub fn new() -> (r: Self)
        ensures
            r.pending().immediate.len() == 0,
            r.pending().normal.len() == 0,
            r.pending().timers.len() == 0,
    {
        let (tx, recv) = channel();
        EventQueue { sender: EventSender { tx }, recv, pending: Mailbox::new() }
    }

    pub fn sender(&self) -> &EventSender<E> {
        &self.sender
    }

    /// Files every message that arrived, in the order they were sent.
    fn collect(&mut self)
        ensures
            extends_mail(old(self).pending(), final(self).pending()),
    {
        let mut batch = drain_pending(&self.recv);
        while batch.len() > 0
            invariant
                extends_mail(old(self).pending(), self.pending()),
            decreases batch@.len(),
        {
            let env = batch.remove(0);
            self.pending.absorb(env);
        }
    }

    /// The next message that is ready, without waiting: an immediate one
    /// before any other.
    pub fn try_recv(&mut self) -> (r: Option<E>)
        ensures
            old(self).pending().immediate.len() > 0 ==> r == Some(old(self).pending().immediate[0]),
            old(self).pending().normal.len() > 0 ==> r is Some,
            received_from(old(self).pending(), final(self).pending(), r),
    {
        self.collect();
        let ghost mid = self.pending();
        let now = clock_millis();
        let r = self.pending.take_ready(now);
        proof {
            assert(extends_mail(old(self).pending(), mid) && next_ready(mid, now) == r && self.pending()
                == after_take(mid, now));
        }
        r
    }

    /// The next message that is ready, waiting at most `timeout_millis`
    /// milliseconds, and never more than a day, for one to arrive.
    pub fn recv_timeout(&mut self, timeout_millis: u64) -> (r: Option<E>)
        ensures
            old(self).pending().immediate.len() > 0 ==> r == Some(old(self).pending().immediate[0]),
            old(self).pending().normal.len() > 0 ==> r is Some,
            received_from(old(self).pending(), final(self).pending(), r),
    {
        let first = self.try_recv();
        if first.is_some() {
            return first;
        }
        let wait = if timeout_millis > MAX_WAIT_MILLIS {
            MAX_WAIT_MILLIS
        } else {
            timeout_millis
        };
        proof {
            let (mid, now) = choose|mid: MailView<E>, now: u64|
                extends_mail(old(self).pending(), mid) && #[trigger] next_ready(mid, now) == first
                    && self.pending() == after_take(mid, now);
            assert(self.pending() == mid);
        }
        let ghost s1 = self.pending();
        if let Some(env) = wait_next(&self.recv, wait) {
            self.pending.absorb(env);
            proof {
                lemma_absorbed_extends(s1, env);
            }
        }
        let ghost s2 = self.pending();
        let r = self.try_recv();
        proof {
            let (mid, now) = choose|mid: MailView<E>, now: u64|
                extends_mail(s2, mid) && #[trigger] next_ready(mid, now) == r && self.pending()
                    == after_take(mid, now);
            lemma_extends_mail_trans(s1, s2, mid);
            lemma_extends_mail_trans(old(self).pending(), s1, mid);
            assert(extends_mail(old(self).pending(), mid) && next_ready(mid, now) == r);
        }
        r
    }
}

impl<E> Default for EventQueue<E> {
    fn default() -> (r: Self)
        ensures
            r.pending().immediate.len() == 0,
            r.pending().normal.len() == 0,
            r.pending().timers.len() == 0,
    {
        Self::new()
    }
}

/// `b` is what is left of a mailbox that held `a`, once further messages
/// arrived and `r` was received at some instant.
pub open spec fn received_from<E>(a: MailView<E>, b: MailView<E>, r: Option<E>) -> bool {
    exists|mid: MailView<E>, now: u64|
        extends_mail(a, mid) && #[trigger] next_ready(mid, now) == r && b == after_take(mid, now)
}

proof fn lemma_extends_mail_trans<E>(a: MailView<E>, b: MailView<E>, c: MailView<E>)
    requires
        extends_mail(a, b),
        extends_mail(b, c),
    ensures
        extends_mail(a, c),
{
}

proof fn lemma_absorbed_extends<E>(a: MailView<E>, env: Envelope<E>)
    ensures
        extends_mail(a, absorbed(a, env)),
{
}

/// `b` holds what `a` holds, and possibly more after it, class by class.
pub open spec fn extends_mail<E>(a: MailView<E>, b: MailView<E>) -> bool {
    &&& a.immediate.len() <= b.immediate.len()
    &&& forall|i: int| 0 <= i < a.immediate.len() ==> #[trigger] b.immediate[i] == a.immediate[i]
    &&& a.normal.len() <= b.normal.len()
    &&& forall|i: int| 0 <= i < a.normal.len() ==> #[trigger] b.normal[i] == a.normal[i]
    &&& a.timers.len() <= b.timers.len()
    &&& forall|i: int| 0 <= i < a.timers.len() ==> #[trigger] b.timers[i] == a.timers[i]
}

} // verus!
