//! Time- and size-based batching.

use vstd::prelude::*;

use crate::signal;
use crate::signal::Signal;
use crate::signal::SignalView;

verus! {

/// `std`'s monotonic clock reading.
#[verifier::external_type_specification]
#[verifier::external_body]
pub struct ExInstant(std::time::Instant);

/// `std::time::Instant::now`. Nothing is said of the reading: it is the
/// clock's.
#[verifier::external_body]
fn instant_now() -> std::time::Instant {
    std::time::Instant::now()
}

/// `std::time::Instant::elapsed`, in nanoseconds. Nothing is said of it: it is
/// the clock's.
#[verifier::external_body]
fn elapsed_nanos(since: &std::time::Instant) -> u128 {
    since.elapsed().as_nanos()
}

/// What a flush hands out.
pub open spec fn handed_out(batch: Option<Vec<Signal>>) -> Seq<SignalView> {
    match batch {
        Some(b) => signal::signal_views(b@),
        None => Seq::empty(),
    }
}

/// A clock reading as a time that does not lie before `earliest` and fits into
/// 64 bits.
pub open spec fn held_time(reading: u128, earliest: u64) -> u64 {
    if reading > u64::MAX {
        u64::MAX
    } else if reading < earliest {
        earliest
    } else {
        reading as u64
    }
}

/// A clock reading as a time that does not lie before `earliest` and fits into
/// 64 bits.
pub fn hold_time(reading: u128, earliest: u64) -> (r: u64)
    ensures
        r == held_time(reading, earliest),
        r >= earliest,
{
    if reading > u64::MAX as u128 {
        u64::MAX
    } else if reading < earliest as u128 {
        earliest
    } else {
        reading as u64
    }
}

/// Whether a batch is to be flushed with one signal more than it holds: it is
/// full, or its time has come.
pub open spec fn is_due(
    held: nat,
    max_size: usize,
    last_flush_ns: u64,
    now_ns: u64,
    max_delay_secs: u64,
) -> bool {
    held + 1 >= max_size || now_ns - last_flush_ns >= max_delay_secs * 1_000_000_000
}

/// Time- and size-based batcher.
///
/// Call `push(signal)`: it returns `Some(batch)` when the batch should be
/// flushed (size limit hit or time limit exceeded).
/// Call `drain()` at shutdown to get any remaining signals.
#[derive(Debug)]
pub struct BatchProcessor {
    max_size: usize,
    max_delay_secs: u64,
    buf: Vec<Signal>,
    /// When the batcher was made.
    created: std::time::Instant,
    /// When it was last flushed, in nanoseconds since it was made.
    last_flush_ns: u64,
}

impl BatchProcessor {
    /// The signals that are held, in the order in which they came.
    pub closed spec fn held(&self) -> Seq<SignalView> {
        signal::signal_views(self.buf@)
    }

    /// The number of signals at which a batch is flushed.
    pub closed spec fn max_size(&self) -> usize {
        self.max_size
    }

    /// The seconds since the last flush at which a batch is flushed.
    pub closed spec fn max_delay_secs(&self) -> u64 {
        self.max_delay_secs
    }

    /// The time of the last flush, in nanoseconds since the batcher was made.
    pub closed spec fn last_flush_ns(&self) -> u64 {
        self.last_flush_ns
    }

    /// The clock reading that times are counted from.
    pub closed spec fn created(&self) -> std::time::Instant {
        self.created
    }

    pub fn new(max_size: usize, max_delay_secs: u64) -> (r: Self)
        ensures
            r.held() == Seq::<SignalView>::empty(),
            r.max_size() == max_size,
            r.max_delay_secs() == max_delay_secs,
            r.last_flush_ns() == 0,
    {
        let r = BatchProcessor {
            max_size,
            max_delay_secs,
            buf: Vec::new(),
            created: instant_now(),
            last_flush_ns: 0,
        };
        assert(r.held() =~= Seq::empty());
        r
    }

    /// The time now, in nanoseconds since the batcher was made: what the clock
    /// reads, held between the last flush and the most that is counted.
    pub fn now_ns(&self) -> (r: u64)
        ensures
            exists|reading: u128| r == #[trigger] held_time(reading, self.last_flush_ns()),
            r >= self.last_flush_ns(),
    {
        let reading: u128 = elapsed_nanos(&self.created);
        let r: u64 = hold_time(reading, self.last_flush_ns);
        assert(r == held_time(reading, self.last_flush_ns()));
        r
    }

    /// Pushes a signal at a time given in nanoseconds since the batcher was
    /// made. Returns `Some(batch)` if the batch should be flushed, which
    /// counts as a flush at that time. Nothing is lost and the order is kept:
    /// what is handed out, followed by what is held, is what was held before,
    /// followed by the signal.
    pub fn push_at(&mut self, signal: Signal, now_ns: u64) -> (r: Option<Vec<Signal>>)
        requires
            now_ns >= old(self).last_flush_ns(),
        ensures
            handed_out(r) + final(self).held() == old(self).held().push(signal@),
            r is Some <==> old(self).held().len() + 1 >= old(self).max_size() || now_ns
                - old(self).last_flush_ns() >= old(self).max_delay_secs() * 1_000_000_000,
            r is Some ==> final(self).held().len() == 0,
            final(self).last_flush_ns() == (if r is Some {
                now_ns
            } else {
                old(self).last_flush_ns()
            }),
            final(self).max_size() == old(self).max_size(),
            final(self).max_delay_secs() == old(self).max_delay_secs(),
            final(self).created() == old(self).created(),
    {
        let ghost all = self.held().push(signal@);
        self.buf.push(signal);
        assert(self.held() =~= all);
        let size_trigger = self.buf.len() >= self.max_size;
        let max_delay_ns: u128 = self.max_delay_secs as u128 * 1_000_000_000;
        let time_trigger = (now_ns - self.last_flush_ns) as u128 >= max_delay_ns;
        if size_trigger || time_trigger {
            let batch = self.flush(now_ns);
            assert(signal::signal_views(batch@) + self.held() =~= all);
            Some(batch)
        } else {
            assert(Seq::<SignalView>::empty() + self.held() =~= all);
            None
        }
    }

    /// Push a signal. Returns `Some(batch)` if the batch should be flushed:
    /// always when the size limit is hit; below it the time since the last
    /// flush decides. A flush counts from the time at which it was decided.
    /// Nothing is lost and the order is kept.
    pub fn push(&mut self, signal: Signal) -> (r: Option<Vec<Signal>>)
        ensures
            handed_out(r) + final(self).held() == old(self).held().push(signal@),
            old(self).held().len() + 1 >= old(self).max_size() ==> r is Some,
            old(self).max_delay_secs() == 0 ==> r is Some,
            r is Some ==> final(self).held().len() == 0,
            exists|now_ns: u64|
                {
                    &&& now_ns >= old(self).last_flush_ns()
                    &&& r is Some <==> #[trigger] is_due(
                        old(self).held().len(),
                        old(self).max_size(),
                        old(self).last_flush_ns(),
                        now_ns,
                        old(self).max_delay_secs(),
                    )
                    &&& final(self).last_flush_ns() == (if r is Some {
                        now_ns
                    } else {
                        old(self).last_flush_ns()
                    })
                },
            final(self).max_size() == old(self).max_size(),
            final(self).max_delay_secs() == old(self).max_delay_secs(),
            final(self).created() == old(self).created(),
    {
        let now_ns: u64 = self.now_ns();
        let r = self.push_at(signal, now_ns);
        assert(r is Some <==> is_due(
            old(self).held().len(),
            old(self).max_size(),
            old(self).last_flush_ns(),
            now_ns,
            old(self).max_delay_secs(),
        ));
        r
    }

    /// Hands out any remaining signals at a time given in nanoseconds since
    /// the batcher was made. Where there are some, that counts as a flush.
    pub fn drain_at(&mut self, now_ns: u64) -> (r: Option<Vec<Signal>>)
        requires
            now_ns >= old(self).last_flush_ns(),
        ensures
            handed_out(r) == old(self).held(),
            r is Some <==> old(self).held().len() > 0,
            final(self).held().len() == 0,
            final(self).last_flush_ns() == (if r is Some {
                now_ns
            } else {
                old(self).last_flush_ns()
            }),
            final(self).max_size() == old(self).max_size(),
            final(self).max_delay_secs() == old(self).max_delay_secs(),
            final(self).created() == old(self).created(),
    {
        if self.buf.len() == 0 {
            assert(self.held() =~= Seq::empty());
            None
        } else {
            Some(self.flush(now_ns))
        }
    }

    /// Drain any remaining signals (call at shutdown).
    pub fn drain(&mut self) -> (r: Option<Vec<Signal>>)
        ensures
            handed_out(r) == old(self).held(),
            r is Some <==> old(self).held().len() > 0,
            final(self).held().len() == 0,
            final(self).last_flush_ns() >= old(self).last_flush_ns(),
            r is None ==> final(self).last_flush_ns() == old(self).last_flush_ns(),
            final(self).max_size() == old(self).max_size(),
            final(self).max_delay_secs() == old(self).max_delay_secs(),
            final(self).created() == old(self).created(),
    {
        let now_ns: u64 = self.now_ns();
        self.drain_at(now_ns)
    }

    fn flush(&mut self, now_ns: u64) -> (r: Vec<Signal>)
        ensures
            signal::signal_views(r@) == old(self).held(),
            final(self).held().len() == 0,
            final(self).last_flush_ns == now_ns,
            final(self).max_size == old(self).max_size,
            final(self).max_delay_secs == old(self).max_delay_secs,
            final(self).created == old(self).created,
    {
        self.last_flush_ns = now_ns;
        let mut batch: Vec<Signal> = Vec::new();
        std::mem::swap(&mut batch, &mut self.buf);
        batch
    }
}

// ---------------------------------------------------------------------------
// Laws
// ---------------------------------------------------------------------------

/// What goes in comes out, once and in order: if what was handed out so far,
/// followed by what is held, is what was pushed so far, then it is so after one
/// more push, and once nothing is held all of it has been handed out.
pub proof fn law_batches_are_the_input(
    pushed: Seq<SignalView>,
    out: Seq<SignalView>,
    held: Seq<SignalView>,
    s: SignalView,
    now_out: Seq<SignalView>,
    now_held: Seq<SignalView>,
)
    requires
        out + held == pushed,
        now_out + now_held == held.push(s),
    ensures
        (out + now_out) + now_held == pushed.push(s),
        now_held.len() == 0 ==> out + now_out == pushed.push(s),
{
    assert((out + now_out) + now_held =~= out + (now_out + now_held));
    assert(out + held.push(s) =~= (out + held).push(s));
    if now_held.len() == 0 {
        assert((out + now_out) + now_held =~= out + now_out);
    }
}

/// No batch waits past the time limit: a push that comes the delay or more
/// after the last flush flushes, however few signals are held.
pub proof fn law_time_limit_flushes(
    held: nat,
    max_size: usize,
    last_flush_ns: u64,
    now_ns: u64,
    max_delay_secs: u64,
)
    requires
        now_ns >= last_flush_ns + max_delay_secs * 1_000_000_000,
    ensures
        is_due(held, max_size, last_flush_ns, now_ns, max_delay_secs),
{
}

/// The time limit counts from the last flush: right after one, a push below
/// both limits is held.
pub proof fn law_a_flush_restarts_the_time_limit(
    max_size: usize,
    last_flush_ns: u64,
    now_ns: u64,
    max_delay_secs: u64,
)
    requires
        max_size > 1,
        last_flush_ns <= now_ns < last_flush_ns + max_delay_secs * 1_000_000_000,
    ensures
        !is_due(0, max_size, last_flush_ns, now_ns, max_delay_secs),
{
}

/// A push flushes when the batch is full with it, or when the delay has passed
/// since the last flush, and at no other time.
pub proof fn law_a_push_flushes_at_either_limit(
    held: nat,
    max_size: usize,
    last_flush_ns: u64,
    now_ns: u64,
    max_delay_secs: u64,
)
    ensures
        held + 1 >= max_size ==> is_due(held, max_size, last_flush_ns, now_ns, max_delay_secs),
        held + 1 < max_size && now_ns < last_flush_ns + max_delay_secs * 1_000_000_000 ==> !is_due(
            held,
            max_size,
            last_flush_ns,
            now_ns,
            max_delay_secs,
        ),
{
}

/// A clock reading counts as it is, unless it lies before the last flush or does
/// not fit.
pub proof fn law_a_reading_counts_as_it_is(reading: u128, earliest: u64)
    ensures
        earliest <= reading <= u64::MAX ==> held_time(reading, earliest) == reading,
        reading < earliest ==> held_time(reading, earliest) == earliest,
        reading > u64::MAX ==> held_time(reading, earliest) == u64::MAX,
        held_time(reading, earliest) >= earliest,
{
}

/// A flush hands out the signals of its batch, each as it was pushed, and no
/// batch hands out nothing.
pub proof fn law_a_batch_hands_out_its_signals(batch: Vec<Signal>)
    ensures
        handed_out(Some(batch)).len() == batch@.len(),
        forall|i: int|
            0 <= i < batch@.len() ==> #[trigger] handed_out(Some(batch))[i] == batch@[i]@,
        handed_out(None).len() == 0,
{
}

} // verus!
