//! The walker's side of the event stream: which found paths pass the filters,
//! and the order in which `AddPath` and `DoneSearch` may be sent.
use vstd::prelude::*;

use crate::config::{compare, compares, Config};
use crate::item::{ceil_days, days_of, Age, Message, PathItem, NANOS_PER_SEC};
use crate::text::{split, split_on, views};

verus! {

/// The segments of a purge path after its trigger name, to be appended to
/// the trigger directory's path.
pub fn purge_tail(purge: &str) -> (r: Vec<String>)
    ensures
        views(r@) == split(purge@, '/').drop_first(),
{
    let parts = split_on(purge, '/');
    proof {
        crate::text::lemma_split_nonempty(purge@, '/', Seq::empty());
    }
    let mut out: Vec<String> = Vec::new();
    let mut i: usize = 1;
    while i < parts.len()
        invariant
            1 <= i <= parts@.len(),
            views(parts@) == split(purge@, '/'),
            views(out@) == views(parts@).subrange(1, i as int),
        decreases parts@.len() - i,
    {
        let ghost before = views(out@);
        out.push(parts[i].clone());
        assert(views(out@) =~= before.push(parts@[i as int]@));
        assert(views(parts@).subrange(1, i + 1) =~= views(parts@).subrange(1, i as int).push(
            views(parts@)[i as int],
        ));
        i = i + 1;
    }
    assert(views(parts@).subrange(1, parts@.len() as int) =~= views(parts@).drop_first());
    out
}

/// A path of age `age` passes the age filter of `config`; an unknown age passes.
pub open spec fn age_kept(config: Config, age: Option<Age>) -> bool {
    match (config.time, age) {
        (Some((expect, order)), Some(a)) => days_of(a) <= u64::MAX && compares(
            order,
            expect as u64,
            days_of(a) as u64,
        ),
        _ => true,
    }
}

/// A path of `size` bytes passes the size filter of `config`; an unknown size passes.
pub open spec fn size_kept(config: Config, size: Option<u64>) -> bool {
    match (config.size, size) {
        (Some((expect, order)), Some(s)) => compares(order, expect, s),
        _ => true,
    }
}

/// Whether a found path of age `age` passes the age filter.
pub fn keeps_age(config: &Config, age: Option<Age>) -> (r: bool)
    requires
        age matches Some(a) ==> a.nanos < NANOS_PER_SEC,
    ensures
        r == age_kept(*config, age),
{
    match (config.time, age) {
        (Some((expect, order)), Some(a)) => {
            let days = ceil_days(a);
            compare(order, expect as u64, days)
        },
        _ => true,
    }
}

/// Whether a found path of `size` bytes passes the size filter.
pub fn keeps_size(config: &Config, size: Option<u64>) -> (r: bool)
    ensures
        r == size_kept(*config, size),
{
    match (config.size, size) {
        (Some((expect, order)), Some(s)) => compare(order, expect, s),
        _ => true,
    }
}

/// A message the walker has sent.
pub ghost enum Sent {
    Add,
    Done,
}

/// How many `Done`s `trace` holds.
pub open spec fn count_done(trace: Seq<Sent>) -> nat
    decreases trace.len(),
{
    if trace.len() == 0 {
        0
    } else {
        count_done(trace.drop_last()) + if trace.last() is Done {
            1nat
        } else {
            0nat
        }
    }
}

/// A trace of sends in which `Done` comes at most once, and last.
pub open spec fn trace_ok(trace: Seq<Sent>) -> bool {
    &&& count_done(trace) <= 1
    &&& forall|i: int| 0 <= i < trace.len() && (#[trigger] trace[i]) is Done ==> i == trace.len() - 1
}

/// The walker's record of what it has sent for one scan.
pub struct ScanSession {
    done: bool,
    trace: Ghost<Seq<Sent>>,
    /// How many `AddPath`s the entry taken at the last poll may still send.
    budget: Ghost<nat>,
}

impl ScanSession {
    /// What has been sent, in order.
    pub closed spec fn sent(&self) -> Seq<Sent> {
        self.trace@
    }

    /// How many more `AddPath`s may be sent before the next poll: the purge
    /// paths of the walked entry in hand that are still to be sent.
    pub closed spec fn budget(&self) -> nat {
        self.budget@
    }

    /// `DoneSearch` has been sent.
    pub closed spec fn is_done(&self) -> bool {
        self.done
    }

    pub closed spec fn wf(&self) -> bool {
        &&& trace_ok(self.trace@)
        &&& self.done <==> count_done(self.trace@) == 1
    }

    /// A scan that has sent nothing.
    pub fn new() -> (r: ScanSession)
        ensures
            r.wf(),
            r.sent() == Seq::<Sent>::empty(),
            !r.is_done(),
            r.budget() == 0,
    {
        ScanSession { done: false, trace: Ghost(Seq::empty()), budget: Ghost(0) }
    }

    /// Whether the scan may still send.
    pub fn is_searching(&self) -> (r: bool)
        ensures
            r == !self.is_done(),
    {
        !self.done
    }

    /// Checks the cancellation flag before the next walked entry, which carries
    /// `purges` purge paths: `running` is false once the user has asked to stop.
    /// Returns the `DoneSearch` to send when the scan must end now. Until the
    /// next poll, at most `purges` paths may then be sent, and none once ended.
    pub fn poll(&mut self, running: bool, purges: usize) -> (r: Option<Message>)
        requires
            old(self).wf(),
        ensures
            final(self).wf(),
            trace_ok(final(self).sent()),
            r is Some <==> (!running && !old(self).is_done()),
            r is Some ==> r->0 is DoneSearch && final(self).sent() == old(self).sent().push(
                Sent::Done,
            ),
            r is None ==> final(self).sent() == old(self).sent(),
            final(self).is_done() == (old(self).is_done() || !running),
            final(self).budget() == if final(self).is_done() {
                0
            } else {
                purges as nat
            },
    {
        self.budget = Ghost(if !running || self.done {
            0
        } else {
            purges as nat
        });
        if !running && !self.done {
            proof {
                self.lemma_push_done();
            }
            self.trace = Ghost(self.trace@.push(Sent::Done));
            self.done = true;
            Some(Message::DoneSearch)
        } else {
            None
        }
    }

    /// Sends a found path; only while the scan has not ended.
    pub fn add(&mut self, item: PathItem) -> (r: Message)
        requires
            old(self).wf(),
            !old(self).is_done(),
            old(self).budget() > 0,
        ensures
            final(self).budget() == old(self).budget() - 1,
            final(self).wf(),
            trace_ok(final(self).sent()),
            !final(self).is_done(),
            count_done(final(self).sent()) == 0,
            final(self).sent() == old(self).sent().push(Sent::Add),
            r == Message::AddPath(item),
    {
        let ghost t = self.trace@;
        self.trace = Ghost(self.trace@.push(Sent::Add));
        self.budget = Ghost((self.budget@ - 1) as nat);
        proof {
            assert(self.trace@.drop_last() == t);
            assert forall|i: int| 0 <= i < self.trace@.len() && (#[trigger] self.trace@[i]) is Done implies i
                == self.trace@.len() - 1 by {
                if i < t.len() {
                    assert(t[i] == self.trace@[i]);
                    assert(count_done(t) == 1) by {
                        lemma_done_counted(t, i);
                    }
                }
            }
        }
        Message::AddPath(item)
    }

    /// Ends the scan: the `DoneSearch` to send, unless it was already sent.
    pub fn finish(&mut self) -> (r: Option<Message>)
        requires
            old(self).wf(),
        ensures
            final(self).wf(),
            final(self).is_done(),
            trace_ok(final(self).sent()),
            count_done(final(self).sent()) == 1,
            final(self).sent().last() is Done,
            r is Some <==> !old(self).is_done(),
            r is Some ==> r->0 is DoneSearch && final(self).sent() == old(self).sent().push(
                Sent::Done,
            ),
            r is None ==> final(self).sent() == old(self).sent(),
            final(self).budget() == 0,
    {
        self.budget = Ghost(0);
        proof {
            if self.done {
                lemma_done_present(self.trace@);
            }
        }
        if !self.done {
            proof {
                self.lemma_push_done();
            }
            self.trace = Ghost(self.trace@.push(Sent::Done));
            self.done = true;
            Some(Message::DoneSearch)
        } else {
            None
        }
    }

    proof fn lemma_push_done(&self)
        requires
            self.wf(),
            !self.done,
        ensures
            trace_ok(self.trace@.push(Sent::Done)),
            count_done(self.trace@.push(Sent::Done)) == 1,
    {
        let t = self.trace@;
        let u = t.push(Sent::Done);
        assert(u.drop_last() == t);
        assert forall|i: int| 0 <= i < u.len() && (#[trigger] u[i]) is Done implies i == u.len() - 1 by {
            if i < t.len() {
                assert(t[i] == u[i]);
                lemma_done_counted(t, i);
            }
        }
    }
}

/// A `Done` in `trace` is counted.
pub proof fn lemma_done_counted(trace: Seq<Sent>, i: int)
    requires
        0 <= i < trace.len(),
        trace[i] is Done,
    ensures
        count_done(trace) >= 1,
    decreases trace.len(),
{
    if i < trace.len() - 1 {
        assert(trace.drop_last()[i] == trace[i]);
        lemma_done_counted(trace.drop_last(), i);
    }
}

/// A trace that counts a `Done` holds one.
pub proof fn lemma_done_present(trace: Seq<Sent>)
    requires
        count_done(trace) > 0,
    ensures
        exists|i: int| 0 <= i < trace.len() && (#[trigger] trace[i]) is Done,
    decreases trace.len(),
{
    if trace.len() > 0 && !(trace.last() is Done) {
        lemma_done_present(trace.drop_last());
        let i = choose|i: int| 0 <= i < trace.drop_last().len() && (#[trigger] trace.drop_last()[i]) is Done;
        assert(trace[i] == trace.drop_last()[i]);
    } else if trace.len() > 0 {
        assert(trace[trace.len() - 1] is Done);
    }
}

/// Once a scan has sent `DoneSearch`, it sends nothing more, so it sends
/// `DoneSearch` exactly once; in particular no `AddPath` follows a cancellation.
pub proof fn lemma_done_is_last(trace: Seq<Sent>, i: int, j: int)
    requires
        trace_ok(trace),
        0 <= i < j < trace.len(),
    ensures
        !(trace[i] is Done),
{
}

} // verus!
