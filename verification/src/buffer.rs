//! Bounded in-memory log buffer with live fan-out.
//!
//! The buffer keeps the most recent `capacity` entries in receipt order,
//! overwriting the oldest entry once full (ring semantics). Every appended
//! entry is also placed on the bounded queue of each live subscriber; a
//! full queue drops its oldest undelivered entry rather than holding up
//! the append. Callers that need concurrent access wrap the buffer in a
//! lock and keep delivery outside of it.

use vstd::prelude::*;
use crate::models::{LogEntry, LogEntryV, LogLevel, spec_level_of, spec_rank};
use crate::text::str_eq;

verus! {

/// How many undelivered entries one subscriber may hold.
pub const SUBSCRIBER_QUEUE_CAPACITY: usize = 100;

/// The views of a sequence of entries.
pub open spec fn views_of(s: Seq<LogEntry>) -> Seq<LogEntryV> {
    s.map_values(|e: LogEntry| e@)
}

/// One step of a bounded ring: append `e`, evicting the oldest element
/// once `cap` is reached.
pub open spec fn ring_push(s: Seq<LogEntryV>, e: LogEntryV, cap: nat) -> Seq<LogEntryV> {
    if s.len() < cap {
        s.push(e)
    } else {
        s.drop_first().push(e)
    }
}

proof fn lemma_views_push(s: Seq<LogEntry>, c: LogEntry)
    ensures
        views_of(s.push(c)) == views_of(s).push(c@),
{
    assert forall|k: int| 0 <= k < s.len() + 1 implies views_of(s.push(c))[k] == views_of(
        s,
    ).push(c@)[k] by {
        assert(views_of(s.push(c))[k] == s.push(c)[k]@);
        if k < s.len() {
            assert(views_of(s)[k] == s[k]@);
        }
    }
    assert(views_of(s.push(c)) =~= views_of(s).push(c@));
}

proof fn lemma_views_drop_first(s: Seq<LogEntry>)
    requires
        s.len() >= 1,
    ensures
        views_of(s.drop_first()) == views_of(s).drop_first(),
{
    assert forall|k: int| 0 <= k < s.len() - 1 implies views_of(s.drop_first())[k] == views_of(
        s,
    ).drop_first()[k] by {
        assert(views_of(s.drop_first())[k] == s.drop_first()[k]@);
        assert(views_of(s)[k + 1] == s[k + 1]@);
    }
    assert(views_of(s.drop_first()) =~= views_of(s).drop_first());
}

/// One live fan-out registration.
struct Subscriber {
    active: bool,
    queue: Vec<LogEntry>,
}

/// Bounded ring buffer of log entries with a registry of subscriber
/// queues.
pub struct LogBuffer {
    entries: Vec<LogEntry>,
    capacity: usize,
    start: usize,
    count: usize,
    min_level: LogLevel,
    source_filter: Option<Vec<String>>,
    subs: Vec<Subscriber>,
}

impl View for LogBuffer {
    type V = Seq<LogEntryV>;

    /// The stored entries, oldest first.
    closed spec fn view(&self) -> Seq<LogEntryV> {
        views_of(self.entries@.skip(self.start as int) + self.entries@.take(self.start as int))
    }
}

impl LogBuffer {
    /// Internal consistency of the ring and the subscriber queues.
    pub closed spec fn wf(&self) -> bool {
        &&& self.capacity >= 1
        &&& self.count <= self.capacity
        &&& (self.count < self.capacity ==> self.start == 0 && self.entries@.len() == self.count)
        &&& (self.count == self.capacity ==> self.entries@.len() == self.capacity && self.start
            < self.capacity)
        &&& forall|j: int|
            0 <= j < self.subs@.len() ==> (#[trigger] self.subs@[j].queue@.len())
                <= SUBSCRIBER_QUEUE_CAPACITY
    }

    /// The fixed capacity.
    pub closed spec fn spec_capacity(&self) -> nat {
        self.capacity as nat
    }

    /// The configured minimum level of the read-side filter.
    pub closed spec fn spec_min_level(&self) -> LogLevel {
        self.min_level
    }

    /// The configured source allow-list of the read-side filter.
    pub closed spec fn spec_source_filter(&self) -> Option<Seq<Seq<char>>> {
        match self.source_filter {
            Some(list) => Some(list@.map_values(|t: String| t@)),
            None => None,
        }
    }

    /// How many subscriptions were ever registered.
    pub closed spec fn sub_count(&self) -> nat {
        self.subs@.len()
    }

    /// Whether subscription `id` is still live.
    pub closed spec fn sub_active(&self, id: int) -> bool {
        self.subs@[id].active
    }

    /// The undelivered entries of subscription `id`, oldest first.
    pub closed spec fn sub_queue(&self, id: int) -> Seq<LogEntryV> {
        views_of(self.subs@[id].queue@)
    }

    /// Create an empty buffer that retains the last `capacity` entries.
    pub fn new(capacity: usize) -> (r: Self)
        requires
            capacity >= 1,
        ensures
            r.wf(),
            r@ == Seq::<LogEntryV>::empty(),
            r.spec_capacity() == capacity,
            r.spec_min_level() == LogLevel::Trace,
            r.spec_source_filter() matches None,
            r.sub_count() == 0,
    {
        let r = LogBuffer {
            entries: Vec::new(),
            capacity,
            start: 0,
            count: 0,
            min_level: LogLevel::Trace,
            source_filter: None,
            subs: Vec::new(),
        };
        proof {
            assert(r@ =~= Seq::<LogEntryV>::empty());
        }
        r
    }

    /// Register a new subscription and return its handle. The new
    /// subscription starts with no undelivered entries: it will see only
    /// entries appended after this call.
    pub fn subscribe(&mut self) -> (id: usize)
        requires
            old(self).wf(),
        ensures
            final(self).wf(),
            id == old(self).sub_count(),
            final(self).sub_count() == old(self).sub_count() + 1,
            final(self).sub_active(id as int),
            final(self).sub_queue(id as int) == Seq::<LogEntryV>::empty(),
            final(self)@ == old(self)@,
            final(self).spec_capacity() == old(self).spec_capacity(),
            final(self).spec_min_level() == old(self).spec_min_level(),
            final(self).spec_source_filter() == old(self).spec_source_filter(),
            forall|j: int|
                0 <= j < old(self).sub_count() ==> final(self).sub_active(j) == old(self).sub_active(j) && final(self).sub_queue(j) == old(self).sub_queue(j),
    {
        let id = self.subs.len();
        self.subs.push(Subscriber { active: true, queue: Vec::new() });
        proof {
            assert(self.sub_queue(id as int) =~= Seq::<LogEntryV>::empty());
        }
        id
    }

    /// Drop a subscription: it receives nothing further and its
    /// undelivered entries are discarded.
    pub fn unsubscribe(&mut self, id: usize)
        requires
            old(self).wf(),
            id < old(self).sub_count(),
        ensures
            final(self).wf(),
            !final(self).sub_active(id as int),
            final(self).sub_queue(id as int) == Seq::<LogEntryV>::empty(),
            final(self)@ == old(self)@,
            final(self).sub_count() == old(self).sub_count(),
            final(self).spec_capacity() == old(self).spec_capacity(),
            final(self).spec_min_level() == old(self).spec_min_level(),
            final(self).spec_source_filter() == old(self).spec_source_filter(),
            forall|j: int|
                0 <= j < old(self).sub_count() && j != id ==> final(self).sub_active(j) == old(self).sub_active(j) && final(self).sub_queue(j) == old(self).sub_queue(j),
    {
        self.subs.set(id, Subscriber { active: false, queue: Vec::new() });
        proof {
            assert(self.sub_queue(id as int) =~= Seq::<LogEntryV>::empty());
        }
    }

    /// Take the undelivered entries of subscription `id`, oldest first,
    /// leaving its queue empty.
    pub fn drain(&mut self, id: usize) -> (r: Vec<LogEntry>)
        requires
            old(self).wf(),
            id < old(self).sub_count(),
        ensures
            final(self).wf(),
            views_of(r@) == old(self).sub_queue(id as int),
            final(self).sub_queue(id as int) == Seq::<LogEntryV>::empty(),
            final(self).sub_active(id as int) == old(self).sub_active(id as int),
            final(self)@ == old(self)@,
            final(self).sub_count() == old(self).sub_count(),
            final(self).spec_capacity() == old(self).spec_capacity(),
            final(self).spec_min_level() == old(self).spec_min_level(),
            final(self).spec_source_filter() == old(self).spec_source_filter(),
            forall|j: int|
                0 <= j < old(self).sub_count() && j != id ==> final(self).sub_active(j) == old(self).sub_active(j) && final(self).sub_queue(j) == old(self).sub_queue(j),
    {
        let mut tmp = Subscriber { active: false, queue: Vec::new() };
        self.subs.set_and_swap(id, &mut tmp);
        let was_active = tmp.active;
        self.subs.set(id, Subscriber { active: was_active, queue: Vec::new() });
        proof {
            assert(self.sub_queue(id as int) =~= Seq::<LogEntryV>::empty());
        }
        tmp.queue
    }

    /// Append one entry: store it at the logical tail, evicting the
    /// oldest stored entry once the buffer is full, then offer it to every
    /// live subscriber, dropping a subscriber's oldest undelivered entry
    /// if its queue is full.
    pub fn append(&mut self, entry: LogEntry)
        requires
            old(self).wf(),
        ensures
            final(self).wf(),
            final(self)@ == ring_push(old(self)@, entry@, old(self).spec_capacity()),
            final(self)@.len() <= final(self).spec_capacity(),
            final(self).spec_capacity() == old(self).spec_capacity(),
            final(self).spec_min_level() == old(self).spec_min_level(),
            final(self).spec_source_filter() == old(self).spec_source_filter(),
            final(self).sub_count() == old(self).sub_count(),
            forall|j: int|
                0 <= j < old(self).sub_count() ==> final(self).sub_active(j) == old(self).sub_active(j),
            forall|j: int|
                0 <= j < old(self).sub_count() && old(self).sub_active(j) ==> final(self).sub_queue(j) == ring_push(
                    old(self).sub_queue(j),
                    entry@,
                    SUBSCRIBER_QUEUE_CAPACITY as nat,
                ),
            forall|j: int|
                0 <= j < old(self).sub_count() && !old(self).sub_active(j) ==> final(self).sub_queue(j) == old(self).sub_queue(j),
    {
        let c = entry.clone();
        let ghost cg = c;
        let ghost oe = self.entries@;
        let ghost s = self.start as int;
        if self.count < self.capacity {
            self.entries.push(c);
            self.count = self.count + 1;
            proof {
                assert(oe.skip(0) + oe.take(0) =~= oe);
                assert(self.entries@.skip(0) + self.entries@.take(0) =~= oe.push(cg));
                lemma_views_push(oe, cg);
                assert(self@ == ring_push(old(self)@, entry@, old(self).spec_capacity()));
            }
        } else {
            self.entries.set(self.start, c);
            self.start = if self.start + 1 == self.capacity {
                0
            } else {
                self.start + 1
            };
            proof {
                let ne = self.entries@;
                let s2 = self.start as int;
                let a = oe.skip(s) + oe.take(s);
                let b = ne.skip(s2) + ne.take(s2);
                assert(ne == oe.update(s, cg));
                assert(b =~= a.drop_first().push(cg));
                lemma_views_push(a.drop_first(), cg);
                lemma_views_drop_first(a);
                assert(self@ == ring_push(old(self)@, entry@, old(self).spec_capacity()));
            }
        }
        let ghost stored = self@;
        let n = self.subs.len();
        let mut i: usize = 0;
        while i < n
            invariant
                n == self.subs@.len(),
                n == old(self).subs@.len(),
                i <= n,
                self@ == stored,
                stored == ring_push(old(self)@, entry@, old(self).spec_capacity()),
                stored.len() <= self.spec_capacity(),
                self.capacity == old(self).capacity,
                self.min_level == old(self).min_level,
                self.source_filter == old(self).source_filter,
                self.wf(),
                forall|j: int|
                    0 <= j < n ==> self.subs@[j].active == old(self).subs@[j].active,
                forall|j: int|
                    i <= j < n ==> #[trigger] self.subs@[j].queue@ == old(self).subs@[j].queue@,
                forall|j: int|
                    0 <= j < i && old(self).subs@[j].active ==> #[trigger] self.sub_queue(j)
                        == ring_push(
                        old(self).sub_queue(j),
                        entry@,
                        SUBSCRIBER_QUEUE_CAPACITY as nat,
                    ),
                forall|j: int|
                    0 <= j < i && !old(self).subs@[j].active ==> #[trigger] self.subs@[j].queue@
                        == old(self).subs@[j].queue@,
            decreases n - i,
        {
            let ghost self0 = *self;
            let mut tmp = Subscriber { active: false, queue: Vec::new() };
            self.subs.set_and_swap(i, &mut tmp);
            proof {
                assert(tmp.active == old(self).subs@[i as int].active);
                assert(tmp.queue@ == old(self).subs@[i as int].queue@);
            }
            if tmp.active {
                let ghost q0 = tmp.queue@;
                proof {
                    assert(q0 == old(self).subs@[i as int].queue@);
                }
                if tmp.queue.len() >= SUBSCRIBER_QUEUE_CAPACITY {
                    tmp.queue.remove(0);
                    proof {
                        assert(tmp.queue@ =~= q0.drop_first());
                        lemma_views_drop_first(q0);
                    }
                }
                let c2 = entry.clone();
                let ghost cg2 = c2;
                let ghost q1 = tmp.queue@;
                tmp.queue.push(c2);
                proof {
                    lemma_views_push(q1, cg2);
                    assert(views_of(tmp.queue@) == ring_push(
                        views_of(q0),
                        entry@,
                        SUBSCRIBER_QUEUE_CAPACITY as nat,
                    ));
                }
            }
            let ghost tmpg = tmp;
            self.subs.set_and_swap(i, &mut tmp);
            proof {
                assert(self.subs@[i as int] == tmpg);
                if old(self).subs@[i as int].active {
                    assert(self.sub_queue(i as int) == ring_push(
                        old(self).sub_queue(i as int),
                        entry@,
                        SUBSCRIBER_QUEUE_CAPACITY as nat,
                    ));
                } else {
                    assert(self.subs@[i as int].queue@ == old(self).subs@[i as int].queue@);
                }
                assert forall|j: int|
                    0 <= j < i && old(self).subs@[j].active implies self.sub_queue(j)
                    == ring_push(
                    old(self).sub_queue(j),
                    entry@,
                    SUBSCRIBER_QUEUE_CAPACITY as nat,
                ) by {
                    assert(self.subs@[j].queue@ == self0.subs@[j].queue@);
                    assert(self0.sub_queue(j) == ring_push(
                        old(self).sub_queue(j),
                        entry@,
                        SUBSCRIBER_QUEUE_CAPACITY as nat,
                    ));
                }
                assert forall|j: int|
                    0 <= j < i && !old(self).subs@[j].active implies self.subs@[j].queue@ == old(
                    self,
                ).subs@[j].queue@ by {
                    assert(self.subs@[j].queue@ == self0.subs@[j].queue@);
                }
            }
            i = i + 1;
        }
    }

    /// A snapshot of all stored entries in receipt order.
    pub fn get_all(&self) -> (r: Vec<LogEntry>)
        requires
            self.wf(),
        ensures
            views_of(r@) == self@,
            r@.len() <= self.spec_capacity(),
    {
        let mut r: Vec<LogEntry> = Vec::new();
        if self.count < self.capacity {
            let mut j: usize = 0;
            while j < self.entries.len()
                invariant
                    self.wf(),
                    self.count < self.capacity,
                    j <= self.entries@.len(),
                    views_of(r@) == views_of(self.entries@.take(j as int)),
                    r@.len() == j,
                decreases self.entries@.len() - j,
            {
                let ghost r0 = r@;
                let c = self.entries[j].clone();
                let ghost cg = c;
                r.push(c);
                j = j + 1;
                proof {
                    lemma_views_push(r0, cg);
                    assert(self.entries@.take(j as int) =~= self.entries@.take(j as int - 1).push(
                        self.entries@[j as int - 1],
                    ));
                    lemma_views_push(
                        self.entries@.take(j as int - 1),
                        self.entries@[j as int - 1],
                    );
                }
            }
            proof {
                assert(self.entries@.take(self.entries@.len() as int) =~= self.entries@);
                assert(self.entries@.skip(0) + self.entries@.take(0) =~= self.entries@);
            }
        } else {
            let mut j: usize = self.start;
            while j < self.entries.len()
                invariant
                    self.wf(),
                    self.count == self.capacity,
                    self.start <= j <= self.entries@.len(),
                    views_of(r@) == views_of(self.entries@.subrange(self.start as int, j as int)),
                    r@.len() == j - self.start,
                decreases self.entries@.len() - j,
            {
                let ghost r0 = r@;
                let c = self.entries[j].clone();
                let ghost cg = c;
                r.push(c);
                j = j + 1;
                proof {
                    lemma_views_push(r0, cg);
                    assert(self.entries@.subrange(self.start as int, j as int)
                        =~= self.entries@.subrange(self.start as int, j as int - 1).push(
                        self.entries@[j as int - 1],
                    ));
                    lemma_views_push(
                        self.entries@.subrange(self.start as int, j as int - 1),
                        self.entries@[j as int - 1],
                    );
                }
            }
            let mut k: usize = 0;
            proof {
                assert(self.entries@.subrange(self.start as int, self.entries@.len() as int)
                    =~= self.entries@.skip(self.start as int) + self.entries@.take(0));
            }
            while k < self.start
                invariant
                    self.wf(),
                    self.count == self.capacity,
                    k <= self.start,
                    views_of(r@) == views_of(
                        self.entries@.skip(self.start as int) + self.entries@.take(k as int),
                    ),
                    r@.len() == self.entries@.len() - self.start + k,
                decreases self.start - k,
            {
                let ghost r0 = r@;
                let c = self.entries[k].clone();
                let ghost cg = c;
                r.push(c);
                k = k + 1;
                proof {
                    lemma_views_push(r0, cg);
                    assert(self.entries@.skip(self.start as int) + self.entries@.take(k as int)
                        =~= (self.entries@.skip(self.start as int) + self.entries@.take(
                        k as int - 1,
                    )).push(self.entries@[k as int - 1]));
                    lemma_views_push(
                        self.entries@.skip(self.start as int) + self.entries@.take(k as int - 1),
                        self.entries@[k as int - 1],
                    );
                }
            }
        }
        r
    }

    /// Whether an entry passes the configured read-side filters.
    pub open spec fn spec_passes(
        ev: LogEntryV,
        min: LogLevel,
        filt: Option<Seq<Seq<char>>>,
    ) -> bool {
        &&& spec_rank(spec_level_of(ev.level)) >= spec_rank(min)
        &&& match filt {
            None => true,
            Some(list) => list.contains(ev.source),
        }
    }

    /// A snapshot of the stored entries that pass the configured filters,
    /// in receipt order. Filtering happens only here, on the read side;
    /// `append` stores everything.
    pub fn get_filtered(&self) -> (r: Vec<LogEntry>)
        requires
            self.wf(),
        ensures
            views_of(r@) == self@.filter(
                |ev: LogEntryV|
                    Self::spec_passes(ev, self.spec_min_level(), self.spec_source_filter()),
            ),
    {
        let ghost pred = |ev: LogEntryV|
            Self::spec_passes(ev, self.spec_min_level(), self.spec_source_filter());
        let all = self.get_all();
        let mut r: Vec<LogEntry> = Vec::new();
        proof {
            reveal(Seq::filter);
            assert(views_of(all@).take(0) =~= Seq::<LogEntryV>::empty());
        }
        let mut i: usize = 0;
        while i < all.len()
            invariant
                self.wf(),
                i <= all@.len(),
                views_of(all@) == self@,
                views_of(r@) == views_of(all@).take(i as int).filter(pred),
                pred == (|ev: LogEntryV|
                    Self::spec_passes(ev, self.spec_min_level(), self.spec_source_filter())),
            decreases all@.len() - i,
        {
            let keep_level = LogLevel::from_str(all[i].level.as_str()).rank()
                >= self.min_level.rank();
            let keep_source = match &self.source_filter {
                None => true,
                Some(list) => contains_str(list, all[i].source.as_str()),
            };
            proof {
                reveal(Seq::filter);
                assert(views_of(all@).take(i + 1).drop_last() =~= views_of(all@).take(i as int));
                assert(views_of(all@).take(i + 1).last() == views_of(all@)[i as int]);
                assert(views_of(all@)[i as int] == all@[i as int]@);
            }
            if keep_level && keep_source {
                let ghost r0 = r@;
                let c = all[i].clone();
                let ghost cg = c;
                r.push(c);
                proof {
                    lemma_views_push(r0, cg);
                }
            }
            i = i + 1;
        }
        proof {
            assert(views_of(all@).take(all@.len() as int) =~= views_of(all@));
        }
        r
    }

    /// Set the minimum level of the read-side filter.
    pub fn set_minimum_level(&mut self, level: LogLevel)
        requires
            old(self).wf(),
        ensures
            final(self).wf(),
            final(self).spec_min_level() == level,
            final(self)@ == old(self)@,
            final(self).spec_capacity() == old(self).spec_capacity(),
            final(self).spec_source_filter() == old(self).spec_source_filter(),
            final(self).sub_count() == old(self).sub_count(),
            forall|j: int|
                0 <= j < old(self).sub_count() ==> final(self).sub_active(j) == old(self).sub_active(j) && final(self).sub_queue(j) == old(self).sub_queue(j),
    {
        self.min_level = level;
    }

    /// Set the source allow-list of the read-side filter; `None` admits
    /// every source.
    pub fn set_source_filter(&mut self, sources: Option<Vec<String>>)
        requires
            old(self).wf(),
        ensures
            final(self).wf(),
            final(self).spec_source_filter() == match sources {
                Some(list) => Some(list@.map_values(|t: String| t@)),
                None => None::<Seq<Seq<char>>>,
            },
            final(self)@ == old(self)@,
            final(self).spec_capacity() == old(self).spec_capacity(),
            final(self).spec_min_level() == old(self).spec_min_level(),
            final(self).sub_count() == old(self).sub_count(),
            forall|j: int|
                0 <= j < old(self).sub_count() ==> final(self).sub_active(j) == old(self).sub_active(j) && final(self).sub_queue(j) == old(self).sub_queue(j),
    {
        self.source_filter = sources;
    }

    /// Remove every stored entry. Subscriptions are unaffected and keep
    /// receiving entries appended afterwards.
    pub fn clear(&mut self)
        requires
            old(self).wf(),
        ensures
            final(self).wf(),
            final(self)@ == Seq::<LogEntryV>::empty(),
            final(self).spec_capacity() == old(self).spec_capacity(),
            final(self).spec_min_level() == old(self).spec_min_level(),
            final(self).spec_source_filter() == old(self).spec_source_filter(),
            final(self).sub_count() == old(self).sub_count(),
            forall|j: int|
                0 <= j < old(self).sub_count() ==> final(self).sub_active(j) == old(self).sub_active(j) && final(self).sub_queue(j) == old(self).sub_queue(j),
    {
        self.entries.clear();
        self.start = 0;
        self.count = 0;
        proof {
            assert(self@ =~= Seq::<LogEntryV>::empty());
        }
    }

    /// How many entries are stored.
    pub fn count(&self) -> (r: usize)
        requires
            self.wf(),
        ensures
            r == self@.len(),
    {
        self.count
    }
}

/// Whether `list` holds a string whose characters equal `s`'s.
fn contains_str(list: &Vec<String>, s: &str) -> (r: bool)
    ensures
        r == list@.map_values(|t: String| t@).contains(s@),
{
    let ghost mapped = list@.map_values(|t: String| t@);
    let mut i: usize = 0;
    while i < list.len()
        invariant
            i <= list@.len(),
            mapped == list@.map_values(|t: String| t@),
            forall|j: int| 0 <= j < i ==> mapped[j] != s@,
        decreases list@.len() - i,
    {
        if str_eq(list[i].as_str(), s) {
            proof {
                assert(mapped[i as int] == s@);
            }
            return true;
        }
        i = i + 1;
    }
    proof {
        assert forall|j: int| 0 <= j < mapped.len() implies mapped[j] != s@ by {}
    }
    false
}

/// The suffix of `h` of length at most `cap`: the most recent `cap`
/// elements of a receipt history.
pub open spec fn window(h: Seq<LogEntryV>, cap: nat) -> Seq<LogEntryV> {
    if h.len() <= cap {
        h
    } else {
        h.skip(h.len() - cap)
    }
}

/// The ring contents after pushing the whole history `h`, one element at
/// a time, into an initially empty ring bounded by `cap`.
pub open spec fn ring_fold(h: Seq<LogEntryV>, cap: nat) -> Seq<LogEntryV>
    decreases h.len(),
{
    if h.len() == 0 {
        Seq::empty()
    } else {
        ring_push(ring_fold(h.drop_last(), cap), h.last(), cap)
    }
}

/// Law: any sequence of appends leaves exactly the most recent `cap`
/// entries of the receipt history, in receipt order, and so never more
/// than `cap` entries; once more than `cap` entries have arrived, the
/// oldest ones are absent. `append` steps the stored sequence by
/// `ring_push` from the empty buffer of `new`, so its contents after a
/// run of appends are `ring_fold` of that run. A subscriber's undelivered
/// queue steps by the same `ring_push` from the empty queue of
/// `subscribe`, so its contents are `ring_fold` of exactly the entries
/// appended after the subscription — it never holds an entry from before.
pub proof fn lemma_ring_fold_is_window(h: Seq<LogEntryV>, cap: nat)
    requires
        cap >= 1,
    ensures
        ring_fold(h, cap) == window(h, cap),
        window(h, cap).len() <= cap,
        forall|k: int|
            0 <= k < window(h, cap).len() ==> window(h, cap)[k] == h[h.len() - window(
                h,
                cap,
            ).len() + k],
    decreases h.len(),
{
    if h.len() == 0 {
        assert(ring_fold(h, cap) =~= window(h, cap));
    } else {
        lemma_ring_fold_is_window(h.drop_last(), cap);
        assert(ring_fold(h, cap) =~= window(h, cap));
    }
}

/// Law: an append into an empty buffer — in particular right after
/// `clear`, whose postcondition empties the stored sequence while
/// `get_all` mirrors it — leaves exactly that one entry.
pub proof fn lemma_append_to_cleared(e: LogEntryV, cap: nat)
    requires
        cap >= 1,
    ensures
        ring_push(Seq::empty(), e, cap) == seq![e],
{
    assert(ring_push(Seq::empty(), e, cap) =~= seq![e]);
}

} // verus!
