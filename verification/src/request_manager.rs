//! Device log request lifecycle.
//!
//! One request is tracked per device. A request starts `Pending` and
//! moves to exactly one of the terminal states `Fulfilled`, `Expired` or
//! `Cancelled`; creating a new request for a device replaces whatever was
//! tracked for it. Expiry is observed both lazily on read and by a
//! periodic sweep, against the same stored expiry timestamp.
//!
//! The manager's view is the map from device to tracked request. Callers
//! that need concurrent access wrap the manager in a lock.

use vstd::prelude::*;
use crate::models::{LogRequest, LogRequestStatus, LogRequestV, RequestError, RequestStats};
use crate::text::str_eq;
use crate::clock::now_millis;
use crate::ids::fresh_id;

verus! {

/// How long a request stays pending: 24 hours, in milliseconds.
pub const REQUEST_TTL_MS: i64 = 86400000;

/// How long a terminal request is retained before the sweep removes it:
/// 7 days, in milliseconds.
pub const RETENTION_MS: i64 = 604800000;

/// `r` with its status replaced.
pub open spec fn spec_with_status(r: LogRequestV, st: LogRequestStatus) -> LogRequestV {
    LogRequestV {
        id: r.id,
        user_id: r.user_id,
        device_id: r.device_id,
        requested_at: r.requested_at,
        expires_at: r.expires_at,
        status: st,
        fulfilled_at: r.fulfilled_at,
        log_file_path: r.log_file_path,
    }
}

/// No two tracked requests share a device.
spec fn unique_devices(s: Seq<LogRequest>) -> bool {
    forall|i: int, j: int|
        0 <= i < j < s.len() ==> s[i].device_id@ != s[j].device_id@
}

/// Whether some tracked request is for device `d`.
spec fn has_dev(s: Seq<LogRequest>, d: Seq<char>) -> bool {
    exists|k: int| 0 <= k < s.len() && s[k].device_id@ == d
}

/// The index of the tracked request for device `d`.
spec fn idx_of(s: Seq<LogRequest>, d: Seq<char>) -> int {
    choose|k: int| 0 <= k < s.len() && s[k].device_id@ == d
}

/// The device-to-request map a request sequence represents.
spec fn map_of(s: Seq<LogRequest>) -> Map<Seq<char>, LogRequestV> {
    Map::new(|d: Seq<char>| has_dev(s, d), |d: Seq<char>| s[idx_of(s, d)]@)
}

proof fn lemma_idx_of(s: Seq<LogRequest>, d: Seq<char>)
    requires
        has_dev(s, d),
    ensures
        0 <= idx_of(s, d) < s.len(),
        s[idx_of(s, d)].device_id@ == d,
{
}

proof fn lemma_idx_unique(s: Seq<LogRequest>, k: int)
    requires
        unique_devices(s),
        0 <= k < s.len(),
    ensures
        has_dev(s, s[k].device_id@),
        idx_of(s, s[k].device_id@) == k,
{
    assert(has_dev(s, s[k].device_id@));
    lemma_idx_of(s, s[k].device_id@);
}

proof fn lemma_map_entry(s: Seq<LogRequest>, k: int)
    requires
        unique_devices(s),
        0 <= k < s.len(),
    ensures
        map_of(s).contains_key(s[k].device_id@),
        map_of(s)[s[k].device_id@] == s[k]@,
{
    lemma_idx_unique(s, k);
}

proof fn lemma_map_no_dev(s: Seq<LogRequest>, d: Seq<char>)
    requires
        !has_dev(s, d),
    ensures
        !map_of(s).contains_key(d),
{
}

proof fn lemma_view_update(s: Seq<LogRequest>, x: LogRequest, k: int)
    requires
        unique_devices(s),
        0 <= k < s.len(),
        x.device_id@ == s[k].device_id@,
    ensures
        unique_devices(s.update(k, x)),
        map_of(s.update(k, x)) == map_of(s).insert(x.device_id@, x@),
{
    let s1 = s.update(k, x);
    assert forall|i: int, j: int| 0 <= i < j < s1.len() implies s1[i].device_id@
        != s1[j].device_id@ by {
        assert(s[i].device_id@ != s[j].device_id@);
    }
    assert forall|d: Seq<char>| true implies #[trigger] map_of(s1).contains_key(d) == map_of(
        s,
    ).insert(x.device_id@, x@).contains_key(d) by {
        if has_dev(s1, d) {
            let k1 = idx_of(s1, d);
            lemma_idx_of(s1, d);
            if k1 != k {
                assert(s[k1].device_id@ == d);
            }
            assert(map_of(s).insert(x.device_id@, x@).contains_key(d));
        }
        if d == x.device_id@ {
            lemma_idx_unique(s1, k);
            assert(has_dev(s1, d));
        } else if has_dev(s, d) {
            let k0 = idx_of(s, d);
            lemma_idx_of(s, d);
            assert(k0 != k);
            assert(s1[k0].device_id@ == d);
            assert(has_dev(s1, d));
        }
    }
    assert forall|d: Seq<char>| map_of(s1).contains_key(d) implies #[trigger] map_of(s1)[d]
        == map_of(s).insert(x.device_id@, x@)[d] by {
        if d == x.device_id@ {
            lemma_idx_unique(s1, k);
        } else {
            let k1 = idx_of(s1, d);
            lemma_idx_of(s1, d);
            assert(k1 != k);
            assert(s[k1].device_id@ == d);
            lemma_idx_unique(s, k1);
            lemma_idx_unique(s1, k1);
        }
    }
    assert(map_of(s1) =~= map_of(s).insert(x.device_id@, x@));
}

proof fn lemma_view_push(s: Seq<LogRequest>, x: LogRequest)
    requires
        unique_devices(s),
        !has_dev(s, x.device_id@),
    ensures
        unique_devices(s.push(x)),
        map_of(s.push(x)) == map_of(s).insert(x.device_id@, x@),
{
    let s1 = s.push(x);
    assert forall|i: int, j: int| 0 <= i < j < s1.len() implies s1[i].device_id@
        != s1[j].device_id@ by {
        if j < s.len() {
            assert(s[i].device_id@ != s[j].device_id@);
        } else {
            assert(s1[j] == x);
            if s1[i].device_id@ == x.device_id@ {
                assert(has_dev(s, x.device_id@));
            }
        }
    }
    assert forall|d: Seq<char>| true implies #[trigger] map_of(s1).contains_key(d) == map_of(
        s,
    ).insert(x.device_id@, x@).contains_key(d) by {
        if has_dev(s1, d) {
            let k1 = idx_of(s1, d);
            lemma_idx_of(s1, d);
            if k1 < s.len() {
                assert(s[k1].device_id@ == d);
            }
        }
        if d == x.device_id@ {
            assert(s1[s.len() as int].device_id@ == d);
            assert(has_dev(s1, d));
        } else if has_dev(s, d) {
            let k0 = idx_of(s, d);
            lemma_idx_of(s, d);
            assert(s1[k0].device_id@ == d);
            assert(has_dev(s1, d));
        }
    }
    assert forall|d: Seq<char>| map_of(s1).contains_key(d) implies #[trigger] map_of(s1)[d]
        == map_of(s).insert(x.device_id@, x@)[d] by {
        if d == x.device_id@ {
            lemma_idx_unique(s1, s.len() as int);
        } else {
            let k1 = idx_of(s1, d);
            lemma_idx_of(s1, d);
            assert(k1 < s.len());
            assert(s[k1].device_id@ == d);
            lemma_idx_unique(s, k1);
            lemma_idx_unique(s1, k1);
        }
    }
    assert(map_of(s1) =~= map_of(s).insert(x.device_id@, x@));
}

fn blank_request() -> (r: LogRequest) {
    LogRequest {
        id: 0,
        user_id: 0,
        device_id: String::new(),
        requested_at: 0,
        expires_at: 0,
        status: LogRequestStatus::Pending,
        fulfilled_at: None,
        log_file_path: None,
    }
}

/// Tracks at most one log request per device.
pub struct RequestManager {
    requests: Vec<LogRequest>,
}

impl View for RequestManager {
    type V = Map<Seq<char>, LogRequestV>;

    /// The tracked request of each device.
    closed spec fn view(&self) -> Map<Seq<char>, LogRequestV> {
        map_of(self.requests@)
    }
}

impl RequestManager {
    /// Internal consistency: one tracked request per device.
    pub closed spec fn wf(&self) -> bool {
        unique_devices(self.requests@)
    }

    /// How many requests are tracked.
    pub closed spec fn spec_total(&self) -> nat {
        self.requests@.len()
    }

    /// The tracked map is finite and has one key per tracked request.
    pub proof fn lemma_total_is_dom_len(&self)
        requires
            self.wf(),
        ensures
            self@.dom().finite(),
            self@.dom().len() == self.spec_total(),
    {
        let devs = self.requests@.map_values(|r: LogRequest| r.device_id@);
        assert forall|i: int, j: int|
            0 <= i < devs.len() && 0 <= j < devs.len() && i != j implies devs[i] != devs[j] by {
            assert(devs[i] == self.requests@[i].device_id@);
            assert(devs[j] == self.requests@[j].device_id@);
        }
        assert(devs.no_duplicates());
        devs.unique_seq_to_set();
        assert forall|d: Seq<char>| true implies #[trigger] self@.dom().contains(d)
            == devs.to_set().contains(d) by {
            if has_dev(self.requests@, d) {
                let k = idx_of(self.requests@, d);
                lemma_idx_of(self.requests@, d);
                assert(devs[k] == d);
                assert(devs.contains(d));
            }
            if devs.contains(d) {
                let k = choose|k: int| 0 <= k < devs.len() && devs[k] == d;
                assert(self.requests@[k].device_id@ == d);
                assert(has_dev(self.requests@, d));
            }
        }
        assert(self@.dom() =~= devs.to_set());
    }

    /// Create a manager tracking nothing.
    pub fn new() -> (r: Self)
        ensures
            r.wf(),
            r@ == Map::<Seq<char>, LogRequestV>::empty(),
            r.spec_total() == 0,
    {
        let r = RequestManager { requests: Vec::new() };
        proof {
            assert(r@ =~= Map::<Seq<char>, LogRequestV>::empty());
        }
        r
    }

    fn find_by_device(&self, device_id: &str) -> (r: Option<usize>)
        ensures
            match r {
                Some(k) => k < self.requests@.len() && self.requests@[k as int].device_id@
                    == device_id@,
                None => !has_dev(self.requests@, device_id@),
            },
    {
        let mut i: usize = 0;
        while i < self.requests.len()
            invariant
                i <= self.requests@.len(),
                forall|j: int| 0 <= j < i ==> self.requests@[j].device_id@ != device_id@,
            decreases self.requests@.len() - i,
        {
            if str_eq(self.requests[i].device_id.as_str(), device_id) {
                return Some(i);
            }
            i = i + 1;
        }
        None
    }

    /// Cancel the device's request: fails `NotFound` when nothing is
    /// tracked for the device, `AlreadyProcessed` when the tracked
    /// request is no longer pending, and otherwise moves it to
    /// `Cancelled`.
    pub fn cancel(&mut self, device_id: &str) -> (r: Result<(), RequestError>)
        requires
            old(self).wf(),
        ensures
            final(self).wf(),
            final(self).spec_total() == old(self).spec_total(),
            !old(self)@.contains_key(device_id@) ==> r == Err::<(), RequestError>(
                RequestError::NotFound,
            ) && final(self)@ == old(self)@,
            old(self)@.contains_key(device_id@) && old(self)@[device_id@].status
                != LogRequestStatus::Pending ==> r == Err::<(), RequestError>(
                RequestError::AlreadyProcessed,
            ) && final(self)@ == old(self)@,
            old(self)@.contains_key(device_id@) && old(self)@[device_id@].status
                == LogRequestStatus::Pending ==> r == Ok::<(), RequestError>(()) && final(self)@
                == old(self)@.insert(
                device_id@,
                spec_with_status(old(self)@[device_id@], LogRequestStatus::Cancelled),
            ),
    {
        let found = self.find_by_device(device_id);
        match found {
            None => {
                proof {
                    lemma_map_no_dev(self.requests@, device_id@);
                }
                Err(RequestError::NotFound)
            },
            Some(k) => {
                proof {
                    lemma_map_entry(self.requests@, k as int);
                }
                if !matches!(self.requests[k].status, LogRequestStatus::Pending) {
                    return Err(RequestError::AlreadyProcessed);
                }
                let mut tmp = blank_request();
                self.requests.set_and_swap(k, &mut tmp);
                tmp.status = LogRequestStatus::Cancelled;
                let ghost tmpg = tmp;
                self.requests.set_and_swap(k, &mut tmp);
                proof {
                    assert(self.requests@ =~= old(self).requests@.update(k as int, tmpg));
                    lemma_view_update(old(self).requests@, tmpg, k as int);
                    assert(tmpg@ == spec_with_status(
                        old(self)@[device_id@],
                        LogRequestStatus::Cancelled,
                    ));
                }
                Ok(())
            },
        }
    }

    /// The freshly created request for `device_id`, owned by `user_id`.
    pub open spec fn spec_new_request(
        user_id: u128,
        device_id: Seq<char>,
        new_id: u128,
        now_ms: i64,
    ) -> LogRequestV {
        LogRequestV {
            id: new_id,
            user_id: user_id,
            device_id: device_id,
            requested_at: now_ms,
            expires_at: (now_ms + REQUEST_TTL_MS) as i64,
            status: LogRequestStatus::Pending,
            fulfilled_at: None,
            log_file_path: None,
        }
    }

    /// Track a fresh pending request for `device_id` created at `now_ms`
    /// with identifier `new_id`, replacing whatever was tracked for that
    /// device, and return it.
    pub fn create_request_at(
        &mut self,
        user_id: u128,
        device_id: String,
        new_id: u128,
        now_ms: i64,
    ) -> (r: LogRequest)
        requires
            old(self).wf(),
            now_ms <= i64::MAX - REQUEST_TTL_MS,
        ensures
            final(self).wf(),
            r@ == Self::spec_new_request(user_id, device_id@, new_id, now_ms),
            final(self)@ == old(self)@.insert(device_id@, r@),
            old(self)@.contains_key(device_id@) ==> final(self).spec_total() == old(
                self,
            ).spec_total(),
            !old(self)@.contains_key(device_id@) ==> final(self).spec_total() == old(
                self,
            ).spec_total() + 1,
    {
        let req = LogRequest {
            id: new_id,
            user_id,
            device_id,
            requested_at: now_ms,
            expires_at: now_ms + REQUEST_TTL_MS,
            status: LogRequestStatus::Pending,
            fulfilled_at: None,
            log_file_path: None,
        };
        let ret = req.clone();
        let found = self.find_by_device(req.device_id.as_str());
        let ghost reqg = req;
        match found {
            Some(k) => {
                proof {
                    lemma_map_entry(self.requests@, k as int);
                }
                self.requests.set(k, req);
                proof {
                    lemma_view_update(old(self).requests@, reqg, k as int);
                }
            },
            None => {
                proof {
                    lemma_map_no_dev(self.requests@, req.device_id@);
                }
                self.requests.push(req);
                proof {
                    lemma_view_push(old(self).requests@, reqg);
                }
            },
        }
        ret
    }

    /// Track a fresh pending request for `device_id` owned by `user_id`,
    /// created now with a newly drawn identifier and expiring one
    /// time-to-live later, replacing whatever was tracked for that
    /// device, and return it.
    pub fn create_request(&mut self, user_id: u128, device_id: String) -> (r: LogRequest)
        requires
            old(self).wf(),
        ensures
            final(self).wf(),
            r@ == Self::spec_new_request(user_id, device_id@, r@.id, r@.requested_at),
            r@.expires_at == r@.requested_at + REQUEST_TTL_MS,
            final(self)@ == old(self)@.insert(device_id@, r@),
    {
        let id = fresh_id();
        let now = now_millis();
        let now = if now > i64::MAX - REQUEST_TTL_MS {
            i64::MAX - REQUEST_TTL_MS
        } else {
            now
        };
        self.create_request_at(user_id, device_id, id, now)
    }

    /// How one poll of `d` at time `now` steps the tracked map `pre` to
    /// `post` and answers `r`: the device's pending request is returned
    /// while it is live; one past its expiry is moved to `Expired` (the
    /// lazy transition) and reported absent; anything else is reported
    /// absent and left alone.
    pub open spec fn spec_polled(
        pre: Map<Seq<char>, LogRequestV>,
        post: Map<Seq<char>, LogRequestV>,
        d: Seq<char>,
        r: Option<LogRequestV>,
        now: i64,
    ) -> bool {
        &&& (r is Some <==> pre.contains_key(d) && pre[d].status == LogRequestStatus::Pending
            && now <= pre[d].expires_at)
        &&& (r matches Some(v) ==> v == pre[d])
        &&& if pre.contains_key(d) && pre[d].status == LogRequestStatus::Pending && now
            > pre[d].expires_at {
            post == pre.insert(d, spec_with_status(pre[d], LogRequestStatus::Expired))
        } else {
            post == pre
        }
    }

    /// The device's pending request at time `now_ms`, if it is live. A
    /// pending request whose expiry has passed is moved to `Expired` as a
    /// side effect and reported absent.
    pub fn get_pending_at(&mut self, device_id: &str, now_ms: i64) -> (r: Option<LogRequest>)
        requires
            old(self).wf(),
        ensures
            final(self).wf(),
            final(self).spec_total() == old(self).spec_total(),
            Self::spec_polled(
                old(self)@,
                final(self)@,
                device_id@,
                opt_request_view(&r),
                now_ms,
            ),
    {
        let found = self.find_by_device(device_id);
        match found {
            None => {
                proof {
                    lemma_map_no_dev(self.requests@, device_id@);
                }
                None
            },
            Some(k) => {
                proof {
                    lemma_map_entry(self.requests@, k as int);
                }
                if matches!(self.requests[k].status, LogRequestStatus::Pending) {
                    if now_ms > self.requests[k].expires_at {
                        let mut tmp = blank_request();
                        self.requests.set_and_swap(k, &mut tmp);
                        tmp.status = LogRequestStatus::Expired;
                        let ghost tmpg = tmp;
                        self.requests.set_and_swap(k, &mut tmp);
                        proof {
                            assert(self.requests@ =~= old(self).requests@.update(
                                k as int,
                                tmpg,
                            ));
                            lemma_view_update(old(self).requests@, tmpg, k as int);
                            assert(tmpg@ == spec_with_status(
                                old(self)@[device_id@],
                                LogRequestStatus::Expired,
                            ));
                        }
                        None
                    } else {
                        let req = self.requests[k].clone();
                        Some(req)
                    }
                } else {
                    None
                }
            },
        }
    }

    /// The device's pending request as of now, if it is live; a pending
    /// request whose expiry has passed is moved to `Expired` and reported
    /// absent.
    pub fn get_pending(&mut self, device_id: &str) -> (r: Option<LogRequest>)
        requires
            old(self).wf(),
        ensures
            final(self).wf(),
            final(self).spec_total() == old(self).spec_total(),
            exists|now: i64|
                Self::spec_polled(
                    old(self)@,
                    final(self)@,
                    device_id@,
                    opt_request_view(&r),
                    now,
                ),
            r matches Some(req) ==> old(self)@.contains_key(device_id@) && req@ == old(
                self,
            )@[device_id@] && req@.status == LogRequestStatus::Pending && final(self)@ == old(
                self,
            )@,
            !old(self)@.contains_key(device_id@) ==> r is None && final(self)@ == old(self)@,
            old(self)@.contains_key(device_id@) && old(self)@[device_id@].status
                != LogRequestStatus::Pending ==> r is None && final(self)@ == old(self)@,
    {
        let now = now_millis();
        let r = self.get_pending_at(device_id, now);
        proof {
            assert(Self::spec_polled(
                old(self)@,
                self@,
                device_id@,
                opt_request_view(&r),
                now,
            ));
        }
        r
    }

    /// `r` fulfilled at `now` with the upload stored at `path`.
    pub open spec fn spec_fulfilled(r: LogRequestV, now: i64, path: Seq<char>) -> LogRequestV {
        LogRequestV {
            id: r.id,
            user_id: r.user_id,
            device_id: r.device_id,
            requested_at: r.requested_at,
            expires_at: r.expires_at,
            status: LogRequestStatus::Fulfilled,
            fulfilled_at: Some(now),
            log_file_path: Some(path),
        }
    }

    /// Whether some tracked request has identifier `id`.
    pub open spec fn spec_id_tracked(m: Map<Seq<char>, LogRequestV>, id: u128) -> bool {
        exists|d: Seq<char>| #[trigger] m.contains_key(d) && m[d].id == id
    }

    /// How one fulfillment of `id` at time `now` steps the tracked map
    /// `pre` to `post` and answers `r`: unknown identifiers fail
    /// `NotFound`; an identifier whose request has already left `Pending`
    /// fails `AlreadyProcessed`; a pending one moves to `Fulfilled`,
    /// stamped with `now` and `path`. Either failure leaves the map
    /// unchanged.
    pub open spec fn spec_fulfill_outcome(
        pre: Map<Seq<char>, LogRequestV>,
        post: Map<Seq<char>, LogRequestV>,
        id: u128,
        path: Seq<char>,
        r: Result<(), RequestError>,
        now: i64,
    ) -> bool {
        &&& (r == Err::<(), RequestError>(RequestError::NotFound) <==> !Self::spec_id_tracked(
            pre,
            id,
        ))
        &&& (r == Err::<(), RequestError>(RequestError::NotFound) ==> post == pre)
        &&& (r is Ok ==> exists|d: Seq<char>|
            #[trigger] pre.contains_key(d) && pre[d].id == id && pre[d].status
                == LogRequestStatus::Pending && post == pre.insert(
                d,
                Self::spec_fulfilled(pre[d], now, path),
            ))
        &&& (r == Err::<(), RequestError>(RequestError::AlreadyProcessed) ==> post == pre
            && exists|d: Seq<char>|
            #[trigger] pre.contains_key(d) && pre[d].id == id && pre[d].status
                != LogRequestStatus::Pending)
        &&& (Self::spec_id_tracked(pre, id) && (forall|d: Seq<char>|
            #[trigger] pre.contains_key(d) && pre[d].id == id ==> pre[d].status
                == LogRequestStatus::Pending) ==> r is Ok)
        &&& (Self::spec_id_tracked(pre, id) && (forall|d: Seq<char>|
            #[trigger] pre.contains_key(d) && pre[d].id == id ==> pre[d].status
                != LogRequestStatus::Pending) ==> r == Err::<(), RequestError>(
            RequestError::AlreadyProcessed,
        ))
    }

    fn find_by_id(&self, request_id: u128) -> (r: Option<usize>)
        ensures
            match r {
                Some(k) => k < self.requests@.len() && self.requests@[k as int].id == request_id,
                None => forall|j: int|
                    0 <= j < self.requests@.len() ==> self.requests@[j].id != request_id,
            },
    {
        let mut i: usize = 0;
        while i < self.requests.len()
            invariant
                i <= self.requests@.len(),
                forall|j: int| 0 <= j < i ==> self.requests@[j].id != request_id,
            decreases self.requests@.len() - i,
        {
            if self.requests[i].id == request_id {
                return Some(i);
            }
            i = i + 1;
        }
        None
    }

    /// Mark the request with identifier `request_id` fulfilled at
    /// `now_ms`, recording where the upload was stored. Not idempotent: a
    /// request that has already left `Pending` fails `AlreadyProcessed`.
    pub fn fulfill_at(&mut self, request_id: u128, file_path: String, now_ms: i64) -> (r: Result<
        (),
        RequestError,
    >)
        requires
            old(self).wf(),
        ensures
            final(self).wf(),
            final(self).spec_total() == old(self).spec_total(),
            Self::spec_fulfill_outcome(
                old(self)@,
                final(self)@,
                request_id,
                file_path@,
                r,
                now_ms,
            ),
    {
        let found = self.find_by_id(request_id);
        match found {
            None => {
                proof {
                    assert forall|d: Seq<char>| #[trigger] old(self)@.contains_key(d) implies old(
                        self,
                    )@[d].id != request_id by {
                        let k0 = idx_of(self.requests@, d);
                        lemma_idx_of(self.requests@, d);
                    }
                }
                Err(RequestError::NotFound)
            },
            Some(k) => {
                proof {
                    lemma_map_entry(self.requests@, k as int);
                }
                if !matches!(self.requests[k].status, LogRequestStatus::Pending) {
                    return Err(RequestError::AlreadyProcessed);
                }
                let mut tmp = blank_request();
                self.requests.set_and_swap(k, &mut tmp);
                tmp.status = LogRequestStatus::Fulfilled;
                tmp.fulfilled_at = Some(now_ms);
                tmp.log_file_path = Some(file_path);
                let ghost tmpg = tmp;
                self.requests.set_and_swap(k, &mut tmp);
                proof {
                    assert(self.requests@ =~= old(self).requests@.update(k as int, tmpg));
                    lemma_view_update(old(self).requests@, tmpg, k as int);
                }
                Ok(())
            },
        }
    }

    /// Mark the request with identifier `request_id` fulfilled as of now,
    /// recording where the upload was stored. Not idempotent: a request
    /// that has already left `Pending` fails `AlreadyProcessed`.
    pub fn fulfill(&mut self, request_id: u128, file_path: String) -> (r: Result<
        (),
        RequestError,
    >)
        requires
            old(self).wf(),
        ensures
            final(self).wf(),
            final(self).spec_total() == old(self).spec_total(),
            exists|now: i64|
                Self::spec_fulfill_outcome(
                    old(self)@,
                    final(self)@,
                    request_id,
                    file_path@,
                    r,
                    now,
                ),
    {
        let now = now_millis();
        let ghost pathg = file_path@;
        let r = self.fulfill_at(request_id, file_path, now);
        proof {
            assert(Self::spec_fulfill_outcome(old(self)@, self@, request_id, pathg, r, now));
        }
        r
    }

    /// `r` as the sweep sees it at `now`: a pending request past its
    /// expiry counts as expired.
    pub open spec fn spec_expire_due(r: LogRequestV, now: i64) -> LogRequestV {
        if r.status == LogRequestStatus::Pending && now > r.expires_at {
            spec_with_status(r, LogRequestStatus::Expired)
        } else {
            r
        }
    }

    /// Whether the sweep retains `r` (taken after due expiry is applied):
    /// pending requests stay, and terminal ones stay until one retention
    /// window past their creation.
    pub open spec fn spec_keep(r: LogRequestV, now: i64) -> bool {
        r.status == LogRequestStatus::Pending || r.requested_at > now - RETENTION_MS
    }

    /// The tracked map after one sweep at `now`: every request has due
    /// expiry applied, and those no longer retained are gone.
    pub open spec fn spec_swept(pre: Map<Seq<char>, LogRequestV>, now: i64) -> Map<
        Seq<char>,
        LogRequestV,
    > {
        Map::new(
            |d: Seq<char>|
                pre.contains_key(d) && Self::spec_keep(Self::spec_expire_due(pre[d], now), now),
            |d: Seq<char>| Self::spec_expire_due(pre[d], now),
        )
    }

    /// Sweep at time `now_ms`: mark every pending request past its expiry
    /// as `Expired`, drop every terminal request older than the retention
    /// window, and return how many were dropped.
    pub fn cleanup_expired_at(&mut self, now_ms: i64) -> (removed: usize)
        requires
            old(self).wf(),
            now_ms >= i64::MIN + RETENTION_MS,
        ensures
            final(self).wf(),
            final(self)@ == Self::spec_swept(old(self)@, now_ms),
            final(self).spec_total() <= old(self).spec_total(),
            removed == old(self).spec_total() - final(self).spec_total(),
    {
        let n = self.requests.len();
        let mut i: usize = 0;
        while i < n
            invariant
                n == self.requests@.len(),
                n == old(self).requests@.len(),
                i <= n,
                now_ms >= i64::MIN + RETENTION_MS,
                unique_devices(self.requests@),
                forall|k: int|
                    0 <= k < n ==> (#[trigger] self.requests@[k].device_id@) == old(
                        self,
                    ).requests@[k].device_id@,
                forall|k: int|
                    0 <= k < i ==> (#[trigger] self.requests@[k]@) == Self::spec_expire_due(
                        old(self).requests@[k]@,
                        now_ms,
                    ),
                forall|k: int|
                    i <= k < n ==> (#[trigger] self.requests@[k]) == old(self).requests@[k],
            decreases n - i,
        {
            let expire = matches!(self.requests[i].status, LogRequestStatus::Pending) && now_ms
                > self.requests[i].expires_at;
            if expire {
                let mut tmp = blank_request();
                self.requests.set_and_swap(i, &mut tmp);
                tmp.status = LogRequestStatus::Expired;
                let ghost tmpg = tmp;
                self.requests.set_and_swap(i, &mut tmp);
                proof {
                    assert(self.requests@[i as int] == tmpg);
                    assert forall|a: int, b: int| 0 <= a < b < n implies self.requests@[a].device_id@
                        != self.requests@[b].device_id@ by {
                        assert(old(self).requests@[a].device_id@ != old(
                            self,
                        ).requests@[b].device_id@);
                    }
                }
            }
            i = i + 1;
        }
        let ghost marked = self.requests@;
        let mut kept: Vec<LogRequest> = Vec::new();
        let mut j: usize = 0;
        while j < n
            invariant
                n == self.requests@.len(),
                self.requests@ == marked,
                j <= n,
                kept@.len() <= j,
                now_ms >= i64::MIN + RETENTION_MS,
                unique_devices(marked),
                unique_devices(kept@),
                forall|k: int|
                    0 <= k < kept@.len() ==> exists|m: int|
                        0 <= m < j && (#[trigger] kept@[k]).device_id@ == marked[m].device_id@
                            && kept@[k]@ == marked[m]@ && Self::spec_keep(marked[m]@, now_ms),
                forall|m: int|
                    0 <= m < j && Self::spec_keep(#[trigger] marked[m]@, now_ms) ==> exists|k: int|
                        0 <= k < kept@.len() && kept@[k].device_id@ == marked[m].device_id@
                            && kept@[k]@ == marked[m]@,
            decreases n - j,
        {
            let keep = matches!(self.requests[j].status, LogRequestStatus::Pending)
                || self.requests[j].requested_at > now_ms - RETENTION_MS;
            if keep {
                let ghost kept0 = kept@;
                kept.push(self.requests[j].clone());
                proof {
                    let kn = kept0.len() as int;
                    assert(kept@[kn].device_id@ == marked[j as int].device_id@);
                    assert(kept@[kn]@ == marked[j as int]@);
                    assert forall|a: int, b: int| 0 <= a < b < kept@.len() implies kept@[a].device_id@
                        != kept@[b].device_id@ by {
                        if b == kn {
                            let m0 = choose|m: int|
                                0 <= m < j && kept0[a].device_id@ == marked[m].device_id@
                                    && kept0[a]@ == marked[m]@ && Self::spec_keep(
                                    marked[m]@,
                                    now_ms,
                                );
                            assert(marked[m0].device_id@ != marked[j as int].device_id@);
                        }
                    }
                    assert forall|m: int|
                        0 <= m < j + 1 && Self::spec_keep(
                            #[trigger] marked[m]@,
                            now_ms,
                        ) implies exists|k: int|
                        0 <= k < kept@.len() && kept@[k].device_id@ == marked[m].device_id@
                            && kept@[k]@ == marked[m]@ by {
                        if m < j {
                            let k0 = choose|k: int|
                                0 <= k < kept0.len() && kept0[k].device_id@
                                    == marked[m].device_id@ && kept0[k]@ == marked[m]@;
                            assert(kept@[k0].device_id@ == marked[m].device_id@ && kept@[k0]@
                                == marked[m]@);
                        } else {
                            assert(kept@[kn].device_id@ == marked[m].device_id@ && kept@[kn]@
                                == marked[m]@);
                        }
                    }
                }
            } else {
                proof {
                    assert forall|m: int|
                        0 <= m < j + 1 && Self::spec_keep(
                            #[trigger] marked[m]@,
                            now_ms,
                        ) implies exists|k: int|
                        0 <= k < kept@.len() && kept@[k].device_id@ == marked[m].device_id@
                            && kept@[k]@ == marked[m]@ by {
                        if m < j {
                            let k0 = choose|k: int|
                                0 <= k < kept@.len() && kept@[k].device_id@
                                    == marked[m].device_id@ && kept@[k]@ == marked[m]@;
                        }
                    }
                }
            }
            j = j + 1;
        }
        let removed = n - kept.len();
        let ghost keptg = kept@;
        self.requests = kept;
        proof {
            let pre = old(self).requests@;
            assert forall|d: Seq<char>| true implies #[trigger] map_of(keptg).contains_key(d)
                == Self::spec_swept(old(self)@, now_ms).contains_key(d) by {
                if has_dev(keptg, d) {
                    let k = idx_of(keptg, d);
                    lemma_idx_of(keptg, d);
                    let m0 = choose|m: int|
                        0 <= m < n && keptg[k].device_id@ == marked[m].device_id@ && keptg[k]@
                            == marked[m]@ && Self::spec_keep(marked[m]@, now_ms);
                    lemma_map_entry(pre, m0);
                    assert(old(self)@.contains_key(d));
                    assert(old(self)@[d] == pre[m0]@);
                    assert(marked[m0]@ == Self::spec_expire_due(pre[m0]@, now_ms));
                }
                if old(self)@.contains_key(d) && Self::spec_keep(
                    Self::spec_expire_due(old(self)@[d], now_ms),
                    now_ms,
                ) {
                    let m1 = idx_of(pre, d);
                    lemma_idx_of(pre, d);
                    lemma_map_entry(pre, m1);
                    assert(marked[m1]@ == Self::spec_expire_due(pre[m1]@, now_ms));
                    assert(Self::spec_keep(marked[m1]@, now_ms));
                    let k1 = choose|k: int|
                        0 <= k < keptg.len() && keptg[k].device_id@ == marked[m1].device_id@
                            && keptg[k]@ == marked[m1]@;
                    assert(marked[m1].device_id@ == d);
                    assert(has_dev(keptg, d));
                }
            }
            assert forall|d: Seq<char>| map_of(keptg).contains_key(d) implies #[trigger] map_of(
                keptg,
            )[d] == Self::spec_swept(old(self)@, now_ms)[d] by {
                let k = idx_of(keptg, d);
                lemma_idx_of(keptg, d);
                let m0 = choose|m: int|
                    0 <= m < n && keptg[k].device_id@ == marked[m].device_id@ && keptg[k]@
                        == marked[m]@ && Self::spec_keep(marked[m]@, now_ms);
                lemma_map_entry(pre, m0);
                assert(marked[m0]@ == Self::spec_expire_due(pre[m0]@, now_ms));
                lemma_idx_unique(keptg, k);
                assert(map_of(keptg)[d] == keptg[k]@);
            }
            assert(map_of(keptg) =~= Self::spec_swept(old(self)@, now_ms));
        }
        removed
    }

    /// Sweep as of now: mark every pending request past its expiry as
    /// `Expired`, drop every terminal request older than the retention
    /// window, and return how many were dropped.
    pub fn cleanup_expired(&mut self) -> (removed: usize)
        requires
            old(self).wf(),
        ensures
            final(self).wf(),
            final(self).spec_total() <= old(self).spec_total(),
            removed == old(self).spec_total() - final(self).spec_total(),
            exists|now: i64| final(self)@ == Self::spec_swept(old(self)@, now),
    {
        let now = now_millis();
        let now = if now < i64::MIN + RETENTION_MS {
            i64::MIN + RETENTION_MS
        } else {
            now
        };
        let removed = self.cleanup_expired_at(now);
        proof {
            assert(self@ == Self::spec_swept(old(self)@, now));
        }
        removed
    }

    /// The status of `r` as reporting sees it at `now`: a pending request
    /// past its expiry counts as expired.
    pub open spec fn spec_effective_status(r: LogRequestV, now: i64) -> LogRequestStatus {
        if r.status == LogRequestStatus::Pending && now > r.expires_at {
            LogRequestStatus::Expired
        } else {
            r.status
        }
    }

    /// How many tracked requests have effective status `st` at `now`.
    pub open spec fn spec_status_count(
        m: Map<Seq<char>, LogRequestV>,
        now: i64,
        st: LogRequestStatus,
    ) -> nat {
        m.dom().filter(|d: Seq<char>| Self::spec_effective_status(m[d], now) == st).len()
    }

    /// Counts of tracked requests by effective status at time `now_ms`.
    pub fn stats_at(&self, now_ms: i64) -> (r: RequestStats)
        requires
            self.wf(),
        ensures
            r.total == self.spec_total(),
            r.total == self@.dom().len(),
            r.pending == Self::spec_status_count(self@, now_ms, LogRequestStatus::Pending),
            r.fulfilled == Self::spec_status_count(self@, now_ms, LogRequestStatus::Fulfilled),
            r.expired == Self::spec_status_count(self@, now_ms, LogRequestStatus::Expired),
            r.cancelled == Self::spec_status_count(self@, now_ms, LogRequestStatus::Cancelled),
            r.pending + r.fulfilled + r.expired + r.cancelled == r.total,
    {
        broadcast use vstd::seq_lib::seq_to_set_is_finite;

        let ghost devs = self.requests@.map_values(|q: LogRequest| q.device_id@);
        let ghost p_pending = |d: Seq<char>|
            Self::spec_effective_status(self@[d], now_ms) == LogRequestStatus::Pending;
        let ghost p_fulfilled = |d: Seq<char>|
            Self::spec_effective_status(self@[d], now_ms) == LogRequestStatus::Fulfilled;
        let ghost p_expired = |d: Seq<char>|
            Self::spec_effective_status(self@[d], now_ms) == LogRequestStatus::Expired;
        let ghost p_cancelled = |d: Seq<char>|
            Self::spec_effective_status(self@[d], now_ms) == LogRequestStatus::Cancelled;
        let n = self.requests.len();
        let mut pending: usize = 0;
        let mut fulfilled: usize = 0;
        let mut expired: usize = 0;
        let mut cancelled: usize = 0;
        let mut i: usize = 0;
        proof {
            assert(devs.take(0).to_set() =~= Set::<Seq<char>>::empty());
            assert(devs.take(0).to_set().filter(p_pending) =~= Set::<Seq<char>>::empty());
            assert(devs.take(0).to_set().filter(p_fulfilled) =~= Set::<Seq<char>>::empty());
            assert(devs.take(0).to_set().filter(p_expired) =~= Set::<Seq<char>>::empty());
            assert(devs.take(0).to_set().filter(p_cancelled) =~= Set::<Seq<char>>::empty());
        }
        while i < n
            invariant
                self.wf(),
                n == self.requests@.len(),
                i <= n,
                devs == self.requests@.map_values(|q: LogRequest| q.device_id@),
                p_pending == (|d: Seq<char>|
                    Self::spec_effective_status(self@[d], now_ms) == LogRequestStatus::Pending),
                p_fulfilled == (|d: Seq<char>|
                    Self::spec_effective_status(self@[d], now_ms)
                        == LogRequestStatus::Fulfilled),
                p_expired == (|d: Seq<char>|
                    Self::spec_effective_status(self@[d], now_ms) == LogRequestStatus::Expired),
                p_cancelled == (|d: Seq<char>|
                    Self::spec_effective_status(self@[d], now_ms)
                        == LogRequestStatus::Cancelled),
                devs.take(i as int).to_set().finite(),
                pending == devs.take(i as int).to_set().filter(p_pending).len(),
                fulfilled == devs.take(i as int).to_set().filter(p_fulfilled).len(),
                expired == devs.take(i as int).to_set().filter(p_expired).len(),
                cancelled == devs.take(i as int).to_set().filter(p_cancelled).len(),
                pending + fulfilled + expired + cancelled == i,
            decreases n - i,
        {
            let ghost d = devs[i as int];
            let ghost s0 = devs.take(i as int).to_set();
            proof {
                lemma_map_entry(self.requests@, i as int);
                assert(self@[d] == self.requests@[i as int]@);
                assert forall|a: int| 0 <= a < i implies devs[a] != d by {
                    assert(self.requests@[a].device_id@ != self.requests@[i as int].device_id@);
                }
                if devs.take(i as int).contains(d) {
                    let a = choose|a: int| 0 <= a < i && devs.take(i as int)[a] == d;
                    assert(devs[a] == d);
                }
                assert(!s0.contains(d));
                assert forall|x: Seq<char>| true implies #[trigger] devs.take(
                    i + 1,
                ).to_set().contains(x) == s0.insert(d).contains(x) by {
                    if devs.take(i + 1).contains(x) {
                        let a = choose|a: int| 0 <= a < i + 1 && #[trigger] devs.take(i + 1)[a]
                            == x;
                        if a < i {
                            assert(devs.take(i as int)[a] == x);
                            assert(devs.take(i as int).contains(x));
                        } else {
                            assert(x == d);
                        }
                    }
                    if devs.take(i as int).contains(x) {
                        let a = choose|a: int| 0 <= a < i && #[trigger] devs.take(i as int)[a]
                            == x;
                        assert(devs.take(i + 1)[a] == x);
                        assert(devs.take(i + 1).contains(x));
                    }
                    if x == d {
                        assert(devs.take(i + 1)[i as int] == d);
                        assert(devs.take(i + 1).contains(d));
                    }
                }
                assert(devs.take(i + 1).to_set() =~= s0.insert(d));
                assert(s0.filter(p_pending).finite() && s0.filter(p_pending).len()
                    <= s0.len()) by {
                    s0.lemma_len_filter(p_pending);
                }
                assert(s0.filter(p_fulfilled).finite()) by {
                    s0.lemma_len_filter(p_fulfilled);
                }
                assert(s0.filter(p_expired).finite()) by {
                    s0.lemma_len_filter(p_expired);
                }
                assert(s0.filter(p_cancelled).finite()) by {
                    s0.lemma_len_filter(p_cancelled);
                }
                if p_pending(d) {
                    assert(s0.insert(d).filter(p_pending) =~= s0.filter(p_pending).insert(d));
                } else {
                    assert(s0.insert(d).filter(p_pending) =~= s0.filter(p_pending));
                }
                if p_fulfilled(d) {
                    assert(s0.insert(d).filter(p_fulfilled) =~= s0.filter(p_fulfilled).insert(
                        d,
                    ));
                } else {
                    assert(s0.insert(d).filter(p_fulfilled) =~= s0.filter(p_fulfilled));
                }
                if p_expired(d) {
                    assert(s0.insert(d).filter(p_expired) =~= s0.filter(p_expired).insert(d));
                } else {
                    assert(s0.insert(d).filter(p_expired) =~= s0.filter(p_expired));
                }
                if p_cancelled(d) {
                    assert(s0.insert(d).filter(p_cancelled) =~= s0.filter(p_cancelled).insert(
                        d,
                    ));
                } else {
                    assert(s0.insert(d).filter(p_cancelled) =~= s0.filter(p_cancelled));
                }
            }
            let is_pending = matches!(self.requests[i].status, LogRequestStatus::Pending);
            if is_pending && now_ms > self.requests[i].expires_at {
                expired = expired + 1;
            } else if is_pending {
                pending = pending + 1;
            } else if matches!(self.requests[i].status, LogRequestStatus::Fulfilled) {
                fulfilled = fulfilled + 1;
            } else if matches!(self.requests[i].status, LogRequestStatus::Expired) {
                expired = expired + 1;
            } else {
                cancelled = cancelled + 1;
            }
            i = i + 1;
        }
        proof {
            assert(devs.take(n as int) =~= devs);
            assert forall|i0: int, j0: int|
                0 <= i0 < devs.len() && 0 <= j0 < devs.len() && i0 != j0 implies devs[i0]
                != devs[j0] by {
                assert(devs[i0] == self.requests@[i0].device_id@);
                assert(devs[j0] == self.requests@[j0].device_id@);
            }
            assert(devs.no_duplicates());
            devs.unique_seq_to_set();
            assert forall|d: Seq<char>| true implies #[trigger] self@.dom().contains(d)
                == devs.to_set().contains(d) by {
                if has_dev(self.requests@, d) {
                    let k = idx_of(self.requests@, d);
                    lemma_idx_of(self.requests@, d);
                    assert(devs[k] == d);
                    assert(devs.contains(d));
                }
                if devs.contains(d) {
                    let k = choose|k: int| 0 <= k < devs.len() && devs[k] == d;
                    assert(self.requests@[k].device_id@ == d);
                    assert(has_dev(self.requests@, d));
                }
            }
            assert(self@.dom() =~= devs.to_set());
        }
        let total = self.requests.len();
        RequestStats { total, pending, fulfilled, expired, cancelled }
    }

    /// Counts of tracked requests by effective status as of now.
    pub fn stats(&self) -> (r: RequestStats)
        requires
            self.wf(),
        ensures
            r.total == self.spec_total(),
            r.total == self@.dom().len(),
            r.pending + r.fulfilled + r.expired + r.cancelled == r.total,
            exists|now: i64|
                r.pending == Self::spec_status_count(self@, now, LogRequestStatus::Pending)
                    && r.fulfilled == Self::spec_status_count(
                    self@,
                    now,
                    LogRequestStatus::Fulfilled,
                ) && r.expired == Self::spec_status_count(self@, now, LogRequestStatus::Expired)
                    && r.cancelled == Self::spec_status_count(
                    self@,
                    now,
                    LogRequestStatus::Cancelled,
                ),
    {
        let now = now_millis();
        let r = self.stats_at(now);
        r
    }
}

/// The view of an optional request.
pub open spec fn opt_request_view(o: &Option<LogRequest>) -> Option<LogRequestV> {
    match o {
        Some(r) => Some(r@),
        None => None,
    }
}

impl Default for RequestManager {
    fn default() -> (r: Self)
        ensures
            r.wf(),
            r@ == Map::<Seq<char>, LogRequestV>::empty(),
    {
        Self::new()
    }
}

/// Law: creating a second request for a device supersedes the first. After
/// both creations the device tracks exactly the second request, a live
/// poll answers with the second request — in particular with its
/// identifier, never the first's — and no other poll answer is possible.
pub proof fn lemma_create_supersedes(
    m: Map<Seq<char>, LogRequestV>,
    d: Seq<char>,
    r1: LogRequestV,
    r2: LogRequestV,
    now: i64,
)
    requires
        r2.status == LogRequestStatus::Pending,
        now <= r2.expires_at,
    ensures
        m.insert(d, r1).insert(d, r2)[d] == r2,
        RequestManager::spec_polled(
            m.insert(d, r1).insert(d, r2),
            m.insert(d, r1).insert(d, r2),
            d,
            Some(r2),
            now,
        ),
        forall|post: Map<Seq<char>, LogRequestV>, r: Option<LogRequestV>|
            #[trigger] RequestManager::spec_polled(
                m.insert(d, r1).insert(d, r2),
                post,
                d,
                r,
                now,
            ) ==> r == Some(r2) && post == m.insert(d, r1).insert(d, r2),
{
}

/// Law: a pending request whose expiry timestamp has passed is never
/// returned by a poll, even if no sweep has observed it yet.
pub proof fn lemma_expired_never_returned(
    pre: Map<Seq<char>, LogRequestV>,
    post: Map<Seq<char>, LogRequestV>,
    d: Seq<char>,
    r: Option<LogRequestV>,
    now: i64,
)
    requires
        pre.contains_key(d),
        now > pre[d].expires_at,
        RequestManager::spec_polled(pre, post, d, r, now),
    ensures
        r is None,
{
}

/// Law: fulfillment happens at most once. When exactly one device's
/// tracked request carries an identifier and a fulfillment of that
/// identifier succeeds, a second fulfillment of the same identifier fails
/// `AlreadyProcessed` and changes nothing, and a poll of the device
/// returns nothing. (That fulfilling an unknown identifier fails
/// `NotFound` is the first clause of `spec_fulfill_outcome` itself.)
pub proof fn lemma_fulfill_once(
    pre: Map<Seq<char>, LogRequestV>,
    mid: Map<Seq<char>, LogRequestV>,
    post: Map<Seq<char>, LogRequestV>,
    post2: Map<Seq<char>, LogRequestV>,
    id: u128,
    d: Seq<char>,
    path1: Seq<char>,
    path2: Seq<char>,
    r2: Result<(), RequestError>,
    rp: Option<LogRequestV>,
    now1: i64,
    now2: i64,
)
    requires
        pre.contains_key(d),
        pre[d].id == id,
        pre[d].status == LogRequestStatus::Pending,
        forall|e: Seq<char>| #[trigger] pre.contains_key(e) && pre[e].id == id ==> e == d,
        RequestManager::spec_fulfill_outcome(pre, mid, id, path1, Ok(()), now1),
        RequestManager::spec_fulfill_outcome(mid, post, id, path2, r2, now2),
        RequestManager::spec_polled(mid, post2, d, rp, now2),
    ensures
        r2 == Err::<(), RequestError>(RequestError::AlreadyProcessed),
        post == mid,
        rp is None,
{
    let e = choose|e: Seq<char>|
        #[trigger] pre.contains_key(e) && pre[e].id == id && pre[e].status
            == LogRequestStatus::Pending && mid == pre.insert(
            e,
            RequestManager::spec_fulfilled(pre[e], now1, path1),
        );
    assert(e == d);
    assert(mid.contains_key(d) && mid[d].id == id);
    assert forall|e2: Seq<char>|
        #[trigger] mid.contains_key(e2) && mid[e2].id == id implies mid[e2].status
        != LogRequestStatus::Pending by {
        if e2 != d {
            assert(pre.contains_key(e2) && pre[e2].id == id);
        }
    }
    assert(RequestManager::spec_id_tracked(mid, id));
}

} // verus!
