//! Per-host concurrency and global script-launch rate policies for the scan
//! pipeline. The waiting itself (semaphores, sleeping) is done by the caller;
//! this module decides limits, keys and launch times.

use vstd::prelude::*;

use crate::text::{ascii_lower, chars_of, has_prefix, strip_prefix, copy_str, to_ascii_lower_char};

verus! {

/// Per-host concurrency cap: at most `limit` scans against one host are in
/// flight at once; `None` disables the cap (only the global `-c` applies).
#[derive(Debug, Clone, Copy)]
pub struct HostThrottle {
    pub limit: Option<usize>,
}

impl HostThrottle {
    /// A cap of `limit` in-flight scans per host; `0` disables it.
    pub fn new(limit: usize) -> (r: HostThrottle)
        ensures
            r.limit == if limit == 0 { None::<usize> } else { Some(limit) },
    {
        if limit == 0 {
            HostThrottle { limit: None }
        } else {
            HostThrottle { limit: Some(limit) }
        }
    }
}

/// Global token-bucket launch limiter with capacity 1 (no burst): each
/// launch is scheduled no earlier than the previous one plus `interval_nanos`.
/// `None` disables the limiter. Times are nanoseconds on a monotonic clock.
#[derive(Debug, Clone, Copy)]
pub struct RateLimiter {
    pub interval_nanos: Option<u64>,
}

/// Launch slot for a caller arriving at `now` when the earliest allowed
/// start is `next_allowed`.
pub open spec fn slot(next_allowed: int, now: int) -> int {
    if next_allowed > now { next_allowed } else { now }
}

impl RateLimiter {
    /// A limiter of `rps` launches per second (interval `1e9 / rps` ns);
    /// `0` disables it.
    pub fn per_second(rps: u32) -> (r: RateLimiter)
        ensures
            r.interval_nanos == if rps == 0 { None::<u64> } else { Some((1_000_000_000u64 / rps as u64) as u64) },
    {
        if rps == 0 {
            return RateLimiter { interval_nanos: None };
        }
        RateLimiter { interval_nanos: Some(1_000_000_000u64 / rps as u64) }
    }

    /// Reserve the next launch for a caller arriving at `now`: returns how
    /// long to wait and the new earliest-allowed time. Disabled: no wait and
    /// `next_allowed` unchanged.
    pub fn reserve(&self, next_allowed: u64, now: u64) -> (r: (u64, u64))
        requires
            self.interval_nanos matches Some(i) ==> slot(next_allowed as int, now as int) + i <= u64::MAX,
        ensures
            match self.interval_nanos {
                Some(i) => {
                    &&& r.0 == slot(next_allowed as int, now as int) - now
                    &&& r.1 == slot(next_allowed as int, now as int) + i
                },
                None => r.0 == 0 && r.1 == next_allowed,
            },
    {
        match self.interval_nanos {
            None => (0, next_allowed),
            Some(i) => {
                let scheduled = if next_allowed > now { next_allowed } else { now };
                (scheduled - now, scheduled + i)
            },
        }
    }
}

/// Launch times granted to callers arriving at `nows`, in order, starting
/// from earliest-allowed time `next`.
pub open spec fn launches(next: int, interval: int, nows: Seq<int>) -> Seq<int>
    decreases nows.len(),
{
    if nows.len() == 0 {
        Seq::empty()
    } else {
        let s = slot(next, nows[0]);
        seq![s] + launches(s + interval, interval, nows.drop_first())
    }
}

/// Law: with capacity 1 no launch starts before its caller arrived, and the
/// `k`-th launch starts at least `k` intervals after the first, so callers
/// cannot stockpile unused budget into a burst.
pub proof fn law_launch_spacing(next: int, interval: int, nows: Seq<int>)
    requires
        interval >= 0,
    ensures
        launches(next, interval, nows).len() == nows.len(),
        forall|k: int| 0 <= k < nows.len() ==> #[trigger] launches(next, interval, nows)[k] >= nows[k],
        forall|k: int| 0 <= k < nows.len() ==> #[trigger] launches(next, interval, nows)[k] >= launches(next, interval, nows)[0] + k * interval,
    decreases nows.len(),
{
    if nows.len() > 0 {
        let s = slot(next, nows[0]);
        let rest = nows.drop_first();
        law_launch_spacing(s + interval, interval, rest);
        let l = launches(next, interval, nows);
        let lr = launches(s + interval, interval, rest);
        assert(l == seq![s] + lr);
        assert forall|k: int| 0 <= k < nows.len() implies #[trigger] l[k] >= nows[k] by {
            if k > 0 {
                assert(l[k] == lr[k - 1]);
                assert(rest[k - 1] == nows[k]);
            }
        }
        assert forall|k: int| 0 <= k < nows.len() implies #[trigger] l[k] >= l[0] + k * interval by {
            if k > 0 {
                assert(l[k] == lr[k - 1]);
                assert(lr[0] >= s + interval) by {
                    assert(lr[0] == slot(s + interval, rest[0]));
                }
                assert(lr[k - 1] >= lr[0] + (k - 1) * interval);
                assert((k - 1) * interval + interval == k * interval) by (nonlinear_arith);
            }
        }
    }
}

/// `s[..n]` mapped to ASCII lower case.
pub open spec fn lower_prefix(s: Seq<char>, n: int) -> Seq<char> {
    s.subrange(0, n).map_values(|c: char| ascii_lower(c))
}

/// Length of the authority part of `s`: up to the first `/`, `?` or `#`.
pub open spec fn authority_len(s: Seq<char>) -> int {
    if exists|i: int| 0 <= i < s.len() && (s[i] == '/' || s[i] == '?' || s[i] == '#') {
        choose|i: int| 0 <= i < s.len() && (s[i] == '/' || s[i] == '?' || s[i] == '#')
            && forall|j: int| 0 <= j < i ==> !(s[j] == '/' || s[j] == '?' || s[j] == '#')
    } else {
        s.len() as int
    }
}

/// The per-host key of a target: its authority (`host[:port]`) after an
/// `http://` / `https://` scheme, ASCII lower-cased. A target without one of
/// those schemes is keyed by its own leading part, so unparseable targets
/// just share buckets.
pub open spec fn host_key_spec(target: Seq<char>) -> Seq<char> {
    let after = if has_prefix(target, "http://"@) {
        target.subrange(("http://"@).len() as int, target.len() as int)
    } else if has_prefix(target, "https://"@) {
        target.subrange(("https://"@).len() as int, target.len() as int)
    } else {
        target
    };
    lower_prefix(after, authority_len(after))
}

/// Best-effort host extraction from `http(s)://host[:port]/...`.
pub fn host_key(target: &str) -> (r: String)
    ensures
        r@ == host_key_spec(target@),
{
    let after = match strip_prefix(target, "http://") {
        Some(r) => r,
        None => match strip_prefix(target, "https://") {
            Some(r) => r,
            None => copy_str(target),
        },
    };
    let cs = chars_of(after.as_str());
    let mut end: usize = 0;
    while end < cs.len() && !(cs[end] == '/' || cs[end] == '?' || cs[end] == '#')
        invariant
            end <= cs.len(),
            forall|j: int| 0 <= j < end ==> !(cs@[j] == '/' || cs@[j] == '?' || cs@[j] == '#'),
        decreases cs.len() - end,
    {
        end = end + 1;
    }
    proof {
        let s = cs@;
        if end < cs.len() {
            let k = choose|i: int| 0 <= i < s.len() && (s[i] == '/' || s[i] == '?' || s[i] == '#')
                && forall|j: int| 0 <= j < i ==> !(s[j] == '/' || s[j] == '?' || s[j] == '#');
            assert(k == end) by {
                if k < end {
                    assert(!(s[k] == '/' || s[k] == '?' || s[k] == '#'));
                }
                if k > end {
                    assert(s[end as int] == '/' || s[end as int] == '?' || s[end as int] == '#');
                }
            }
        }
    }
    let mut out = String::new();
    let mut i: usize = 0;
    while i < end
        invariant
            end <= cs.len(),
            i <= end,
            out@ == lower_prefix(cs@, i as int),
        decreases end - i,
    {
        let c = to_ascii_lower_char(cs[i]);
        out.push(c);
        assert(lower_prefix(cs@, i + 1) =~= lower_prefix(cs@, i as int).push(c));
        i = i + 1;
    }
    out
}

/// Scans in flight per host key, under a `HostThrottle` cap. A scan takes a
/// slot before it starts and gives it back when it ends; while a host is at
/// its cap, further scans against it wait (the waiting is the caller's).
#[derive(Debug)]
pub struct HostSlots {
    limit: Option<usize>,
    busy: Vec<(String, usize)>,
}

/// Scans in flight for `host` among `busy`.
pub open spec fn busy_count(busy: Seq<(String, usize)>, host: Seq<char>) -> nat {
    if exists|i: int| 0 <= i < busy.len() && (#[trigger] busy[i]).0@ == host {
        busy[choose|i: int| 0 <= i < busy.len() && (#[trigger] busy[i]).0@ == host].1 as nat
    } else {
        0
    }
}

/// No host appears twice and none exceeds the cap.
pub open spec fn slots_ok(limit: Option<usize>, busy: Seq<(String, usize)>) -> bool {
    &&& forall|i: int, j: int| 0 <= i < j < busy.len() ==> (#[trigger] busy[i]).0@ != (#[trigger] busy[j]).0@
    &&& forall|i: int| 0 <= i < busy.len() ==> match limit {
        Some(l) => (#[trigger] busy[i]).1 <= l,
        None => true,
    }
}

proof fn lemma_busy_at(busy: Seq<(String, usize)>, i: int)
    requires
        forall|a: int, b: int| 0 <= a < b < busy.len() ==> (#[trigger] busy[a]).0@ != (#[trigger] busy[b]).0@,
        0 <= i < busy.len(),
    ensures
        busy_count(busy, busy[i].0@) == busy[i].1 as nat,
{
    let h = busy[i].0@;
    let c = choose|k: int| 0 <= k < busy.len() && (#[trigger] busy[k]).0@ == h;
    if c != i {
        if c < i {
            assert(busy[c].0@ != busy[i].0@);
        } else {
            assert(busy[i].0@ != busy[c].0@);
        }
    }
}

impl HostSlots {
    #[verifier::type_invariant]
    spec fn ok(self) -> bool {
        slots_ok(self.limit, self.busy@)
    }

    /// Scans in flight for `host`.
    pub closed spec fn count(&self, host: Seq<char>) -> nat {
        busy_count(self.busy@, host)
    }

    /// The per-host cap (`None`: no cap).
    pub closed spec fn cap(&self) -> Option<usize> {
        self.limit
    }

    /// No scan in flight, under `throttle`'s cap.
    pub fn new(throttle: HostThrottle) -> (r: HostSlots)
        ensures
            r.cap() == throttle.limit,
            forall|h: Seq<char>| r.count(h) == 0,
    {
        HostSlots { limit: throttle.limit, busy: Vec::new() }
    }

    fn position(&self, host: &str) -> (r: Option<usize>)
        ensures
            match r {
                Some(i) => i < self.busy.len() && self.busy@[i as int].0@ == host@,
                None => forall|j: int| 0 <= j < self.busy.len() ==> (#[trigger] self.busy@[j]).0@ != host@,
            },
    {
        let mut i: usize = 0;
        while i < self.busy.len()
            invariant
                i <= self.busy.len(),
                forall|j: int| 0 <= j < i ==> (#[trigger] self.busy@[j]).0@ != host@,
            decreases self.busy.len() - i,
        {
            if crate::text::str_eq(self.busy[i].0.as_str(), host) {
                return Some(i);
            }
            i = i + 1;
        }
        None
    }

    /// Scans in flight for `host`.
    pub fn in_flight(&self, host: &str) -> (r: usize)
        ensures
            r == self.count(host@),
    {
        proof {
            use_type_invariant(self);
        }
        match self.position(host) {
            Some(i) => {
                proof {
                    lemma_busy_at(self.busy@, i as int);
                }
                self.busy[i].1
            },
            None => 0,
        }
    }

    /// Take a slot for a scan against `host` if the host is under its cap:
    /// true (one more in flight) or false (nothing changes; the caller waits
    /// for a release). A host never exceeds the cap.
    pub fn try_acquire(&mut self, host: &str) -> (granted: bool)
        ensures
            final(self).cap() == old(self).cap(),
            granted == match old(self).cap() {
                Some(l) => old(self).count(host@) < l,
                None => old(self).count(host@) < usize::MAX,
            },
            granted ==> final(self).count(host@) == old(self).count(host@) + 1,
            !granted ==> final(self).count(host@) == old(self).count(host@),
            forall|h: Seq<char>| h != host@ ==> final(self).count(h) == old(self).count(h),
            forall|h: Seq<char>| final(self).cap() is Some ==> #[trigger] final(self).count(h) <= final(self).cap().unwrap(),
    {
        proof {
            use_type_invariant(&*self);
        }
        let ghost old_busy = self.busy@;
        let pos = self.position(host);
        let current: usize = match pos {
            Some(i) => self.busy[i].1,
            None => 0,
        };
        proof {
            if let Some(i) = pos {
                lemma_busy_at(old_busy, i as int);
            }
            lemma_counts_capped(self.limit, old_busy);
        }
        let allowed = match self.limit {
            Some(l) => current < l,
            None => current < usize::MAX,
        };
        if !allowed {
            return false;
        }
        let mut busy: Vec<(String, usize)> = Vec::new();
        std::mem::swap(&mut busy, &mut self.busy);
        match pos {
            Some(i) => {
                busy.set(i, (host.to_string(), current + 1));
            },
            None => {
                busy.push((host.to_string(), 1));
            },
        }
        proof {
            lemma_update_counts(self.limit, old_busy, busy@, host@, pos, current as nat);
        }
        self.busy = busy;
        true
    }

    /// Give back a slot of `host` when one of its scans ends.
    pub fn release(&mut self, host: &str)
        ensures
            final(self).cap() == old(self).cap(),
            final(self).count(host@) == if old(self).count(host@) > 0 { old(self).count(host@) - 1 } else { 0 },
            forall|h: Seq<char>| h != host@ ==> final(self).count(h) == old(self).count(h),
    {
        proof {
            use_type_invariant(&*self);
        }
        let ghost old_busy = self.busy@;
        match self.position(host) {
            Some(i) => {
                proof {
                    lemma_busy_at(old_busy, i as int);
                }
                let current = self.busy[i].1;
                if current > 0 {
                    let mut busy: Vec<(String, usize)> = Vec::new();
                    std::mem::swap(&mut busy, &mut self.busy);
                    busy.set(i, (host.to_string(), current - 1));
                    proof {
                        lemma_set_count(self.limit, old_busy, busy@, i as int, host@);
                    }
                    self.busy = busy;
                }
            },
            None => {
                proof {
                    assert(!(exists|k: int| 0 <= k < old_busy.len() && (#[trigger] old_busy[k]).0@ == host@));
                }
            },
        }
    }
}

proof fn lemma_counts_capped(limit: Option<usize>, busy: Seq<(String, usize)>)
    requires
        slots_ok(limit, busy),
    ensures
        forall|h: Seq<char>| limit is Some ==> #[trigger] busy_count(busy, h) <= limit.unwrap(),
{
    assert forall|h: Seq<char>| limit is Some implies #[trigger] busy_count(busy, h) <= limit.unwrap() by {
        if exists|i: int| 0 <= i < busy.len() && (#[trigger] busy[i]).0@ == h {
            let c = choose|i: int| 0 <= i < busy.len() && (#[trigger] busy[i]).0@ == h;
            assert(busy[c].1 <= limit.unwrap());
        }
    }
}

proof fn lemma_set_count(limit: Option<usize>, old_busy: Seq<(String, usize)>, busy: Seq<(String, usize)>, i: int, host: Seq<char>)
    requires
        slots_ok(limit, old_busy),
        0 <= i < old_busy.len(),
        old_busy[i].0@ == host,
        old_busy[i].1 > 0,
        busy == old_busy.update(i, (busy[i].0, (old_busy[i].1 - 1) as usize)),
        busy[i].0@ == host,
    ensures
        slots_ok(limit, busy),
        busy_count(busy, host) == busy_count(old_busy, host) - 1,
        forall|h: Seq<char>| h != host ==> busy_count(busy, h) == busy_count(old_busy, h),
{
    lemma_busy_at(old_busy, i);
    assert forall|a: int, b: int| 0 <= a < b < busy.len() implies (#[trigger] busy[a]).0@ != (#[trigger] busy[b]).0@ by {
        assert(old_busy[a].0@ != old_busy[b].0@);
    }
    lemma_busy_at(busy, i);
    assert forall|h: Seq<char>| h != host implies busy_count(busy, h) == busy_count(old_busy, h) by {
        if exists|k: int| 0 <= k < busy.len() && (#[trigger] busy[k]).0@ == h {
            let k = choose|k: int| 0 <= k < busy.len() && (#[trigger] busy[k]).0@ == h;
            assert(k != i);
            assert(old_busy[k].0@ == h);
            lemma_busy_at(busy, k);
            lemma_busy_at(old_busy, k);
        } else {
            assert forall|k: int| 0 <= k < old_busy.len() implies (#[trigger] old_busy[k]).0@ != h by {
                if k != i {
                    assert(busy[k] == old_busy[k]);
                }
            }
        }
    }
}

proof fn lemma_update_counts(
    limit: Option<usize>,
    old_busy: Seq<(String, usize)>,
    busy: Seq<(String, usize)>,
    host: Seq<char>,
    pos: Option<usize>,
    current: nat,
)
    requires
        slots_ok(limit, old_busy),
        current == busy_count(old_busy, host),
        match limit {
            Some(l) => current < l,
            None => current < usize::MAX,
        },
        match pos {
            Some(i) => i < old_busy.len() && old_busy[i as int].0@ == host && busy.len() == old_busy.len()
                && busy[i as int].0@ == host && busy[i as int].1 == current + 1
                && forall|k: int| 0 <= k < busy.len() && k != i ==> busy[k] == old_busy[k],
            None => (forall|k: int| 0 <= k < old_busy.len() ==> (#[trigger] old_busy[k]).0@ != host)
                && busy.len() == old_busy.len() + 1
                && busy.last().0@ == host && busy.last().1 == 1
                && forall|k: int| 0 <= k < old_busy.len() ==> busy[k] == old_busy[k],
        },
    ensures
        slots_ok(limit, busy),
        busy_count(busy, host) == current + 1,
        forall|h: Seq<char>| h != host ==> busy_count(busy, h) == busy_count(old_busy, h),
{
    let n = busy.len() as int;
    let at = match pos {
        Some(i) => i as int,
        None => n - 1,
    };
    assert forall|a: int, b: int| 0 <= a < b < busy.len() implies (#[trigger] busy[a]).0@ != (#[trigger] busy[b]).0@ by {
        if a != at && b != at {
            assert(busy[a] == old_busy[a] && busy[b] == old_busy[b]);
        } else if a == at {
            if pos is None {
                assert(false);
            } else {
                assert(busy[b] == old_busy[b]);
                assert(old_busy[a].0@ != old_busy[b].0@);
            }
        } else {
            assert(busy[a] == old_busy[a]);
            if pos is Some {
                assert(old_busy[a].0@ != old_busy[b].0@);
            }
        }
    }
    assert forall|k: int| 0 <= k < busy.len() implies match limit {
        Some(l) => (#[trigger] busy[k]).1 <= l,
        None => true,
    } by {
        if k != at {
            assert(busy[k] == old_busy[k]);
        }
    }
    lemma_busy_at(busy, at);
    assert forall|h: Seq<char>| h != host implies busy_count(busy, h) == busy_count(old_busy, h) by {
        if exists|k: int| 0 <= k < busy.len() && (#[trigger] busy[k]).0@ == h {
            let k = choose|k: int| 0 <= k < busy.len() && (#[trigger] busy[k]).0@ == h;
            assert(k != at);
            assert(busy[k] == old_busy[k]);
            lemma_busy_at(busy, k);
            lemma_busy_at(old_busy, k);
        } else {
            assert forall|k: int| 0 <= k < old_busy.len() implies (#[trigger] old_busy[k]).0@ != h by {
                if k != at {
                    assert(busy[k] == old_busy[k]);
                }
            }
        }
    }
}

} // verus!
