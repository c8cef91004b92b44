//! Rate limiting of posts: each address may post `MAX_PER_INTERVAL` times in a window of
//! `INTERVAL` seconds that opens with its first post.
//!
//! Times are readings of one monotonic clock in nanoseconds, taken by the caller.

use vstd::prelude::*;

verus! {

/// Length of a rate-limiting window, in seconds.
pub const INTERVAL: u64 = 10;

/// Posts allowed to one address in one window.
pub const MAX_PER_INTERVAL: u64 = 5;

/// Nanoseconds in a second.
pub const NANOS_PER_SEC: u64 = 1_000_000_000;

/// HTTP status of a refused post.
pub const TOO_MANY_REQUESTS: u16 = 429;

/// Who sent a request, and when.
pub struct SenderInfo {
    pub addr: String,
    pub time: u64,
}

impl SenderInfo {
    /// The sender's address is the `real-ip` header set by a proxy when there is one,
    /// else the address of the connection's peer.
    pub fn from_parts(real_ip: Option<&str>, remote_ip: Option<&str>, time: u64) -> (r: SenderInfo)
        requires
            real_ip is Some || remote_ip is Some,
        ensures
            r.addr@ == match real_ip {
                Some(ip) => ip@,
                None => remote_ip.unwrap()@,
            },
            r.time == time,
    {
        let addr = match real_ip {
            Some(ip) => String::from_str(ip),
            None => String::from_str(remote_ip.unwrap()),
        };
        SenderInfo { addr, time }
    }
}

/// Whole seconds from `start` to `now` (0 when `now` is earlier).
pub open spec fn elapsed_secs_spec(start: u64, now: u64) -> u64 {
    if now >= start {
        ((now - start) / (NANOS_PER_SEC as int)) as u64
    } else {
        0
    }
}

/// The window of one address: when it opened and how many posts it has let through.
#[derive(Clone, Copy)]
pub struct LimitAddr {
    pub start: u64,
    pub count: u64,
}

/// True when the window `a` is over at time `now`.
pub open spec fn expired(a: LimitAddr, now: u64) -> bool {
    elapsed_secs_spec(a.start, now) >= INTERVAL
}

/// Elapsed time counts whole seconds: it is the largest number of whole seconds that fits
/// between the opening of a window and now, and 0 when now is not after the opening.
pub proof fn lemma_elapsed_secs_is_whole_seconds(start: u64, now: u64)
    ensures
        now >= start ==> elapsed_secs_spec(start, now) * NANOS_PER_SEC <= now - start < (
        elapsed_secs_spec(start, now) + 1) * NANOS_PER_SEC,
        now < start ==> elapsed_secs_spec(start, now) == 0,
{
    if now >= start {
        let d: int = now - start;
        let q: int = d / (NANOS_PER_SEC as int);
        assert(q * 1_000_000_000 <= d < (q + 1) * 1_000_000_000) by (nonlinear_arith)
            requires
                q == d / 1_000_000_000,
                d >= 0,
        ;
        assert(0 <= q <= d);
    }
}

/// A window is over exactly when at least `INTERVAL` seconds have passed since it opened.
pub proof fn lemma_expired_iff_interval_passed(a: LimitAddr, now: u64)
    ensures
        expired(a, now) <==> (now >= a.start && now - a.start >= INTERVAL * NANOS_PER_SEC),
{
    lemma_elapsed_secs_is_whole_seconds(a.start, now);
}

/// Once a window is over it stays over at every later time.
pub proof fn lemma_expired_stays_expired(a: LimitAddr, t: u64, later: u64)
    requires
        expired(a, t),
        t <= later,
    ensures
        expired(a, later),
{
    lemma_expired_iff_interval_passed(a, t);
    lemma_expired_iff_interval_passed(a, later);
}

/// A post at least `INTERVAL` seconds after its address's window opened gets through and
/// opens a fresh window with one post counted.
pub proof fn lemma_post_after_interval_opens_fresh_window(
    m: Map<Seq<char>, LimitAddr>,
    addr: Seq<char>,
    now: u64,
)
    requires
        m.dom().contains(addr),
        now >= m[addr].start,
        now - m[addr].start >= INTERVAL * NANOS_PER_SEC,
    ensures
        paste_allowed(m, addr, now),
        after_paste(m, addr, now)[addr] == (LimitAddr { start: now, count: 1 }),
{
    lemma_expired_iff_interval_passed(m[addr], now);
    lemma_window_reopens(m, addr, now);
}

impl LimitAddr {
    /// A window opening at `now`, with no post yet.
    pub fn new(now: u64) -> (r: LimitAddr)
        ensures
            r.start == now,
            r.count == 0,
    {
        LimitAddr { start: now, count: 0 }
    }

    /// Whole seconds since the window opened.
    pub fn elapsed_secs(&self, now: u64) -> (r: u64)
        ensures
            r == elapsed_secs_spec(self.start, now),
            now >= self.start ==> r * NANOS_PER_SEC <= now - self.start < (r + 1) * NANOS_PER_SEC,
            now < self.start ==> r == 0,
    {
        proof {
            lemma_elapsed_secs_is_whole_seconds(self.start, now);
        }
        if now >= self.start {
            (now - self.start) / NANOS_PER_SEC
        } else {
            0
        }
    }

    /// Lets one more post through, unless the window has had `MAX_PER_INTERVAL` already.
    pub fn allow_post(&mut self) -> (r: bool)
        ensures
            r == (old(self).count < MAX_PER_INTERVAL),
            final(self).start == old(self).start,
            final(self).count == if r {
                old(self).count + 1
            } else {
                old(self).count as int
            },
    {
        if self.count >= MAX_PER_INTERVAL {
            false
        } else {
            self.count = self.count + 1;
            true
        }
    }
}

/// The windows of `m` still open at `now`.
pub open spec fn prune(m: Map<Seq<char>, LimitAddr>, now: u64) -> Map<Seq<char>, LimitAddr> {
    Map::new(|k: Seq<char>| m.dom().contains(k) && !expired(m[k], now), |k: Seq<char>| m[k])
}

/// Whether a post from `addr` at `now` gets through.
pub open spec fn paste_allowed(m: Map<Seq<char>, LimitAddr>, addr: Seq<char>, now: u64) -> bool {
    let p = prune(m, now);
    !p.dom().contains(addr) || p[addr].count < MAX_PER_INTERVAL
}

/// The windows after a post from `addr` at `now`: closed windows are dropped, then the post
/// is counted in the window of `addr`, or opens one.
pub open spec fn after_paste(m: Map<Seq<char>, LimitAddr>, addr: Seq<char>, now: u64) -> Map<
    Seq<char>,
    LimitAddr,
> {
    let p = prune(m, now);
    if p.dom().contains(addr) {
        if p[addr].count < MAX_PER_INTERVAL {
            p.insert(addr, LimitAddr { start: p[addr].start, count: (p[addr].count + 1) as u64 })
        } else {
            p
        }
    } else {
        p.insert(addr, LimitAddr { start: now, count: 1 })
    }
}

/// True when no window has let more than `MAX_PER_INTERVAL` posts through.
pub open spec fn counts_bounded(m: Map<Seq<char>, LimitAddr>) -> bool {
    forall|k: Seq<char>| #[trigger] m.dom().contains(k) ==> m[k].count <= MAX_PER_INTERVAL
}

/// The open windows of all addresses that posted recently.
pub struct Limiter {
    addrs: Vec<String>,
    limits: Vec<LimitAddr>,
}

impl View for Limiter {
    type V = Map<Seq<char>, LimitAddr>;

    /// Each address maps to its window.
    closed spec fn view(&self) -> Map<Seq<char>, LimitAddr> {
        Map::new(
            |k: Seq<char>| exists|i: int| 0 <= i < self.addrs@.len() && (#[trigger] self.addrs@[i])@ == k,
            |k: Seq<char>|
                self.limits@[choose|i: int|
                    0 <= i < self.addrs@.len() && (#[trigger] self.addrs@[i])@ == k],
        )
    }
}

impl Limiter {
    /// Every address has exactly one window, and no window is over its allowance.
    pub closed spec fn wf(&self) -> bool {
        &&& self.addrs@.len() == self.limits@.len()
        &&& forall|i: int, j: int|
            0 <= i < self.addrs@.len() && 0 <= j < self.addrs@.len() && i != j ==> (#[trigger] self.addrs@[i])@
                != (#[trigger] self.addrs@[j])@
        &&& forall|i: int| 0 <= i < self.limits@.len() ==> (#[trigger] self.limits@[i]).count <= MAX_PER_INTERVAL
    }

    /// The `i`-th stored address is in the view and maps to the `i`-th window.
    proof fn lemma_view_at(&self, i: int)
        requires
            self.wf(),
            0 <= i < self.addrs@.len(),
        ensures
            self@.dom().contains(self.addrs@[i]@),
            self@[self.addrs@[i]@] == self.limits@[i],
    {
        let k = self.addrs@[i]@;
        assert(self.addrs@[i]@ == k);
        let j = choose|j: int| 0 <= j < self.addrs@.len() && (#[trigger] self.addrs@[j])@ == k;
        assert(j == i);
    }

    /// The view holds no window over its allowance.
    proof fn lemma_counts_bounded(&self)
        requires
            self.wf(),
        ensures
            counts_bounded(self@),
    {
        assert forall|k: Seq<char>| #[trigger] self@.dom().contains(k) implies self@[k].count
            <= MAX_PER_INTERVAL by {
            let i = choose|i: int| 0 <= i < self.addrs@.len() && (#[trigger] self.addrs@[i])@ == k;
            self.lemma_view_at(i);
        }
    }

    /// A limiter with no window.
    pub fn new() -> (r: Limiter)
        ensures
            r.wf(),
            r@ == Map::<Seq<char>, LimitAddr>::empty(),
    {
        let r = Limiter { addrs: Vec::new(), limits: Vec::new() };
        assert(r@ =~= Map::<Seq<char>, LimitAddr>::empty());
        r
    }

    /// Position of `addr` among the stored addresses.
    fn find(&self, addr: &String) -> (r: Option<usize>)
        requires
            self.wf(),
        ensures
            match r {
                Some(i) => i < self.addrs@.len() && self.addrs@[i as int]@ == addr@,
                None => !self@.dom().contains(addr@),
            },
    {
        let n = self.addrs.len();
        let mut i: usize = 0;
        while i < n
            invariant
                i <= n,
                n == self.addrs@.len(),
                forall|k: int| 0 <= k < i ==> (#[trigger] self.addrs@[k])@ != addr@,
            decreases n - i,
        {
            if self.addrs[i] == *addr {
                return Some(i);
            }
            i = i + 1;
        }
        None
    }

    /// The addresses whose window is over at `now`, each once.
    fn get_expired(&self, now: u64) -> (r: Vec<String>)
        requires
            self.wf(),
        ensures
            forall|i: int, j: int|
                0 <= i < r@.len() && 0 <= j < r@.len() && i != j ==> (#[trigger] r@[i])@ != (#[trigger] r@[j])@,
            forall|k: Seq<char>|
                (exists|i: int| 0 <= i < r@.len() && (#[trigger] r@[i])@ == k) <==> (self@.dom().contains(k)
                    && expired(self@[k], now)),
    {
        let mut expired_addrs: Vec<String> = Vec::new();
        let n = self.addrs.len();
        let mut i: usize = 0;
        let ghost mut picked: Seq<int> = Seq::empty();
        while i < n
            invariant
                self.wf(),
                i <= n,
                n == self.addrs@.len(),
                picked.len() == expired_addrs@.len(),
                forall|j: int|
                    0 <= j < picked.len() ==> 0 <= #[trigger] picked[j] < i && expired_addrs@[j]@
                        == self.addrs@[picked[j]]@,
                forall|j1: int, j2: int|
                    0 <= j1 < j2 < picked.len() ==> #[trigger] picked[j1] < #[trigger] picked[j2],
                forall|t: int|
                    0 <= t < i ==> (expired(#[trigger] self.limits@[t], now) <==> exists|j: int|
                        0 <= j < picked.len() && picked[j] == t),
            decreases n - i,
        {
            let ghost old_picked = picked;
            if self.limits[i].elapsed_secs(now) >= INTERVAL {
                expired_addrs.push(self.addrs[i].clone());
                proof {
                    picked = picked.push(i as int);
                }
            }
            proof {
                assert forall|t: int| 0 <= t < i + 1 implies (expired(#[trigger] self.limits@[t], now)
                    <==> exists|j: int| 0 <= j < picked.len() && picked[j] == t) by {
                    if exists|j: int| 0 <= j < picked.len() && picked[j] == t {
                        let j = choose|j: int| 0 <= j < picked.len() && picked[j] == t;
                        if j < old_picked.len() {
                            assert(old_picked[j] == t);
                        }
                    }
                    if t < i && expired(self.limits@[t], now) {
                        let j = choose|j: int| 0 <= j < old_picked.len() && old_picked[j] == t;
                        assert(picked[j] == t);
                    }
                    if t == i && expired(self.limits@[t], now) {
                        assert(picked[picked.len() - 1] == t);
                    }
                }
            }
            i = i + 1;
        }
        proof {
            assert forall|a: int, b: int|
                0 <= a < expired_addrs@.len() && 0 <= b < expired_addrs@.len() && a != b implies (
            #[trigger] expired_addrs@[a])@ != (#[trigger] expired_addrs@[b])@ by {
                assert(picked[a] != picked[b]) by {
                    if a < b {
                        assert(picked[a] < picked[b]);
                    } else {
                        assert(picked[b] < picked[a]);
                    }
                }
                assert(self.addrs@[picked[a]]@ != self.addrs@[picked[b]]@);
            }
            assert forall|k: Seq<char>|
                (exists|a: int| 0 <= a < expired_addrs@.len() && (#[trigger] expired_addrs@[a])@ == k)
                    <==> (self@.dom().contains(k) && expired(self@[k], now)) by {
                if exists|a: int| 0 <= a < expired_addrs@.len() && (#[trigger] expired_addrs@[a])@ == k {
                    let a = choose|a: int|
                        0 <= a < expired_addrs@.len() && (#[trigger] expired_addrs@[a])@ == k;
                    let t = picked[a];
                    self.lemma_view_at(t);
                    assert(expired(self.limits@[t], now));
                }
                if self@.dom().contains(k) && expired(self@[k], now) {
                    let t = choose|t: int| 0 <= t < self.addrs@.len() && (#[trigger] self.addrs@[t])@ == k;
                    self.lemma_view_at(t);
                    assert(expired(self.limits@[t], now));
                    let a = choose|a: int| 0 <= a < picked.len() && picked[a] == t;
                    assert(expired_addrs@[a]@ == k);
                }
            }
        }
        expired_addrs
    }

    /// Drops the window at position `i`.
    fn remove_at(&mut self, i: usize)
        requires
            old(self).wf(),
            i < old(self).addrs@.len(),
        ensures
            final(self).wf(),
            final(self)@ == old(self)@.remove(old(self).addrs@[i as int]@),
    {
        let ghost old_self = *self;
        let ghost key = self.addrs@[i as int]@;
        self.addrs.remove(i);
        self.limits.remove(i);
        proof {
            let ghost shift = |j: int|
                if j < i {
                    j
                } else {
                    j + 1
                };
            assert forall|j: int| 0 <= j < self.addrs@.len() implies self.addrs@[j] == old_self.addrs@[shift(
                j,
            )] && self.limits@[j] == old_self.limits@[shift(j)] by {}
            assert forall|a: int, b: int|
                0 <= a < self.addrs@.len() && 0 <= b < self.addrs@.len() && a != b implies (
            #[trigger] self.addrs@[a])@ != (#[trigger] self.addrs@[b])@ by {
                assert(self.addrs@[a] == old_self.addrs@[shift(a)]);
                assert(self.addrs@[b] == old_self.addrs@[shift(b)]);
            }
            assert forall|a: int| 0 <= a < self.limits@.len() implies (
            #[trigger] self.limits@[a]).count <= MAX_PER_INTERVAL by {
                assert(self.limits@[a] == old_self.limits@[shift(a)]);
            }
            assert(self.wf());
            assert forall|k: Seq<char>| #[trigger]
                self@.dom().contains(k) <==> old_self@.remove(key).dom().contains(k) by {
                if self@.dom().contains(k) {
                    let a = choose|a: int| 0 <= a < self.addrs@.len() && (#[trigger] self.addrs@[a])@ == k;
                    assert(self.addrs@[a] == old_self.addrs@[shift(a)]);
                    old_self.lemma_view_at(shift(a));
                    assert(shift(a) != i);
                }
                if old_self@.remove(key).dom().contains(k) {
                    let t = choose|t: int|
                        0 <= t < old_self.addrs@.len() && (#[trigger] old_self.addrs@[t])@ == k;
                    assert(t != i);
                    let a = if t < i {
                        t
                    } else {
                        t - 1
                    };
                    assert(self.addrs@[a] == old_self.addrs@[t]);
                }
            }
            assert forall|k: Seq<char>| #[trigger] self@.dom().contains(k) implies self@[k]
                == old_self@.remove(key)[k] by {
                let a = choose|a: int| 0 <= a < self.addrs@.len() && (#[trigger] self.addrs@[a])@ == k;
                self.lemma_view_at(a);
                assert(self.addrs@[a] == old_self.addrs@[shift(a)]);
                old_self.lemma_view_at(shift(a));
            }
            assert(self@ =~= old_self@.remove(key));
        }
    }

    /// Drops the windows of `keys`, each of which must have one.
    fn remove(&mut self, keys: Vec<String>)
        requires
            old(self).wf(),
            forall|i: int| 0 <= i < keys@.len() ==> old(self)@.dom().contains(#[trigger] keys@[i]@),
            forall|i: int, j: int|
                0 <= i < keys@.len() && 0 <= j < keys@.len() && i != j ==> (#[trigger] keys@[i])@ != (#[trigger] keys@[j])@,
        ensures
            final(self).wf(),
            final(self)@ == Map::new(
                |k: Seq<char>|
                    old(self)@.dom().contains(k) && !(exists|i: int|
                        0 <= i < keys@.len() && (#[trigger] keys@[i])@ == k),
                |k: Seq<char>| old(self)@[k],
            ),
    {
        let ghost start = self@;
        let n = keys.len();
        let mut t: usize = 0;
        while t < n
            invariant
                self.wf(),
                t <= n,
                n == keys@.len(),
                forall|i: int| 0 <= i < keys@.len() ==> start.dom().contains(#[trigger] keys@[i]@),
                forall|i: int, j: int|
                    0 <= i < keys@.len() && 0 <= j < keys@.len() && i != j ==> (#[trigger] keys@[i])@
                        != (#[trigger] keys@[j])@,
                self@ == Map::new(
                    |k: Seq<char>|
                        start.dom().contains(k) && !(exists|i: int|
                            0 <= i < t && (#[trigger] keys@[i])@ == k),
                    |k: Seq<char>| start[k],
                ),
            decreases n - t,
        {
            let ghost before = self@;
            let found = self.find(&keys[t]);
            proof {
                assert(start.dom().contains(keys@[t as int]@));
                if found is None {
                    assert(!(exists|i: int| 0 <= i < t && (#[trigger] keys@[i])@ == keys@[t as int]@))
                        by {
                        if exists|i: int| 0 <= i < t && (#[trigger] keys@[i])@ == keys@[t as int]@ {
                            let i = choose|i: int| 0 <= i < t && (#[trigger] keys@[i])@ == keys@[t as int]@;
                            assert(i != t);
                        }
                    }
                    assert(before.dom().contains(keys@[t as int]@));
                }
            }
            let i = found.unwrap();
            self.remove_at(i);
            proof {
                let goal = Map::new(
                    |k: Seq<char>|
                        start.dom().contains(k) && !(exists|j: int|
                            0 <= j < t + 1 && (#[trigger] keys@[j])@ == k),
                    |k: Seq<char>| start[k],
                );
                assert forall|k: Seq<char>| #[trigger] self@.dom().contains(k) <==> goal.dom().contains(k) by {
                    if exists|j: int| 0 <= j < t + 1 && (#[trigger] keys@[j])@ == k {
                        let j = choose|j: int| 0 <= j < t + 1 && (#[trigger] keys@[j])@ == k;
                        if j < t {
                            assert(!before.dom().contains(k));
                        }
                    }
                    if !(exists|j: int| 0 <= j < t + 1 && (#[trigger] keys@[j])@ == k) {
                        assert(keys@[t as int]@ != k);
                        assert(!(exists|j: int| 0 <= j < t && (#[trigger] keys@[j])@ == k)) by {
                            if exists|j: int| 0 <= j < t && (#[trigger] keys@[j])@ == k {
                                let j = choose|j: int| 0 <= j < t && (#[trigger] keys@[j])@ == k;
                                assert(0 <= j < t + 1 && keys@[j]@ == k);
                            }
                        }
                    }
                }
                assert(self@ =~= goal);
            }
            t = t + 1;
        }
    }

    /// Drops every window that is over at `now`.
    pub fn handle_expired(&mut self, now: u64)
        requires
            old(self).wf(),
        ensures
            final(self).wf(),
            final(self)@ == prune(old(self)@, now),
    {
        let ghost start = self@;
        let x = self.get_expired(now);
        proof {
            assert forall|i: int| 0 <= i < x@.len() implies self@.dom().contains(#[trigger] x@[i]@) by {
                let k = x@[i]@;
                assert(0 <= i < x@.len() && x@[i]@ == k);
                assert(exists|a: int| 0 <= a < x@.len() && (#[trigger] x@[a])@ == k);
            }
        }
        self.remove(x);
        proof {
            assert forall|k: Seq<char>| #[trigger] self@.dom().contains(k) <==> prune(start, now).dom().contains(
                k,
            ) by {
                if start.dom().contains(k) && expired(start[k], now) {
                    assert(exists|a: int| 0 <= a < x@.len() && (#[trigger] x@[a])@ == k);
                }
            }
            assert(self@ =~= prune(start, now));
        }
    }

    /// Whether `addr` may post at `now`. Closed windows are dropped first; then the post is
    /// counted in the window of `addr`, or opens a new one for it.
    pub fn can_paste(&mut self, addr: &String, now: u64) -> (r: bool)
        requires
            old(self).wf(),
        ensures
            final(self).wf(),
            r == paste_allowed(old(self)@, addr@, now),
            final(self)@ == after_paste(old(self)@, addr@, now),
            counts_bounded(final(self)@),
    {
        let ghost start = self@;
        self.handle_expired(now);
        let ghost pruned = self@;
        let r = match self.find(addr) {
            Some(i) => {
                proof {
                    self.lemma_view_at(i as int);
                }
                let mut entry = self.limits[i];
                let allowed = entry.allow_post();
                let ghost old_self = *self;
                self.limits.set(i, entry);
                proof {
                    assert forall|a: int| 0 <= a < self.limits@.len() implies (
                    #[trigger] self.limits@[a]).count <= MAX_PER_INTERVAL by {
                        if a != i {
                            assert(self.limits@[a] == old_self.limits@[a]);
                        }
                    }
                    assert(self.wf());
                    assert forall|k: Seq<char>| #[trigger]
                        self@.dom().contains(k) <==> pruned.insert(addr@, entry).dom().contains(k) by {
                        if k == addr@ {
                            self.lemma_view_at(i as int);
                        }
                    }
                    assert forall|k: Seq<char>| #[trigger] self@.dom().contains(k) implies self@[k]
                        == pruned.insert(addr@, entry)[k] by {
                        let a = choose|a: int|
                            0 <= a < self.addrs@.len() && (#[trigger] self.addrs@[a])@ == k;
                        self.lemma_view_at(a);
                        old_self.lemma_view_at(a);
                    }
                    assert(self@ =~= pruned.insert(addr@, entry));
                    if allowed {
                        assert(entry == LimitAddr {
                            start: pruned[addr@].start,
                            count: (pruned[addr@].count + 1) as u64,
                        });
                    } else {
                        assert(entry == pruned[addr@]);
                        assert(pruned.insert(addr@, entry) =~= pruned);
                    }
                }
                allowed
            },
            None => {
                let ghost old_self = *self;
                self.addrs.push(addr.clone());
                let mut entry = LimitAddr::new(now);
                let allowed = entry.allow_post();
                self.limits.push(entry);
                proof {
                    let n: int = old_self.addrs@.len() as int;
                    assert forall|a: int, b: int|
                        0 <= a < self.addrs@.len() && 0 <= b < self.addrs@.len() && a != b implies (
                    #[trigger] self.addrs@[a])@ != (#[trigger] self.addrs@[b])@ by {
                        if a < n && b < n {
                            assert(self.addrs@[a] == old_self.addrs@[a]);
                            assert(self.addrs@[b] == old_self.addrs@[b]);
                        } else if a < n {
                            assert(self.addrs@[a] == old_self.addrs@[a]);
                            old_self.lemma_view_at(a);
                        } else {
                            assert(self.addrs@[b] == old_self.addrs@[b]);
                            old_self.lemma_view_at(b);
                        }
                    }
                    assert forall|a: int| 0 <= a < self.limits@.len() implies (
                    #[trigger] self.limits@[a]).count <= MAX_PER_INTERVAL by {
                        if a < n {
                            assert(self.limits@[a] == old_self.limits@[a]);
                        }
                    }
                    assert(self.wf());
                    assert forall|k: Seq<char>| #[trigger]
                        self@.dom().contains(k) <==> pruned.insert(addr@, entry).dom().contains(k) by {
                        if k == addr@ {
                            self.lemma_view_at(n);
                        } else if self@.dom().contains(k) {
                            let a = choose|a: int|
                                0 <= a < self.addrs@.len() && (#[trigger] self.addrs@[a])@ == k;
                            assert(a < n);
                            assert(self.addrs@[a] == old_self.addrs@[a]);
                            old_self.lemma_view_at(a);
                        } else if pruned.dom().contains(k) {
                            let a = choose|a: int|
                                0 <= a < old_self.addrs@.len() && (#[trigger] old_self.addrs@[a])@ == k;
                            assert(self.addrs@[a] == old_self.addrs@[a]);
                        }
                    }
                    assert forall|k: Seq<char>| #[trigger] self@.dom().contains(k) implies self@[k]
                        == pruned.insert(addr@, entry)[k] by {
                        let a = choose|a: int|
                            0 <= a < self.addrs@.len() && (#[trigger] self.addrs@[a])@ == k;
                        self.lemma_view_at(a);
                        if a < n {
                            assert(self.addrs@[a] == old_self.addrs@[a]);
                            old_self.lemma_view_at(a);
                        }
                    }
                    assert(self@ =~= pruned.insert(addr@, entry));
                }
                allowed
            },
        };
        proof {
            self.lemma_counts_bounded();
        }
        r
    }
}

/// Proof that a post got through the rate limiter.
pub struct LimitGuard();

impl LimitGuard {
    /// Lets the sender's post through, or answers `429 Too Many Requests`.
    pub fn from_sender(limiter: &mut Limiter, sender: &SenderInfo) -> (r: Result<LimitGuard, u16>)
        requires
            old(limiter).wf(),
        ensures
            final(limiter).wf(),
            final(limiter)@ == after_paste(old(limiter)@, sender.addr@, sender.time),
            r is Ok <==> paste_allowed(old(limiter)@, sender.addr@, sender.time),
            r matches Err(code) ==> code == TOO_MANY_REQUESTS,
    {
        if limiter.can_paste(&sender.addr, sender.time) {
            Ok(LimitGuard())
        } else {
            Err(TOO_MANY_REQUESTS)
        }
    }
}

/// The windows after posts from `addr` at each of `times` in turn.
pub open spec fn windows_after(m: Map<Seq<char>, LimitAddr>, addr: Seq<char>, times: Seq<u64>) -> Map<
    Seq<char>,
    LimitAddr,
>
    decreases times.len(),
{
    if times.len() == 0 {
        m
    } else {
        after_paste(windows_after(m, addr, times.drop_last()), addr, times.last())
    }
}

/// The answers to posts from `addr` at each of `times` in turn.
pub open spec fn answers(m: Map<Seq<char>, LimitAddr>, addr: Seq<char>, times: Seq<u64>) -> Seq<bool>
    decreases times.len(),
{
    if times.len() == 0 {
        seq![]
    } else {
        answers(m, addr, times.drop_last()).push(
            paste_allowed(windows_after(m, addr, times.drop_last()), addr, times.last()),
        )
    }
}

/// A refused post changes nothing but the dropping of closed windows.
pub proof fn lemma_refused_post_changes_nothing(m: Map<Seq<char>, LimitAddr>, addr: Seq<char>, now: u64)
    requires
        !paste_allowed(m, addr, now),
    ensures
        after_paste(m, addr, now) == prune(m, now),
{
}

/// An address without an open window always gets through, and opens a fresh window with
/// one post counted.
pub proof fn lemma_window_reopens(m: Map<Seq<char>, LimitAddr>, addr: Seq<char>, now: u64)
    requires
        !m.dom().contains(addr) || expired(m[addr], now),
    ensures
        paste_allowed(m, addr, now),
        after_paste(m, addr, now).dom().contains(addr),
        after_paste(m, addr, now)[addr] == (LimitAddr { start: now, count: 1 }),
{
}

/// A post from one address leaves the window of every other address as it was, except that
/// a window that is over is dropped.
pub proof fn lemma_other_windows_untouched(
    m: Map<Seq<char>, LimitAddr>,
    addr: Seq<char>,
    other: Seq<char>,
    now: u64,
)
    requires
        other != addr,
    ensures
        after_paste(m, addr, now).dom().contains(other) <==> (m.dom().contains(other) && !expired(
            m[other],
            now,
        )),
        after_paste(m, addr, now).dom().contains(other) ==> after_paste(m, addr, now)[other]
            == m[other],
{
}

/// Posting never lets a window exceed its allowance.
pub proof fn lemma_post_keeps_counts_bounded(m: Map<Seq<char>, LimitAddr>, addr: Seq<char>, now: u64)
    requires
        counts_bounded(m),
    ensures
        counts_bounded(after_paste(m, addr, now)),
{
    let r = after_paste(m, addr, now);
    assert forall|k: Seq<char>| #[trigger] r.dom().contains(k) implies r[k].count <= MAX_PER_INTERVAL by {
        if k != addr {
            assert(m.dom().contains(k));
        }
    }
}

/// The state after the first `k` posts of a burst from one address that opens a window.
proof fn lemma_burst_prefix(m: Map<Seq<char>, LimitAddr>, addr: Seq<char>, times: Seq<u64>, k: int)
    requires
        1 <= k <= times.len(),
        !prune(m, times[0]).dom().contains(addr),
        forall|i: int| 0 <= i < times.len() ==> elapsed_secs_spec(times[0], #[trigger] times[i]) < INTERVAL,
    ensures
        windows_after(m, addr, times.subrange(0, k)).dom().contains(addr),
        windows_after(m, addr, times.subrange(0, k))[addr].start == times[0],
        windows_after(m, addr, times.subrange(0, k))[addr].count == if k < MAX_PER_INTERVAL {
            k
        } else {
            MAX_PER_INTERVAL as int
        },
        answers(m, addr, times.subrange(0, k)).len() == k,
        forall|i: int|
            0 <= i < k ==> #[trigger] answers(m, addr, times.subrange(0, k))[i] == (i
                < MAX_PER_INTERVAL),
    decreases k,
{
    let pre = times.subrange(0, k);
    assert(pre.drop_last() =~= times.subrange(0, k - 1));
    if k == 1 {
        assert(times.subrange(0, 0) =~= Seq::<u64>::empty());
        assert(windows_after(m, addr, times.subrange(0, 0)) == m);
        assert(answers(m, addr, times.subrange(0, 0)) =~= Seq::<bool>::empty());
        assert(pre.last() == times[0]);
    } else {
        lemma_burst_prefix(m, addr, times, k - 1);
        let w = windows_after(m, addr, times.subrange(0, k - 1));
        let t = pre.last();
        assert(t == times[k - 1]);
        assert(elapsed_secs_spec(times[0], times[k - 1]) < INTERVAL);
        assert(!expired(w[addr], t));
        assert(prune(w, t).dom().contains(addr));
        let prev = answers(m, addr, times.subrange(0, k - 1));
        assert(answers(m, addr, pre) == prev.push(paste_allowed(w, addr, t)));
        assert forall|i: int| 0 <= i < k implies #[trigger] answers(m, addr, pre)[i] == (i
            < MAX_PER_INTERVAL) by {
            if i < k - 1 {
                assert(answers(m, addr, pre)[i] == prev[i]);
            }
        }
    }
}

/// A burst of posts from one address that has no open window, all within `INTERVAL`
/// seconds of the first: exactly the first `MAX_PER_INTERVAL` get through.
pub proof fn lemma_burst_limit(m: Map<Seq<char>, LimitAddr>, addr: Seq<char>, times: Seq<u64>)
    requires
        times.len() > 0,
        !prune(m, times[0]).dom().contains(addr),
        forall|i: int| 0 <= i < times.len() ==> elapsed_secs_spec(times[0], #[trigger] times[i]) < INTERVAL,
    ensures
        answers(m, addr, times).len() == times.len(),
        forall|i: int|
            0 <= i < times.len() ==> #[trigger] answers(m, addr, times)[i] == (i < MAX_PER_INTERVAL),
{
    lemma_burst_prefix(m, addr, times, times.len() as int);
    assert(times.subrange(0, times.len() as int) =~= times);
}

/// The windows after the first `n` of the posts `reqs` (each an address and a time), made in
/// turn on a limiter that starts with no window.
pub open spec fn state_at(reqs: Seq<(Seq<char>, u64)>, n: nat) -> Map<Seq<char>, LimitAddr>
    decreases n,
{
    if n == 0 {
        Map::empty()
    } else {
        after_paste(state_at(reqs, (n - 1) as nat), reqs[n - 1].0, reqs[n - 1].1)
    }
}

/// Whether the post `reqs[j]` gets through.
pub open spec fn reply_at(reqs: Seq<(Seq<char>, u64)>, j: int) -> bool {
    paste_allowed(state_at(reqs, j as nat), reqs[j].0, reqs[j].1)
}

/// Whether the post `reqs[j]` opens a new window for its address (it has no open one).
pub open spec fn opens_window(reqs: Seq<(Seq<char>, u64)>, j: int) -> bool {
    !prune(state_at(reqs, j as nat), reqs[j].1).dom().contains(reqs[j].0)
}

/// How many of the posts `reqs[k..n]` from `a` got through.
pub open spec fn accepted_between(reqs: Seq<(Seq<char>, u64)>, a: Seq<char>, k: int, n: int) -> nat
    decreases n - k,
{
    if n <= k {
        0
    } else {
        accepted_between(reqs, a, k, n - 1) + if reqs[n - 1].0 == a && reply_at(reqs, n - 1) {
            1nat
        } else {
            0nat
        }
    }
}

/// True when, after the first `n` posts, the window of `a` was opened by the post `reqs[k]`:
/// that post came from `a` and opened a window, no later post from `a` opened another, the
/// window starts at that post's time, and its count is the number of posts from `a` that got
/// through since then.
pub open spec fn window_origin(reqs: Seq<(Seq<char>, u64)>, n: nat, a: Seq<char>, k: int) -> bool {
    &&& 0 <= k < n
    &&& reqs[k].0 == a
    &&& opens_window(reqs, k)
    &&& forall|j: int| k < j < n && reqs[j].0 == a ==> !#[trigger] opens_window(reqs, j)
    &&& state_at(reqs, n)[a].start == reqs[k].1
    &&& state_at(reqs, n)[a].count == accepted_between(reqs, a, k, n as int)
}

/// However posts from different addresses interleave, no window is over its allowance.
pub proof fn lemma_state_counts_bounded(reqs: Seq<(Seq<char>, u64)>, n: nat)
    requires
        n <= reqs.len(),
    ensures
        counts_bounded(state_at(reqs, n)),
    decreases n,
{
    if n > 0 {
        lemma_state_counts_bounded(reqs, (n - 1) as nat);
        lemma_post_keeps_counts_bounded(
            state_at(reqs, (n - 1) as nat),
            reqs[n - 1].0,
            reqs[n - 1].1,
        );
    }
}

/// On a limiter that starts with no window, however posts from different addresses
/// interleave, the window of each address was opened by one of its posts, starts at that
/// post's time, and counts exactly the posts from that address that got through since; so at
/// most `MAX_PER_INTERVAL` of them got through.
pub proof fn lemma_window_counts_its_posts(reqs: Seq<(Seq<char>, u64)>, n: nat, a: Seq<char>)
    requires
        n <= reqs.len(),
        state_at(reqs, n).dom().contains(a),
    ensures
        exists|k: int| window_origin(reqs, n, a, k),
        state_at(reqs, n)[a].count <= MAX_PER_INTERVAL,
    decreases n,
{
    lemma_state_counts_bounded(reqs, n);
    assert(n > 0);
    let prev: nat = (n - 1) as nat;
    let m = state_at(reqs, prev);
    let b = reqs[n - 1].0;
    let t = reqs[n - 1].1;
    let p = prune(m, t);
    assert(state_at(reqs, n) == after_paste(m, b, t));
    if a != b {
        lemma_other_windows_untouched(m, b, a, t);
        lemma_window_counts_its_posts(reqs, prev, a);
        let k = choose|k: int| window_origin(reqs, prev, a, k);
        assert(accepted_between(reqs, a, k, n as int) == accepted_between(reqs, a, k, n - 1));
        assert forall|j: int| k < j < n && reqs[j].0 == a implies !#[trigger] opens_window(reqs, j) by {
            assert(j != n - 1);
        }
        assert(window_origin(reqs, n, a, k));
    } else if p.dom().contains(a) {
        lemma_window_counts_its_posts(reqs, prev, a);
        let k = choose|k: int| window_origin(reqs, prev, a, k);
        assert(!opens_window(reqs, n - 1));
        assert forall|j: int| k < j < n && reqs[j].0 == a implies !#[trigger] opens_window(reqs, j) by {
        }
        assert(reply_at(reqs, n - 1) == paste_allowed(m, b, t));
        assert(window_origin(reqs, n, a, k));
    } else {
        let k = n - 1;
        assert(opens_window(reqs, k));
        assert(reply_at(reqs, k));
        assert(accepted_between(reqs, a, k, k) == 0);
        assert(accepted_between(reqs, a, k, n as int) == 1);
        assert(window_origin(reqs, n, a, k));
    }
}

} // verus!
