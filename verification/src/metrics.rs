use vstd::prelude::*;

verus! {

/// Most latency samples kept for percentiles.
pub const RESERVOIR_CAPACITY: usize = 100_000;

/// Counters collected while a benchmark runs, and a bounded reservoir of
/// latency samples (in nanoseconds) for the percentiles. The reservoir never
/// holds more than `RESERVOIR_CAPACITY` samples.
pub struct Metrics {
    total_ops: u64,
    total_bytes: u64,
    latency_sum_ns: u64,
    latency_samples: u64,
    latency_reservoir: Vec<u64>,
}

/// What a `Metrics` holds: its counters and the samples kept.
pub struct MetricsView {
    pub total_ops: u64,
    pub total_bytes: u64,
    pub latency_sum_ns: u64,
    pub latency_samples: u64,
    pub reservoir: Seq<u64>,
}

impl View for Metrics {
    type V = MetricsView;

    closed spec fn view(&self) -> MetricsView {
        MetricsView {
            total_ops: self.total_ops,
            total_bytes: self.total_bytes,
            latency_sum_ns: self.latency_sum_ns,
            latency_samples: self.latency_samples,
            reservoir: self.latency_reservoir@,
        }
    }
}

/// `x + y`, wrapping around at 2^64 as an atomic `fetch_add` does.
pub open spec fn wrapped_add(x: u64, y: u64) -> u64 {
    vstd::wrapping::u64_specs::wrapping_add(x, y)
}

/// Ascending order on samples.
pub open spec fn sample_le(a: u64, b: u64) -> bool {
    a <= b
}

/// Whether `s` is in ascending order.
pub open spec fn ascending(s: Seq<u64>) -> bool {
    forall|i: int, j: int| 0 <= i < j < s.len() ==> #[trigger] s[i] <= #[trigger] s[j]
}

/// The samples in ascending order.
pub open spec fn sorted_samples(s: Seq<u64>) -> Seq<u64> {
    s.sort_by(|a: u64, b: u64| sample_le(a, b))
}

/// The sample at position `rank` in ascending order, the largest where `rank`
/// is past the end.
pub open spec fn rank_sample(s: Seq<u64>, rank: int) -> u64 {
    let t = sorted_samples(s);
    if rank < t.len() {
        t[rank]
    } else {
        t[t.len() - 1]
    }
}

/// The reservoir after a latency of `ns` is recorded: appended while there is
/// room, otherwise written over the sample at `draw` modulo the reservoir's size.
pub open spec fn reservoir_after(res: Seq<u64>, ns: u64, draw: usize) -> Seq<u64> {
    if res.len() < RESERVOIR_CAPACITY {
        res.push(ns)
    } else {
        res.update(draw as int % res.len() as int, ns)
    }
}

/// A number drawn at random, as `rand::random::<usize>()` draws it.
///
/// Calls `rand::random::<usize>()`. Nothing is stated of the value: it is
/// chosen at random, so any `usize` may come back.
#[verifier::external_body]
fn random_usize() -> usize {
    rand::random::<usize>()
}

/// Whether `d` is a value that the random source (`random_usize`) gives back:
/// nothing is known of its values, so this holds of what a call returned and
/// cannot be shown of any value chosen otherwise.
pub closed spec fn drawn_usize(d: usize) -> bool {
    call_ensures(random_usize, (), d)
}

/// Sorts the samples in ascending order.
///
/// Calls `<[u64]>::sort_unstable`, which the standard library documents as
/// sorting the slice in ascending order; the result is claimed to be sorted
/// and to hold the same samples, each as often as before.
#[verifier::external_body]
fn sort_samples(v: &mut Vec<u64>)
    ensures
        final(v)@.len() == old(v)@.len(),
        final(v)@.to_multiset() == old(v)@.to_multiset(),
        ascending(final(v)@),
{
    v.sort_unstable();
}

impl Metrics {
    /// The reservoir stays within its capacity.
    #[verifier::type_invariant]
    spec fn reservoir_within_capacity(&self) -> bool {
        self.latency_reservoir.len() <= RESERVOIR_CAPACITY
    }

    /// Fresh metrics: every counter zero, no samples.
    pub fn new() -> (m: Self)
        ensures
            m@.total_ops == 0,
            m@.total_bytes == 0,
            m@.latency_sum_ns == 0,
            m@.latency_samples == 0,
            m@.reservoir == Seq::<u64>::empty(),
    {
        Metrics {
            total_ops: 0,
            total_bytes: 0,
            latency_sum_ns: 0,
            latency_samples: 0,
            latency_reservoir: Vec::with_capacity(RESERVOIR_CAPACITY),
        }
    }

    /// Operations completed.
    pub fn total_ops(&self) -> (r: u64)
        ensures
            r == self@.total_ops,
    {
        self.total_ops
    }

    /// Bytes transferred.
    pub fn total_bytes(&self) -> (r: u64)
        ensures
            r == self@.total_bytes,
    {
        self.total_bytes
    }

    /// Sum of all recorded latencies, in nanoseconds (wrapping at 2^64).
    pub fn latency_sum_ns(&self) -> (r: u64)
        ensures
            r == self@.latency_sum_ns,
    {
        self.latency_sum_ns
    }

    /// Number of latencies recorded (wrapping at 2^64).
    pub fn latency_samples(&self) -> (r: u64)
        ensures
            r == self@.latency_samples,
    {
        self.latency_samples
    }

    /// The latency samples kept.
    pub fn reservoir(&self) -> (r: &Vec<u64>)
        ensures
            r@ == self@.reservoir,
            r@.len() <= RESERVOIR_CAPACITY,
    {
        proof {
            use_type_invariant(self);
        }
        &self.latency_reservoir
    }

    /// Counts one completed operation of `bytes` bytes (both counters wrap at 2^64).
    pub fn record_io(&mut self, bytes: u64)
        ensures
            final(self)@.total_ops == wrapped_add(old(self)@.total_ops, 1),
            final(self)@.total_bytes == wrapped_add(old(self)@.total_bytes, bytes),
            final(self)@.latency_sum_ns == old(self)@.latency_sum_ns,
            final(self)@.latency_samples == old(self)@.latency_samples,
            final(self)@.reservoir == old(self)@.reservoir,
    {
        proof {
            use_type_invariant(&*self);
        }
        self.total_ops = self.total_ops.wrapping_add(1);
        self.total_bytes = self.total_bytes.wrapping_add(bytes);
    }

    /// How many latency samples are kept.
    pub fn sample_count(&self) -> (n: usize)
        ensures
            n == self@.reservoir.len(),
            n <= RESERVOIR_CAPACITY,
    {
        proof {
            use_type_invariant(self);
        }
        self.latency_reservoir.len()
    }

    /// Records a latency of `ns`, with `draw` choosing the sample to replace
    /// once the reservoir is full.
    pub fn record_latency_with_draw(&mut self, ns: u64, draw: usize)
        ensures
            final(self)@.latency_sum_ns == wrapped_add(old(self)@.latency_sum_ns, ns),
            final(self)@.latency_samples == wrapped_add(old(self)@.latency_samples, 1),
            final(self)@.total_ops == old(self)@.total_ops,
            final(self)@.total_bytes == old(self)@.total_bytes,
            final(self)@.reservoir == reservoir_after(old(self)@.reservoir, ns, draw),
            final(self)@.reservoir.len() <= RESERVOIR_CAPACITY,
    {
        proof {
            use_type_invariant(&*self);
        }
        self.latency_sum_ns = self.latency_sum_ns.wrapping_add(ns);
        self.latency_samples = self.latency_samples.wrapping_add(1);
        let mut res: Vec<u64> = Vec::new();
        std::mem::swap(&mut res, &mut self.latency_reservoir);
        let len = res.len();
        if len < RESERVOIR_CAPACITY {
            res.push(ns);
        } else {
            let idx = draw % len;
            res.set(idx, ns);
        }
        self.latency_reservoir = res;
    }

    /// Records a latency of `ns`: adds it to the sum and the sample count, and
    /// keeps it in the reservoir; once the reservoir is full it overwrites the
    /// sample at position `draw` modulo the size, for a number freshly drawn
    /// from the random source.
    pub fn record_latency(&mut self, ns: u64)
        ensures
            final(self)@.latency_sum_ns == wrapped_add(old(self)@.latency_sum_ns, ns),
            final(self)@.latency_samples == wrapped_add(old(self)@.latency_samples, 1),
            final(self)@.total_ops == old(self)@.total_ops,
            final(self)@.total_bytes == old(self)@.total_bytes,
            exists|draw: usize|
                #![trigger reservoir_after(old(self)@.reservoir, ns, draw)]
                (old(self)@.reservoir.len() >= RESERVOIR_CAPACITY ==> drawn_usize(draw))
                    && final(self)@.reservoir == reservoir_after(old(self)@.reservoir, ns, draw),
            final(self)@.reservoir.len() <= RESERVOIR_CAPACITY,
    {
        let ghost before = self@.reservoir;
        if self.sample_count() < RESERVOIR_CAPACITY {
            self.record_latency_with_draw(ns, 0);
            assert((before.len() >= RESERVOIR_CAPACITY ==> drawn_usize(0)) && self@.reservoir
                == reservoir_after(before, ns, 0));
        } else {
            let draw = random_usize();
            assert(drawn_usize(draw));
            self.record_latency_with_draw(ns, draw);
            assert((before.len() >= RESERVOIR_CAPACITY ==> drawn_usize(draw)) && self@.reservoir
                == reservoir_after(before, ns, draw));
        }
    }

    /// Sorts the samples and returns the one at position `rank` in ascending
    /// order (the largest where `rank` is past the end); `None` when there are
    /// no samples.
    pub fn sample_at_rank(&mut self, rank: usize) -> (r: Option<u64>)
        ensures
            final(self)@.reservoir == sorted_samples(old(self)@.reservoir),
            final(self)@.total_ops == old(self)@.total_ops,
            final(self)@.total_bytes == old(self)@.total_bytes,
            final(self)@.latency_sum_ns == old(self)@.latency_sum_ns,
            final(self)@.latency_samples == old(self)@.latency_samples,
            r == (if old(self)@.reservoir.len() == 0 {
                None
            } else {
                Some(rank_sample(old(self)@.reservoir, rank as int))
            }),
    {
        proof {
            use_type_invariant(&*self);
        }
        let ghost before = self.latency_reservoir@;
        if self.latency_reservoir.len() == 0 {
            proof {
                lemma_sorted_samples_unique(before, before);
            }
            return None;
        }
        let mut res: Vec<u64> = Vec::new();
        std::mem::swap(&mut res, &mut self.latency_reservoir);
        sort_samples(&mut res);
        proof {
            lemma_sorted_samples_unique(before, res@);
        }
        let len = res.len();
        let idx = if rank < len {
            rank
        } else {
            len - 1
        };
        let v = res[idx];
        self.latency_reservoir = res;
        Some(v)
    }
}

/// Two ascending sequences that hold the same samples are the same sequence.
pub proof fn lemma_sorted_unique(s: Seq<u64>, t: Seq<u64>)
    requires
        ascending(s),
        ascending(t),
        s.to_multiset() == t.to_multiset(),
    ensures
        s == t,
    decreases s.len(),
{
    broadcast use vstd::seq_lib::group_to_multiset_ensures;

    assert(s.to_multiset().len() == s.len());
    assert(t.to_multiset().len() == t.len());
    if s.len() == 0 {
        assert(t =~= s);
    } else {
        let x = s.last();
        let y = t.last();
        assert(s.contains(x)) by {
            assert(s[s.len() - 1] == x);
        }
        assert(s.to_multiset().count(x) > 0);
        assert(t.to_multiset().count(x) > 0);
        assert(t.contains(x));
        assert(t.contains(y)) by {
            assert(t[t.len() - 1] == y);
        }
        assert(t.to_multiset().count(y) > 0);
        assert(s.to_multiset().count(y) > 0);
        assert(s.contains(y));
        let i = choose|i: int| 0 <= i < t.len() && t[i] == x;
        let j = choose|j: int| 0 <= j < s.len() && s[j] == y;
        if i < t.len() - 1 {
            assert(t[i] <= t[t.len() - 1]);
        }
        if j < s.len() - 1 {
            assert(s[j] <= s[s.len() - 1]);
        }
        assert(x == y);
        let s0 = s.drop_last();
        let t0 = t.drop_last();
        assert(s =~= s0.push(x));
        assert(t =~= t0.push(x));
        assert(s0.to_multiset().insert(x) == t0.to_multiset().insert(x));
        assert(s0.to_multiset() =~= t0.to_multiset()) by {
            assert forall|v: u64| s0.to_multiset().count(v) == t0.to_multiset().count(v) by {
                assert(s0.to_multiset().insert(x).count(v) == t0.to_multiset().insert(x).count(v));
            }
        }
        assert forall|a: int, b: int| 0 <= a < b < s0.len() implies s0[a] <= s0[b] by {
            assert(s[a] <= s[b]);
        }
        assert forall|a: int, b: int| 0 <= a < b < t0.len() implies t0[a] <= t0[b] by {
            assert(t[a] <= t[b]);
        }
        lemma_sorted_unique(s0, t0);
    }
}

/// `sorted_samples(s)` is ascending and holds the samples of `s`.
pub proof fn lemma_sorted_samples(s: Seq<u64>)
    ensures
        ascending(sorted_samples(s)),
        sorted_samples(s).to_multiset() == s.to_multiset(),
        sorted_samples(s).len() == s.len(),
{
    broadcast use vstd::seq_lib::group_to_multiset_ensures;

    let leq = |a: u64, b: u64| sample_le(a, b);
    assert(vstd::relations::total_ordering(leq));
    s.lemma_sort_by_ensures(leq);
    let u = sorted_samples(s);
    assert(ascending(u)) by {
        assert forall|i: int, j: int| 0 <= i < j < u.len() implies u[i] <= u[j] by {
            assert(leq(u[i], u[j]));
        }
    }
    assert(u.to_multiset().len() == u.len());
    assert(s.to_multiset().len() == s.len());
}

/// An ascending sequence holding the samples of `s` is `sorted_samples(s)`.
pub proof fn lemma_sorted_samples_unique(s: Seq<u64>, t: Seq<u64>)
    requires
        ascending(t) || s.len() == 0,
        t.to_multiset() == s.to_multiset(),
    ensures
        t == sorted_samples(s),
{
    broadcast use vstd::seq_lib::group_to_multiset_ensures;

    lemma_sorted_samples(s);
    assert(s.to_multiset().len() == s.len());
    assert(t.to_multiset().len() == t.len());
    if s.len() == 0 {
        assert(t =~= s);
        assert(sorted_samples(s) =~= s);
    }
    lemma_sorted_unique(t, sorted_samples(s));
}

/// Recording a latency never drops it: the new sample is in the reservoir
/// afterwards, and every sample there was either recorded before or is the new one.
pub proof fn law_record_keeps_newest(res: Seq<u64>, ns: u64, draw: usize)
    ensures
        reservoir_after(res, ns, draw).contains(ns),
        forall|x: u64| #[trigger]
            reservoir_after(res, ns, draw).contains(x) ==> x == ns || res.contains(x),
{
    let after = reservoir_after(res, ns, draw);
    if res.len() < RESERVOIR_CAPACITY {
        assert(after[res.len() as int] == ns);
        assert forall|x: u64| #[trigger] after.contains(x) implies x == ns || res.contains(x) by {
            let i = choose|i: int| 0 <= i < after.len() && after[i] == x;
            if i < res.len() {
                assert(res[i] == x);
            }
        }
    } else {
        let k = draw as int % res.len() as int;
        assert(after[k] == ns);
        assert forall|x: u64| #[trigger] after.contains(x) implies x == ns || res.contains(x) by {
            let i = choose|i: int| 0 <= i < after.len() && after[i] == x;
            if i != k {
                assert(res[i] == x);
            }
        }
    }
}

/// The reservoir holds at most `RESERVOIR_CAPACITY` samples: recording adds
/// one until it is full, and then keeps its size.
pub proof fn law_reservoir_bounded(res: Seq<u64>, ns: u64, draw: usize)
    requires
        res.len() <= RESERVOIR_CAPACITY,
    ensures
        reservoir_after(res, ns, draw).len() == if res.len() < RESERVOIR_CAPACITY {
            res.len() + 1int
        } else {
            RESERVOIR_CAPACITY as int
        },
        reservoir_after(res, ns, draw).len() <= RESERVOIR_CAPACITY,
{
}

/// Until the sample counter wraps, the reservoir holds every sample while
/// there are fewer than `RESERVOIR_CAPACITY`, and exactly that many after.
pub proof fn law_reservoir_tracks_count(res: Seq<u64>, samples: u64, ns: u64, draw: usize)
    requires
        res.len() == if samples < RESERVOIR_CAPACITY {
            samples as int
        } else {
            RESERVOIR_CAPACITY as int
        },
        samples < u64::MAX,
    ensures
        wrapped_add(samples, 1) == samples + 1,
        reservoir_after(res, ns, draw).len() == if wrapped_add(samples, 1) < RESERVOIR_CAPACITY {
            wrapped_add(samples, 1) as int
        } else {
            RESERVOIR_CAPACITY as int
        },
{
}

/// Asking for percentiles one after another gives the same answers as asking
/// each of the samples afresh: sorting sorted samples changes nothing.
pub proof fn law_rank_sample_stable(s: Seq<u64>, rank: int)
    ensures
        sorted_samples(sorted_samples(s)) == sorted_samples(s),
        rank_sample(sorted_samples(s), rank) == rank_sample(s, rank),
{
    lemma_sorted_samples(s);
    let t = sorted_samples(s);
    lemma_sorted_samples_unique(t, t);
}

/// Percentiles grow with their rank: the sample at a lower rank is never
/// above the sample at a higher one; rank 0 is the smallest sample, a rank at
/// or past the last the largest, and each is one of the samples.
pub proof fn law_rank_sample_order(s: Seq<u64>, i: int, j: int)
    requires
        s.len() > 0,
        0 <= i <= j,
    ensures
        rank_sample(s, i) <= rank_sample(s, j),
        s.contains(rank_sample(s, i)),
        forall|k: int| 0 <= k < s.len() ==> rank_sample(s, 0) <= #[trigger] s[k],
        forall|k: int| 0 <= k < s.len() ==> #[trigger] s[k] <= rank_sample(s, (s.len() - 1) as int),
{
    broadcast use vstd::seq_lib::group_to_multiset_ensures;

    lemma_sorted_samples(s);
    let t = sorted_samples(s);
    let n = t.len();
    let ki = if i < n { i } else { n - 1 };
    let kj = if j < n { j } else { n - 1 };
    if ki < kj {
        assert(t[ki] <= t[kj]);
    }
    assert(t.contains(t[ki]));
    assert(t.to_multiset().count(t[ki]) > 0);
    assert(s.to_multiset().count(t[ki]) > 0);
    assert forall|k: int| 0 <= k < s.len() implies rank_sample(s, 0) <= #[trigger] s[k]
        && s[k] <= rank_sample(s, (s.len() - 1) as int) by {
        assert(s.contains(s[k]));
        assert(s.to_multiset().count(s[k]) > 0);
        assert(t.to_multiset().count(s[k]) > 0);
        assert(t.contains(s[k]));
        let m = choose|m: int| 0 <= m < t.len() && t[m] == s[k];
        if m > 0 {
            assert(t[0] <= t[m]);
        }
        if m < n - 1 {
            assert(t[m] <= t[n - 1]);
        }
    }
}

/// The latency sum after latencies `vs` are recorded, one after another,
/// starting from `s0`.
pub open spec fn sum_after(s0: u64, vs: Seq<u64>) -> u64
    decreases vs.len(),
{
    if vs.len() == 0 {
        s0
    } else {
        wrapped_add(sum_after(s0, vs.drop_last()), vs.last())
    }
}

/// The sample count after `c` latencies are recorded, starting from `n0`.
pub open spec fn count_after(n0: u64, c: nat) -> u64
    decreases c,
{
    if c == 0 {
        n0
    } else {
        wrapped_add(count_after(n0, (c - 1) as nat), 1)
    }
}

/// The total of the latencies `vs`.
pub open spec fn total_of(vs: Seq<u64>) -> int
    decreases vs.len(),
{
    if vs.len() == 0 {
        0
    } else {
        total_of(vs.drop_last()) + vs.last()
    }
}

/// Each recording is one step of `sum_after` and `count_after`, as the
/// contract of `record_latency` states; after latencies `v_1 .. v_c` are
/// recorded, in whatever order, the count is `n0 + c` and the sum is
/// `s0 + v_1 + .. + v_c`, both modulo 2^64: no recording is lost.
pub proof fn law_latency_totals_accumulate(s0: u64, n0: u64, vs: Seq<u64>)
    ensures
        sum_after(s0, vs) == (s0 + total_of(vs)) % 0x1_0000_0000_0000_0000,
        count_after(n0, vs.len()) == (n0 + vs.len()) % 0x1_0000_0000_0000_0000,
        forall|v: u64| #[trigger] sum_after(s0, vs.push(v)) == wrapped_add(sum_after(s0, vs), v),
        wrapped_add(count_after(n0, vs.len()), 1) == count_after(n0, vs.len() + 1),
    decreases vs.len(),
{
    let m: int = 0x1_0000_0000_0000_0000;
    assert forall|v: u64| #[trigger] sum_after(s0, vs.push(v)) == wrapped_add(
        sum_after(s0, vs),
        v,
    ) by {
        assert(vs.push(v).drop_last() =~= vs);
    }
    if vs.len() > 0 {
        let d = vs.drop_last();
        law_latency_totals_accumulate(s0, n0, d);
        let a = s0 + total_of(d);
        let x = vs.last();
        vstd::arithmetic::div_mod::lemma_add_mod_noop(a, x as int, m);
        vstd::arithmetic::div_mod::lemma_small_mod(x as nat, m as nat);
        vstd::arithmetic::div_mod::lemma_add_mod_noop(n0 + d.len(), 1, m);
        vstd::arithmetic::div_mod::lemma_small_mod(1, m as nat);
        let r = a % m;
        assert(0 <= r < m) by {
            vstd::arithmetic::div_mod::lemma_mod_bound(a, m);
        }
        assert(wrapped_add(r as u64, x) == (r + x) % m) by {
            if r + x >= m {
                vstd::arithmetic::div_mod::lemma_mod_self_0(m);
                vstd::arithmetic::div_mod::lemma_small_mod((r + x - m) as nat, m as nat);
                vstd::arithmetic::div_mod::lemma_mod_sub_multiples_vanish(r + x, m);
            } else {
                vstd::arithmetic::div_mod::lemma_small_mod((r + x) as nat, m as nat);
            }
        }
        let c = (n0 + d.len()) % m;
        assert(0 <= c < m) by {
            vstd::arithmetic::div_mod::lemma_mod_bound(n0 + d.len(), m);
        }
        assert(wrapped_add(c as u64, 1) == (c + 1) % m) by {
            if c + 1 >= m {
                vstd::arithmetic::div_mod::lemma_mod_sub_multiples_vanish(c + 1, m);
                vstd::arithmetic::div_mod::lemma_small_mod((c + 1 - m) as nat, m as nat);
            } else {
                vstd::arithmetic::div_mod::lemma_small_mod((c + 1) as nat, m as nat);
            }
        }
    } else {
        vstd::arithmetic::div_mod::lemma_small_mod(s0 as nat, m as nat);
        vstd::arithmetic::div_mod::lemma_small_mod(n0 as nat, m as nat);
    }
    let c0 = count_after(n0, vs.len());
    assert(wrapped_add(c0, 1) == count_after(n0, vs.len() + 1));
}

/// Once the reservoir is full, the draw decides which sample gives way: the
/// new latency lands at position `draw` modulo the size and every other
/// sample stays; every position can be chosen, by the draw equal to it.
pub proof fn law_draw_decides_replaced_sample(res: Seq<u64>, ns: u64, draw: usize, p: usize)
    requires
        res.len() == RESERVOIR_CAPACITY,
        p < res.len(),
    ensures
        reservoir_after(res, ns, draw).len() == res.len(),
        reservoir_after(res, ns, draw)[draw as int % res.len() as int] == ns,
        forall|j: int|
            0 <= j < res.len() && j != draw as int % res.len() as int ==> #[trigger] reservoir_after(
                res,
                ns,
                draw,
            )[j] == res[j],
        reservoir_after(res, ns, p)[p as int] == ns,
{
    vstd::arithmetic::div_mod::lemma_small_mod(p as nat, res.len());
}

} // verus!
