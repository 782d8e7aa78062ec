use vstd::prelude::*;
use vstd::multiset::Multiset;
use crate::bytes_util::append_bytes;
use crate::pdu::{Pdu, PduView};

verus! {

#[verifier::external_type_specification]
#[verifier::external_body]
#[verifier::reject_recursive_types(H)]
pub struct ExCuckooFilter<H>(cuckoofilter::CuckooFilter<H>);

#[verifier::external_type_specification]
#[verifier::external_body]
pub struct ExCuckooError(cuckoofilter::CuckooError);

#[verifier::external_type_specification]
#[verifier::external_body]
pub struct ExAHasher(ahash::AHasher);

/// The approximate-membership sub-filter used for each bucket.
pub type SubFilter = cuckoofilter::CuckooFilter<ahash::AHasher>;

/// The items stored in a sub-filter, one entry per successful insertion.
pub uninterp spec fn filter_items(f: SubFilter) -> Multiset<Seq<u8>>;

/// Relies on cuckoofilter::CuckooFilter::with_capacity: a filter with no items.
#[verifier::external_body]
fn filter_new() -> (r: SubFilter)
    ensures
        filter_items(r) =~= Multiset::empty(),
{
    cuckoofilter::CuckooFilter::with_capacity(cuckoofilter::DEFAULT_CAPACITY)
}

/// Relies on cuckoofilter::CuckooFilter::contains: no false negatives (a
/// stored item is always found; an item never stored may be reported too).
#[verifier::external_body]
fn filter_contains(f: &SubFilter, data: &[u8]) -> (r: bool)
    ensures
        filter_items(*f).count(data@) > 0 ==> r,
{
    f.contains(data)
}

/// Relies on cuckoofilter::CuckooFilter::add: on success the item is stored
/// and the count grows by one; on failure (no room after relocating) the count
/// stays and one stored entry may have been lost.
#[verifier::external_body]
fn filter_add(f: &mut SubFilter, data: &[u8]) -> (r: Result<(), cuckoofilter::CuckooError>)
    ensures
        r is Ok ==> filter_items(*final(f)) == filter_items(*old(f)).insert(data@),
        r is Err ==> filter_items(*final(f)).len() == filter_items(*old(f)).len(),
{
    f.add(data)
}

/// Relies on cuckoofilter::CuckooFilter::len: the number of stored entries.
#[verifier::external_body]
fn filter_len(f: &SubFilter) -> (r: usize)
    ensures
        r == filter_items(*f).len(),
{
    f.len()
}

/// What a cardinality limiter counts as one metric identity: the name and
/// everything after the value (type, sample rate, tags).
pub open spec fn identity(p: PduView) -> Seq<u8> {
    p.name() + p.bytes.subrange(p.value_end, p.bytes.len() as int)
}

/// The identity of a line.
pub fn pdu_identity(pdu: &Pdu) -> (r: Vec<u8>)
    requires
        pdu@.wf(),
    ensures
        r@ == identity(pdu@),
{
    let mut r: Vec<u8> = Vec::new();
    append_bytes(&mut r, pdu.name());
    let b = pdu.as_bytes();
    let ve = pdu.value_offset();
    append_bytes(&mut r, &b[ve..b.len()]);
    r
}

/// One bucket: a sub-filter and the time (in ms) until which it is the one
/// tested or a later one.
struct TimeBoundedCuckoo {
    filter: SubFilter,
    valid_until: u64,
}

/// What the rolling filter is, for contracts: per bucket, oldest first, its
/// items and its expiry.
pub struct MultiView {
    pub buckets: nat,
    pub window: nat,
    pub items: Seq<Multiset<Seq<u8>>>,
    pub valid_until: Seq<u64>,
}

impl MultiView {
    pub open spec fn wf(self) -> bool {
        &&& self.buckets >= 1
        &&& self.items.len() == self.buckets
        &&& self.valid_until.len() == self.buckets
    }
}

/// A FIFO of time-bounded sub-filters: membership is tested against the
/// oldest, insertions go to all of them.
pub struct MultiCuckoo {
    buckets: usize,
    window: u64,
    filters: Vec<TimeBoundedCuckoo>,
}

/// The buckets after one rotation: the oldest leaves, an empty one joins.
pub open spec fn rotated(items: Seq<Multiset<Seq<u8>>>) -> Seq<Multiset<Seq<u8>>> {
    items.drop_first().push(Multiset::empty())
}

pub open spec fn rotated_times(items: Seq<Multiset<Seq<u8>>>, k: nat) -> Seq<Multiset<Seq<u8>>>
    decreases k,
{
    if k == 0 {
        items
    } else {
        rotated(rotated_times(items, (k - 1) as nat))
    }
}

/// The time a freshly added bucket is valid until, rotating at `now`.
pub open spec fn next_valid_until(now: u64, window: nat, buckets: nat) -> int {
    now + window * (buckets + 1)
}

impl View for MultiCuckoo {
    type V = MultiView;

    closed spec fn view(&self) -> MultiView {
        MultiView {
            buckets: self.buckets as nat,
            window: self.window as nat,
            items: self.filters@.map_values(|t: TimeBoundedCuckoo| filter_items(t.filter)),
            valid_until: self.filters@.map_values(|t: TimeBoundedCuckoo| t.valid_until),
        }
    }
}

impl MultiCuckoo {
    /// `buckets` empty sub-filters, the i-th (from 1) valid until
    /// `now + window * i`.
    pub fn new(buckets: usize, window: u64, now: u64) -> (r: MultiCuckoo)
        requires
            buckets > 0,
            now + window * (buckets + 1) <= u64::MAX,
        ensures
            r@.wf(),
            r@.buckets == buckets,
            r@.window == window,
            forall|i: int| 0 <= i < buckets ==> (#[trigger] r@.items[i]) =~= Multiset::empty(),
            forall|i: int| 0 <= i < buckets ==> #[trigger] r@.valid_until[i] == now + window * (i + 1),
    {
        let mut filters: Vec<TimeBoundedCuckoo> = Vec::new();
        let mut i: usize = 0;
        while i < buckets
            invariant
                i <= buckets,
                now + window * (buckets + 1) <= u64::MAX,
                filters@.len() == i,
                forall|k: int| 0 <= k < i ==> filter_items((#[trigger] filters@[k]).filter) =~= Multiset::empty(),
                forall|k: int| 0 <= k < i ==> (#[trigger] filters@[k]).valid_until == now + window * (k + 1),
            decreases buckets - i,
        {
            proof {
                assert(window * (i + 1) <= window * (buckets + 1)) by (nonlinear_arith)
                    requires i < buckets;
            }
            let until = now + window * ((i + 1) as u64);
            filters.push(TimeBoundedCuckoo { filter: filter_new(), valid_until: until });
            i = i + 1;
        }
        MultiCuckoo { buckets, window, filters }
    }

    /// The number of entries of the oldest sub-filter.
    pub fn len(&self) -> (r: usize)
        requires
            self@.wf(),
        ensures
            r == self@.items[0].len(),
    {
        filter_len(&self.filters[0].filter)
    }

    /// Whether the oldest sub-filter reports `data`; true whenever it holds it.
    pub fn contains(&self, data: &[u8]) -> (r: bool)
        requires
            self@.wf(),
        ensures
            self@.items[0].count(data@) > 0 ==> r,
    {
        filter_contains(&self.filters[0].filter, data)
    }

    /// Inserts `data` into every sub-filter, stopping at the first that has no
    /// room; that one and the later ones keep their size.
    pub fn add(&mut self, data: &[u8]) -> (r: Result<(), cuckoofilter::CuckooError>)
        requires
            old(self)@.wf(),
        ensures
            final(self)@.wf(),
            final(self)@.buckets == old(self)@.buckets,
            final(self)@.window == old(self)@.window,
            final(self)@.valid_until == old(self)@.valid_until,
            r is Ok ==> forall|i: int| 0 <= i < old(self)@.buckets ==> (#[trigger] final(self)@.items[i]) == old(self)@.items[i].insert(data@),
            forall|i: int| 0 <= i < old(self)@.buckets ==> (#[trigger] final(self)@.items[i]) == old(self)@.items[i].insert(data@) || final(self)@.items[i].len() == old(self)@.items[i].len(),
    {
        let ghost old_items = self@.items;
        let mut i: usize = 0;
        while i < self.filters.len()
            invariant
                self@.wf(),
                self@.buckets == old(self)@.buckets,
                self@.window == old(self)@.window,
                self@.valid_until == old(self)@.valid_until,
                old_items == old(self)@.items,
                i <= self@.buckets,
                self.filters@.len() == self@.buckets,
                forall|k: int| 0 <= k < i ==> (#[trigger] self@.items[k]) == old_items[k].insert(data@),
                forall|k: int| i <= k < self@.buckets ==> (#[trigger] self@.items[k]) == old_items[k],
            decreases self.filters@.len() - i,
        {
            let ghost before = self.filters@;
            let ghost before_items = self@.items;
            let mut t = self.filters.remove(i);
            proof {
                assert(t == before[i as int]);
                assert(filter_items(t.filter) == before_items[i as int]);
            }
            let res = filter_add(&mut t.filter, data);
            let ghost tf = filter_items(t.filter);
            let ghost tv = t.valid_until;
            proof {
                assert(tv == before[i as int].valid_until);
            }
            self.filters.insert(i, t);
            proof {
                assert(self.filters@ =~= before.update(i as int, t));
                assert(self@.items[i as int] == tf);
                assert forall|k: int| 0 <= k < self@.buckets && k != i implies (#[trigger] self@.items[k]) == before_items[k] by {
                    assert(self.filters@[k] == before[k]);
                }
                assert(self@.valid_until =~= old(self)@.valid_until);
            }
            match res {
                Ok(()) => {},
                Err(e) => {
                    proof {
                        assert forall|k: int| 0 <= k < old(self)@.buckets implies (#[trigger] self@.items[k]) == old(self)@.items[k].insert(data@) || self@.items[k].len() == old(self)@.items[k].len() by {
                            if k > i {
                                assert(self@.items[k] == before_items[k]);
                            }
                        }
                    }
                    return Err(e);
                },
            }
            i = i + 1;
        }
        Ok(())
    }

    /// Rotates when the oldest sub-filter has expired at `now`: it leaves, and
    /// an empty one valid until `now + window * (buckets + 1)` joins.
    pub fn rotate(&mut self, now: u64)
        requires
            old(self)@.wf(),
            now + old(self)@.window * (old(self)@.buckets + 1) <= u64::MAX,
        ensures
            final(self)@.wf(),
            final(self)@.buckets == old(self)@.buckets,
            final(self)@.window == old(self)@.window,
            old(self)@.valid_until[0] <= now ==> final(self)@.items == rotated(old(self)@.items)
                && final(self)@.valid_until == old(self)@.valid_until.drop_first().push(
                next_valid_until(now, old(self)@.window, old(self)@.buckets) as u64),
            old(self)@.valid_until[0] > now ==> final(self)@ == old(self)@,
    {
        if self.filters[0].valid_until <= now {
            self.filters.remove(0);
            proof {
                let w = self.window as int;
                let bk = self.buckets as int;
                assert(w * bk + w == w * (bk + 1)) by (nonlinear_arith);
                assert(0 <= w * bk) by (nonlinear_arith)
                    requires 0 <= w, 0 <= bk;
            }
            let until = now + (self.window * (self.buckets as u64) + self.window);
            self.filters.push(TimeBoundedCuckoo { filter: filter_new(), valid_until: until });
            proof {
                assert(self@.items =~= rotated(old(self)@.items));
                assert(self@.valid_until =~= old(self)@.valid_until.drop_first().push(
                    next_valid_until(now, old(self)@.window, old(self)@.buckets) as u64));
            }
        }
    }
}

/// Whether a limiter lets an identity through: the oldest sub-filter reports it,
/// or holds no more than the limit.
pub open spec fn admits_identity(contained: bool, oldest_len: nat, limit: nat) -> bool {
    contained || oldest_len <= limit
}

/// Configuration of a cardinality limiter.
pub struct CardinalityConfig {
    pub size_limit: usize,
    pub rotate_after_seconds: u64,
    pub buckets: usize,
}

/// A limiter on the number of distinct metric identities seen in a rolling window.
pub struct Cardinality {
    filter: MultiCuckoo,
    limit: usize,
    flagged_metrics: u64,
}

/// What a limiter is, for contracts.
pub struct CardinalityView {
    pub filter: MultiView,
    pub limit: nat,
    pub flagged_metrics: u64,
}

impl View for Cardinality {
    type V = CardinalityView;

    closed spec fn view(&self) -> CardinalityView {
        CardinalityView {
            filter: self.filter@,
            limit: self.limit as nat,
            flagged_metrics: self.flagged_metrics,
        }
    }
}

impl Cardinality {
    /// A limiter with `buckets` sub-filters rotating every `rotate_after_seconds`,
    /// started at `now` (ms).
    pub fn new(from_config: &CardinalityConfig, now: u64) -> (r: Cardinality)
        requires
            from_config.buckets > 0,
            now + from_config.rotate_after_seconds * 1000 * (from_config.buckets + 1) <= u64::MAX,
        ensures
            r@.filter.wf(),
            r@.filter.buckets == from_config.buckets,
            r@.filter.window == from_config.rotate_after_seconds * 1000,
            r@.limit == from_config.size_limit,
            r@.flagged_metrics == 0,
            forall|i: int| 0 <= i < from_config.buckets ==> (#[trigger] r@.filter.items[i]) =~= Multiset::empty(),
            forall|i: int| 0 <= i < from_config.buckets ==> #[trigger] r@.filter.valid_until[i] == now + r@.filter.window * (i + 1),
    {
        proof {
            assert(from_config.rotate_after_seconds * 1000 <= from_config.rotate_after_seconds * 1000 * (from_config.buckets + 1)) by (nonlinear_arith)
                requires from_config.buckets > 0;
        }
        let window = from_config.rotate_after_seconds * 1000;
        Cardinality {
            filter: MultiCuckoo::new(from_config.buckets, window, now),
            limit: from_config.size_limit,
            flagged_metrics: 0,
        }
    }

    /// Offers a line to the limiter. A line whose identity the oldest sub-filter
    /// reports, or any line while that sub-filter holds no more than the limit,
    /// is admitted and its identity inserted into every sub-filter; any other
    /// is rejected and counted.
    pub fn provide_statsd(&mut self, sample: &Pdu) -> (r: bool)
        requires
            old(self)@.filter.wf(),
            sample@.wf(),
        ensures
            final(self)@.filter.wf(),
            final(self)@.limit == old(self)@.limit,
            final(self)@.filter.buckets == old(self)@.filter.buckets,
            final(self)@.filter.window == old(self)@.filter.window,
            final(self)@.filter.valid_until == old(self)@.filter.valid_until,
            exists|c: bool| (old(self)@.filter.items[0].count(identity(sample@)) > 0 ==> c)
                && r == admits_identity(c, old(self)@.filter.items[0].len(), old(self)@.limit),
            !r ==> final(self)@ == (CardinalityView { flagged_metrics: old(self)@.flagged_metrics.wrapping_add(1), ..old(self)@ }),
            r ==> final(self)@.flagged_metrics == old(self)@.flagged_metrics,
            r ==> forall|i: int| 0 <= i < old(self)@.filter.buckets ==> (#[trigger] final(self)@.filter.items[i]) == old(self)@.filter.items[i].insert(identity(sample@)) || final(self)@.filter.items[i].len() == old(self)@.filter.items[i].len(),
    {
        let id = pdu_identity(sample);
        let contains = self.filter.contains(id.as_slice());
        self.provide_with_membership(sample, contains)
    }

    /// The decision of `provide_statsd` once the oldest sub-filter has said
    /// whether it reports the line's identity (`contained`).
    pub fn provide_with_membership(&mut self, sample: &Pdu, contained: bool) -> (r: bool)
        requires
            old(self)@.filter.wf(),
            sample@.wf(),
        ensures
            r == admits_identity(contained, old(self)@.filter.items[0].len(), old(self)@.limit),
            final(self)@.filter.wf(),
            final(self)@.limit == old(self)@.limit,
            final(self)@.filter.buckets == old(self)@.filter.buckets,
            final(self)@.filter.window == old(self)@.filter.window,
            final(self)@.filter.valid_until == old(self)@.filter.valid_until,
            !r ==> final(self)@ == (CardinalityView { flagged_metrics: old(self)@.flagged_metrics.wrapping_add(1), ..old(self)@ }),
            r ==> final(self)@.flagged_metrics == old(self)@.flagged_metrics,
            r ==> forall|i: int| 0 <= i < old(self)@.filter.buckets ==> (#[trigger] final(self)@.filter.items[i]) == old(self)@.filter.items[i].insert(identity(sample@)) || final(self)@.filter.items[i].len() == old(self)@.filter.items[i].len(),
    {
        let len = self.filter.len();
        if !contained && len > self.limit {
            self.flagged_metrics = self.flagged_metrics.wrapping_add(1);
            return false;
        }
        let id = pdu_identity(sample);
        let _ = self.filter.add(id.as_slice());
        true
    }

    /// The number of lines rejected so far.
    pub fn flagged_metrics(&self) -> (r: u64)
        ensures
            r == self@.flagged_metrics,
    {
        self.flagged_metrics
    }

    /// Rotates the sub-filters when the oldest has expired at `now` (ms).
    pub fn tick(&mut self, now: u64)
        requires
            old(self)@.filter.wf(),
            now + old(self)@.filter.window * (old(self)@.filter.buckets + 1) <= u64::MAX,
        ensures
            final(self)@.filter.wf(),
            final(self)@.limit == old(self)@.limit,
            final(self)@.flagged_metrics == old(self)@.flagged_metrics,
            final(self)@.filter.buckets == old(self)@.filter.buckets,
            final(self)@.filter.window == old(self)@.filter.window,
            old(self)@.filter.valid_until[0] <= now ==> final(self)@.filter.items == rotated(old(self)@.filter.items),
            old(self)@.filter.valid_until[0] > now ==> final(self)@ == old(self)@,
    {
        self.filter.rotate(now)
    }
}

/// An identity stored in every bucket stays in the oldest bucket through any
/// number of rotations smaller than the number of buckets, so the limiter keeps
/// reporting it.
pub proof fn lemma_rolling_window(items: Seq<Multiset<Seq<u8>>>, x: Seq<u8>, k: nat)
    requires
        forall|i: int| 0 <= i < items.len() ==> (#[trigger] items[i]).count(x) > 0,
        k < items.len(),
    ensures
        rotated_times(items, k).len() == items.len(),
        forall|i: int| 0 <= i < items.len() - k ==> (#[trigger] rotated_times(items, k)[i]) == items[i + k],
        rotated_times(items, k)[0].count(x) > 0,
    decreases k,
{
    if k > 0 {
        lemma_rolling_window(items, x, (k - 1) as nat);
        let prev = rotated_times(items, (k - 1) as nat);
        assert forall|i: int| 0 <= i < items.len() - k implies (#[trigger] rotated_times(items, k)[i]) == items[i + k] by {
            assert(rotated_times(items, k)[i] == prev[i + 1]);
        }
        assert(rotated_times(items, k)[0] == items[k as int]);
    }
}

/// Once the oldest bucket holds more than the limit, an identity that it does
/// not report is rejected.
pub proof fn lemma_admission_closed(contained: bool, oldest_len: nat, limit: nat)
    requires
        oldest_len > limit,
        !contained,
    ensures
        !admits_identity(contained, oldest_len, limit),
{
}

} // verus!
