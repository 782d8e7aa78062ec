use vstd::prelude::*;
use vstd::utf8::encode_utf8;
use crate::bytes_util::append_bytes;
use crate::pdu::{Pdu, PduView};
use crate::shard::{Ring, placement};

verus! {

#[verifier::external_type_specification]
#[verifier::external_body]
pub struct ExRegexSet(regex::bytes::RegexSet);

#[verifier::external_type_specification]
#[verifier::external_body]
pub struct ExRegexError(regex::Error);

/// Whether a set of regular expressions compiles.
pub uninterp spec fn regex_set_compiles(patterns: Seq<Seq<char>>) -> bool;

/// Whether any regular expression of a set matches somewhere in `haystack`.
pub uninterp spec fn regex_set_is_match(patterns: Seq<Seq<char>>, haystack: Seq<u8>) -> bool;

/// The characters of each string.
pub open spec fn string_views(s: Seq<String>) -> Seq<Seq<char>> {
    s.map_values(|x: String| x@)
}

/// `s` holds the endpoint `e`.
pub open spec fn has_endpoint(s: Seq<String>, e: Seq<char>) -> bool {
    exists|i: int| 0 <= i < s.len() && (#[trigger] s[i])@ == e
}

/// The first `n` items of `s` hold the endpoint `e`.
pub open spec fn has_endpoint_before(s: Seq<String>, n: int, e: Seq<char>) -> bool {
    exists|i: int| 0 <= i < n && (#[trigger] s[i])@ == e
}

/// No endpoint occurs twice in `s`.
pub open spec fn endpoints_distinct(s: Seq<String>) -> bool {
    forall|i: int, j: int| 0 <= i < s.len() && 0 <= j < s.len() && i != j ==> (#[trigger] s[i])@
        != (#[trigger] s[j])@
}

/// A compiled input filter: a set of regular expressions, any of which admits a name.
pub struct InputFilter {
    set: regex::bytes::RegexSet,
    patterns: Vec<String>,
}

impl View for InputFilter {
    type V = Seq<Seq<char>>;

    closed spec fn view(&self) -> Seq<Seq<char>> {
        string_views(self.patterns@)
    }
}

/// Relies on regex::bytes::RegexSet::new: compiles the patterns into one set,
/// or fails, depending on the patterns alone.
#[verifier::external_body]
fn compile_filter(patterns: Vec<String>) -> (r: Result<InputFilter, regex::Error>)
    ensures
        r is Ok <==> regex_set_compiles(string_views(patterns@)),
        r is Ok ==> r->Ok_0@ == string_views(patterns@),
{
    match regex::bytes::RegexSet::new(&patterns) {
        Ok(set) => Ok(InputFilter { set, patterns }),
        Err(e) => Err(e),
    }
}

/// Relies on regex::bytes::RegexSet::is_match: whether any pattern of the set
/// matches the haystack.
#[verifier::external_body]
fn filter_is_match(f: &InputFilter, haystack: &[u8]) -> (r: bool)
    ensures
        r == regex_set_is_match(f@, haystack@),
{
    f.set.is_match(haystack)
}

/// The configuration of one duplication target.
pub struct StatsdDuplicateTo {
    pub shard_map: Vec<String>,
    pub prefix: Option<String>,
    pub suffix: Option<String>,
    pub input_filter: Option<String>,
    pub input_blacklist: Option<String>,
}

impl StatsdDuplicateTo {
    /// A target that forwards everything, unchanged, to `shard_map`.
    pub fn from_shards(shard_map: Vec<String>) -> (r: StatsdDuplicateTo)
        ensures
            r.shard_map@ == shard_map@,
            r.prefix is None,
            r.suffix is None,
            r.input_filter is None,
            r.input_blacklist is None,
    {
        StatsdDuplicateTo {
            shard_map,
            prefix: None,
            suffix: None,
            input_filter: None,
            input_blacklist: None,
        }
    }
}

/// The patterns that a target's input filter is built from: the blacklist
/// pattern, then the filter pattern, those that are configured.
pub open spec fn filter_patterns(conf: StatsdDuplicateTo) -> Seq<Seq<char>> {
    let b = if conf.input_blacklist is Some {
        seq![conf.input_blacklist->0@]
    } else {
        Seq::empty()
    };
    if conf.input_filter is Some {
        b.push(conf.input_filter->0@)
    } else {
        b
    }
}

/// Why a target cannot be built.
#[derive(Debug, PartialEq, Eq, Structural)]
pub enum BackendError {
    /// The input filter patterns do not compile.
    BadInputFilter,
}

/// What a target is, for contracts.
pub struct BackendView {
    pub endpoints: Seq<Seq<char>>,
    pub ring: Seq<String>,
    pub prefix: Option<Seq<u8>>,
    pub suffix: Option<Seq<u8>>,
    pub filter: Option<Seq<Seq<char>>>,
    pub warnings: u64,
}

/// Whether a target's input filter lets a metric name through.
pub open spec fn admits(v: BackendView, name: Seq<u8>) -> bool {
    v.filter is None || regex_set_is_match(v.filter->0, name)
}

/// The bytes that a target forwards for a line: with a prefix or a suffix
/// configured, the name is spliced between them.
pub open spec fn rewrite(v: BackendView, p: PduView) -> Seq<u8> {
    if v.prefix is Some || v.suffix is Some {
        let pre = if v.prefix is Some { v.prefix->0 } else { Seq::empty() };
        let suf = if v.suffix is Some { v.suffix->0 } else { Seq::empty() };
        pre + p.name() + suf + p.after_name()
    } else {
        p.bytes
    }
}

/// Where a target sends a line its filter has let through: the slot, its
/// endpoint and the bytes sent; nothing when the ring is empty.
pub open spec fn route_unfiltered(v: BackendView, p: PduView) -> Option<(int, Seq<char>, Seq<u8>)> {
    if v.endpoints.len() == 0 {
        None
    } else {
        let slot = placement(p.name(), v.endpoints.len());
        Some((slot, v.endpoints[slot], rewrite(v, p)))
    }
}

/// Where a target sends a line: nothing when its filter refuses the name,
/// else as `route_unfiltered`.
pub open spec fn route_of(v: BackendView, p: PduView) -> Option<(int, Seq<char>, Seq<u8>)> {
    if !admits(v, p.name()) {
        None
    } else {
        route_unfiltered(v, p)
    }
}

/// The longest affix a line may get so that the result fits in memory.
pub open spec fn fits(v: BackendView, p: PduView) -> bool {
    let pre = if v.prefix is Some { v.prefix->0.len() } else { 0 };
    let suf = if v.suffix is Some { v.suffix->0.len() } else { 0 };
    p.bytes.len() + pre + suf <= usize::MAX
}

/// One line handed to one endpoint's sender.
pub struct Delivery {
    pub slot: usize,
    pub endpoint: String,
    pub pdu: Pdu,
}

pub open spec fn delivery_view(d: Option<Delivery>) -> Option<(int, Seq<char>, Seq<u8>)> {
    match d {
        Some(d) => Some((d.slot as int, d.endpoint@, d.pdu@.bytes)),
        None => None,
    }
}

/// What a reload changes: the endpoints whose senders must be started and
/// those whose senders are no longer referenced.
pub struct ReloadPlan {
    pub start: Vec<String>,
    pub retire: Vec<String>,
}

/// One duplication target: a ring of endpoints, optional affixes and an
/// optional input filter, with a count of lines dropped on full queues.
pub struct StatsdBackend {
    ring: Ring<String>,
    prefix: Option<Vec<u8>>,
    suffix: Option<Vec<u8>>,
    input_filter: Option<InputFilter>,
    warning_log: u64,
}

impl View for StatsdBackend {
    type V = BackendView;

    closed spec fn view(&self) -> BackendView {
        BackendView {
            endpoints: string_views(self.ring@),
            ring: self.ring@,
            prefix: match self.prefix {
                Some(p) => Some(p@),
                None => None,
            },
            suffix: match self.suffix {
                Some(s) => Some(s@),
                None => None,
            },
            filter: match self.input_filter {
                Some(f) => Some(f@),
                None => None,
            },
            warnings: self.warning_log,
        }
    }
}

fn string_bytes(s: &Option<String>) -> (r: Option<Vec<u8>>)
    ensures
        r is Some <==> s is Some,
        r is Some ==> r->0@ == encode_utf8(s->0@),
{
    match s {
        Some(s) => {
            let mut v: Vec<u8> = Vec::new();
            append_bytes(&mut v, s.as_str().as_bytes());
            Some(v)
        },
        None => None,
    }
}

/// Whether `v` holds an endpoint equal to `e`.
pub fn contains_endpoint(v: &Vec<String>, e: &String) -> (r: bool)
    ensures
        r == has_endpoint(v@, e@),
{
    let mut i: usize = 0;
    while i < v.len()
        invariant
            i <= v@.len(),
            forall|j: int| 0 <= j < i ==> (#[trigger] v@[j])@ != e@,
        decreases v@.len() - i,
    {
        if v[i] == *e {
            return true;
        }
        i = i + 1;
    }
    false
}

/// The endpoints of `a` that `b` does not hold, each once, in order of first
/// occurrence in `a`.
pub fn endpoint_difference(a: &Vec<String>, b: &Vec<String>) -> (r: Vec<String>)
    ensures
        forall|e: Seq<char>| has_endpoint(r@, e) <==> has_endpoint(a@, e) && !has_endpoint(b@, e),
        endpoints_distinct(r@),
{
    let mut r: Vec<String> = Vec::new();
    let mut i: usize = 0;
    while i < a.len()
        invariant
            i <= a@.len(),
            forall|e: Seq<char>| has_endpoint(r@, e) <==> has_endpoint_before(a@, i as int, e) && !has_endpoint(b@, e),
            endpoints_distinct(r@),
        decreases a@.len() - i,
    {
        let e = &a[i];
        let ghost old_r = r@;
        proof {
            assert forall|x: Seq<char>| has_endpoint_before(a@, i + 1, x) <==> has_endpoint_before(a@, i as int, x) || x == a@[i as int]@ by {
                if x == a@[i as int]@ {
                    assert(a@[i as int]@ == x);
                }
            }
        }
        let in_b = contains_endpoint(b, e);
        let in_r = contains_endpoint(&r, e);
        if !in_b && !in_r {
            r.push(e.clone());
            proof {
                assert forall|x: Seq<char>| has_endpoint(r@, x) <==> has_endpoint(old_r, x) || x == e@ by {
                    if has_endpoint(r@, x) {
                        let k = choose|k: int| 0 <= k < r@.len() && (#[trigger] r@[k])@ == x;
                        if k < old_r.len() {
                            assert(old_r[k] == r@[k]);
                        }
                    }
                    if has_endpoint(old_r, x) {
                        let k = choose|k: int| 0 <= k < old_r.len() && (#[trigger] old_r[k])@ == x;
                        assert(r@[k] == old_r[k]);
                    }
                    if x == e@ {
                        assert(r@[old_r.len() as int] == *e);
                    }
                }
            }
        }
        proof {
            assert forall|x: Seq<char>| has_endpoint(r@, x) <==> has_endpoint_before(a@, i + 1, x) && !has_endpoint(b@, x) by {
                assert(has_endpoint(old_r, x) <==> has_endpoint_before(a@, i as int, x) && !has_endpoint(b@, x));
                if !in_b && !in_r {
                    assert(has_endpoint(r@, x) <==> has_endpoint(old_r, x) || x == e@);
                } else {
                    assert(r@ == old_r);
                }
            }
        }
        i = i + 1;
    }
    proof {
        assert forall|x: Seq<char>| has_endpoint_before(a@, a@.len() as int, x) <==> has_endpoint(a@, x) by {}
    }
    r
}

/// The endpoints that a reload must start: in the new map and not in the old ring.
pub open spec fn reload_start(old_ring: Seq<String>, new_map: Seq<String>, e: Seq<char>) -> bool {
    has_endpoint(new_map, e) && !has_endpoint(old_ring, e)
}

/// The endpoints that a reload retires: in the old ring and not in the new map.
pub open spec fn reload_retire(old_ring: Seq<String>, new_map: Seq<String>, e: Seq<char>) -> bool {
    has_endpoint(old_ring, e) && !has_endpoint(new_map, e)
}

impl StatsdBackend {
    /// Builds a target from its configuration; fails when the input filter
    /// patterns do not compile.
    pub fn new(conf: &StatsdDuplicateTo) -> (r: Result<StatsdBackend, BackendError>)
        ensures
            r is Err <==> filter_patterns(*conf).len() > 0 && !regex_set_compiles(
                filter_patterns(*conf),
            ),
            r is Err ==> r == Err::<StatsdBackend, BackendError>(BackendError::BadInputFilter),
            r is Ok ==> ({
                let v = r->Ok_0@;
                &&& v.ring == conf.shard_map@
                &&& v.endpoints == string_views(conf.shard_map@)
                &&& v.prefix == (if conf.prefix is Some { Some(encode_utf8(conf.prefix->0@)) } else { None })
                &&& v.suffix == (if conf.suffix is Some { Some(encode_utf8(conf.suffix->0@)) } else { None })
                &&& v.filter == (if filter_patterns(*conf).len() > 0 { Some(filter_patterns(*conf)) } else { None })
                &&& v.warnings == 0
            }),
    {
        let mut filters: Vec<String> = Vec::new();
        match &conf.input_blacklist {
            Some(b) => filters.push(b.clone()),
            None => {},
        }
        match &conf.input_filter {
            Some(f) => filters.push(f.clone()),
            None => {},
        }
        proof {
            assert(string_views(filters@) =~= filter_patterns(*conf));
        }
        let input_filter = if filters.len() > 0 {
            match compile_filter(filters) {
                Ok(f) => Some(f),
                Err(_) => return Err(BackendError::BadInputFilter),
            }
        } else {
            None
        };
        let mut ring: Ring<String> = Ring::new();
        let mut i: usize = 0;
        while i < conf.shard_map.len()
            invariant
                i <= conf.shard_map@.len(),
                ring@ == conf.shard_map@.subrange(0, i as int),
            decreases conf.shard_map@.len() - i,
        {
            ring.push(conf.shard_map[i].clone());
            i = i + 1;
            proof {
                assert(ring@ =~= conf.shard_map@.subrange(0, i as int));
            }
        }
        proof {
            assert(ring@ =~= conf.shard_map@);
        }
        let r = StatsdBackend {
            ring,
            prefix: string_bytes(&conf.prefix),
            suffix: string_bytes(&conf.suffix),
            input_filter,
            warning_log: 0,
        };
        Ok(r)
    }

    /// The endpoints of the ring, each once: one sender per endpoint serves
    /// every slot that names it.
    pub fn distinct_endpoints(&self) -> (r: Vec<String>)
        ensures
            forall|e: Seq<char>| has_endpoint(r@, e) <==> has_endpoint(self@.ring, e),
            endpoints_distinct(r@),
    {
        let none: Vec<String> = Vec::new();
        endpoint_difference(self.ring.as_vec(), &none)
    }

    /// Whether a line with this target's affixes still fits in memory.
    pub fn fits_affixes(&self, pdu: &Pdu) -> (r: bool)
        ensures
            r == fits(self@, pdu@),
    {
        let pre: usize = match &self.prefix {
            Some(p) => p.len(),
            None => 0,
        };
        let suf: usize = match &self.suffix {
            Some(s) => s.len(),
            None => 0,
        };
        let n = pdu.as_bytes().len();
        n <= usize::MAX - pre && n + pre <= usize::MAX - suf
    }

    /// Where this target sends a line, and the line it sends there.
    pub fn route_statsd_pdu(&self, pdu: &Pdu) -> (r: Option<Delivery>)
        requires
            pdu@.wf(),
            fits(self@, pdu@),
        ensures
            delivery_view(r) == route_of(self@, pdu@),
            r is Some ==> r->0.pdu@.wf(),
    {
        match &self.input_filter {
            Some(f) => {
                if !filter_is_match(f, pdu.name()) {
                    return None;
                }
            },
            None => {},
        }
        self.route_admitted(pdu)
    }

    /// Where this target sends a line that its input filter has let through.
    pub fn route_admitted(&self, pdu: &Pdu) -> (r: Option<Delivery>)
        requires
            pdu@.wf(),
            fits(self@, pdu@),
        ensures
            delivery_view(r) == route_unfiltered(self@, pdu@),
            r is Some ==> r->0.pdu@.wf(),
    {
        if self.ring.len() == 0 {
            return None;
        }
        let ghost n = self.ring@.len();
        let endpoint = self.ring.pick(pdu).clone();
        let slot = self.ring.slot_of(pdu);
        let out = if self.prefix.is_some() || self.suffix.is_some() {
            let empty: Vec<u8> = Vec::new();
            let pre = match &self.prefix {
                Some(p) => p.as_slice(),
                None => empty.as_slice(),
            };
            let suf = match &self.suffix {
                Some(s) => s.as_slice(),
                None => empty.as_slice(),
            };
            pdu.with_prefix_suffix(pre, suf)
        } else {
            pdu.copy()
        };
        Some(Delivery { slot, endpoint, pdu: out })
    }

    /// Counts a line dropped on a full queue; true when this drop is one to
    /// log (the first, and then one in every thousand).
    pub fn note_queue_full(&mut self) -> (log: bool)
        ensures
            log == (old(self)@.warnings % 1000 == 0),
            final(self)@ == (BackendView { warnings: old(self)@.warnings.wrapping_add(1), ..old(self)@ }),
    {
        let count = self.warning_log;
        self.warning_log = count.wrapping_add(1);
        count % 1000 == 0
    }

    /// Replaces the ring with `shard_map`, keeping affixes and filter; says
    /// which endpoints need a new sender and which senders are left unused.
    /// An endpoint in both the old ring and the new map is in neither list, so
    /// its sender and queue carry over.
    pub fn reload_backends(&mut self, shard_map: Vec<String>) -> (plan: ReloadPlan)
        ensures
            final(self)@ == (BackendView {
                endpoints: string_views(shard_map@),
                ring: shard_map@,
                ..old(self)@
            }),
            forall|e: Seq<char>| has_endpoint(plan.start@, e) <==> reload_start(old(self)@.ring, shard_map@, e),
            forall|e: Seq<char>| has_endpoint(plan.retire@, e) <==> reload_retire(old(self)@.ring, shard_map@, e),
            endpoints_distinct(plan.start@),
            endpoints_distinct(plan.retire@),
    {
        let start = endpoint_difference(&shard_map, self.ring.as_vec());
        let retire = endpoint_difference(self.ring.as_vec(), &shard_map);
        self.ring = Ring::from_vec(shard_map);
        ReloadPlan { start, retire }
    }
}

/// An endpoint that both the old ring and the new map name is neither started
/// nor retired by a reload: its sender is reused as it is; and every endpoint
/// of the new map is either started or was already served.
pub proof fn lemma_reload_reuse(old_ring: Seq<String>, new_map: Seq<String>, e: Seq<char>)
    ensures
        has_endpoint(old_ring, e) && has_endpoint(new_map, e) ==> !reload_start(old_ring, new_map, e)
            && !reload_retire(old_ring, new_map, e),
        has_endpoint(new_map, e) ==> reload_start(old_ring, new_map, e) || (has_endpoint(old_ring, e)
            && !reload_retire(old_ring, new_map, e)),
{
}

/// The set of duplication targets; every line is offered to each of them.
pub struct Backends {
    statsd: Vec<StatsdBackend>,
}

impl View for Backends {
    type V = Seq<BackendView>;

    closed spec fn view(&self) -> Seq<BackendView> {
        self.statsd@.map_values(|b: StatsdBackend| b@)
    }
}

impl Backends {
    /// No targets.
    pub fn new() -> (r: Backends)
        ensures
            r@ == Seq::<BackendView>::empty(),
    {
        Backends { statsd: Vec::new() }
    }

    /// Adds a target built from `c`; on error nothing is added.
    pub fn add_statsd_backend(&mut self, c: &StatsdDuplicateTo) -> (r: Result<(), BackendError>)
        ensures
            r is Err <==> filter_patterns(*c).len() > 0 && !regex_set_compiles(filter_patterns(*c)),
            r is Err ==> final(self)@ == old(self)@,
            r is Ok ==> final(self)@.len() == old(self)@.len() + 1 && final(self)@.subrange(0, old(self)@.len() as int) == old(self)@
                && final(self)@.last().ring == c.shard_map@
                && final(self)@.last().warnings == 0,
    {
        match StatsdBackend::new(c) {
            Ok(b) => {
                self.statsd.push(b);
                proof {
                    assert(self@.subrange(0, old(self)@.len() as int) =~= old(self)@);
                }
                Ok(())
            },
            Err(e) => Err(e),
        }
    }

    /// The number of targets.
    pub fn len(&self) -> (r: usize)
        ensures
            r == self@.len(),
    {
        self.statsd.len()
    }

    /// Whether every target can take a line: it is well formed and fits in
    /// memory with each target's affixes.
    pub fn accepts(&self, pdu: &Pdu) -> (r: bool)
        requires
            pdu@.wf(),
        ensures
            r == forall|i: int| 0 <= i < self@.len() ==> fits(#[trigger] self@[i], pdu@),
    {
        let mut i: usize = 0;
        while i < self.statsd.len()
            invariant
                i <= self@.len(),
                self@.len() == self.statsd@.len(),
                forall|k: int| 0 <= k < i ==> fits(#[trigger] self@[k], pdu@),
            decreases self@.len() - i,
        {
            assert(self@[i as int] == self.statsd@[i as int]@);
            if !self.statsd[i].fits_affixes(pdu) {
                return false;
            }
            i = i + 1;
        }
        true
    }

    /// Where each target sends a line, in the order of the targets.
    pub fn provide_statsd_pdu(&self, pdu: &Pdu) -> (r: Vec<Option<Delivery>>)
        requires
            pdu@.wf(),
            forall|i: int| 0 <= i < self@.len() ==> fits(#[trigger] self@[i], pdu@),
        ensures
            r@.len() == self@.len(),
            forall|i: int| 0 <= i < r@.len() ==> delivery_view(#[trigger] r@[i]) == route_of(self@[i], pdu@),
    {
        let mut r: Vec<Option<Delivery>> = Vec::new();
        let mut i: usize = 0;
        while i < self.statsd.len()
            invariant
                i <= self@.len(),
                self@.len() == self.statsd@.len(),
                pdu@.wf(),
                forall|k: int| 0 <= k < self@.len() ==> fits(#[trigger] self@[k], pdu@),
                r@.len() == i,
                forall|k: int| 0 <= k < i ==> delivery_view(#[trigger] r@[k]) == route_of(self@[k], pdu@),
            decreases self@.len() - i,
        {
            assert(self@[i as int] == self.statsd@[i as int]@);
            r.push(self.statsd[i].route_statsd_pdu(pdu));
            i = i + 1;
        }
        r
    }

    /// Counts a drop on a full queue of target `idx`; true when it is one to log.
    pub fn note_queue_full(&mut self, idx: usize) -> (log: bool)
        requires
            idx < old(self)@.len(),
        ensures
            log == (old(self)@[idx as int].warnings % 1000 == 0),
            final(self)@ == old(self)@.update(idx as int, BackendView { warnings: old(self)@[idx as int].warnings.wrapping_add(1), ..old(self)@[idx as int] }),
    {
        let mut b = self.statsd.remove(idx);
        let log = b.note_queue_full();
        self.statsd.insert(idx, b);
        proof {
            assert(self@ =~= old(self)@.update(idx as int, b@));
        }
        log
    }

    /// Replaces the ring of target `idx`; see `StatsdBackend::reload_backends`.
    pub fn reload_backends(&mut self, idx: usize, shard_map: Vec<String>) -> (plan: ReloadPlan)
        requires
            idx < old(self)@.len(),
        ensures
            final(self)@ == old(self)@.update(idx as int, BackendView {
                endpoints: string_views(shard_map@),
                ring: shard_map@,
                ..old(self)@[idx as int]
            }),
            forall|e: Seq<char>| has_endpoint(plan.start@, e) <==> reload_start(old(self)@[idx as int].ring, shard_map@, e),
            forall|e: Seq<char>| has_endpoint(plan.retire@, e) <==> reload_retire(old(self)@[idx as int].ring, shard_map@, e),
            endpoints_distinct(plan.start@),
            endpoints_distinct(plan.retire@),
    {
        let mut b = self.statsd.remove(idx);
        let plan = b.reload_backends(shard_map);
        self.statsd.insert(idx, b);
        proof {
            assert(self@ =~= old(self)@.update(idx as int, b@));
        }
        plan
    }

    /// The distinct endpoints of target `idx`.
    pub fn target_endpoints(&self, idx: usize) -> (r: Vec<String>)
        requires
            idx < self@.len(),
        ensures
            forall|e: Seq<char>| has_endpoint(r@, e) <==> has_endpoint(self@[idx as int].ring, e),
            endpoints_distinct(r@),
    {
        assert(self@[idx as int] == self.statsd@[idx as int]@);
        self.statsd[idx].distinct_endpoints()
    }
}

} // verus!
