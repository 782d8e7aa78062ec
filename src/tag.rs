use vstd::prelude::*;
use crate::bytes_util::{first_from, lemma_first_from, find_from, append_bytes};
use crate::pdu::{Pdu, PduView};

verus! {

pub const HASH: u8 = 35;
pub const COMMA: u8 = 44;
pub const DOT: u8 = 46;
pub const EQUALS: u8 = 61;
pub const UNDERSCORE: u8 = 95;

/// Where a line is sent after a processor.
#[derive(Clone, Copy, Debug, PartialEq, Eq, Structural)]
pub enum RouteType {
    Statsd,
    Processor,
}

/// One destination of a processor's output.
#[derive(Clone, Debug, PartialEq, Eq)]
pub struct Route {
    pub route_type: RouteType,
    pub route_to: String,
}

/// The marker put before each tag folded into a name.
pub open spec fn tag_marker() -> Seq<u8> {
    seq![DOT, UNDERSCORE, UNDERSCORE]
}

/// A tag list `k1:v1,k2:v2` as name parts: `,` starts a new part, `:` becomes `=`.
pub open spec fn tag_bytes(s: Seq<u8>) -> Seq<u8>
    decreases s.len(),
{
    if s.len() == 0 {
        Seq::empty()
    } else {
        let b = s.last();
        let m = if b == COMMA {
            tag_marker()
        } else if b == crate::pdu::COLON {
            seq![EQUALS]
        } else {
            seq![b]
        };
        tag_bytes(s.drop_last()) + m
    }
}

/// The offset of a line's `#` tag field, when a `|#` follows the type.
pub open spec fn tags_start(p: PduView) -> int {
    let t = first_from(p.bytes, HASH, p.type_end);
    if t > p.type_end && p.bytes[t - 1] == crate::pdu::PIPE {
        t
    } else {
        -1
    }
}

/// The end of the tag field that starts at `t`.
pub open spec fn tags_end(p: PduView, t: int) -> int {
    let e = first_from(p.bytes, crate::pdu::PIPE, t);
    if e == -1 {
        p.bytes.len() as int
    } else {
        e
    }
}

/// A line with its tags folded into the name: `name.__k1=v1.__k2=v2`, then
/// the value, type and the other fields; a line without tags is unchanged.
pub open spec fn inline_tags(p: PduView) -> Seq<u8> {
    let t = tags_start(p);
    if t == -1 {
        p.bytes
    } else {
        let e = tags_end(p, t);
        p.name() + tag_marker() + tag_bytes(p.bytes.subrange(t + 1, e))
            + p.bytes.subrange(p.name_end, t - 1) + p.bytes.subrange(e, p.bytes.len() as int)
    }
}

proof fn lemma_tag_bytes_len(s: Seq<u8>)
    ensures
        tag_bytes(s).len() <= 3 * s.len(),
    decreases s.len(),
{
    if s.len() > 0 {
        lemma_tag_bytes_len(s.drop_last());
    }
}

fn append_tag_bytes(out: &mut Vec<u8>, s: &[u8])
    ensures
        final(out)@ == old(out)@ + tag_bytes(s@),
{
    let mut i: usize = 0;
    while i < s.len()
        invariant
            i <= s@.len(),
            out@ == old(out)@ + tag_bytes(s@.subrange(0, i as int)),
        decreases s@.len() - i,
    {
        let b = s[i];
        let ghost before = out@;
        if b == COMMA {
            out.push(DOT);
            out.push(UNDERSCORE);
            out.push(UNDERSCORE);
        } else if b == crate::pdu::COLON {
            out.push(EQUALS);
        } else {
            out.push(b);
        }
        proof {
            let pre = s@.subrange(0, i + 1);
            assert(pre.drop_last() =~= s@.subrange(0, i as int));
            assert(pre.last() == b);
            assert(out@ =~= old(out)@ + tag_bytes(pre));
        }
        i = i + 1;
    }
    proof {
        assert(s@.subrange(0, s@.len() as int) =~= s@);
    }
}

/// A processor that folds each line's tags into its metric name.
pub struct Normalizer {
    route: Vec<Route>,
}

impl Normalizer {
    /// A normalizer sending its output to `route`.
    pub fn new(route: &[Route]) -> (r: Normalizer)
        ensures
            r.route_view() == route@,
    {
        let mut v: Vec<Route> = Vec::new();
        let mut i: usize = 0;
        while i < route.len()
            invariant
                i <= route@.len(),
                v@.len() == i,
                forall|k: int| 0 <= k < i ==> #[trigger] v@[k] == route@[k],
            decreases route@.len() - i,
        {
            let rt = &route[i];
            v.push(Route { route_type: rt.route_type, route_to: rt.route_to.clone() });
            i = i + 1;
        }
        proof {
            assert(v@ =~= route@);
        }
        Normalizer { route: v }
    }

    pub closed spec fn route_view(&self) -> Seq<Route> {
        self.route@
    }

    /// Where the output goes.
    pub fn route(&self) -> (r: &[Route])
        ensures
            r@ == self.route_view(),
    {
        self.route.as_slice()
    }

    /// The line with its tags folded into its name.
    pub fn provide_statsd(&self, sample: &Pdu) -> (r: Option<Pdu>)
        requires
            sample@.wf(),
            4 * sample@.bytes.len() <= usize::MAX,
        ensures
            r is Some,
            r->0@.wf(),
            r->0@.bytes == inline_tags(sample@),
    {
        Some(to_inline_tags(sample))
    }
}

/// Folds a line's tags into its name.
pub fn to_inline_tags(p: &Pdu) -> (r: Pdu)
    requires
        p@.wf(),
        4 * p@.bytes.len() <= usize::MAX,
    ensures
        r@.wf(),
        r@.bytes == inline_tags(p@),
{
    let bytes = p.as_bytes();
    let ghost v = p@;
    let n = bytes.len();
    let te = p.type_offset();
    proof {
        lemma_first_from(v.bytes, HASH, v.type_end);
    }
    let t = match find_from(HASH, bytes, te) {
        Some(t) => {
            if t > te && bytes[t - 1] == crate::pdu::PIPE {
                t
            } else {
                return p.copy();
            }
        },
        None => return p.copy(),
    };
    assert(t == tags_start(v));
    proof {
        lemma_first_from(v.bytes, crate::pdu::PIPE, t as int);
    }
    let e = match find_from(crate::pdu::PIPE, bytes, t) {
        Some(e) => e,
        None => n,
    };
    assert(e == tags_end(v, t as int));
    let ne = p.name_offset();
    let mut out: Vec<u8> = Vec::new();
    append_bytes(&mut out, p.name());
    out.push(DOT);
    out.push(UNDERSCORE);
    out.push(UNDERSCORE);
    append_tag_bytes(&mut out, &bytes[t + 1..e]);
    let head = out.len();
    proof {
        lemma_tag_bytes_len(v.bytes.subrange(t + 1, e as int));
    }
    append_bytes(&mut out, &bytes[ne..t - 1]);
    append_bytes(&mut out, &bytes[e..n]);
    let ghost hs = out@.subrange(0, head as int);
    proof {
        assert(hs =~= v.name() + tag_marker() + tag_bytes(v.bytes.subrange(t + 1, e as int))) by {
            assert(out@.subrange(0, head as int) =~= v.name() + tag_marker() + tag_bytes(v.bytes.subrange(t + 1, e as int)));
        }
        assert(out@ =~= inline_tags(v));
        assert forall|i: int| v.name_end <= i < t - 1 implies out@[head + (i - v.name_end)] == v.bytes[i] by {}
    }
    let shift = head - ne;
    Pdu::from_parts(out, head, p.value_offset() + shift, te + shift)
}

} // verus!
