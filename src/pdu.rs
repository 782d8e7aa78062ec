use vstd::prelude::*;
use crate::bytes_util::{first_from, lemma_first_from, find_from, append_bytes, copy_range};

verus! {

pub const COLON: u8 = 58;
pub const PIPE: u8 = 124;

/// The fields of one statsd line `name:value|type[|...]`, as offsets into its bytes.
pub struct PduView {
    pub bytes: Seq<u8>,
    pub name_end: int,
    pub value_end: int,
    pub type_end: int,
}

impl PduView {
    /// The offsets delimit a non-empty name, a non-empty value and a non-empty type.
    pub open spec fn wf(self) -> bool {
        &&& 0 < self.name_end
        &&& self.name_end + 1 < self.value_end
        &&& self.value_end + 1 < self.type_end <= self.bytes.len()
        &&& self.bytes[self.name_end] == COLON
        &&& self.bytes[self.value_end] == PIPE
    }

    pub open spec fn name(self) -> Seq<u8> {
        self.bytes.subrange(0, self.name_end)
    }

    pub open spec fn value(self) -> Seq<u8> {
        self.bytes.subrange(self.name_end + 1, self.value_end)
    }

    pub open spec fn mtype(self) -> Seq<u8> {
        self.bytes.subrange(self.value_end + 1, self.type_end)
    }

    /// Everything after the name: `:value|type...`.
    pub open spec fn after_name(self) -> Seq<u8> {
        self.bytes.subrange(self.name_end, self.bytes.len() as int)
    }
}

/// How a statsd line is split: the name ends at the first `:`, the value at the
/// next `|`, the type at the `|` after that or at the end of the line. The line
/// is well formed when all three are non-empty.
pub open spec fn parse_line(s: Seq<u8>) -> Option<PduView> {
    let c = first_from(s, COLON, 0);
    let p = first_from(s, PIPE, c + 1);
    let q0 = first_from(s, PIPE, p + 1);
    let q = if q0 == -1 { s.len() as int } else { q0 };
    if c > 0 && p > c + 1 && q > p + 1 {
        Some(PduView { bytes: s, name_end: c, value_end: p, type_end: q })
    } else {
        None
    }
}

pub open spec fn is_valid_line(s: Seq<u8>) -> bool {
    parse_line(s) is Some
}

/// One statsd line, without its newline.
pub struct Pdu {
    bytes: Vec<u8>,
    name_end: usize,
    value_end: usize,
    type_end: usize,
}

impl View for Pdu {
    type V = PduView;

    closed spec fn view(&self) -> PduView {
        PduView {
            bytes: self.bytes@,
            name_end: self.name_end as int,
            value_end: self.value_end as int,
            type_end: self.type_end as int,
        }
    }
}

impl Pdu {
    /// Parses one line; `None` when it is not a well-formed statsd line.
    pub fn new(bytes: Vec<u8>) -> (r: Option<Pdu>)
        ensures
            r is Some <==> is_valid_line(bytes@),
            r is Some ==> r->0@ == parse_line(bytes@)->0 && r->0@.wf(),
    {
        let c = match find_from(COLON, bytes.as_slice(), 0) {
            Some(c) => c,
            None => return None,
        };
        if c == 0 || c >= bytes.len() - 1 {
            proof {
                lemma_first_from(bytes@, COLON, 0);
                if c + 1 >= bytes@.len() {
                    lemma_first_from(bytes@, PIPE, c + 1);
                }
            }
            return None;
        }
        let p = match find_from(PIPE, bytes.as_slice(), c + 1) {
            Some(p) => p,
            None => return None,
        };
        proof {
            lemma_first_from(bytes@, COLON, 0);
            lemma_first_from(bytes@, PIPE, (c + 1) as int);
        }
        if p <= c + 1 || p >= bytes.len() - 1 {
            proof {
                if p + 1 >= bytes@.len() {
                    lemma_first_from(bytes@, PIPE, p + 1);
                }
            }
            return None;
        }
        let q = match find_from(PIPE, bytes.as_slice(), p + 1) {
            Some(q) => q,
            None => bytes.len(),
        };
        proof {
            lemma_first_from(bytes@, PIPE, (p + 1) as int);
        }
        if q <= p + 1 {
            return None;
        }
        Some(Pdu { bytes, name_end: c, value_end: p, type_end: q })
    }

    /// A line from its bytes and field offsets.
    pub(crate) fn from_parts(bytes: Vec<u8>, name_end: usize, value_end: usize, type_end: usize) -> (r: Pdu)
        requires
            (PduView { bytes: bytes@, name_end: name_end as int, value_end: value_end as int, type_end: type_end as int }).wf(),
        ensures
            r@ == (PduView { bytes: bytes@, name_end: name_end as int, value_end: value_end as int, type_end: type_end as int }),
    {
        Pdu { bytes, name_end, value_end, type_end }
    }

    /// The offset of the `:` that ends the name.
    pub fn name_offset(&self) -> (r: usize)
        ensures
            r == self@.name_end,
    {
        self.name_end
    }

    /// The offset of the end of the type field.
    pub fn type_offset(&self) -> (r: usize)
        ensures
            r == self@.type_end,
    {
        self.type_end
    }

    /// Whether the offsets delimit a name, a value and a type; every line made
    /// by this module is.
    pub fn is_well_formed(&self) -> (r: bool)
        ensures
            r == self@.wf(),
    {
        0 < self.name_end && self.name_end < self.value_end && self.value_end - self.name_end > 1
            && self.value_end < self.type_end && self.type_end - self.value_end > 1
            && self.type_end <= self.bytes.len() && self.bytes[self.name_end] == COLON
            && self.bytes[self.value_end] == PIPE
    }

    /// The raw bytes of the line.
    pub fn as_bytes(&self) -> (r: &[u8])
        ensures
            r@ == self@.bytes,
    {
        self.bytes.as_slice()
    }

    /// The metric name: the bytes before the first `:`.
    pub fn name(&self) -> (r: &[u8])
        requires
            self@.wf(),
        ensures
            r@ == self@.name(),
    {
        &self.bytes.as_slice()[0..self.name_end]
    }

    /// The value field.
    pub fn value(&self) -> (r: &[u8])
        requires
            self@.wf(),
        ensures
            r@ == self@.value(),
    {
        &self.bytes.as_slice()[self.name_end + 1..self.value_end]
    }

    /// The offset of the `|` that ends the value.
    pub fn value_offset(&self) -> (r: usize)
        ensures
            r == self@.value_end,
    {
        self.value_end
    }

    /// The metric type field (`c`, `g`, `ms`, ...).
    pub fn pdu_type(&self) -> (r: &[u8])
        requires
            self@.wf(),
        ensures
            r@ == self@.mtype(),
    {
        &self.bytes.as_slice()[self.value_end + 1..self.type_end]
    }

    /// A copy of this line whose name is `prefix`, then the name, then `suffix`;
    /// value, type and everything after them are kept.
    pub fn with_prefix_suffix(&self, prefix: &[u8], suffix: &[u8]) -> (r: Pdu)
        requires
            self@.wf(),
            self@.bytes.len() + prefix@.len() + suffix@.len() <= usize::MAX,
        ensures
            r@.wf(),
            r@.bytes == prefix@ + self@.name() + suffix@ + self@.after_name(),
            r@.name() == prefix@ + self@.name() + suffix@,
            r@.value() == self@.value(),
            r@.mtype() == self@.mtype(),
    {
        let mut out: Vec<u8> = Vec::new();
        append_bytes(&mut out, prefix);
        append_bytes(&mut out, &self.bytes.as_slice()[0..self.name_end]);
        append_bytes(&mut out, suffix);
        let head = out.len();
        append_bytes(&mut out, &self.bytes.as_slice()[self.name_end..self.bytes.len()]);
        let shift = head - self.name_end;
        let r = Pdu {
            bytes: out,
            name_end: head,
            value_end: self.value_end + shift,
            type_end: self.type_end + shift,
        };
        proof {
            let v = self@;
            let h = head as int;
            let sh = shift as int;
            assert(r@.bytes.subrange(0, h) == prefix@ + v.name() + suffix@);
            assert forall|i: int| v.name_end <= i < v.bytes.len() implies r@.bytes[i + sh]
                == v.bytes[i] by {
                assert(r@.bytes[h + (i - v.name_end)] == v.after_name()[i - v.name_end]);
            }
            assert(r@.value() =~= v.value());
            assert(r@.mtype() =~= v.mtype());
        }
        r
    }

    /// A copy of this line.
    pub fn copy(&self) -> (r: Pdu)
        ensures
            r@ == self@,
    {
        let bytes = copy_range(self.bytes.as_slice(), 0, self.bytes.len());
        assert(bytes@ =~= self.bytes@);
        Pdu { bytes, name_end: self.name_end, value_end: self.value_end, type_end: self.type_end }
    }
}

} // verus!
