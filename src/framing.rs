use vstd::prelude::*;
use crate::bytes_util::{lemma_first_from, find_from, copy_range};
use crate::pdu::{Pdu, is_valid_line};

verus! {

pub const NEWLINE: u8 = 10;
pub const CARRIAGE_RETURN: u8 = 13;

/// A line without its terminating `\r`, if it has one.
pub open spec fn strip_cr(line: Seq<u8>) -> Seq<u8> {
    if line.len() > 0 && line.last() == CARRIAGE_RETURN {
        line.drop_last()
    } else {
        line
    }
}

/// The lines found so far, with `line` added when it is a well-formed statsd line.
pub open spec fn emit(lines: Seq<Seq<u8>>, line: Seq<u8>) -> Seq<Seq<u8>> {
    if is_valid_line(strip_cr(line)) {
        lines.push(strip_cr(line))
    } else {
        lines
    }
}

/// The framer's state after one more byte: the lines emitted and the open line.
pub open spec fn step(st: (Seq<Seq<u8>>, Seq<u8>), b: u8) -> (Seq<Seq<u8>>, Seq<u8>) {
    if b == NEWLINE {
        (emit(st.0, st.1), Seq::empty())
    } else {
        (st.0, st.1.push(b))
    }
}

pub open spec fn frame_from(st: (Seq<Seq<u8>>, Seq<u8>), s: Seq<u8>) -> (Seq<Seq<u8>>, Seq<u8>)
    decreases s.len(),
{
    if s.len() == 0 {
        st
    } else {
        frame_from(step(st, s[0]), s.drop_first())
    }
}

/// Framing of a buffer: the well-formed lines that a newline ends, and the
/// residual after the last newline.
pub open spec fn frame(s: Seq<u8>) -> (Seq<Seq<u8>>, Seq<u8>) {
    frame_from(frame_start(), s)
}

pub open spec fn frame_start() -> (Seq<Seq<u8>>, Seq<u8>) {
    (Seq::empty(), Seq::empty())
}

/// Framing of a buffer that will get no more bytes (a datagram, or a stream at
/// its end): the residual counts as a last line.
pub open spec fn frame_final(s: Seq<u8>) -> Seq<Seq<u8>> {
    emit(frame(s).0, frame(s).1)
}

pub open spec fn no_newline(s: Seq<u8>) -> bool {
    forall|i: int| 0 <= i < s.len() ==> s[i] != NEWLINE
}

/// The byte sequences of a sequence of lines.
pub open spec fn pdu_bytes(ps: Seq<Pdu>) -> Seq<Seq<u8>> {
    ps.map_values(|p: Pdu| p@.bytes)
}

proof fn lemma_frame_from_concat(st: (Seq<Seq<u8>>, Seq<u8>), a: Seq<u8>, b: Seq<u8>)
    ensures
        frame_from(st, a + b) == frame_from(frame_from(st, a), b),
    decreases a.len(),
{
    if a.len() > 0 {
        assert((a + b).drop_first() =~= a.drop_first() + b);
        assert((a + b)[0] == a[0]);
        lemma_frame_from_concat(step(st, a[0]), a.drop_first(), b);
    } else {
        assert(a + b =~= b);
    }
}

proof fn lemma_frame_no_newline(st: (Seq<Seq<u8>>, Seq<u8>), c: Seq<u8>)
    requires
        no_newline(c),
    ensures
        frame_from(st, c) == (st.0, st.1 + c),
    decreases c.len(),
{
    if c.len() > 0 {
        lemma_frame_no_newline(step(st, c[0]), c.drop_first());
        assert(st.1.push(c[0]) + c.drop_first() =~= st.1 + c);
    } else {
        assert(st.1 + c =~= st.1);
    }
}

proof fn lemma_frame_from_lines(ls: Seq<Seq<u8>>, cur: Seq<u8>, b: Seq<u8>)
    ensures
        frame_from((ls, cur), b).0 == ls + frame_from((Seq::empty(), cur), b).0,
        frame_from((ls, cur), b).1 == frame_from((Seq::empty(), cur), b).1,
    decreases b.len(),
{
    if b.len() == 0 {
        assert(ls + Seq::<Seq<u8>>::empty() =~= ls);
    } else if b[0] == NEWLINE {
        let e = emit(Seq::<Seq<u8>>::empty(), cur);
        lemma_frame_from_lines(emit(ls, cur), Seq::empty(), b.drop_first());
        lemma_frame_from_lines(e, Seq::empty(), b.drop_first());
        assert(emit(ls, cur) =~= ls + e);
        let t = frame_from((Seq::<Seq<u8>>::empty(), Seq::<u8>::empty()), b.drop_first()).0;
        assert(ls + e + t =~= ls + (e + t));
    } else {
        lemma_frame_from_lines(ls, cur.push(b[0]), b.drop_first());
    }
}

proof fn lemma_residual_no_newline(st: (Seq<Seq<u8>>, Seq<u8>), s: Seq<u8>)
    requires
        no_newline(st.1),
    ensures
        no_newline(frame_from(st, s).1),
    decreases s.len(),
{
    if s.len() > 0 {
        lemma_residual_no_newline(step(st, s[0]), s.drop_first());
    }
}

/// Framing a buffer in two pieces gives what framing it whole gives: the lines
/// of the first piece, then the lines of its residual followed by the second
/// piece; the residual after the last newline is the same.
pub proof fn lemma_framing_split(a: Seq<u8>, b: Seq<u8>)
    ensures
        frame(a + b).0 == frame(a).0 + frame(frame(a).1 + b).0,
        frame(a + b).1 == frame(frame(a).1 + b).1,
{
    let e = frame_start();
    lemma_frame_from_concat(frame_start(), a, b);
    lemma_residual_no_newline(e, a);
    let r = frame(a).1;
    lemma_frame_from_lines(frame(a).0, r, b);
    lemma_frame_from_concat(frame_start(), r, b);
    lemma_frame_no_newline(e, r);
    assert(Seq::<u8>::empty() + r =~= r);
}

/// Extracts every newline-terminated line of `buf` (dropping a `\r` before the
/// newline and lines that are not well formed) and leaves the residual after
/// the last newline in `buf`.
pub fn process_buffer_newlines(buf: &mut Vec<u8>) -> (r: Vec<Pdu>)
    ensures
        pdu_bytes(r@) == frame(old(buf)@).0,
        final(buf)@ == frame(old(buf)@).1,
        forall|i: int| 0 <= i < r@.len() ==> (#[trigger] r@[i])@.wf(),
{
    let ghost s = buf@;
    let mut ret: Vec<Pdu> = Vec::new();
    let mut pos: usize = 0;
    proof {
        assert(s.subrange(0, 0) =~= Seq::<u8>::empty());
        assert(pdu_bytes(ret@) =~= Seq::<Seq<u8>>::empty());
    }
    loop
        invariant
            buf@ == s,
            s == old(buf)@,
            pos <= s.len(),
            frame(s.subrange(0, pos as int)) == (pdu_bytes(ret@), Seq::<u8>::empty()),
            forall|i: int| 0 <= i < ret@.len() ==> (#[trigger] ret@[i])@.wf(),
        decreases s.len() - pos,
    {
        match find_from(NEWLINE, buf.as_slice(), pos) {
            None => {
                let rest = copy_range(buf.as_slice(), pos, buf.len());
                proof {
                    lemma_first_from(s, NEWLINE, pos as int);
                    let s0 = s.subrange(0, pos as int);
                    let c = s.subrange(pos as int, s.len() as int);
                    assert(no_newline(c)) by {
                        assert forall|i: int| 0 <= i < c.len() implies c[i] != NEWLINE by {
                            assert(c[i] == s[pos + i]);
                        }
                    }
                    assert(s == s0 + c) by {
                        assert(s =~= s0 + c);
                    }
                    lemma_frame_from_concat(frame_start(), s0, c);
                    assert(frame(s) == frame_from(frame(s0), c));
                    lemma_frame_no_newline(frame(s0), c);
                    assert(Seq::<u8>::empty() + c =~= c);
                    assert(rest@ == c);
                }
                *buf = rest;
                return ret;
            },
            Some(k) => {
                proof {
                    lemma_first_from(s, NEWLINE, pos as int);
                }
                let end = if k > pos && buf[k - 1] == CARRIAGE_RETURN {
                    k - 1
                } else {
                    k
                };
                let line = copy_range(buf.as_slice(), pos, end);
                let ghost prev = pdu_bytes(ret@);
                let ghost c = s.subrange(pos as int, k as int);
                proof {
                    assert(no_newline(c)) by {
                        assert forall|i: int| 0 <= i < c.len() implies c[i] != NEWLINE by {
                            assert(c[i] == s[pos + i]);
                        }
                    }
                    assert(line@ =~= strip_cr(c));
                    assert(s.subrange(0, k + 1) =~= s.subrange(0, pos as int) + c + seq![NEWLINE]);
                    lemma_frame_from_concat(frame_start(), s.subrange(0, pos as int) + c, seq![NEWLINE]);
                    lemma_frame_from_concat(frame_start(), s.subrange(0, pos as int), c);
                    lemma_frame_no_newline(frame(s.subrange(0, pos as int)), c);
                    assert(Seq::<u8>::empty() + c =~= c);
                    assert(seq![NEWLINE].drop_first() =~= Seq::<u8>::empty());
                    let s0 = s.subrange(0, pos as int);
                    assert(frame(s0 + c) == (prev, c));
                    let st = (prev, c);
                    assert(frame_from(st, seq![NEWLINE]) == frame_from(step(st, NEWLINE), Seq::<u8>::empty()));
                    assert(frame(s.subrange(0, k + 1)) == (emit(prev, c), Seq::<u8>::empty()));
                }
                let n = buf.len();
                match Pdu::new(line) {
                    Some(p) => {
                        ret.push(p);
                        proof {
                            assert(pdu_bytes(ret@) =~= prev.push(strip_cr(c)));
                        }
                    },
                    None => {
                        assert(emit(prev, c) == prev);
                    },
                }
                pos = k + 1;
            },
        }
    }
}

/// Frames a buffer that will get no more bytes: the lines of
/// `process_buffer_newlines`, then the residual as a last line when it is well
/// formed.
pub fn process_buffer_final(data: &[u8]) -> (r: Vec<Pdu>)
    ensures
        pdu_bytes(r@) == frame_final(data@),
        forall|i: int| 0 <= i < r@.len() ==> (#[trigger] r@[i])@.wf(),
{
    let mut buf = copy_range(data, 0, data.len());
    proof {
        assert(buf@ =~= data@);
    }
    let mut ret = process_buffer_newlines(&mut buf);
    let ghost prev = pdu_bytes(ret@);
    let n = buf.len();
    let end = if n > 0 && buf[n - 1] == CARRIAGE_RETURN {
        n - 1
    } else {
        n
    };
    let line = copy_range(buf.as_slice(), 0, end);
    proof {
        assert(line@ =~= strip_cr(buf@));
    }
    match Pdu::new(line) {
        Some(p) => {
            ret.push(p);
            proof {
                assert(pdu_bytes(ret@) =~= prev.push(strip_cr(buf@)));
            }
        },
        None => {},
    }
    ret
}

} // verus!
