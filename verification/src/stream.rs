//! What the parser makes of a whole byte stream, however the stream is cut
//! into chunks.

use crate::frame::Frame;
use crate::frame::wire_all;
use crate::leb128::decode;
use crate::leb128::encode;
use crate::leb128::law_decode_encode;
use crate::leb128::lemma_decode_extend;
use crate::parser::Outcome;
use crate::parser::ParseError;
use crate::parser::ParserState;
use crate::reader::law_transfer_reads_pending;
use crate::reader::plan;
use crate::ring::RingState;
use crate::ring::law_admission_safety;
use vstd::prelude::*;

verus! {

/// What polling a parser until it stops gives.
pub struct Drained {
    /// The frames, in the order in which they came out.
    pub frames: Seq<Frame>,
    /// The parser's state when it stopped.
    pub state: ParserState,
    /// Why it stopped, where it was not for want of bytes.
    pub fault: Option<ParseError>,
}

/// A step that completes a frame decoded every missing header word from the
/// queue, at one byte or more each, and leaves a state with no header word.
pub proof fn lemma_step_consumes(s: ParserState)
    ensures
        s.step().0.limit == s.limit,
        s.step().1 is Complete ==> s.step().0.missing() == 3 && s.step().0.queue.len()
            + s.missing() <= s.queue.len(),
        !(s.step().1 is Complete) ==> s.step().0.step() == s.step(),
    decreases s.missing(),
{
    lemma_decode_extend(s.queue, Seq::empty());
    if s.data_size is None {
        if let Ok((v, n)) = decode(s.queue) {
            lemma_step_consumes(
                ParserState { queue: s.queue.skip(n as int), data_size: Some(v as usize), ..s },
            );
        }
    } else if s.data_size->Some_0 > s.limit {
    } else if s.sym is None {
        if let Ok((v, n)) = decode(s.queue) {
            lemma_step_consumes(ParserState { queue: s.queue.skip(n as int), sym: Some(v), ..s });
        }
    } else if s.typ is None {
        if let Ok((v, n)) = decode(s.queue) {
            lemma_step_consumes(ParserState { queue: s.queue.skip(n as int), typ: Some(v), ..s });
        }
    }
}

/// The frames that polling gets out of `s` until a poll finds none, the
/// state that is left, and the fault that ended it, if one did.
pub open spec fn drain(s: ParserState) -> Drained
    decreases s.queue.len() + 3 - s.missing(),
{
    let (t, o) = s.step();
    match o {
        Outcome::Complete(f) => {
            proof {
                lemma_step_consumes(s);
            }
            let d = drain(t);
            Drained { frames: seq![f] + d.frames, state: d.state, fault: d.fault }
        },
        Outcome::Pending => Drained { frames: Seq::empty(), state: t, fault: None },
        Outcome::Fault(e) => Drained { frames: Seq::empty(), state: t, fault: Some(e) },
    }
}

/// What pushing the chunks one by one gives, the parser being drained after
/// each push; a fault ends it.
pub open spec fn feed(s: ParserState, chunks: Seq<Seq<u8>>) -> Drained
    decreases chunks.len(),
{
    if chunks.len() == 0 {
        Drained { frames: Seq::empty(), state: s, fault: None }
    } else {
        let d = drain(s.push(chunks[0]));
        if d.fault is Some {
            d
        } else {
            let r = feed(d.state, chunks.skip(1));
            Drained { frames: d.frames + r.frames, state: r.state, fault: r.fault }
        }
    }
}

/// The chunks laid end to end.
pub open spec fn concat(chunks: Seq<Seq<u8>>) -> Seq<u8>
    decreases chunks.len(),
{
    if chunks.len() == 0 {
        Seq::empty()
    } else {
        chunks[0] + concat(chunks.skip(1))
    }
}

/// Bytes that arrive later do not change what a step has found: a frame or a
/// fault stays, with the late bytes left in the queue, and a step that was
/// waiting goes on from where it stopped.
pub proof fn lemma_step_extend(s: ParserState, b: Seq<u8>)
    ensures
        s.step().1 is Pending ==> s.push(b).step() == s.step().0.push(b).step(),
        !(s.step().1 is Pending) ==> s.push(b).step() == (s.step().0.push(b), s.step().1),
    decreases s.missing(),
{
    lemma_decode_extend(s.queue, b);
    let q = s.queue;
    if s.data_size is None {
        if let Ok((v, n)) = decode(q) {
            let next = ParserState { queue: q.skip(n as int), data_size: Some(v as usize), ..s };
            assert((q + b).skip(n as int) =~= q.skip(n as int) + b);
            lemma_step_extend(next, b);
        }
    } else if s.data_size->Some_0 > s.limit {
    } else if s.sym is None {
        if let Ok((v, n)) = decode(q) {
            let next = ParserState { queue: q.skip(n as int), sym: Some(v), ..s };
            assert((q + b).skip(n as int) =~= q.skip(n as int) + b);
            lemma_step_extend(next, b);
        }
    } else if s.typ is None {
        if let Ok((v, n)) = decode(q) {
            let next = ParserState { queue: q.skip(n as int), typ: Some(v), ..s };
            assert((q + b).skip(n as int) =~= q.skip(n as int) + b);
            lemma_step_extend(next, b);
        }
    } else if q.len() >= s.data_size->Some_0 {
        let n = s.data_size->Some_0 as int;
        assert((q + b).skip(n) =~= q.skip(n) + b);
        assert((q + b).take(n) =~= q.take(n));
    }
}

/// Draining after more bytes have arrived gives the frames that draining
/// before gave, followed by those that the late bytes complete.
pub proof fn lemma_drain_extend(s: ParserState, b: Seq<u8>)
    ensures
        drain(s).fault is None ==> drain(s.push(b)) == (Drained {
            frames: drain(s).frames + drain(drain(s).state.push(b)).frames,
            state: drain(drain(s).state.push(b)).state,
            fault: drain(drain(s).state.push(b)).fault,
        }),
        drain(s).fault is Some ==> drain(s.push(b)) == (Drained {
            frames: drain(s).frames,
            state: drain(s).state.push(b),
            fault: drain(s).fault,
        }),
    decreases s.queue.len() + 3 - s.missing(),
{
    lemma_step_extend(s, b);
    lemma_step_consumes(s);
    let (t, o) = s.step();
    match o {
        Outcome::Complete(f) => {
            lemma_drain_extend(t, b);
            let late = drain(drain(t).state.push(b));
            assert((seq![f] + drain(t).frames) + late.frames =~= seq![f] + (drain(t).frames
                + late.frames));
        },
        Outcome::Pending => {
            assert(Seq::<Frame>::empty() + drain(t.push(b)).frames =~= drain(t.push(b)).frames);
        },
        Outcome::Fault(e) => {},
    }
}

/// Splitting a byte stream in two at any offset and pushing the halves one
/// after the other gives the frames that pushing the whole stream gives.
/// Where the first half already holds a fault, the second is never parsed.
pub proof fn law_restartable(s: ParserState, a: Seq<u8>, b: Seq<u8>)
    ensures
        ({
            let whole = drain(s.push(a + b));
            let first = drain(s.push(a));
            let second = drain(first.state.push(b));
            if first.fault is None {
                &&& whole.frames == first.frames + second.frames
                &&& whole.state == second.state
                &&& whole.fault == second.fault
            } else {
                &&& whole.frames == first.frames
                &&& whole.state == first.state.push(b)
                &&& whole.fault == first.fault
            }
        }),
{
    lemma_drain_extend(s.push(a), b);
    assert(s.push(a).push(b) == s.push(a + b)) by {
        assert((s.queue + a) + b =~= s.queue + (a + b));
    }
}

/// A parser that has been drained without a fault finds nothing more until
/// bytes arrive.
pub proof fn lemma_drained_is_settled(s: ParserState)
    ensures
        drain(s).state.limit == s.limit,
        drain(s).fault is None ==> drain(s).state.step() == (drain(s).state, Outcome::Pending),
    decreases s.queue.len() + 3 - s.missing(),
{
    lemma_step_consumes(s);
    if s.step().1 is Complete {
        lemma_drained_is_settled(s.step().0);
    }
}

/// The frames of a stream do not depend on how it is cut into chunks: for a
/// parser that is waiting for bytes, pushing the chunks one by one gives the
/// frames, the fault and, where there is no fault, the state that pushing
/// them laid end to end gives.
pub proof fn law_chunking(s: ParserState, chunks: Seq<Seq<u8>>)
    requires
        s.step() == (s, Outcome::Pending),
    ensures
        feed(s, chunks).frames == drain(s.push(concat(chunks))).frames,
        feed(s, chunks).fault == drain(s.push(concat(chunks))).fault,
        feed(s, chunks).fault is None ==> feed(s, chunks).state == drain(
            s.push(concat(chunks)),
        ).state,
    decreases chunks.len(),
{
    if chunks.len() == 0 {
        assert(s.push(Seq::empty()) == s) by {
            assert(s.queue + Seq::<u8>::empty() =~= s.queue);
        }
    } else {
        let head = chunks[0];
        let rest = chunks.skip(1);
        let first = drain(s.push(head));
        lemma_drain_extend(s.push(head), concat(rest));
        assert(s.push(head).push(concat(rest)) == s.push(concat(chunks))) by {
            assert((s.queue + head) + concat(rest) =~= s.queue + (head + concat(rest)));
        }
        if first.fault is None {
            lemma_drained_is_settled(s.push(head));
            law_chunking(first.state, rest);
        }
    }
}

/// An encoded word at the front of a byte string decodes to the word, and
/// what follows it is left.
pub proof fn lemma_decode_front(n: u32, rest: Seq<u8>)
    ensures
        decode(encode(n as nat) + rest) == Ok::<(u32, usize), crate::leb128::DecodeError>(
            (n, encode(n as nat).len() as usize),
        ),
        (encode(n as nat) + rest).skip(encode(n as nat).len() as int) == rest,
        encode(n as nat).len() <= 5,
{
    law_decode_encode(n);
    lemma_decode_extend(encode(n as nat), rest);
    assert((encode(n as nat) + rest).skip(encode(n as nat).len() as int) =~= rest);
}

/// The first step on a stream that starts with an encoded frame gives that
/// frame and leaves what follows it in the queue.
pub proof fn lemma_step_frame(limit: usize, f: Frame, rest: Seq<u8>)
    requires
        f.encodable(),
        f.payload.len() <= limit,
    ensures
        ParserState::fresh(limit).push(f.wire() + rest).step() == (
            ParserState::fresh(limit).push(rest),
            Outcome::Complete(f),
        ),
{
    let e1 = encode(f.payload.len());
    let e2 = encode(f.fmt_key);
    let e3 = encode(f.type_key);
    let len = f.payload.len() as usize;
    let q3 = f.payload + rest;
    let q2 = e3 + q3;
    let q1 = e2 + q2;
    let s0 = ParserState::fresh(limit).push(f.wire() + rest);
    let s1 = ParserState { queue: q1, data_size: Some(len), ..s0 };
    let s2 = ParserState { queue: q2, sym: Some(f.fmt_key as u32), ..s1 };
    let s3 = ParserState { queue: q3, typ: Some(f.type_key as u32), ..s2 };
    assert(s0.queue == e1 + q1) by {
        assert(Seq::<u8>::empty() + (f.wire() + rest) =~= e1 + q1);
    }
    assert(s0.step() == s1.step()) by {
        lemma_decode_front(f.payload.len() as u32, q1);
    }
    assert(s1.step() == s2.step()) by {
        lemma_decode_front(f.fmt_key as u32, q2);
    }
    assert(s2.step() == s3.step()) by {
        lemma_decode_front(f.type_key as u32, q3);
    }
    assert(s3.step() == (ParserState::fresh(limit).push(rest), Outcome::Complete(f))) by {
        assert(q3.take(len as int) =~= f.payload);
        assert(q3.skip(len as int) =~= rest);
        assert(Seq::<u8>::empty() + rest =~= rest);
    }
}

/// Every frame that can be encoded and whose payload is within the parser's
/// limit comes back: a fresh parser that is given the encoded frames, cut
/// into chunks in any way, hands out the same frames in the same order, with
/// nothing left over.
pub proof fn law_round_trip(limit: usize, frames: Seq<Frame>, chunks: Seq<Seq<u8>>)
    requires
        forall|i: int| 0 <= i < frames.len() ==> (#[trigger] frames[i]).encodable(),
        forall|i: int| 0 <= i < frames.len() ==> (#[trigger] frames[i]).payload.len() <= limit,
        concat(chunks) == wire_all(frames),
    ensures
        feed(ParserState::fresh(limit), chunks) == (Drained {
            frames,
            state: ParserState::fresh(limit),
            fault: None,
        }),
{
    let fresh = ParserState::fresh(limit);
    lemma_decode_extend(fresh.queue, Seq::empty());
    lemma_drain_frames(limit, frames);
    law_chunking(fresh, chunks);
}

/// Draining a fresh parser that holds the encoded frames gives the frames.
pub proof fn lemma_drain_frames(limit: usize, frames: Seq<Frame>)
    requires
        forall|i: int| 0 <= i < frames.len() ==> (#[trigger] frames[i]).encodable(),
        forall|i: int| 0 <= i < frames.len() ==> (#[trigger] frames[i]).payload.len() <= limit,
    ensures
        drain(ParserState::fresh(limit).push(wire_all(frames))) == (Drained {
            frames,
            state: ParserState::fresh(limit),
            fault: None,
        }),
    decreases frames.len(),
{
    let fresh = ParserState::fresh(limit);
    if frames.len() == 0 {
        lemma_decode_extend(fresh.queue, Seq::empty());
        assert(fresh.push(Seq::empty()) == fresh) by {
            assert(fresh.queue + Seq::<u8>::empty() =~= fresh.queue);
        }
        assert(fresh.step() == (fresh, Outcome::Pending));
        assert(frames =~= Seq::<Frame>::empty());
    } else {
        let rest = frames.skip(1);
        lemma_step_frame(limit, frames[0], wire_all(rest));
        let start = fresh.push(wire_all(frames));
        assert(start.step() == (fresh.push(wire_all(rest)), Outcome::Complete(frames[0])));
        assert(drain(start).frames == seq![frames[0]] + drain(fresh.push(wire_all(rest))).frames);
        assert forall|i: int| 0 <= i < rest.len() implies (#[trigger] rest[i]).encodable()
            && rest[i].payload.len() <= limit by {
            assert(rest[i] == frames[i + 1]);
        }
        lemma_drain_frames(limit, rest);
        assert(seq![frames[0]] + rest =~= frames);
    }
}

/// A frame with an empty payload announces a length of zero: its first byte
/// is zero and the two keys follow at once.
pub proof fn law_empty_payload(f: Frame)
    requires
        f.payload.len() == 0,
    ensures
        f.wire() == seq![0u8] + encode(f.fmt_key) + encode(f.type_key),
        f.wire()[0] == 0,
{
    assert(f.wire() =~= seq![0u8] + encode(f.fmt_key) + encode(f.type_key));
}

/// Whether the writer admits the frames one after the other, starting from
/// the ring `s`.
pub open spec fn accepted(s: RingState, frames: Seq<Frame>) -> bool
    decreases frames.len(),
{
    frames.len() == 0 || {
        &&& frames[0].encodable()
        &&& s.admits(frames[0].payload.len())
        &&& accepted(s.put(frames[0].wire()), frames.skip(1))
    }
}

/// The ring after the frames were written one after the other.
pub open spec fn written(s: RingState, frames: Seq<Frame>) -> RingState
    decreases frames.len(),
{
    if frames.len() == 0 {
        s
    } else {
        written(s.put(frames[0].wire()), frames.skip(1))
    }
}

/// Frames that the writer admits one after the other stand in the ring as
/// their byte stream, after what was unread before.
pub proof fn lemma_written_pending(s: RingState, frames: Seq<Frame>)
    requires
        s.wf(),
        accepted(s, frames),
    ensures
        written(s, frames).wf(),
        written(s, frames).pending() == s.pending() + wire_all(frames),
        written(s, frames).host == s.host,
        written(s, frames).capacity() == s.capacity(),
        forall|i: int| 0 <= i < frames.len() ==> (#[trigger] frames[i]).encodable(),
    decreases frames.len(),
{
    if frames.len() == 0 {
        assert(s.pending() + wire_all(frames) =~= s.pending());
    } else {
        let next = s.put(frames[0].wire());
        law_admission_safety(s, frames[0]);
        crate::ring::lemma_put_pending(s, frames[0].wire());
        crate::frame::lemma_header_len(frames[0]);
        lemma_written_pending(next, frames.skip(1));
        assert((s.pending() + frames[0].wire()) + wire_all(frames.skip(1)) =~= s.pending()
            + wire_all(frames));
        assert forall|i: int| 0 <= i < frames.len() implies (#[trigger] frames[i]).encodable() by {
            if i > 0 {
                assert(frames[i] == frames.skip(1)[i - 1]);
            }
        }
    }
}

/// From the writer to the parser: the frames that the writer admits to an
/// empty ring come out of a fresh parser as they went in, whether or not
/// they pass the end of the region, and however the bytes that the reader
/// copies out in one read or two are cut into chunks on the way.
pub proof fn law_ring_round_trip(
    s: RingState,
    frames: Seq<Frame>,
    limit: usize,
    chunks: Seq<Seq<u8>>,
)
    requires
        s.wf(),
        s.available() == 0,
        accepted(s, frames),
        forall|i: int| 0 <= i < frames.len() ==> (#[trigger] frames[i]).payload.len() <= limit,
        ({
            let after = written(s, frames);
            let t = plan(after.host, after.target, after.capacity());
            concat(chunks) == after.data.subrange(
                t.first_start as int,
                t.first_start + t.first_len,
            ) + after.data.subrange(0, t.second_len as int)
        }),
    ensures
        feed(ParserState::fresh(limit), chunks) == (Drained {
            frames,
            state: ParserState::fresh(limit),
            fault: None,
        }),
{
    let after = written(s, frames);
    lemma_written_pending(s, frames);
    law_transfer_reads_pending(after);
    assert(s.pending() =~= Seq::<u8>::empty());
    assert(s.pending() + wire_all(frames) =~= wire_all(frames));
    law_round_trip(limit, frames, chunks);
}

} // verus!
