//! The ring that the target writes and the host reads: a fixed byte region
//! with a producer cursor and a consumer cursor. One slot always stays empty,
//! so that a full ring and an empty one can be told apart.

use crate::frame::Frame;
use crate::frame::MAX_HEADER_LEN;
use crate::leb128::encode;
use crate::leb128::split_low;
use vstd::prelude::*;

verus! {

/// The number of slots of the target's ring as it is built.
pub const LOG0_CAPACITY: usize = 1024;

/// How far `to` lies ahead of `from` on a ring of `c` slots.
pub open spec fn distance(from: nat, to: nat, c: nat) -> nat {
    ((to - from + c) % (c as int)) as nat
}

/// The position `n` slots after `p` on a ring of `c` slots.
pub open spec fn advance(p: nat, n: nat, c: nat) -> nat {
    (p + n) % c
}

/// The distance between two positions on the ring lies on the ring, and is
/// their difference, taken round the end where the second lies before the
/// first.
pub proof fn law_distance_in_range(from: nat, to: nat, c: nat)
    requires
        from < c,
        to < c,
    ensures
        distance(from, to, c) < c,
        distance(from, to, c) == (if to >= from {
            to - from
        } else {
            to - from + c
        }),
{
    let x = to - from + c;
    if to >= from {
        assert(x % (c as int) == to - from) by (nonlinear_arith)
            requires
                x == (to - from) + c,
                0 <= to - from < c,
        ;
    } else {
        assert(x % (c as int) == x) by (nonlinear_arith)
            requires
                0 <= x < c,
        ;
    }
}

/// Advancing by at most one turn wraps at most once.
pub proof fn lemma_advance(p: nat, n: nat, c: nat)
    requires
        p < c,
        n <= c,
    ensures
        advance(p, n, c) < c,
        advance(p, n, c) == (if p + n < c {
            p + n
        } else {
            (p + n - c) as nat
        }),
{
    let x = (p + n) as int;
    if x < c {
        assert(x % (c as int) == x) by (nonlinear_arith)
            requires
                0 <= x < c,
        ;
    } else {
        assert(x % (c as int) == x - c) by (nonlinear_arith)
            requires
                c <= x < 2 * c,
        ;
    }
}

/// The ring as a mathematical value.
pub struct RingState {
    /// The producer cursor: where the next byte will be written.
    pub target: nat,
    /// The consumer cursor: the first byte not yet copied out.
    pub host: nat,
    /// The byte region.
    pub data: Seq<u8>,
}

impl RingState {
    /// The number of slots.
    pub open spec fn capacity(self) -> nat {
        self.data.len()
    }

    /// Both cursors lie on the ring, and the ring fits 32-bit cursors.
    pub open spec fn wf(self) -> bool {
        &&& 1 <= self.capacity() <= u32::MAX
        &&& self.target < self.capacity()
        &&& self.host < self.capacity()
    }

    /// The number of bytes written and not yet copied out.
    pub open spec fn available(self) -> nat {
        distance(self.host, self.target, self.capacity())
    }

    /// The number of bytes that can still be written.
    pub open spec fn free(self) -> int {
        self.capacity() - 1 - self.available()
    }

    /// The `n` bytes from position `start` on, in ring order.
    pub open spec fn window(self, start: nat, n: nat) -> Seq<u8> {
        Seq::new(n, |i: int| self.data[advance(start, i as nat, self.capacity()) as int])
    }

    /// The bytes written and not yet copied out, oldest first.
    pub open spec fn pending(self) -> Seq<u8> {
        self.window(self.host, self.available())
    }

    /// Whether a frame with a payload of `payload_len` bytes is admitted:
    /// the free space covers the payload and the longest possible header.
    pub open spec fn admits(self, payload_len: nat) -> bool {
        self.free() >= payload_len + 15
    }

    /// The ring after the producer has written `bytes` and moved its cursor
    /// past them.
    pub open spec fn put(self, bytes: Seq<u8>) -> RingState {
        RingState {
            target: advance(self.target, bytes.len(), self.capacity()),
            host: self.host,
            data: Seq::new(
                self.capacity(),
                |j: int|
                    if distance(self.target, j as nat, self.capacity()) < bytes.len() {
                        bytes[distance(self.target, j as nat, self.capacity()) as int]
                    } else {
                        self.data[j]
                    },
            ),
        }
    }

    /// The ring after the producer has written `bytes` from `ahead` slots
    /// after its cursor on, the cursor not yet moved.
    pub open spec fn stage(self, ahead: nat, bytes: Seq<u8>) -> RingState {
        RingState {
            data: Seq::new(
                self.capacity(),
                |j: int|
                    if ahead <= distance(self.target, j as nat, self.capacity()) < ahead
                        + bytes.len() {
                        bytes[distance(self.target, j as nat, self.capacity()) - ahead]
                    } else {
                        self.data[j]
                    },
            ),
            ..self
        }
    }

    /// The ring after the producer has moved its cursor `n` slots on.
    pub open spec fn publish(self, n: nat) -> RingState {
        RingState { target: advance(self.target, n, self.capacity()), ..self }
    }

    /// The ring after the consumer has moved its cursor past `n` bytes.
    pub open spec fn release(self, n: nat) -> RingState {
        RingState { host: advance(self.host, n, self.capacity()), ..self }
    }
}

/// Writing within the free space appends to the unread bytes and leaves the
/// consumer cursor alone.
pub proof fn lemma_put_pending(s: RingState, bytes: Seq<u8>)
    requires
        s.wf(),
        bytes.len() <= s.free(),
    ensures
        s.put(bytes).wf(),
        s.put(bytes).capacity() == s.capacity(),
        s.put(bytes).host == s.host,
        s.put(bytes).available() == s.available() + bytes.len(),
        s.put(bytes).free() == s.free() - bytes.len(),
        s.put(bytes).pending() == s.pending() + bytes,
{
    let c = s.capacity();
    let m = s.put(bytes);
    law_distance_in_range(s.host, s.target, c);
    lemma_advance(s.target, bytes.len(), c);
    law_distance_in_range(m.host, m.target, c);
    assert(m.pending() =~= s.pending() + bytes) by {
        assert forall|i: int| 0 <= i < m.available() implies m.pending()[i] == (s.pending()
            + bytes)[i] by {
            lemma_advance(s.host, i as nat, c);
            let p = advance(s.host, i as nat, c);
            law_distance_in_range(s.target, p, c);
        }
    }
}

/// The bytes that were written stand on the ring from the old producer
/// cursor on, in ring order.
pub proof fn lemma_put_window(s: RingState, bytes: Seq<u8>)
    requires
        s.wf(),
        bytes.len() <= s.capacity(),
    ensures
        s.put(bytes).window(s.target, bytes.len()) == bytes,
{
    let c = s.capacity();
    let m = s.put(bytes);
    assert(m.window(s.target, bytes.len()) =~= bytes) by {
        assert forall|i: int| 0 <= i < bytes.len() implies m.window(s.target, bytes.len())[i]
            == bytes[i] by {
            lemma_advance(s.target, i as nat, c);
            law_distance_in_range(s.target, advance(s.target, i as nat, c), c);
        }
    }
}

/// Moving the consumer cursor past `n` unread bytes drops them from the
/// front of the unread bytes and frees `n` slots for the producer.
pub proof fn law_release_frees(s: RingState, n: nat)
    requires
        s.wf(),
        n <= s.available(),
    ensures
        s.release(n).wf(),
        s.release(n).target == s.target,
        s.release(n).data == s.data,
        s.release(n).host == advance(s.host, n, s.capacity()),
        s.release(n).available() == s.available() - n,
        s.release(n).free() == s.free() + n,
        s.release(n).pending() == s.pending().skip(n as int),
{
    let c = s.capacity();
    let m = s.release(n);
    law_distance_in_range(s.host, s.target, c);
    lemma_advance(s.host, n, c);
    law_distance_in_range(m.host, m.target, c);
    assert(m.pending() =~= s.pending().skip(n as int)) by {
        assert forall|i: int| 0 <= i < m.available() implies m.pending()[i] == s.pending().skip(
            n as int,
        )[i] by {
            lemma_advance(m.host, i as nat, c);
            lemma_advance(s.host, (i + n) as nat, c);
        }
    }
}

/// A window that runs past the end of the region is the tail of the region
/// followed by its head; one that does not is a plain slice of it.
pub proof fn lemma_window_split(s: RingState, start: nat, n: nat)
    requires
        s.wf(),
        start < s.capacity(),
        n <= s.capacity(),
    ensures
        start + n <= s.capacity() ==> s.window(start, n) == s.data.subrange(
            start as int,
            (start + n) as int,
        ),
        start + n > s.capacity() ==> s.window(start, n) == s.data.subrange(
            start as int,
            s.capacity() as int,
        ) + s.data.subrange(0, start + n - s.capacity()),
{
    let c = s.capacity();
    let w = s.window(start, n);
    if start + n <= c {
        let flat = s.data.subrange(start as int, (start + n) as int);
        assert(w =~= flat) by {
            assert forall|i: int| 0 <= i < n implies w[i] == flat[i] by {
                lemma_advance(start, i as nat, c);
            }
        }
    } else {
        let bent = s.data.subrange(start as int, c as int) + s.data.subrange(0, start + n - c);
        assert(w =~= bent) by {
            assert forall|i: int| 0 <= i < n implies w[i] == bent[i] by {
                lemma_advance(start, i as nat, c);
            }
        }
    }
}

/// Writing bytes and then moving the cursor past them, once, is the whole
/// of a write.
pub proof fn lemma_put_is_publish(s: RingState, bytes: Seq<u8>)
    requires
        s.wf(),
    ensures
        s.put(bytes) == s.stage(0, bytes).publish(bytes.len()),
{
    assert(s.put(bytes).data =~= s.stage(0, bytes).data);
}

/// Bytes written behind bytes are written as one.
pub proof fn lemma_stage_stage(s: RingState, ahead: nat, a: Seq<u8>, b: Seq<u8>)
    requires
        s.wf(),
    ensures
        s.stage(ahead, a).stage(ahead + a.len(), b) == s.stage(ahead, a + b),
        s.stage(ahead, a).wf(),
{
    let c = s.capacity();
    let m = s.stage(ahead, a);
    assert(m.stage(ahead + a.len(), b).data =~= s.stage(ahead, a + b).data);
}

/// Writing no bytes changes nothing.
pub proof fn lemma_stage_nothing(s: RingState, ahead: nat)
    requires
        s.wf(),
    ensures
        s.stage(ahead, Seq::empty()) == s,
{
    assert(s.stage(ahead, Seq::empty()).data =~= s.data);
}

/// One byte written `ahead` slots after the cursor changes the slot there
/// and nothing else.
pub proof fn lemma_stage_one(s: RingState, ahead: nat, byte: u8)
    requires
        s.wf(),
        ahead < s.capacity(),
    ensures
        s.stage(ahead, seq![byte]).data == s.data.update(
            advance(s.target, ahead, s.capacity()) as int,
            byte,
        ),
        advance(s.target, ahead, s.capacity()) == (if s.target + ahead < s.capacity() {
            s.target + ahead
        } else {
            (s.target + ahead - s.capacity()) as nat
        }),
{
    let c = s.capacity();
    lemma_advance(s.target, ahead, c);
    let at = advance(s.target, ahead, c);
    assert(s.stage(ahead, seq![byte]).data =~= s.data.update(at as int, byte)) by {
        assert forall|j: int| 0 <= j < c implies s.stage(ahead, seq![byte]).data[j]
            == s.data.update(at as int, byte)[j] by {
            law_distance_in_range(s.target, j as nat, c);
        }
    }
}

/// A frame that is admitted leaves the ring well formed: the unread bytes
/// grow by exactly the frame's bytes, and the free space stays at or above
/// zero.
pub proof fn law_admission_safety(s: RingState, f: Frame)
    requires
        s.wf(),
        f.encodable(),
        s.admits(f.payload.len()),
    ensures
        s.put(f.wire()).wf(),
        s.put(f.wire()).available() == s.available() + f.wire().len(),
        s.put(f.wire()).free() >= 0,
        s.put(f.wire()).pending() == s.pending() + f.wire(),
        s.put(f.wire()).window(s.target, f.wire().len()) == f.wire(),
{
    crate::frame::lemma_header_len(f);
    lemma_put_pending(s, f.wire());
    lemma_put_window(s, f.wire());
}

/// A frame is admitted exactly where the free space covers its payload and
/// the longest possible header, and so no frame that is longer than the
/// free space is admitted.
pub proof fn law_admission_rule(s: RingState, f: Frame)
    requires
        s.wf(),
        f.encodable(),
    ensures
        s.admits(f.payload.len()) <==> f.payload.len() + 15 <= s.free(),
        f.wire().len() > s.free() ==> !s.admits(f.payload.len()),
{
    crate::frame::lemma_header_len(f);
}

/// A frame whose header takes all of its fifteen bytes and that is exactly
/// as long as the free space is admitted.
pub proof fn law_exact_fit_is_admitted(s: RingState, f: Frame)
    requires
        s.wf(),
        f.encodable(),
        f.header().len() == 15,
        f.wire().len() == s.free(),
    ensures
        s.admits(f.payload.len()),
{
    crate::frame::lemma_header_len(f);
}

/// The ring in the target's memory, with the operations of both sides.
pub struct Cursors {
    target: usize,
    host: usize,
    buf: Vec<u8>,
}

impl View for Cursors {
    type V = RingState;

    closed spec fn view(&self) -> RingState {
        RingState { target: self.target as nat, host: self.host as nat, data: self.buf@ }
    }
}

impl Cursors {
    /// An empty ring of `capacity` slots, all zero.
    pub fn new(capacity: usize) -> (r: Self)
        requires
            1 <= capacity <= u32::MAX,
        ensures
            r@.wf(),
            r@.target == 0,
            r@.host == 0,
            r@.data == Seq::new(capacity as nat, |i: int| 0u8),
    {
        let buf: Vec<u8> = vec![0u8; capacity];
        assert(buf@ =~= Seq::new(capacity as nat, |i: int| 0u8));
        Cursors { target: 0, host: 0, buf }
    }

    /// Whether both cursors lie on the ring and the ring fits 32-bit
    /// cursors. Every ring that `new` made and that the operations below
    /// changed is.
    pub fn is_well_formed(&self) -> (r: bool)
        ensures
            r == self@.wf(),
    {
        1 <= self.buf.len() && self.buf.len() <= 0xffff_ffff && self.target < self.buf.len()
            && self.host < self.buf.len()
    }

    /// The number of slots.
    pub fn capacity(&self) -> (r: usize)
        requires
            self@.wf(),
        ensures
            r == self@.capacity(),
    {
        self.buf.len()
    }

    /// The producer cursor.
    pub fn target(&self) -> (r: usize)
        requires
            self@.wf(),
        ensures
            r == self@.target,
    {
        self.target
    }

    /// The consumer cursor.
    pub fn host(&self) -> (r: usize)
        requires
            self@.wf(),
        ensures
            r == self@.host,
    {
        self.host
    }

    /// The number of bytes written and not yet copied out.
    pub fn len(&self) -> (r: usize)
        requires
            self@.wf(),
        ensures
            r == self@.available(),
            r < self@.capacity(),
    {
        proof {
            law_distance_in_range(self@.host, self@.target, self@.capacity());
        }
        if self.target >= self.host {
            self.target - self.host
        } else {
            self.buf.len() - self.host + self.target
        }
    }

    /// The number of bytes that can still be written.
    pub fn free(&self) -> (r: usize)
        requires
            self@.wf(),
        ensures
            r == self@.free(),
    {
        self.buf.len() - 1 - self.len()
    }

    /// Stores one byte `ahead` slots after the producer cursor. The cursor
    /// stays where it is: the host does not see the byte yet.
    fn store(&mut self, ahead: usize, byte: u8)
        requires
            old(self)@.wf(),
            ahead < old(self)@.capacity(),
        ensures
            final(self)@ == old(self)@.stage(ahead as nat, seq![byte]),
    {
        proof {
            lemma_stage_one(self@, ahead as nat, byte);
        }
        let room: usize = self.buf.len() - self.target;
        let at: usize = if ahead < room {
            self.target + ahead
        } else {
            ahead - room
        };
        self.buf.set(at, byte);
    }

    /// Stores the encoding of `word` from `ahead` slots after the producer
    /// cursor on, and says how far after the cursor the next byte goes.
    fn store_leb128(&mut self, ahead: usize, word: u32) -> (next: usize)
        requires
            old(self)@.wf(),
            ahead + encode(word as nat).len() <= old(self)@.capacity(),
        ensures
            next == ahead + encode(word as nat).len(),
            final(self)@ == old(self)@.stage(ahead as nat, encode(word as nat)),
    {
        let ghost start = self@;
        let ghost mut done: Seq<u8> = Seq::empty();
        let mut rest: u32 = word;
        let mut at: usize = ahead;
        proof {
            lemma_stage_nothing(start, ahead as nat);
        }
        loop
            invariant
                start.wf(),
                start == old(self)@,
                at == ahead + done.len(),
                self@ == start.stage(ahead as nat, done),
                encode(word as nat) == done + encode(rest as nat),
                ahead + encode(word as nat).len() <= start.capacity(),
            decreases rest,
        {
            let (byte, next) = split_low(rest);
            let ghost before = done;
            proof {
                crate::leb128::lemma_encode_shape(rest as nat);
                lemma_stage_stage(start, ahead as nat, before, seq![byte]);
                done = before + seq![byte];
            }
            self.store(at, byte);
            at = at + 1;
            if next == 0 {
                assert(done =~= before + encode(rest as nat));
                return at;
            }
            assert(done + encode(next as nat) =~= before + encode(rest as nat));
            rest = next;
        }
    }

    /// Moves the producer cursor `n` slots on: the host sees what was
    /// stored there.
    fn publish(&mut self, n: usize)
        requires
            old(self)@.wf(),
            n <= old(self)@.capacity(),
        ensures
            final(self)@ == old(self)@.publish(n as nat),
            final(self)@.target < final(self)@.capacity(),
    {
        proof {
            lemma_advance(self@.target, n as nat, self@.capacity());
        }
        let room: usize = self.buf.len() - self.target;
        self.target = if n < room {
            self.target + n
        } else {
            n - room
        };
    }

    /// Writes one byte under the producer cursor and moves the cursor on.
    pub fn push(&mut self, byte: u8)
        requires
            old(self)@.wf(),
            old(self)@.free() >= 1,
        ensures
            final(self)@.wf(),
            final(self)@ == old(self)@.put(seq![byte]),
    {
        proof {
            lemma_put_is_publish(self@, seq![byte]);
            lemma_stage_stage(self@, 0, seq![byte], Seq::empty());
        }
        self.store(0, byte);
        self.publish(1);
    }

    /// Writes the encoding of `word` and moves the cursor past it.
    pub fn leb128_write(&mut self, word: u32)
        requires
            old(self)@.wf(),
            encode(word as nat).len() <= old(self)@.free(),
        ensures
            final(self)@.wf(),
            final(self)@ == old(self)@.put(encode(word as nat)),
    {
        proof {
            lemma_put_is_publish(self@, encode(word as nat));
            lemma_stage_stage(self@, 0, encode(word as nat), Seq::empty());
        }
        let n = self.store_leb128(0, word);
        self.publish(n);
    }

    /// Appends one frame, or drops it whole where the free space does not
    /// cover its payload and the longest possible header. The bytes of the
    /// frame are stored first, and the producer cursor is moved past them
    /// once, after the last of them.
    pub fn write_frame(&mut self, sym: u32, type_str: u32, data: &[u8])
        requires
            old(self)@.wf(),
        ensures
            final(self)@.wf(),
            old(self)@.admits(data@.len()) ==> {
                let wire = (Frame {
                    fmt_key: sym as nat,
                    type_key: type_str as nat,
                    payload: data@,
                }).wire();
                &&& final(self)@ == old(self)@.put(wire)
                &&& final(self)@.available() == old(self)@.available() + wire.len()
                &&& final(self)@.pending() == old(self)@.pending() + wire
            },
            !old(self)@.admits(data@.len()) ==> final(self)@ == old(self)@,
    {
        let data_len: usize = data.len();
        let free: usize = self.free();
        if free < MAX_HEADER_LEN || free - MAX_HEADER_LEN < data_len {
            return ;
        }
        let ghost start = self@;
        let ghost f = Frame { fmt_key: sym as nat, type_key: type_str as nat, payload: data@ };
        let ghost e1 = encode(data_len as nat);
        let ghost e2 = encode(sym as nat);
        let ghost e3 = encode(type_str as nat);
        proof {
            law_admission_safety(start, f);
            crate::frame::lemma_header_len(f);
            crate::leb128::law_decode_encode(data_len as u32);
            crate::leb128::law_decode_encode(sym);
            crate::leb128::law_decode_encode(type_str);
            lemma_stage_stage(start, 0, e1, e2);
            lemma_stage_stage(start, 0, e1 + e2, e3);
            lemma_put_is_publish(start, f.wire());
        }
        let after_len = self.store_leb128(0, data_len as u32);
        let after_sym = self.store_leb128(after_len, sym);
        let after_type = self.store_leb128(after_sym, type_str);
        let mut i: usize = 0;
        while i < data_len
            invariant
                i <= data_len,
                data_len == data@.len(),
                start.wf(),
                after_type == f.header().len(),
                f.header().len() + data_len <= start.free(),
                self@ == start.stage(0, f.header() + data@.take(i as int)),
            decreases data_len - i,
        {
            let ghost done = f.header() + data@.take(i as int);
            proof {
                lemma_stage_stage(start, 0, done, seq![data@[i as int]]);
                assert(done + seq![data@[i as int]] =~= f.header() + data@.take(i + 1));
            }
            self.store(after_type + i, data[i]);
            i += 1;
        }
        assert(data@.take(data_len as int) =~= data@);
        // Publish: the cursor moves once, after all bytes are in place.
        self.publish(after_type + data_len);
    }

    /// The `len` bytes of the region from position `start` on, as one read
    /// of the target's memory returns them.
    pub fn copy_out(&self, start: usize, len: usize) -> (out: Vec<u8>)
        requires
            self@.wf(),
            start + len <= self@.capacity(),
        ensures
            out@ == self@.data.subrange(start as int, start + len),
    {
        let mut out: Vec<u8> = Vec::new();
        let mut i: usize = 0;
        while i < len
            invariant
                i <= len,
                start + len <= self.buf.len(),
                out@ == self.buf@.subrange(start as int, start + i),
            decreases len - i,
        {
            out.push(self.buf[start + i]);
            assert(out@ =~= self.buf@.subrange(start as int, start + i + 1));
            i += 1;
        }
        out
    }

    /// Moves the consumer cursor past `n` unread bytes.
    pub fn release(&mut self, n: usize)
        requires
            old(self)@.wf(),
            n <= old(self)@.available(),
        ensures
            final(self)@.wf(),
            final(self)@ == old(self)@.release(n as nat),
    {
        proof {
            law_distance_in_range(self@.host, self@.target, self@.capacity());
            lemma_advance(self@.host, n as nat, self@.capacity());
        }
        let cap: usize = self.buf.len();
        let room: usize = cap - self.host;
        self.host = if n < room {
            self.host + n
        } else {
            n - room
        };
    }
}

} // verus!
