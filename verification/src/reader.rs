//! The host's side of the ring: how many bytes wait to be read, where they
//! lie, and where the consumer cursor stands afterwards.

use crate::ring::Cursors;
use crate::ring::RingState;
use crate::ring::advance;
use crate::ring::distance;
use crate::ring::law_distance_in_range;
use crate::ring::law_release_frees;
use crate::ring::lemma_advance;
use crate::ring::lemma_window_split;
use vstd::prelude::*;

verus! {

/// The reads that copy the unread bytes out of the ring, and the consumer
/// cursor to publish once they are done.
#[derive(Debug, Clone, Copy, PartialEq, Eq, Structural)]
pub struct Transfer {
    /// Offset of the first read from the start of the region.
    pub first_start: usize,
    /// Length of the first read.
    pub first_len: usize,
    /// Length of the second read, which starts at offset zero; zero where
    /// one read is enough.
    pub second_len: usize,
    /// The consumer cursor after the transfer.
    pub new_host: usize,
}

impl Transfer {
    /// The number of bytes transferred.
    pub open spec fn total(self) -> nat {
        (self.first_len + self.second_len) as nat
    }
}

/// The transfer for cursors `host` and `target` on a ring of `c` slots: one
/// read where the unread bytes do not pass the end of the region, else the
/// tail of the region and then its head.
pub open spec fn plan(host: nat, target: nat, c: nat) -> Transfer {
    let n = distance(host, target, c);
    if host + n <= c {
        Transfer {
            first_start: host as usize,
            first_len: n as usize,
            second_len: 0,
            new_host: advance(host, n, c) as usize,
        }
    } else {
        Transfer {
            first_start: host as usize,
            first_len: (c - host) as usize,
            second_len: (n - (c - host)) as usize,
            new_host: advance(host, n, c) as usize,
        }
    }
}

/// The number of bytes between the consumer cursor and the producer cursor.
pub fn bytes_to_read(host: usize, target: usize, buffer_size: usize) -> (n: usize)
    requires
        host < buffer_size,
        target < buffer_size,
    ensures
        n == distance(host as nat, target as nat, buffer_size as nat),
        n < buffer_size,
{
    proof {
        law_distance_in_range(host as nat, target as nat, buffer_size as nat);
    }
    if target >= host {
        target - host
    } else {
        buffer_size - host + target
    }
}

/// Plans the reads for one poll of the ring.
pub fn plan_transfer(host: usize, target: usize, buffer_size: usize) -> (t: Transfer)
    requires
        host < buffer_size,
        target < buffer_size,
    ensures
        t == plan(host as nat, target as nat, buffer_size as nat),
        t.first_start + t.first_len <= buffer_size,
        t.second_len <= host,
        t.new_host == target,
{
    let n: usize = bytes_to_read(host, target, buffer_size);
    proof {
        law_distance_in_range(host as nat, target as nat, buffer_size as nat);
        lemma_advance(host as nat, n as nat, buffer_size as nat);
    }
    let room: usize = buffer_size - host;
    if n <= room {
        Transfer { first_start: host, first_len: n, second_len: 0, new_host: target }
    } else {
        Transfer { first_start: host, first_len: room, second_len: n - room, new_host: target }
    }
}

/// What the host does after it has read the two cursors.
#[derive(Debug, Clone, Copy, PartialEq, Eq, Structural)]
pub enum PollAction {
    /// Nothing was written since the last poll: wait a moment and read the
    /// cursors again.
    Wait,
    /// Copy the unread bytes out and publish the consumer cursor.
    Read(Transfer),
    /// A cursor lies outside the ring.
    Fault,
}

/// What the host does after it has read the cursors `target` and `host`,
/// where the producer cursor stood at `previous_target` at the last poll:
/// it waits while the producer cursor stands still, and transfers the unread
/// bytes once it has moved.
pub open spec fn next_action(previous_target: usize, host: usize, target: usize, c: usize) -> PollAction {
    if target == previous_target {
        PollAction::Wait
    } else if host >= c || target >= c {
        PollAction::Fault
    } else {
        PollAction::Read(plan(host as nat, target as nat, c as nat))
    }
}

/// Decides what to do after one reading of the cursors.
pub fn poll_step(previous_target: usize, host: usize, target: usize, buffer_size: usize) -> (r:
    PollAction)
    ensures
        r == next_action(previous_target, host, target, buffer_size),
{
    if target == previous_target {
        PollAction::Wait
    } else if host >= buffer_size || target >= buffer_size {
        PollAction::Fault
    } else {
        PollAction::Read(plan_transfer(host, target, buffer_size))
    }
}

/// The planned reads, one after the other, give the unread bytes in the
/// order in which they were written, and the cursor to publish is the
/// producer cursor that was seen. Two reads are planned exactly where the
/// unread bytes pass the end of the region.
pub proof fn law_transfer_reads_pending(s: RingState)
    requires
        s.wf(),
    ensures
        ({
            let t = plan(s.host, s.target, s.capacity());
            &&& t.total() == s.available()
            &&& t.first_start + t.first_len <= s.capacity()
            &&& t.second_len <= s.capacity()
            &&& s.data.subrange(t.first_start as int, t.first_start + t.first_len)
                + s.data.subrange(0, t.second_len as int) == s.pending()
            &&& t.new_host == s.target
            &&& (t.second_len > 0 <==> s.host + s.available() > s.capacity())
        }),
{
    let c = s.capacity();
    let n = s.available();
    law_distance_in_range(s.host, s.target, c);
    lemma_advance(s.host, n, c);
    lemma_window_split(s, s.host, n);
    let t = plan(s.host, s.target, c);
    if s.host + n <= c {
        assert(s.data.subrange(0, 0) =~= Seq::<u8>::empty());
        assert(s.pending() + Seq::<u8>::empty() =~= s.pending());
    }
}

/// Publishing the consumer cursor after a transfer of `n` bytes raises the
/// producer's free space by `n`.
pub proof fn law_publish_frees(s: RingState)
    requires
        s.wf(),
    ensures
        ({
            let t = plan(s.host, s.target, s.capacity());
            let after = RingState { host: t.new_host as nat, ..s };
            &&& after == s.release(s.available())
            &&& after.wf()
            &&& after.free() == s.free() + s.available()
            &&& after.available() == 0
        }),
{
    let c = s.capacity();
    law_distance_in_range(s.host, s.target, c);
    lemma_advance(s.host, s.available(), c);
    law_release_frees(s, s.available());
}

/// One poll of the ring: copies the unread bytes out, in one read or two,
/// and then moves the consumer cursor past them.
pub fn transfer(ring: &mut Cursors) -> (out: Vec<u8>)
    requires
        old(ring)@.wf(),
    ensures
        final(ring)@.wf(),
        out@ == old(ring)@.pending(),
        final(ring)@ == old(ring)@.release(old(ring)@.available()),
{
    let t = plan_transfer(ring.host(), ring.target(), ring.capacity());
    proof {
        law_transfer_reads_pending(ring@);
    }
    let mut out = ring.copy_out(t.first_start, t.first_len);
    let mut tail = ring.copy_out(0, t.second_len);
    out.append(&mut tail);
    ring.release(t.first_len + t.second_len);
    out
}

} // verus!
