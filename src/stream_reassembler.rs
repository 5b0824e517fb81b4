use vstd::prelude::*;
use vstd::arithmetic::div_mod::{lemma_fundamental_div_mod, lemma_mod_sub_multiples_vanish};
use vstd::set_lib::*;

use crate::byte_stream::{ByteStream, StreamModel};

verus! {

/// Length of the run of consecutive pending indices that starts at `start`,
/// looking at no more than `max` of them.
pub open spec fn run_len(pending: Map<int, u8>, start: int, max: nat) -> nat
    decreases max,
{
    if max == 0 || !pending.contains_key(start) {
        0
    } else {
        1 + run_len(pending, start + 1, (max - 1) as nat)
    }
}

/// The `n` pending bytes from `start` on.
pub open spec fn run_bytes(pending: Map<int, u8>, start: int, n: nat) -> Seq<u8> {
    Seq::new(n, |i: int| pending[start + i])
}

pub open spec fn min_int(a: int, b: int) -> int {
    if a <= b { a } else { b }
}

pub open spec fn max_int(a: int, b: int) -> int {
    if a >= b { a } else { b }
}

/// The abstract state of a reassembler: its output stream, the bytes it holds
/// that are not yet written to the stream (by absolute index), and where the
/// stream ends once that is known.
pub struct ReassemblerModel {
    pub stream: StreamModel,
    pub pending: Map<int, u8>,
    pub eof_index: Option<int>,
}

impl ReassemblerModel {
    /// Index of the next byte the output stream expects.
    pub open spec fn first_unassembled(self) -> int {
        self.stream.bytes_written as int
    }

    /// One past the last index that fits: the first unread byte plus the
    /// capacity, capped at the largest count a stream can reach.
    pub open spec fn window_end(self) -> int {
        min_int((self.stream.bytes_read + self.stream.capacity) as int, usize::MAX as int)
    }

    /// The stream is consistent and every pending byte lies in the window.
    pub open spec fn bounded(self) -> bool {
        &&& self.stream.wf()
        &&& self.first_unassembled() <= self.window_end()
        &&& self.pending.dom().finite()
        &&& forall|i: int| #[trigger] self.pending.contains_key(i) ==>
                self.first_unassembled() <= i < self.window_end()
    }

    /// Besides, nothing is left waiting at the front of the window while the
    /// stream still takes bytes.
    pub open spec fn wf(self) -> bool {
        &&& self.bounded()
        &&& (self.pending.contains_key(self.first_unassembled()) ==> self.stream.ended
                || self.stream.error)
    }

    pub open spec fn fresh(capacity: nat) -> ReassemblerModel {
        ReassemblerModel {
            stream: StreamModel::fresh(capacity),
            pending: Map::empty(),
            eof_index: None,
        }
    }

    /// Start of the part of a fragment at `index` that is not yet delivered.
    pub open spec fn trim_lo(self, index: int) -> int {
        max_int(index, self.first_unassembled())
    }

    /// End of the part of a fragment that fits in the window.
    pub open spec fn trim_hi(self, data: Seq<u8>, index: int) -> int {
        min_int(index + data.len(), self.window_end())
    }

    /// A fragment is taken if some of its bytes are new and fit, or if it
    /// carries the end of the stream at or before the window's edge.
    pub open spec fn accepts(self, data: Seq<u8>, index: int, eof: bool) -> bool {
        self.trim_lo(index) < self.trim_hi(data, index) || (eof && index + data.len()
            <= self.window_end())
    }

    /// The bytes of a fragment that are kept, by absolute index.
    pub open spec fn fragment(self, data: Seq<u8>, index: int) -> Map<int, u8> {
        Map::new(
            |i: int| self.trim_lo(index) <= i < self.trim_hi(data, index),
            |i: int| data[i - index],
        )
    }

    /// Where the stream ends, given an accepted fragment that carries the end.
    pub open spec fn eof_of(self, data: Seq<u8>, index: int) -> int {
        if self.trim_lo(index) < self.trim_hi(data, index) {
            self.trim_hi(data, index)
        } else {
            index + data.len()
        }
    }

    /// The state after merging an accepted fragment; newer bytes replace older ones.
    pub open spec fn merged(self, data: Seq<u8>, index: int, eof: bool) -> ReassemblerModel {
        ReassemblerModel {
            pending: self.pending.union_prefer_right(self.fragment(data, index)),
            eof_index: if eof && self.eof_index is None {
                Some(self.eof_of(data, index))
            } else {
                self.eof_index
            },
            ..self
        }
    }

    /// The state after writing the pending run at the stream's front, and
    /// closing the stream once everything up to its end has been written.
    pub open spec fn flushed(self) -> ReassemblerModel {
        let u = self.first_unassembled();
        let run = run_bytes(self.pending, u, run_len(self.pending, u, self.stream.remaining()));
        let n = self.stream.accepted(run);
        let s1 = self.stream.write(run);
        ReassemblerModel {
            stream: if self.eof_index is Some && s1.bytes_written >= self.eof_index->0 {
                s1.end_input()
            } else {
                s1
            },
            pending: self.pending.remove_keys(Set::new(|i: int| u <= i < u + n)),
            ..self
        }
    }

    /// The state after `push_substring(data, index, eof)`.
    pub open spec fn push(self, data: Seq<u8>, index: int, eof: bool) -> ReassemblerModel {
        if self.accepts(data, index, eof) {
            self.merged(data, index, eof).flushed()
        } else {
            self
        }
    }

    /// The state after the application reads `len` bytes of the output.
    pub open spec fn read(self, len: nat) -> ReassemblerModel {
        ReassemblerModel { stream: self.stream.pop(len), ..self }
    }
}

/// The part `[lo, hi)` of a fragment that starts at `index`, by absolute index.
spec fn fragment_part(data: Seq<u8>, index: int, lo: int, hi: int) -> Map<int, u8> {
    Map::new(|i: int| lo <= i < hi, |i: int| data[i - index])
}

/// The pending bytes held by a ring of `c` slots for the window that starts
/// at `u`: index `i` lives in slot `i % c`.
spec fn ring_pending(u: int, c: int, present: Seq<bool>, bytes: Seq<u8>) -> Map<int, u8> {
    Map::new(|i: int| u <= i < u + c && present[i % c], |i: int| bytes[i % c])
}

proof fn lemma_slot_unique(c: int, u: int, i: int, j: int)
    requires
        0 < c,
        u <= i < u + c,
        u <= j < u + c,
        i % c == j % c,
    ensures
        i == j,
{
    lemma_fundamental_div_mod(i, c);
    lemma_fundamental_div_mod(j, c);
    let qi = i / c;
    let qj = j / c;
    assert(i - j == c * (qi - qj)) by (nonlinear_arith)
        requires
            i == c * qi + i % c,
            j == c * qj + j % c,
            i % c == j % c;
    if qi > qj {
        assert(i - j >= c) by (nonlinear_arith)
            requires i - j == c * (qi - qj), qi - qj >= 1, c > 0;
    } else if qi < qj {
        assert(j - i >= c) by (nonlinear_arith)
            requires i - j == c * (qi - qj), qj - qi >= 1, c > 0;
    } else {
        assert(i - j == 0) by (nonlinear_arith) requires i - j == c * (qi - qj), qi == qj;
    }
}

proof fn lemma_slot_range(c: int, i: int)
    requires
        0 < c,
    ensures
        0 <= i % c < c,
{
    lemma_fundamental_div_mod(i, c);
}

proof fn lemma_ring_finite(u: int, c: int, present: Seq<bool>, bytes: Seq<u8>)
    requires
        0 <= c,
    ensures
        ring_pending(u, c, present, bytes).dom().finite(),
        ring_pending(u, c, present, bytes).dom().subset_of(set_int_range(u, u + c)),
{
    lemma_int_range(u, u + c);
    lemma_set_subset_finite(set_int_range(u, u + c), ring_pending(u, c, present, bytes).dom());
}

/// Storing `b` in the slot of `p` adds `p` to the pending bytes.
proof fn lemma_ring_set(u: int, c: int, present: Seq<bool>, bytes: Seq<u8>, p: int, b: u8)
    requires
        0 < c,
        present.len() == c,
        bytes.len() == c,
        u <= p < u + c,
    ensures
        ring_pending(u, c, present.update(p % c, true), bytes.update(p % c, b)) == ring_pending(
            u,
            c,
            present,
            bytes,
        ).insert(p, b),
{
    lemma_slot_range(c, p);
    let m1 = ring_pending(u, c, present.update(p % c, true), bytes.update(p % c, b));
    let m0 = ring_pending(u, c, present, bytes).insert(p, b);
    assert forall|i: int| u <= i < u + c && i != p implies #[trigger] (i % c) != p % c by {
        if i % c == p % c {
            lemma_slot_unique(c, u, i, p);
        }
    };
    assert forall|i: int| u <= i < u + c implies 0 <= #[trigger] (i % c) < c by {
        lemma_slot_range(c, i);
    };
    assert(m1 =~= m0);
}

/// Clearing the slot of `p` removes `p` from the pending bytes.
proof fn lemma_ring_clear(u: int, c: int, present: Seq<bool>, bytes: Seq<u8>, p: int)
    requires
        0 < c,
        present.len() == c,
        bytes.len() == c,
        u <= p < u + c,
    ensures
        ring_pending(u, c, present.update(p % c, false), bytes) == ring_pending(
            u,
            c,
            present,
            bytes,
        ).remove(p),
{
    lemma_slot_range(c, p);
    assert forall|i: int| u <= i < u + c && i != p implies #[trigger] (i % c) != p % c by {
        if i % c == p % c {
            lemma_slot_unique(c, u, i, p);
        }
    };
    assert forall|i: int| u <= i < u + c implies 0 <= #[trigger] (i % c) < c by {
        lemma_slot_range(c, i);
    };
    assert(ring_pending(u, c, present.update(p % c, false), bytes) =~= ring_pending(
        u,
        c,
        present,
        bytes,
    ).remove(p));
}

/// Moving the window past `k` indices that hold nothing keeps the pending bytes.
proof fn lemma_ring_advance(u: int, k: int, c: int, present: Seq<bool>, bytes: Seq<u8>)
    requires
        0 <= k <= c,
        u >= 0,
        forall|j: int| u <= j < u + k ==> !ring_pending(u, c, present, bytes).contains_key(j),
    ensures
        ring_pending(u + k, c, present, bytes) == ring_pending(u, c, present, bytes),
{
    let m0 = ring_pending(u, c, present, bytes);
    let m1 = ring_pending(u + k, c, present, bytes);
    assert forall|i: int| u + c <= i < u + k + c implies !present[#[trigger] (i % c)] by {
        lemma_mod_sub_multiples_vanish(i, c);
        assert(!m0.contains_key(i - c));
    };
    assert(m1 =~= m0);
}

/// At all times the bytes held back and the bytes buffered in the output
/// together fit in the capacity.
pub proof fn lemma_unassembled_within_capacity(m: ReassemblerModel)
    requires
        m.bounded(),
    ensures
        m.pending.dom().len() + m.stream.buffer.len() <= m.stream.capacity,
{
    let u = m.first_unassembled();
    let w = m.window_end();
    lemma_int_range(u, w);
    assert(m.pending.dom().subset_of(set_int_range(u, w)));
    lemma_len_subset(m.pending.dom(), set_int_range(u, w));
}

/// Merges out-of-order substrings of a byte stream into an output `ByteStream`.
pub struct StreamReassembler {
    capacity: usize,
    bytes: Vec<u8>,
    present: Vec<bool>,
    unassembled: usize,
    output: ByteStream,
    eof_index: Option<u64>,
}

impl View for StreamReassembler {
    type V = ReassemblerModel;

    closed spec fn view(&self) -> ReassemblerModel {
        ReassemblerModel {
            stream: self.output@,
            pending: ring_pending(
                self.output@.bytes_written as int,
                self.capacity as int,
                self.present@,
                self.bytes@,
            ),
            eof_index: match self.eof_index {
                Some(e) => Some(e as int),
                None => None,
            },
        }
    }
}

impl StreamReassembler {
    /// The ring matches the output stream and the count of pending bytes.
    closed spec fn ring_wf(&self) -> bool {
        &&& self.output.wf()
        &&& self.output@.capacity == self.capacity
        &&& self.bytes@.len() == self.capacity
        &&& self.present@.len() == self.capacity
        &&& self@.bounded()
        &&& self.unassembled == self@.pending.dom().len()
    }

    pub closed spec fn wf(&self) -> bool {
        &&& self.ring_wf()
        &&& self@.wf()
    }

    /// Merges the part `[lo, hi)` of a fragment into the ring.
    fn insert_fragment(&mut self, data: &[u8], index: u64, lo: u64, hi: u64)
        requires
            old(self).ring_wf(),
            lo as int == old(self)@.trim_lo(index as int),
            hi as int == old(self)@.trim_hi(data@, index as int),
        ensures
            final(self).ring_wf(),
            final(self)@ == (ReassemblerModel {
                pending: old(self)@.pending.union_prefer_right(old(self)@.fragment(data@, index as int)),
                ..old(self)@
            }),
    {
        let ghost u = self.output@.bytes_written as int;
        let ghost c = self.capacity as int;
        let ghost p0 = self@.pending;
        let cap: u64 = self.capacity as u64;
        let mut p: u64 = lo;
        while p < hi
            invariant
                self.output == old(self).output,
                self.capacity == old(self).capacity,
                self.eof_index == old(self).eof_index,
                cap == c,
                c == self.capacity,
                u == self.output@.bytes_written,
                p0 == old(self)@.pending,
                lo <= p,
                lo < hi ==> p <= hi,
                lo >= hi ==> p == lo,
                lo as int == old(self)@.trim_lo(index as int),
                hi as int == old(self)@.trim_hi(data@, index as int),
                self@.pending == p0.union_prefer_right(
                    fragment_part(data@, index as int, lo as int, p as int),
                ),
                self.ring_wf(),
            decreases hi - p,
        {
            let slot: usize = (p % cap) as usize;
            let b: u8 = data[(p - index) as usize];
            let ghost pres0 = self.present@;
            let ghost bytes0 = self.bytes@;
            let ghost m0 = self@.pending;
            proof {
                lemma_slot_range(c, p as int);
                lemma_ring_set(u, c, pres0, bytes0, p as int, b);
                lemma_ring_finite(u, c, pres0, bytes0);
            }
            if !self.present[slot] {
                proof {
                    lemma_int_range(u, u + c);
                    let range = set_int_range(u, u + c);
                    assert(m0.dom().subset_of(range.remove(p as int)));
                    lemma_len_subset(m0.dom(), range.remove(p as int));
                }
                self.unassembled = self.unassembled + 1;
                self.present.set(slot, true);
            } else {
                assert(self.present@ =~= pres0.update(slot as int, true));
                assert(m0.dom().insert(p as int) =~= m0.dom());
            }
            self.bytes.set(slot, b);
            proof {
                lemma_ring_finite(u, c, self.present@, self.bytes@);
                assert(self@.pending == m0.insert(p as int, b));
                assert(self@.pending =~= p0.union_prefer_right(
                    fragment_part(data@, index as int, lo as int, p + 1),
                ));
            }
            p = p + 1;
        }
        assert(fragment_part(data@, index as int, lo as int, p as int) =~= old(self)@.fragment(
            data@,
            index as int,
        ));
    }

    /// Writes the run of pending bytes at the front of the window into the
    /// output, then closes the output if its end has been reached.
    fn flush(&mut self)
        requires
            old(self).ring_wf(),
        ensures
            final(self).wf(),
            final(self)@ == old(self)@.flushed(),
    {
        let ghost m0 = self@;
        let ghost u = m0.first_unassembled();
        let ghost c = self.capacity as int;
        let ghost pp = m0.pending;
        let ghost run = run_bytes(pp, u, run_len(pp, u, m0.stream.remaining()));
        if self.output.input_ended() || self.output.error() {
            assert(m0.stream.buffer + run.take(0) =~= m0.stream.buffer);
            assert(pp.remove_keys(Set::new(|i: int| u <= i < u + 0)) =~= pp);
        } else {
            let cap: u64 = self.capacity as u64;
            let room: usize = self.output.remaining_capacity();
            let written: usize = self.output.bytes_written();
            let read: usize = self.output.bytes_read();
            let w: usize = if read <= usize::MAX - self.capacity {
                read + self.capacity
            } else {
                usize::MAX
            };
            let limit: usize = if room <= w - written { room } else { w - written };
            let start: u64 = written as u64;
            let mut chunk: Vec<u8> = Vec::new();
            let mut k: usize = 0;
            while k < limit && self.present[((start + k as u64) % cap) as usize]
                invariant
                    self.ring_wf(),
                    self@ == m0,
                    u == m0.first_unassembled(),
                    pp == m0.pending,
                    self.capacity == c,
                    cap == c,
                    start == u,
                    room == m0.stream.remaining(),
                    w == m0.window_end(),
                    limit <= room,
                    limit <= w - u,
                    k <= limit,
                    room <= c,
                    chunk@ == run_bytes(pp, u, k as nat),
                    run_len(pp, u, room as nat) == k + run_len(pp, u + k, (room - k) as nat),
                    forall|i: int| u <= i < u + k ==> #[trigger] pp.contains_key(i),
                decreases limit - k,
            {
                proof {
                    lemma_slot_range(c, u + k);
                }
                let slot: usize = ((start + k as u64) % cap) as usize;
                chunk.push(self.bytes[slot]);
                proof {
                    assert(pp.contains_key(u + k));
                    assert(chunk@ =~= run_bytes(pp, u, (k + 1) as nat));
                }
                k = k + 1;
            }
            proof {
                if k < limit {
                    lemma_slot_range(c, u + k);
                    assert(!pp.contains_key(u + k));
                } else if k < room {
                    assert(!pp.contains_key(u + k));
                }
                assert(run_len(pp, u + k, (room - k) as nat) == 0);
                assert(chunk@ == run);
            }
            let mut j: usize = 0;
            while j < k
                invariant
                    self.output == old(self).output,
                    m0 == old(self)@,
                    u == m0.first_unassembled(),
                    pp == m0.pending,
                    self.capacity == c,
                    self.eof_index == old(self).eof_index,
                    self.bytes@.len() == c,
                    self.present@.len() == c,
                    cap == c,
                    start == u,
                    u == self.output@.bytes_written,
                    k <= limit,
                    limit <= room,
                    room <= c,
                    u + limit <= usize::MAX,
                    room == m0.stream.remaining(),
                    run_len(pp, u, room as nat) == k,
                    chunk@ == run_bytes(pp, u, k as nat),
                    forall|i: int| u <= i < u + k ==> #[trigger] pp.contains_key(i),
                    j <= k,
                    self@.pending == pp.remove_keys(Set::new(|i: int| u <= i < u + j)),
                    self.unassembled == self@.pending.dom().len(),
                    self@.pending.dom().finite(),
                decreases k - j,
            {
                let slot: usize = ((start + j as u64) % cap) as usize;
                let ghost pres0 = self.present@;
                let ghost m1 = self@.pending;
                proof {
                    lemma_slot_range(c, u + j);
                    lemma_ring_clear(u, c, pres0, self.bytes@, u + j);
                    assert(m1.contains_key(u + j));
                }
                self.present.set(slot, false);
                self.unassembled = self.unassembled - 1;
                proof {
                    assert(self@.pending == m1.remove(u + j));
                    assert(self@.pending =~= pp.remove_keys(Set::new(|i: int| u <= i < u + j + 1)));
                }
                j = j + 1;
            }
            proof {
                lemma_ring_advance(u, k as int, c, self.present@, self.bytes@);
            }
            self.output.write(&chunk);
            proof {
                lemma_ring_finite(u + k, c, self.present@, self.bytes@);
                assert(self@.pending == pp.remove_keys(Set::new(|i: int| u <= i < u + k)));
            }
        }
        match self.eof_index {
            Some(e) => {
                if self.output.bytes_written() as u64 >= e {
                    self.output.end_input();
                }
            },
            None => {},
        }
    }

    /// Merges `data`, which starts at absolute index `index`, and writes what
    /// has become contiguous to the output; `eof` marks the fragment's end as
    /// the end of the stream.
    pub fn push_substring(&mut self, data: &[u8], index: u64, eof: bool)
        requires
            old(self).wf(),
        ensures
            final(self).wf(),
            final(self)@.wf(),
            final(self)@ == old(self)@.push(data@, index as int, eof),
    {
        let u: usize = self.output.bytes_written();
        let read: usize = self.output.bytes_read();
        let w: usize = if read <= usize::MAX - self.capacity {
            read + self.capacity
        } else {
            usize::MAX
        };
        let len: u64 = data.len() as u64;
        let w64: u64 = w as u64;
        let end_fits: bool = index <= w64 && len <= w64 - index;
        let lo: u64 = if index > u as u64 { index } else { u as u64 };
        let hi: u64 = if end_fits { index + len } else { w64 };
        if !(lo < hi || (eof && end_fits)) {
            return;
        }
        self.insert_fragment(data, index, lo, hi);
        if eof && self.eof_index.is_none() {
            let e: u64 = if lo < hi { hi } else { index + len };
            self.eof_index = Some(e);
        }
        self.flush();
    }

    /// A reassembler whose output stream holds up to `capacity` bytes.
    pub fn new(capacity: usize) -> (r: Self)
        requires
            capacity < usize::MAX,
        ensures
            r.wf(),
            r@.wf(),
            r@ == ReassemblerModel::fresh(capacity as nat),
    {
        let mut bytes: Vec<u8> = Vec::with_capacity(capacity);
        let mut present: Vec<bool> = Vec::with_capacity(capacity);
        let mut i: usize = 0;
        while i < capacity
            invariant
                i <= capacity,
                bytes@.len() == i,
                present@.len() == i,
                forall|j: int| 0 <= j < i ==> !present@[j],
            decreases capacity - i,
        {
            bytes.push(0);
            present.push(false);
            i = i + 1;
        }
        let r = StreamReassembler {
            capacity,
            bytes,
            present,
            unassembled: 0,
            output: ByteStream::new(capacity),
            eof_index: None,
        };
        proof {
            if capacity > 0 {
                assert forall|k: int| 0 <= k < capacity implies 0 <= #[trigger] (k % (capacity as int)) < capacity by {
                    lemma_slot_range(capacity as int, k);
                };
            }
            assert(r@.pending =~= Map::<int, u8>::empty());
        }
        r
    }

    /// Number of bytes held that are not yet written to the output.
    pub fn unassembled_bytes(&self) -> (r: usize)
        requires
            self.wf(),
        ensures
            r == self@.pending.dom().len(),
    {
        self.unassembled
    }

    /// Whether no bytes are held back.
    pub fn is_empty(&self) -> (r: bool)
        requires
            self.wf(),
        ensures
            r == (self@.pending.dom().len() == 0),
    {
        self.unassembled == 0
    }

    /// The output stream.
    pub fn stream_out(&self) -> (r: &ByteStream)
        requires
            self.wf(),
        ensures
            r.wf(),
            r@ == self@.stream,
    {
        &self.output
    }

    /// Reads up to `len` bytes from the output stream.
    pub fn read_output(&mut self, len: usize) -> (r: Vec<u8>)
        requires
            old(self).wf(),
        ensures
            final(self).wf(),
            final(self)@.wf(),
            r@ == old(self)@.stream.peek(len as nat),
            final(self)@ == old(self)@.read(len as nat),
    {
        self.output.read(len)
    }

    /// Marks the output stream as failed.
    pub fn set_error(&mut self)
        requires
            old(self).wf(),
        ensures
            final(self).wf(),
            final(self)@ == (ReassemblerModel { stream: old(self)@.stream.set_error(), ..old(self)@ }),
    {
        self.output.set_error();
    }
}

} // verus!
