use vstd::prelude::*;
use vstd::set_lib::{lemma_int_range, set_int_range};

use crate::byte_stream::lemma_stream_ops_keep_counters;
use crate::stream_reassembler::{run_bytes, run_len, ReassemblerModel};

verus! {

/// The first `run_len` indices from `start` are pending, and the run stops
/// early only at an index that is not.
pub proof fn lemma_run_len(pending: Map<int, u8>, start: int, max: nat)
    ensures
        run_len(pending, start, max) <= max,
        forall|j: int| 0 <= j < run_len(pending, start, max) ==> #[trigger] pending.contains_key(start + j),
        run_len(pending, start, max) < max ==> !pending.contains_key(start + run_len(pending, start, max)),
    decreases max,
{
    if max > 0 && pending.contains_key(start) {
        lemma_run_len(pending, start + 1, (max - 1) as nat);
        let k = run_len(pending, start + 1, (max - 1) as nat);
        assert forall|j: int| 0 <= j < run_len(pending, start, max) implies
            #[trigger] pending.contains_key(start + j) by {
            if j > 0 {
                assert(pending.contains_key(start + 1 + (j - 1)));
            }
        };
    }
}

/// Flushing a state whose pending bytes lie in the window yields a
/// well-formed state.
pub proof fn lemma_flushed_wf(m: ReassemblerModel)
    requires
        m.bounded(),
    ensures
        m.flushed().wf(),
        m.flushed().stream.bytes_read == m.stream.bytes_read,
        m.flushed().stream.capacity == m.stream.capacity,
        m.flushed().stream.error == m.stream.error,
        m.flushed().eof_index == m.eof_index,
{
    let u = m.first_unassembled();
    let k = run_len(m.pending, u, m.stream.remaining());
    let run = run_bytes(m.pending, u, k);
    lemma_run_len(m.pending, u, m.stream.remaining());
    lemma_stream_ops_keep_counters(m.stream, run, 0);
    lemma_stream_ops_keep_counters(m.stream.write(run), run, 0);
    let f = m.flushed();
    let n = m.stream.accepted(run);
    assert(f.pending.dom() =~= m.pending.dom().difference(Set::new(|i: int| u <= i < u + n)));
    assert(f.pending.dom().finite());
    assert(n <= k);
    if n > 0 {
        assert(m.pending.contains_key(u + (n - 1)));
    }
    assert(f.stream.wf());
    assert(f.first_unassembled() == u + n);
    assert(f.window_end() == m.window_end());
    assert(f.first_unassembled() <= f.window_end());
    assert forall|i: int| #[trigger] f.pending.contains_key(i) implies f.first_unassembled() <= i
        < f.window_end() by {
        assert(m.pending.contains_key(i));
    };
    assert(f.bounded());
    if !m.stream.ended && !m.stream.error {
        assert(n == k);
        if k < m.stream.remaining() {
            assert(!f.pending.contains_key(u + k));
        } else {
            assert(f.first_unassembled() >= f.window_end());
        }
    }
}

/// Merging an accepted fragment keeps every pending byte in the window.
pub proof fn lemma_merged_bounded(m: ReassemblerModel, data: Seq<u8>, index: int, eof: bool)
    requires
        m.bounded(),
    ensures
        m.merged(data, index, eof).bounded(),
{
    let g = m.merged(data, index, eof);
    let lo = m.trim_lo(index);
    let hi = m.trim_hi(data, index);
    assert(g.pending.dom() =~= m.pending.dom().union(m.fragment(data, index).dom()));
    if lo < hi {
        lemma_int_range(lo, hi);
        assert(m.fragment(data, index).dom() =~= set_int_range(lo, hi));
    } else {
        assert(m.fragment(data, index).dom() =~= Set::<int>::empty());
    }
}

/// Every push keeps the reassembler well-formed.
pub proof fn lemma_push_wf(m: ReassemblerModel, data: Seq<u8>, index: int, eof: bool)
    requires
        m.wf(),
    ensures
        m.push(data, index, eof).wf(),
{
    if m.accepts(data, index, eof) {
        lemma_merged_bounded(m, data, index, eof);
        lemma_flushed_wf(m.merged(data, index, eof));
    }
}

/// The state agrees with the byte stream `s`: what was delivered is a prefix
/// of `s`, and each pending byte is the byte of `s` at its index.
pub open spec fn agrees_with(m: ReassemblerModel, s: Seq<u8>) -> bool {
    &&& m.first_unassembled() <= s.len()
    &&& m.stream.buffer == s.subrange(m.stream.bytes_read as int, m.first_unassembled())
    &&& forall|i: int| #[trigger] m.pending.contains_key(i) ==> 0 <= i < s.len() && m.pending[i]
            == s[i]
}

/// Delivered bytes match the accepted fragments: pushing a piece of `s`, or
/// reading, keeps a state in agreement with `s`.
pub proof fn lemma_push_agrees(m: ReassemblerModel, s: Seq<u8>, index: nat, len: nat, eof: bool, n: nat)
    requires
        m.wf(),
        agrees_with(m, s),
        index + len <= s.len(),
    ensures
        agrees_with(m.push(s.subrange(index as int, (index + len) as int), index as int, eof), s),
        agrees_with(m.read(n), s),
{
    let data = s.subrange(index as int, (index + len) as int);
    if m.accepts(data, index as int, eof) {
        let g = m.merged(data, index as int, eof);
        assert forall|i: int| #[trigger] g.pending.contains_key(i) implies 0 <= i < s.len()
            && g.pending[i] == s[i] by {
            if m.fragment(data, index as int).contains_key(i) {
                assert(data[i - index] == s[i]);
            }
        };
        let u = g.first_unassembled();
        let k = run_len(g.pending, u, g.stream.remaining());
        let run = run_bytes(g.pending, u, k);
        let cnt = g.stream.accepted(run);
        lemma_run_len(g.pending, u, g.stream.remaining());
        let f = g.flushed();
        assert forall|j: int| 0 <= j < k implies #[trigger] run[j] == s[u + j] by {
            assert(g.pending.contains_key(u + j));
        };
        if cnt > 0 {
            assert(g.pending.contains_key(u + (cnt - 1)));
        }
        assert(f.stream.buffer =~= s.subrange(f.stream.bytes_read as int, f.first_unassembled()));
    }
    assert(m.read(n).stream.buffer =~= s.subrange(
        m.read(n).stream.bytes_read as int,
        m.read(n).first_unassembled(),
    ));
}

/// Pushes each fragment `(index, length, eof)` of `s`, in order.
pub open spec fn push_all(m: ReassemblerModel, s: Seq<u8>, frags: Seq<(nat, nat, bool)>) -> ReassemblerModel
    decreases frags.len(),
{
    if frags.len() == 0 {
        m
    } else {
        let f = frags.last();
        push_all(m, s, frags.drop_last()).push(s.subrange(f.0 as int, (f.0 + f.1) as int), f.0 as int, f.2)
    }
}

/// The fragments lie in `s`, and only one that ends where `s` ends carries the end.
pub open spec fn fragments_of(s: Seq<u8>, frags: Seq<(nat, nat, bool)>) -> bool {
    forall|k: int| 0 <= k < frags.len() ==> #[trigger] frags[k].0 + frags[k].1 <= s.len() && (
    frags[k].2 ==> frags[k].0 + frags[k].1 == s.len())
}

/// Some fragment holds index `i`.
pub open spec fn covers(frags: Seq<(nat, nat, bool)>, i: int) -> bool {
    exists|k: int| 0 <= k < frags.len() && #[trigger] frags[k].0 <= i < frags[k].0 + frags[k].1
}

/// What stays true while the fragments of `s` are pushed into a fresh
/// reassembler that is large enough and is not read from.
pub open spec fn reassembly_progress(m: ReassemblerModel, s: Seq<u8>, frags: Seq<(nat, nat, bool)>) -> bool {
    &&& m.wf()
    &&& agrees_with(m, s)
    &&& m.stream.bytes_read == 0
    &&& !m.stream.error
    &&& s.len() <= m.stream.capacity < usize::MAX
    &&& forall|i: int| covers(frags, i) ==> i < m.first_unassembled() || m.pending.contains_key(i)
    &&& (m.eof_index is Some ==> m.eof_index->0 == s.len())
    &&& ((exists|k: int| 0 <= k < frags.len() && #[trigger] frags[k].2) ==> m.eof_index is Some)
    &&& (m.stream.ended ==> m.first_unassembled() >= s.len())
    &&& (m.eof_index is Some && m.first_unassembled() >= m.eof_index->0 ==> m.stream.ended)
}

proof fn lemma_progress(s: Seq<u8>, frags: Seq<(nat, nat, bool)>, capacity: nat)
    requires
        s.len() <= capacity < usize::MAX,
        fragments_of(s, frags),
    ensures
        reassembly_progress(push_all(ReassemblerModel::fresh(capacity), s, frags), s, frags),
    decreases frags.len(),
{
    let fresh = ReassemblerModel::fresh(capacity);
    if frags.len() == 0 {
        assert(fresh.stream.buffer =~= s.subrange(0, 0));
        assert(fresh.pending.dom().finite()) by {
            assert(fresh.pending.dom() =~= Set::<int>::empty());
        };
    } else {
        let prev = frags.drop_last();
        assert forall|k: int| 0 <= k < prev.len() implies #[trigger] prev[k].0 + prev[k].1 <= s.len()
            && (prev[k].2 ==> prev[k].0 + prev[k].1 == s.len()) by {
            assert(prev[k] == frags[k]);
        };
        lemma_progress(s, prev, capacity);
        let m = push_all(fresh, s, prev);
        let f = frags.last();
        assert(frags[frags.len() - 1] == f);
        let data = s.subrange(f.0 as int, (f.0 + f.1) as int);
        let r = m.push(data, f.0 as int, f.2);
        lemma_push_wf(m, data, f.0 as int, f.2);
        lemma_push_agrees(m, s, f.0, f.1, f.2, 0);
        assert(m.window_end() == m.stream.capacity);
        if m.accepts(data, f.0 as int, f.2) {
            let g = m.merged(data, f.0 as int, f.2);
            lemma_merged_bounded(m, data, f.0 as int, f.2);
            lemma_flushed_wf(g);
            let u = g.first_unassembled();
            let k = run_len(g.pending, u, g.stream.remaining());
            let run = run_bytes(g.pending, u, k);
            let cnt = g.stream.accepted(run);
            assert(r.first_unassembled() == u + cnt);
            assert forall|i: int| covers(frags, i) implies i < r.first_unassembled()
                || r.pending.contains_key(i) by {
                let kk = choose|kk: int| 0 <= kk < frags.len() && #[trigger] frags[kk].0 <= i
                    < frags[kk].0 + frags[kk].1;
                if kk < prev.len() {
                    assert(prev[kk] == frags[kk]);
                    assert(covers(prev, i));
                }
                if !(i < u) {
                    assert(g.pending.contains_key(i));
                }
            };
            if exists|kk: int| 0 <= kk < frags.len() && #[trigger] frags[kk].2 {
                let kk = choose|kk: int| 0 <= kk < frags.len() && #[trigger] frags[kk].2;
                if kk < prev.len() {
                    assert(prev[kk] == frags[kk]);
                }
            }
        } else {
            assert forall|i: int| covers(frags, i) implies i < r.first_unassembled()
                || r.pending.contains_key(i) by {
                let kk = choose|kk: int| 0 <= kk < frags.len() && #[trigger] frags[kk].0 <= i
                    < frags[kk].0 + frags[kk].1;
                if kk < prev.len() {
                    assert(prev[kk] == frags[kk]);
                    assert(covers(prev, i));
                }
            };
            if exists|kk: int| 0 <= kk < frags.len() && #[trigger] frags[kk].2 {
                let kk = choose|kk: int| 0 <= kk < frags.len() && #[trigger] frags[kk].2;
                if kk < prev.len() {
                    assert(prev[kk] == frags[kk]);
                }
            }
        }
    }
}

/// Reassembly does not depend on the order of arrival: whatever order the
/// fragments of `s` come in, once they have all arrived (and some fragment
/// carried the end) a reassembler that can hold `s` has delivered exactly `s`
/// and has closed its output.
pub proof fn lemma_reassembly_order_independent(s: Seq<u8>, frags: Seq<(nat, nat, bool)>, capacity: nat)
    requires
        s.len() <= capacity < usize::MAX,
        fragments_of(s, frags),
        forall|i: int| 0 <= i < s.len() ==> covers(frags, i),
        exists|k: int| 0 <= k < frags.len() && #[trigger] frags[k].2,
    ensures
        push_all(ReassemblerModel::fresh(capacity), s, frags).stream.buffer == s,
        push_all(ReassemblerModel::fresh(capacity), s, frags).stream.ended,
{
    lemma_progress(s, frags, capacity);
    let m = push_all(ReassemblerModel::fresh(capacity), s, frags);
    let u = m.first_unassembled();
    if u < s.len() {
        assert(covers(frags, u));
        assert(m.pending.contains_key(u));
    }
    assert(s.subrange(0, s.len() as int) =~= s);
}

/// A fragment that starts inside the window and runs past its right edge is
/// accepted with its head only: when the output buffer is empty the edge is
/// `first_unassembled + capacity`, and nothing at or past it is kept.
pub proof fn lemma_crossing_right_edge(m: ReassemblerModel, data: Seq<u8>, index: int, eof: bool)
    requires
        m.wf(),
        m.stream.buffer.len() == 0,
        m.first_unassembled() + m.stream.capacity <= usize::MAX,
        m.first_unassembled() <= index < m.first_unassembled() + m.stream.capacity,
        m.first_unassembled() + m.stream.capacity < index + data.len(),
    ensures
        m.accepts(data, index, eof),
        m.fragment(data, index) == Map::new(
            |i: int| index <= i < m.first_unassembled() + m.stream.capacity,
            |i: int| data[i - index],
        ),
        forall|i: int| #[trigger] m.push(data, index, eof).pending.contains_key(i) ==> i
            < m.first_unassembled() + m.stream.capacity,
        m.push(data, index, eof).first_unassembled() <= m.first_unassembled() + m.stream.capacity,
{
    assert(m.window_end() == m.first_unassembled() + m.stream.capacity);
    assert(m.fragment(data, index) =~= Map::new(
        |i: int| index <= i < m.first_unassembled() + m.stream.capacity,
        |i: int| data[i - index],
    ));
    lemma_push_wf(m, data, index, eof);
    lemma_merged_bounded(m, data, index, eof);
    lemma_flushed_wf(m.merged(data, index, eof));
}

/// A fragment that lies wholly before `first_unassembled` changes nothing,
/// except that, carrying the end of the stream, it records where the stream
/// ends (at or before `first_unassembled`) and so closes the output.
pub proof fn lemma_stale_fragment(m: ReassemblerModel, data: Seq<u8>, index: int, eof: bool)
    requires
        m.wf(),
        index + data.len() <= m.first_unassembled(),
    ensures
        !eof ==> m.push(data, index, eof) == m,
        eof ==> m.push(data, index, eof).pending == m.pending,
        eof ==> m.push(data, index, eof).stream.buffer == m.stream.buffer,
        eof ==> m.push(data, index, eof).first_unassembled() == m.first_unassembled(),
        eof ==> m.push(data, index, eof).eof_index == if m.eof_index is None {
            Some(index + data.len())
        } else {
            m.eof_index
        },
{
    if eof {
        let g = m.merged(data, index, eof);
        assert(m.fragment(data, index) =~= Map::<int, u8>::empty());
        assert(g.pending =~= m.pending);
        let u = g.first_unassembled();
        let run = run_bytes(g.pending, u, run_len(g.pending, u, g.stream.remaining()));
        assert(g.stream.buffer + run.take(0) =~= g.stream.buffer);
        assert(g.pending.remove_keys(Set::new(|i: int| u <= i < u + 0)) =~= g.pending);
    }
}

} // verus!
