use vstd::prelude::*;

verus! {

/// The abstract state of a byte stream.
pub struct StreamModel {
    pub capacity: nat,
    /// Bytes written and not yet read, oldest first.
    pub buffer: Seq<u8>,
    pub bytes_read: nat,
    pub bytes_written: nat,
    pub ended: bool,
    pub error: bool,
}

impl StreamModel {
    /// The counters agree with the buffer, which respects the capacity.
    pub open spec fn wf(self) -> bool {
        &&& self.bytes_written == self.bytes_read + self.buffer.len()
        &&& self.buffer.len() <= self.capacity
    }

    pub open spec fn remaining(self) -> nat {
        (self.capacity - self.buffer.len()) as nat
    }

    pub open spec fn eof(self) -> bool {
        self.ended && self.buffer.len() == 0
    }

    pub open spec fn fresh(capacity: nat) -> StreamModel {
        StreamModel {
            capacity,
            buffer: Seq::empty(),
            bytes_read: 0,
            bytes_written: 0,
            ended: false,
            error: false,
        }
    }

    /// How many bytes of `data` a write accepts.
    pub open spec fn accepted(self, data: Seq<u8>) -> nat {
        if self.ended || self.error {
            0
        } else if data.len() <= self.remaining() {
            data.len()
        } else {
            self.remaining()
        }
    }

    pub open spec fn write(self, data: Seq<u8>) -> StreamModel {
        let n = self.accepted(data);
        StreamModel {
            buffer: self.buffer + data.take(n as int),
            bytes_written: self.bytes_written + n,
            ..self
        }
    }

    /// How many bytes a peek or pop of `len` covers.
    pub open spec fn covered(self, len: nat) -> nat {
        if self.error {
            0
        } else if len <= self.buffer.len() {
            len
        } else {
            self.buffer.len()
        }
    }

    pub open spec fn peek(self, len: nat) -> Seq<u8> {
        self.buffer.take(self.covered(len) as int)
    }

    pub open spec fn pop(self, len: nat) -> StreamModel {
        let m = self.covered(len);
        StreamModel {
            buffer: self.buffer.skip(m as int),
            bytes_read: self.bytes_read + m,
            ..self
        }
    }

    pub open spec fn end_input(self) -> StreamModel {
        StreamModel { ended: true, ..self }
    }

    pub open spec fn set_error(self) -> StreamModel {
        StreamModel { error: true, ..self }
    }
}

/// Every operation of the stream keeps `bytes_written = bytes_read + buffer_size`
/// and `buffer_size <= capacity`.
pub proof fn lemma_stream_ops_keep_counters(s: StreamModel, data: Seq<u8>, len: nat)
    requires
        s.wf(),
    ensures
        s.write(data).wf(),
        s.pop(len).wf(),
        s.end_input().wf(),
        s.set_error().wf(),
        StreamModel::fresh(s.capacity).wf(),
{
}

/// Writing bytes into a stream with room for them, then reading as many,
/// gives back exactly those bytes, in order.
pub proof fn lemma_write_then_read(s: StreamModel, data: Seq<u8>)
    requires
        s.wf(),
        s.buffer.len() == 0,
        !s.ended,
        !s.error,
        data.len() <= s.capacity,
    ensures
        s.write(data).peek(data.len()) == data,
        s.write(data).pop(data.len()).buffer.len() == 0,
{
    assert(s.write(data).buffer =~= data);
}

/// A bounded FIFO of bytes, kept in a circular buffer of `capacity + 1` slots.
pub struct ByteStream {
    buffer: Vec<u8>,
    capacity: usize,
    read_index: usize,
    write_index: usize,
    end: bool,
    err: bool,
    read_count: usize,
    write_count: usize,
}

impl View for ByteStream {
    type V = StreamModel;

    closed spec fn view(&self) -> StreamModel {
        StreamModel {
            capacity: self.capacity as nat,
            buffer: self.ring(),
            bytes_read: self.read_count as nat,
            bytes_written: self.write_count as nat,
            ended: self.end,
            error: self.err,
        }
    }
}

impl ByteStream {
    closed spec fn slots(&self) -> nat {
        self.capacity as nat + 1
    }

    closed spec fn size(&self) -> nat {
        if self.write_index >= self.read_index {
            (self.write_index - self.read_index) as nat
        } else {
            (self.slots() - self.read_index + self.write_index) as nat
        }
    }

    /// The slot that holds the `i`-th buffered byte.
    closed spec fn slot_of(&self, i: int) -> int {
        if self.read_index + i < self.slots() {
            self.read_index + i
        } else {
            self.read_index + i - self.slots()
        }
    }

    closed spec fn ring(&self) -> Seq<u8> {
        Seq::new(self.size(), |i: int| self.buffer@[self.slot_of(i)])
    }

    /// The circular buffer is consistent with the counters.
    pub closed spec fn wf(&self) -> bool {
        &&& self.capacity < usize::MAX
        &&& self.buffer@.len() == self.slots()
        &&& self.read_index < self.slots()
        &&& self.write_index < self.slots()
        &&& self.size() <= self.capacity
        &&& self.write_count == self.read_count + self.size()
    }

    proof fn lemma_wf(&self)
        requires
            self.wf(),
        ensures
            self@.wf(),
            self.ring().len() == self.size(),
            self.write_index == self.slot_of(self.size() as int),
    {
    }

    fn real_capacity(&self) -> (r: usize)
        requires
            self.wf(),
        ensures
            r == self.slots(),
    {
        self.capacity + 1
    }

    /// A new, empty stream that holds up to `capacity` bytes.
    pub fn new(capacity: usize) -> (r: Self)
        requires
            capacity < usize::MAX,
        ensures
            r.wf(),
            r@ == StreamModel::fresh(capacity as nat),
    {
        let mut buffer: Vec<u8> = Vec::with_capacity(capacity + 1);
        let mut i: usize = 0;
        while i <= capacity
            invariant
                i <= capacity + 1,
                capacity < usize::MAX,
                buffer@.len() == i,
            decreases capacity + 1 - i,
        {
            buffer.push(0);
            i = i + 1;
        }
        let r = ByteStream {
            buffer,
            capacity,
            read_index: 0,
            write_index: 0,
            end: false,
            err: false,
            read_count: 0,
            write_count: 0,
        };
        assert(r.ring() =~= Seq::<u8>::empty());
        r
    }

    /// Appends as much of `data` as fits and returns how many bytes were taken.
    pub fn write(&mut self, data: &[u8]) -> (n: usize)
        requires
            old(self).wf(),
            old(self)@.bytes_written + data@.len() <= usize::MAX,
        ensures
            final(self).wf(),
            n == old(self)@.accepted(data@),
            final(self)@ == old(self)@.write(data@),
    {
        if self.end || self.err {
            return 0;
        }
        let remaining = self.remaining_capacity();
        let len: usize = if data.len() < remaining { data.len() } else { remaining };
        let ghost start = self.ring();
        let slots = self.real_capacity();
        let mut i: usize = 0;
        while i < len
            invariant
                self.wf(),
                i <= len,
                len <= data@.len(),
                slots == self.slots(),
                self.size() == start.len() + i,
                start.len() + len <= self.capacity,
                self.ring() =~= start + data@.take(i as int),
                self.capacity == old(self).capacity,
                self.read_count == old(self).read_count,
                self.read_index == old(self).read_index,
                self.write_count == old(self).write_count + i,
                self.end == old(self).end,
                self.err == old(self).err,
                old(self)@.bytes_written + data@.len() <= usize::MAX,
            decreases len - i,
        {
            let ghost before = self.ring();
            let ghost old_buf = self.buffer@;
            proof {
                self.lemma_wf();
            }
            let w = self.write_index;
            self.buffer.set(w, data[i]);
            self.write_index = if w + 1 == slots { 0 } else { w + 1 };
            self.write_count = self.write_count + 1;
            proof {
                self.lemma_ring_push(old_buf, before, w, data@[i as int]);
                assert(data@.take(i + 1) =~= data@.take(i as int).push(data@[i as int]));
            }
            i = i + 1;
        }
        assert(data@.take(len as int) == data@.take(old(self)@.accepted(data@) as int));
        len
    }

    /// After storing `b` at the old write position and advancing it, the
    /// contents gained `b` at the back.
    proof fn lemma_ring_push(&self, old_buf: Seq<u8>, before: Seq<u8>, w: usize, b: u8)
        requires
            self.capacity < usize::MAX,
            old_buf.len() == self.slots(),
            self.buffer@ == old_buf.update(w as int, b),
            self.read_index < self.slots(),
            w < self.slots(),
            self.write_index == if w + 1 == self.slots() { 0 } else { w + 1 },
            before.len() < self.capacity,
            w == self.slot_of(before.len() as int),
            forall|j: int| 0 <= j < before.len() ==>
                #[trigger] before[j] == old_buf[self.slot_of(j)],
        ensures
            self.size() == before.len() + 1,
            self.ring() =~= before.push(b),
    {
        assert(self.size() == before.len() + 1);
        assert forall|j: int| 0 <= j < before.len() + 1 implies
            #[trigger] self.ring()[j] == before.push(b)[j] by {
            if j < before.len() {
                assert(self.slot_of(j) != w);
            }
        };
    }

    /// How many more bytes the stream accepts.
    pub fn remaining_capacity(&self) -> (r: usize)
        requires
            self.wf(),
        ensures
            r == self@.remaining(),
    {
        self.capacity - self.buffer_size()
    }

    pub fn end_input(&mut self)
        requires
            old(self).wf(),
        ensures
            final(self).wf(),
            final(self)@ == old(self)@.end_input(),
    {
        self.end = true;
        assert(self.ring() =~= old(self).ring());
    }

    pub fn set_error(&mut self)
        requires
            old(self).wf(),
        ensures
            final(self).wf(),
            final(self)@ == old(self)@.set_error(),
    {
        self.err = true;
        assert(self.ring() =~= old(self).ring());
    }

    /// A copy of the first `len` buffered bytes, or of all of them if fewer.
    pub fn peek_output(&self, len: usize) -> (r: Vec<u8>)
        requires
            self.wf(),
        ensures
            r@ == self@.peek(len as nat),
    {
        let mut res: Vec<u8> = Vec::new();
        if self.err {
            assert(res@ =~= self@.peek(len as nat));
            return res;
        }
        let size = self.buffer_size();
        let n: usize = if len < size { len } else { size };
        let slots = self.real_capacity();
        let mut pos: usize = self.read_index;
        let mut i: usize = 0;
        while i < n
            invariant
                self.wf(),
                i <= n,
                n <= self.size(),
                slots == self.slots(),
                pos < slots,
                pos == self.slot_of(i as int),
                res@ =~= self.ring().take(i as int),
            decreases n - i,
        {
            res.push(self.buffer[pos]);
            assert(res@ =~= self.ring().take(i + 1));
            pos = if pos + 1 == slots { 0 } else { pos + 1 };
            i = i + 1;
        }
        res
    }

    /// Discards the first `len` buffered bytes, or all of them if fewer.
    pub fn pop_output(&mut self, len: usize)
        requires
            old(self).wf(),
        ensures
            final(self).wf(),
            final(self)@ == old(self)@.pop(len as nat),
    {
        if self.err {
            assert(self@.buffer.skip(0) =~= self@.buffer);
            return;
        }
        let size = self.buffer_size();
        let n: usize = if len < size { len } else { size };
        let slots = self.real_capacity();
        let ghost before = self.ring();
        let r = self.read_index;
        self.read_index = if n >= slots - r { n - (slots - r) } else { r + n };
        self.read_count = self.read_count + n;
        proof {
            assert(self.size() == before.len() - n);
            assert forall|j: int| 0 <= j < self.size() implies
                #[trigger] self.ring()[j] == before.skip(n as int)[j] by {
                assert(self.slot_of(j) == old(self).slot_of(j + n));
            };
            assert(self.ring() =~= before.skip(n as int));
        }
    }

    /// Reads (copies and removes) up to `len` bytes.
    pub fn read(&mut self, len: usize) -> (r: Vec<u8>)
        requires
            old(self).wf(),
        ensures
            final(self).wf(),
            r@ == old(self)@.peek(len as nat),
            final(self)@ == old(self)@.pop(len as nat),
    {
        let res = self.peek_output(len);
        self.pop_output(len);
        res
    }

    pub fn input_ended(&self) -> (r: bool)
        ensures
            r == self@.ended,
    {
        self.end
    }

    pub fn error(&self) -> (r: bool)
        ensures
            r == self@.error,
    {
        self.err
    }

    /// The number of bytes written and not yet read.
    pub fn buffer_size(&self) -> (r: usize)
        requires
            self.wf(),
        ensures
            r == self@.buffer.len(),
    {
        if self.write_index >= self.read_index {
            self.write_index - self.read_index
        } else {
            self.real_capacity() - self.read_index + self.write_index
        }
    }

    pub fn buffer_empty(&self) -> (r: bool)
        requires
            self.wf(),
        ensures
            r == (self@.buffer.len() == 0),
    {
        self.buffer_size() == 0
    }

    pub fn eof(&self) -> (r: bool)
        requires
            self.wf(),
        ensures
            r == self@.eof(),
    {
        self.end && self.buffer_empty()
    }

    pub fn bytes_written(&self) -> (r: usize)
        requires
            self.wf(),
        ensures
            r == self@.bytes_written,
    {
        self.write_count
    }

    pub fn bytes_read(&self) -> (r: usize)
        requires
            self.wf(),
        ensures
            r == self@.bytes_read,
    {
        self.read_count
    }

    pub fn capacity(&self) -> (r: usize)
        requires
            self.wf(),
        ensures
            r == self@.capacity,
    {
        self.capacity
    }
}

} // verus!
