use std::collections::VecDeque;
use vstd::prelude::*;
use vstd::slice::slice_subrange;

verus! {

/// A read-only run of bytes that can drop bytes from its front.
#[derive(Debug)]
pub struct Buffer {
    storage: Vec<u8>,
    starting_offset: usize,
}

impl View for Buffer {
    type V = Seq<u8>;

    closed spec fn view(&self) -> Seq<u8> {
        self.storage@.skip(self.starting_offset as int)
    }
}

impl Buffer {
    #[verifier::type_invariant]
    spec fn inv(&self) -> bool {
        self.starting_offset <= self.storage@.len()
    }

    /// A buffer holding the bytes of `data`.
    pub fn new<const N: usize>(data: [u8; N]) -> (r: Self)
        ensures
            r@ == data@,
    {
        let mut storage: Vec<u8> = Vec::with_capacity(N);
        let mut i: usize = 0;
        while i < N
            invariant
                i <= N,
                data@.len() == N,
                storage@ == data@.take(i as int),
            decreases N - i,
        {
            storage.push(data[i]);
            assert(data@.take(i + 1) =~= data@.take(i as int).push(data@[i as int]));
            i = i + 1;
        }
        assert(data@.take(N as int) =~= data@);
        assert(storage@.skip(0) =~= storage@);
        Buffer { storage, starting_offset: 0 }
    }

    /// A buffer holding the bytes of `data`.
    pub fn new_form_vec(data: Vec<u8>) -> (r: Self)
        ensures
            r@ == data@,
    {
        assert(data@.skip(0) =~= data@);
        Buffer { storage: data, starting_offset: 0 }
    }

    /// An empty buffer.
    pub fn empty() -> (r: Self)
        ensures
            r@ == Seq::<u8>::empty(),
    {
        let r = Buffer { storage: Vec::new(), starting_offset: 0 };
        assert(r@ =~= Seq::<u8>::empty());
        r
    }

    /// A buffer with the same bytes.
    pub fn copy(&self) -> (r: Self)
        ensures
            r@ == self@,
    {
        proof {
            use_type_invariant(self);
        }
        let mut storage: Vec<u8> = Vec::new();
        let mut i: usize = self.starting_offset;
        while i < self.storage.len()
            invariant
                self.starting_offset <= i <= self.storage@.len(),
                storage@ == self.storage@.subrange(self.starting_offset as int, i as int),
            decreases self.storage@.len() - i,
        {
            storage.push(self.storage[i]);
            assert(self.storage@.subrange(self.starting_offset as int, i + 1) =~= self.storage@.subrange(
                self.starting_offset as int,
                i as int,
            ).push(self.storage@[i as int]));
            i = i + 1;
        }
        assert(storage@ =~= self@);
        assert(storage@.skip(0) =~= storage@);
        Buffer { storage, starting_offset: 0 }
    }

    /// The bytes, possibly none.
    pub fn as_slice(&self) -> (r: &[u8])
        ensures
            r@ == self@,
    {
        proof {
            use_type_invariant(self);
        }
        let s = self.storage.as_slice();
        let r = slice_subrange(s, self.starting_offset, s.len());
        assert(r@ =~= self@);
        r
    }

    /// The byte at position `i`, if there is one.
    pub fn at(&self, i: usize) -> (r: Option<u8>)
        ensures
            r == if i < self@.len() {
                Some(self@[i as int])
            } else {
                None::<u8>
            },
    {
        proof {
            use_type_invariant(self);
        }
        if i < self.storage.len() - self.starting_offset {
            Some(self.storage[self.starting_offset + i])
        } else {
            None
        }
    }

    pub fn len(&self) -> (r: usize)
        ensures
            r == self@.len(),
    {
        proof {
            use_type_invariant(self);
        }
        self.storage.len() - self.starting_offset
    }

    /// Drops the first `n` bytes; fails, changing nothing, if there are fewer.
    pub fn remove_prefix(&mut self, n: usize) -> (r: Result<(), &'static str>)
        ensures
            r is Ok <==> n <= old(self)@.len(),
            r is Ok ==> final(self)@ == old(self)@.skip(n as int),
            r is Err ==> final(self)@ == old(self)@,
            r is Err ==> r == Err::<(), &'static str>("Buffer::remove_prefix n too large"),
    {
        proof {
            use_type_invariant(&*self);
        }
        if n > self.storage.len() - self.starting_offset {
            return Err("Buffer::remove_prefix n too large");
        }
        self.starting_offset = self.starting_offset + n;
        assert(self@ =~= old(self)@.skip(n as int));
        Ok(())
    }
}

impl Default for Buffer {
    fn default() -> (r: Self)
        ensures
            r@ == Seq::<u8>::empty(),
    {
        Buffer::empty()
    }
}

impl From<Vec<u8>> for Buffer {
    fn from(data: Vec<u8>) -> (r: Self) {
        Buffer { storage: data, starting_offset: 0 }
    }
}

impl vstd::std_specs::convert::FromSpecImpl<Vec<u8>> for Buffer {
    open spec fn obeys_from_spec() -> bool {
        true
    }

    closed spec fn from_spec(data: Vec<u8>) -> Buffer {
        Buffer { storage: data, starting_offset: 0 }
    }
}

/// The bytes of a list of runs, one after another.
pub open spec fn flat(s: Seq<Seq<u8>>) -> Seq<u8>
    decreases s.len(),
{
    if s.len() == 0 {
        Seq::empty()
    } else {
        s[0] + flat(s.skip(1))
    }
}

pub proof fn lemma_flat_push(s: Seq<Seq<u8>>, x: Seq<u8>)
    ensures
        flat(s.push(x)) == flat(s) + x,
    decreases s.len(),
{
    if s.len() == 0 {
        assert(s.push(x).skip(1) =~= Seq::<Seq<u8>>::empty());
        assert(flat(s.push(x).skip(1)) =~= Seq::<u8>::empty());
        assert(flat(s) =~= Seq::<u8>::empty());
        assert(flat(s.push(x)) =~= flat(s) + x);
    } else {
        assert(s.push(x).skip(1) =~= s.skip(1).push(x));
        lemma_flat_push(s.skip(1), x);
        assert(flat(s.push(x)) =~= flat(s) + x);
    }
}

pub proof fn lemma_flat_split(s: Seq<Seq<u8>>, i: int)
    requires
        0 <= i <= s.len(),
    ensures
        flat(s) == flat(s.take(i)) + flat(s.skip(i)),
    decreases i,
{
    if i == 0 {
        assert(s.take(0) =~= Seq::<Seq<u8>>::empty());
        assert(s.skip(0) =~= s);
        assert(flat(s) =~= flat(s.take(0)) + flat(s.skip(0)));
    } else {
        lemma_flat_split(s.skip(1), i - 1);
        assert(s.skip(1).take(i - 1) =~= s.take(i).skip(1));
        assert(s.skip(1).skip(i - 1) =~= s.skip(i));
        assert(s.take(i)[0] == s[0]);
        assert(flat(s) =~= flat(s.take(i)) + flat(s.skip(i)));
    }
}

pub open spec fn buffers_view(q: Seq<Buffer>) -> Seq<Seq<u8>> {
    q.map_values(|b: Buffer| b@)
}

/// A list of buffers that reads as their concatenation and can drop bytes
/// from its front.
pub struct BufferList {
    buffers: VecDeque<Buffer>,
}

impl View for BufferList {
    type V = Seq<Seq<u8>>;

    closed spec fn view(&self) -> Seq<Seq<u8>> {
        buffers_view(self.buffers@)
    }
}

impl BufferList {
    pub fn new() -> (r: Self)
        ensures
            r@ == Seq::<Seq<u8>>::empty(),
    {
        let r = BufferList { buffers: VecDeque::new() };
        assert(r@ =~= Seq::<Seq<u8>>::empty());
        r
    }

    /// A list of one buffer.
    pub fn new_from_buffer(buffer: Buffer) -> (r: Self)
        ensures
            r@ == seq![buffer@],
    {
        let mut r = BufferList::new();
        r.append_buffer(buffer);
        assert(r@ =~= seq![buffer@]);
        r
    }

    /// Moves the buffers of `other` to the end of this list.
    pub fn append(&mut self, other: &mut Self)
        ensures
            final(self)@ == old(self)@ + old(other)@,
            final(other)@ == Seq::<Seq<u8>>::empty(),
    {
        self.buffers.append(&mut other.buffers);
        assert(self@ =~= old(self)@ + old(other)@);
        assert(other@ =~= Seq::<Seq<u8>>::empty());
    }

    pub fn append_vec(&mut self, data: Vec<u8>)
        ensures
            final(self)@ == old(self)@.push(data@),
    {
        self.append_buffer(Buffer::new_form_vec(data));
    }

    pub fn append_buffer(&mut self, buffer: Buffer)
        ensures
            final(self)@ == old(self)@.push(buffer@),
    {
        self.buffers.push_back(buffer);
        assert(self@ =~= old(self)@.push(buffer@));
    }

    /// The number of bytes in all the buffers.
    pub fn total_size(&self) -> (r: usize)
        requires
            flat(self@).len() <= usize::MAX,
        ensures
            r == flat(self@).len(),
    {
        let mut total: usize = 0;
        let mut i: usize = 0;
        while i < self.buffers.len()
            invariant
                i <= self@.len(),
                self@.len() == self.buffers@.len(),
                flat(self@).len() <= usize::MAX,
                total == flat(self@.take(i as int)).len(),
            decreases self@.len() - i,
        {
            proof {
                assert(self@.take(i + 1) =~= self@.take(i as int).push(self@[i as int]));
                lemma_flat_push(self@.take(i as int), self@[i as int]);
                lemma_flat_split(self@, i + 1);
            }
            total = total + self.buffers[i].len();
            i = i + 1;
        }
        assert(self@.take(i as int) =~= self@);
        total
    }

    pub fn buffers(&self) -> (r: &VecDeque<Buffer>)
        ensures
            buffers_view(r@) == self@,
    {
        &self.buffers
    }

    /// The one buffer of a list of at most one.
    pub fn to_buffer(&self) -> (r: Result<Buffer, &'static str>)
        ensures
            self@.len() <= 1 <==> r is Ok,
            r matches Ok(b) ==> b@ == flat(self@),
            r is Err ==> r == Err::<Buffer, &'static str>(
                "BufferList: please use concatenate() to combine a multi-Buffer BufferList into one Buffer",
            ),
    {
        let n = self.buffers.len();
        if n == 0 {
            Ok(Buffer::empty())
        } else if n == 1 {
            assert(self@.skip(1) =~= Seq::<Seq<u8>>::empty());
            assert(flat(self@.skip(1)) =~= Seq::<u8>::empty());
            assert(flat(self@) =~= self@[0]);
            Ok(self.buffers[0].copy())
        } else {
            Err(
                "BufferList: please use concatenate() to combine a multi-Buffer BufferList into one Buffer",
            )
        }
    }

    /// A list of copies of the buffers.
    pub fn copy(&self) -> (r: Self)
        ensures
            r@ == self@,
    {
        let mut r = BufferList::new();
        let mut i: usize = 0;
        while i < self.buffers.len()
            invariant
                i <= self@.len(),
                self@.len() == self.buffers@.len(),
                r@ == self@.take(i as int),
            decreases self@.len() - i,
        {
            r.append_buffer(self.buffers[i].copy());
            assert(r@ =~= self@.take(i + 1));
            i = i + 1;
        }
        assert(self@.take(i as int) =~= self@);
        r
    }

    /// One buffer holding a copy of all the bytes.
    pub fn concatenate(&self) -> (r: Buffer)
        ensures
            r@ == flat(self@),
    {
        let mut out: Vec<u8> = Vec::new();
        let mut i: usize = 0;
        assert(self@.take(0) =~= Seq::<Seq<u8>>::empty());
        while i < self.buffers.len()
            invariant
                i <= self@.len(),
                self@.len() == self.buffers@.len(),
                out@ == flat(self@.take(i as int)),
            decreases self@.len() - i,
        {
            let part = self.buffers[i].as_slice();
            let mut j: usize = 0;
            while j < part.len()
                invariant
                    j <= part@.len(),
                    out@ == flat(self@.take(i as int)) + part@.take(j as int),
                decreases part@.len() - j,
            {
                out.push(part[j]);
                assert(part@.take(j + 1) =~= part@.take(j as int).push(part@[j as int]));
                j = j + 1;
            }
            proof {
                assert(part@.take(j as int) =~= part@);
                assert(self@.take(i + 1) =~= self@.take(i as int).push(self@[i as int]));
                lemma_flat_push(self@.take(i as int), self@[i as int]);
            }
            i = i + 1;
        }
        assert(self@.take(i as int) =~= self@);
        Buffer::new_form_vec(out)
    }

    /// Drops the first `n` bytes; fails if there are fewer, having dropped them all.
    pub fn remove_prefix(&mut self, n: usize) -> (r: Result<(), &'static str>)
        ensures
            r is Ok <==> n <= flat(old(self)@).len(),
            r is Ok ==> flat(final(self)@) == flat(old(self)@).skip(n as int),
            r is Err ==> r == Err::<(), &'static str>("BufferList::remove_prefix out of bounds")
                && final(self)@ == Seq::<Seq<u8>>::empty(),
    {
        let mut left: usize = n;
        assert(flat(old(self)@).skip(0) =~= flat(old(self)@));
        while left > 0
            invariant
                left <= n,
                n - left <= flat(old(self)@).len(),
                flat(self@) == flat(old(self)@).skip(n - left),
            decreases self@.len(), left,
        {
            if self.buffers.len() == 0 {
                assert(self@ =~= Seq::<Seq<u8>>::empty());
                assert(flat(self@) =~= Seq::<u8>::empty());
                return Err("BufferList::remove_prefix out of bounds");
            }
            let ghost cur = self@;
            let mut first = self.buffers.pop_front().unwrap();
            assert(self@ =~= cur.skip(1));
            assert(cur[0] == first@);
            let len = first.len();
            if left < len {
                let _ = first.remove_prefix(left);
                self.buffers.push_front(first);
                assert(self@ =~= seq![first@] + cur.skip(1));
                assert(self@.skip(1) =~= cur.skip(1));
                assert(flat(self@) =~= flat(cur).skip(left as int));
                left = 0;
            } else {
                assert(flat(self@) =~= flat(cur).skip(len as int));
                left = left - len;
            }
        }
        Ok(())
    }
}

pub open spec fn views_view(q: Seq<&[u8]>) -> Seq<Seq<u8>> {
    q.map_values(|v: &[u8]| v@)
}

/// A list of borrowed byte runs that reads as their concatenation.
pub struct BufferViewList<'a> {
    views: VecDeque<&'a [u8]>,
}

impl<'a> View for BufferViewList<'a> {
    type V = Seq<Seq<u8>>;

    closed spec fn view(&self) -> Seq<Seq<u8>> {
        views_view(self.views@)
    }
}

impl<'a> BufferViewList<'a> {
    /// Views of the buffers of a list.
    pub fn new(buffers: &'a BufferList) -> (r: Self)
        ensures
            r@ == buffers@,
    {
        let mut views: VecDeque<&'a [u8]> = VecDeque::new();
        let mut i: usize = 0;
        while i < buffers.buffers.len()
            invariant
                i <= buffers@.len(),
                buffers@.len() == buffers.buffers@.len(),
                views_view(views@) == buffers@.take(i as int),
            decreases buffers@.len() - i,
        {
            let ghost before = views@;
            let part = buffers.buffers[i].as_slice();
            views.push_back(part);
            assert(buffers@[i as int] == buffers.buffers@[i as int]@);
            assert(views@ == before.push(part));
            assert(views_view(views@) =~= views_view(before).push(part@));
            assert(views_view(views@) =~= buffers@.take(i + 1));
            i = i + 1;
        }
        assert(buffers@.take(i as int) =~= buffers@);
        BufferViewList { views }
    }

    /// A view of one run of bytes.
    pub fn new_frome_slice(s: &'a [u8]) -> (r: Self)
        ensures
            r@ == seq![s@],
    {
        let mut views: VecDeque<&'a [u8]> = VecDeque::new();
        views.push_back(s);
        let r = BufferViewList { views };
        assert(r@ =~= seq![s@]);
        r
    }

    /// The number of bytes in all the views.
    pub fn total_size(&self) -> (r: usize)
        requires
            flat(self@).len() <= usize::MAX,
        ensures
            r == flat(self@).len(),
    {
        let mut total: usize = 0;
        let mut i: usize = 0;
        while i < self.views.len()
            invariant
                i <= self@.len(),
                self@.len() == self.views@.len(),
                flat(self@).len() <= usize::MAX,
                total == flat(self@.take(i as int)).len(),
            decreases self@.len() - i,
        {
            proof {
                assert(self@.take(i + 1) =~= self@.take(i as int).push(self@[i as int]));
                lemma_flat_push(self@.take(i as int), self@[i as int]);
                lemma_flat_split(self@, i + 1);
            }
            total = total + self.views[i].len();
            i = i + 1;
        }
        assert(self@.take(i as int) =~= self@);
        total
    }

    /// Whether there are no bytes in any view.
    pub fn is_empty(&self) -> (r: bool)
        ensures
            r == (flat(self@).len() == 0),
    {
        let mut i: usize = 0;
        assert(self@.take(0) =~= Seq::<Seq<u8>>::empty());
        while i < self.views.len()
            invariant
                i <= self@.len(),
                self@.len() == self.views@.len(),
                flat(self@.take(i as int)).len() == 0,
            decreases self@.len() - i,
        {
            proof {
                assert(self@.take(i + 1) =~= self@.take(i as int).push(self@[i as int]));
                lemma_flat_push(self@.take(i as int), self@[i as int]);
                lemma_flat_split(self@, i as int);
                lemma_flat_split(self@.skip(i as int), 1);
                assert(self@.skip(i as int).take(1) =~= seq![self@[i as int]]);
                lemma_flat_push(Seq::<Seq<u8>>::empty(), self@[i as int]);
                assert(seq![self@[i as int]] =~= Seq::<Seq<u8>>::empty().push(self@[i as int]));
                assert(flat(Seq::<Seq<u8>>::empty()) =~= Seq::<u8>::empty());
            }
            if self.views[i].len() != 0 {
                return false;
            }
            i = i + 1;
        }
        assert(self@.take(i as int) =~= self@);
        true
    }

    /// Drops the first `n` bytes; fails if there are fewer, having dropped them all.
    pub fn remove_prefix(&mut self, n: usize) -> (r: Result<(), &'static str>)
        ensures
            r is Ok <==> n <= flat(old(self)@).len(),
            r is Ok ==> flat(final(self)@) == flat(old(self)@).skip(n as int),
            r is Err ==> r == Err::<(), &'static str>("BufferViewList::remove_prefix out of bounds")
                && final(self)@ == Seq::<Seq<u8>>::empty(),
    {
        let mut left: usize = n;
        assert(flat(old(self)@).skip(0) =~= flat(old(self)@));
        while left > 0
            invariant
                left <= n,
                n - left <= flat(old(self)@).len(),
                flat(self@) == flat(old(self)@).skip(n - left),
            decreases self@.len(), left,
        {
            if self.views.len() == 0 {
                assert(self@ =~= Seq::<Seq<u8>>::empty());
                assert(flat(self@) =~= Seq::<u8>::empty());
                return Err("BufferViewList::remove_prefix out of bounds");
            }
            let ghost cur = self@;
            let first = self.views.pop_front().unwrap();
            assert(self@ =~= cur.skip(1));
            assert(cur[0] == first@);
            let len = first.len();
            if left < len {
                let rest = slice_subrange(first, left, len);
                self.views.push_front(rest);
                assert(rest@ =~= first@.skip(left as int));
                assert(self@ =~= seq![rest@] + cur.skip(1));
                assert(self@.skip(1) =~= cur.skip(1));
                assert(flat(self@) =~= flat(cur).skip(left as int));
                left = 0;
            } else {
                assert(flat(self@) =~= flat(cur).skip(len as int));
                left = left - len;
            }
        }
        Ok(())
    }
}

} // verus!
