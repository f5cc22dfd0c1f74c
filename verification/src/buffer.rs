//! A byte buffer that grows on demand.
//!
//! Bytes are appended at the end and consumed from the front. What was consumed leaves a
//! gap at the front, which is closed by moving the data to the left.

use vstd::prelude::*;

verus! {

/// What a [`Buffer`] holds: the bytes that wait to be consumed, the length of the gap in
/// front of them, and the number of bytes that the buffer has room for, gap included.
#[verifier::ext_equal]
pub struct BufferView {
    pub data: Seq<u8>,
    pub gap: nat,
    pub capacity: nat,
}

impl BufferView {
    pub open spec fn wf(self) -> bool {
        self.gap + self.data.len() <= self.capacity <= usize::MAX
    }

    /// A buffer of this capacity without data.
    pub open spec fn empty(capacity: nat) -> BufferView {
        BufferView { data: seq![], gap: 0, capacity }
    }

    /// The number of bytes that fit behind the data.
    pub open spec fn space(self) -> int {
        self.capacity - self.gap - self.data.len()
    }

    /// The data is moved to the very left.
    pub open spec fn shifted(self) -> BufferView {
        BufferView { gap: 0, ..self }
    }

    /// The capacity is raised to `size`; it never shrinks.
    pub open spec fn grown(self, size: nat) -> BufferView {
        BufferView { capacity: if self.capacity >= size { self.capacity } else { size }, ..self }
    }

    /// The first `count` bytes are gone, or all where there are fewer. The data moves to
    /// the left once the gap is more than half of the capacity.
    pub open spec fn consumed(self, count: nat) -> BufferView {
        let taken = if count <= self.data.len() { count } else { self.data.len() };
        let gap = self.gap + taken;
        BufferView {
            data: self.data.skip(taken as int),
            gap: if gap > self.capacity / 2 { 0 } else { gap },
            ..self
        }
    }

    /// `bytes` stand behind the data. The data moves to the left where the space that is
    /// left is less than the data and the added bytes together.
    pub open spec fn filled(self, bytes: Seq<u8>) -> BufferView {
        let added = BufferView { data: self.data + bytes, ..self };
        if added.space() < added.data.len() + bytes.len() {
            added.shifted()
        } else {
            added
        }
    }

    /// As many of `bytes` as there is space for stand behind the data.
    pub open spec fn written(self, bytes: Seq<u8>) -> BufferView {
        let count = if bytes.len() <= self.space() { bytes.len() as int } else { self.space() };
        self.filled(bytes.take(count))
    }
}

/// Law: gap, data and space fill the buffer.
pub proof fn law_gap_data_and_space_fill_the_buffer(buffer: BufferView)
    requires
        buffer.wf(),
    ensures
        buffer.gap + buffer.data.len() + buffer.space() == buffer.capacity,
        buffer.space() >= 0,
{
}

/// Law: bytes that are appended are the last bytes of the data, and what was there comes before
/// them. The capacity stays, and so does the gap, unless it is closed because little space is
/// left.
pub proof fn law_appended_bytes_come_last(buffer: BufferView, bytes: Seq<u8>)
    requires
        buffer.wf(),
        bytes.len() <= buffer.capacity - buffer.gap - buffer.data.len(),
    ensures
        ({
            let after = buffer.filled(bytes);
            let left = buffer.capacity - buffer.gap - buffer.data.len() - bytes.len();
            let crowded = left < buffer.data.len() + 2 * bytes.len();
            &&& after.wf()
            &&& after.data.len() == buffer.data.len() + bytes.len()
            &&& after.data.take(buffer.data.len() as int) == buffer.data
            &&& after.data.skip(buffer.data.len() as int) == bytes
            &&& after.capacity == buffer.capacity
            &&& after.gap == if crowded { 0 } else { buffer.gap }
            &&& buffer.written(bytes) == after
        }),
{
    let after = buffer.filled(bytes);
    assert(after.data.take(buffer.data.len() as int) =~= buffer.data);
    assert(after.data.skip(buffer.data.len() as int) =~= bytes);
    assert(bytes.take(bytes.len() as int) =~= bytes);
}

/// Law: where not all bytes fit, the first of them are appended, until the buffer is full.
pub proof fn law_overlong_bytes_fill_the_buffer(buffer: BufferView, bytes: Seq<u8>)
    requires
        buffer.wf(),
        bytes.len() > buffer.capacity - buffer.gap - buffer.data.len(),
    ensures
        ({
            let after = buffer.written(bytes);
            let space = buffer.capacity - buffer.gap - buffer.data.len();
            &&& after.wf()
            &&& after.data == buffer.data + bytes.take(space)
            &&& after.data.len() == buffer.capacity - buffer.gap
            &&& after.capacity == buffer.capacity
        }),
{
}

/// Law: consumed bytes are gone from the front, and no others. The capacity stays, and a gap of
/// more than half of it is closed.
pub proof fn law_consumed_bytes_are_gone(buffer: BufferView, count: nat)
    requires
        buffer.wf(),
    ensures
        ({
            let after = buffer.consumed(count);
            let taken = buffer.data.len() - after.data.len();
            &&& after.wf()
            &&& taken == if count < buffer.data.len() { count } else { buffer.data.len() }
            &&& buffer.data.take(taken) + after.data == buffer.data
            &&& after.capacity == buffer.capacity
            &&& 2 * after.gap <= buffer.capacity
            &&& after.gap == 0 || after.gap == buffer.gap + taken
            &&& after.gap == 0 ==> buffer.gap + taken == 0 || 2 * (buffer.gap + taken)
                > buffer.capacity
        }),
{
    let after = buffer.consumed(count);
    let taken = buffer.data.len() - after.data.len();
    assert(buffer.data.take(taken) + after.data =~= buffer.data);
}

/// Law: what is appended to an empty buffer is what can be consumed from it, in any portions.
pub proof fn law_bytes_come_out_as_they_went_in(buffer: BufferView, bytes: Seq<u8>, count: nat)
    requires
        buffer.wf(),
        buffer.data.len() == 0,
        bytes.len() <= buffer.capacity - buffer.gap,
        count <= bytes.len(),
    ensures
        ({
            let held = buffer.filled(bytes);
            held.data.take(count as int) + held.consumed(count).data == bytes
        }),
{
    let held = buffer.filled(bytes);
    assert(held.data =~= bytes);
    assert(held.data.take(count as int) + held.consumed(count).data =~= bytes);
}

/// Law: to grow or to move the data keeps every byte. A buffer grows to the size that was asked
/// for and never shrinks, and data that was moved leaves all room behind it.
pub proof fn law_growing_and_moving_keep_the_data(buffer: BufferView, size: nat)
    requires
        buffer.wf(),
        size <= usize::MAX,
    ensures
        buffer.grown(size).wf(),
        buffer.grown(size).data == buffer.data,
        buffer.grown(size).gap == buffer.gap,
        buffer.grown(size).capacity == if size > buffer.capacity { size } else { buffer.capacity },
        buffer.shifted().wf(),
        buffer.shifted().data == buffer.data,
        buffer.shifted().capacity == buffer.capacity,
        buffer.shifted().space() == buffer.capacity - buffer.data.len(),
{
}

/// A growable byte buffer.
pub struct Buffer {
    memory: Vec<u8>,
    position: usize,
    end: usize,
}

impl View for Buffer {
    type V = BufferView;

    closed spec fn view(&self) -> BufferView {
        BufferView {
            data: self.memory@.subrange(self.position as int, self.end as int),
            gap: self.position as nat,
            capacity: self.memory@.len(),
        }
    }
}

impl Buffer {
    /// The data lies within the memory.
    pub closed spec fn wf(&self) -> bool {
        self.position <= self.end <= self.memory@.len()
    }

    /// A well-formed buffer has a well-formed view.
    pub broadcast proof fn lemma_view_wf(&self)
        ensures
            #[trigger] self.wf() ==> self@.wf(),
    {
        assert(self.memory.len() == self.memory@.len());
    }

    /// Creates an empty buffer with room for `capacity` bytes.
    pub fn with_capacity(capacity: usize) -> (buffer: Buffer)
        ensures
            buffer.wf(),
            buffer@ == BufferView::empty(capacity as nat),
    {
        let mut memory: Vec<u8> = Vec::with_capacity(capacity);
        memory.resize(capacity, 0);
        Buffer { memory, position: 0, end: 0 }
    }

    pub fn available_data(&self) -> (count: usize)
        requires
            self.wf(),
        ensures
            count == self@.data.len(),
    {
        self.end - self.position
    }

    pub fn available_space(&self) -> (count: usize)
        requires
            self.wf(),
        ensures
            count == self@.space(),
    {
        self.memory.len() - self.end
    }

    pub fn capacity(&self) -> (capacity: usize)
        ensures
            capacity == self@.capacity,
    {
        self.memory.len()
    }

    /// The bytes that wait to be consumed.
    pub fn data(&self) -> (data: &[u8])
        requires
            self.wf(),
        ensures
            data@ == self@.data,
    {
        self.memory.as_slice().split_at(self.end).0.split_at(self.position).1
    }

    /// Raises the capacity to `new_size`. Returns whether that changed anything.
    pub fn grow(&mut self, new_size: usize) -> (grew: bool)
        requires
            old(self).wf(),
        ensures
            final(self).wf(),
            final(self)@ == old(self)@.grown(new_size as nat),
            grew == (old(self)@.capacity < new_size),
    {
        if self.memory.len() >= new_size {
            return false;
        }
        self.memory.resize(new_size, 0);
        assert(self@.data =~= old(self)@.data) by {
            let before = old(self).memory@;
            let start = old(self).position;
            assert forall|i: int| 0 <= i < old(self)@.data.len() implies self@.data[i]
                == old(self)@.data[i] by {
                assert(self.memory@.subrange(0, before.len() as int)[start + i] == before[start + i]);
            }
        }
        true
    }

    /// Moves the data to the very left.
    pub fn shift(&mut self)
        requires
            old(self).wf(),
        ensures
            final(self).wf(),
            final(self)@ == old(self)@.shifted(),
    {
        if self.position == 0 {
            return;
        }
        let length: usize = self.end - self.position;
        let position: usize = self.position;
        let mut i: usize = 0;
        while i < length
            invariant
                old(self).wf(),
                position == old(self).position,
                self.position == position,
                self.end == old(self).end,
                length == self.end - position,
                i <= length,
                self.memory@.len() == old(self).memory@.len(),
                forall|k: int| 0 <= k < i ==> self.memory@[k] == old(self).memory@[position + k],
                forall|k: int| i <= k < self.memory@.len() ==> self.memory@[k] == old(self).memory@[k],
            decreases length - i,
        {
            let byte: u8 = self.memory[position + i];
            self.memory[i] = byte;
            i += 1;
        }
        self.position = 0;
        self.end = length;
        assert(self@.data =~= old(self)@.data);
    }

    /// Drops `count` bytes from the front, or all where there are fewer. Returns how many
    /// bytes were dropped.
    pub fn consume(&mut self, count: usize) -> (taken: usize)
        requires
            old(self).wf(),
        ensures
            final(self).wf(),
            final(self)@ == old(self)@.consumed(count as nat),
            taken == if count <= old(self)@.data.len() {
                count as int
            } else {
                old(self)@.data.len() as int
            },
    {
        let available: usize = self.available_data();
        let taken: usize = if count <= available { count } else { available };
        self.position = self.position + taken;
        assert(self@.data =~= old(self)@.data.skip(taken as int));
        if self.position > self.memory.len() / 2 {
            self.shift();
        }
        taken
    }

    /// Appends as many of `bytes` as there is space for. Returns how many were appended.
    pub fn write(&mut self, bytes: &[u8]) -> (count: usize)
        requires
            old(self).wf(),
        ensures
            final(self).wf(),
            final(self)@ == old(self)@.written(bytes@),
            count == if bytes@.len() <= old(self)@.space() {
                bytes@.len() as int
            } else {
                old(self)@.space()
            },
    {
        let space: usize = self.available_space();
        let count: usize = if bytes.len() <= space { bytes.len() } else { space };
        let start: usize = self.end;
        let limit: usize = self.memory.len();
        let mut i: usize = 0;
        while i < count
            invariant
                old(self).wf(),
                self.position == old(self).position,
                self.end == old(self).end,
                start == self.end,
                i <= count <= bytes@.len(),
                limit == old(self).memory@.len(),
                start + count <= limit,
                self.memory@.len() == old(self).memory@.len(),
                forall|k: int| 0 <= k < start ==> self.memory@[k] == old(self).memory@[k],
                forall|k: int| start <= k < start + i ==> self.memory@[k] == bytes@[k - start],
            decreases count - i,
        {
            let byte: u8 = bytes[i];
            self.memory[start + i] = byte;
            i += 1;
        }
        self.end = start + count;
        assert(self@.data =~= old(self)@.data + bytes@.take(count as int));
        let left: usize = self.available_space();
        let held: usize = self.available_data();
        if left < count || left - count < held {
            self.shift();
        }
        count
    }
}

} // verus!
