//! A fixed-capacity circular (ring) buffer of bytes.
//!
//! The buffer owns a fixed number of slots and three indices: `head` (next
//! slot to read), `tail` (next slot to write) and `size` (occupied slots).
//! `head` and `tail` wrap modulo the capacity; `size` disambiguates the full
//! buffer from the empty one, since both have `head == tail`.
//!
//! The abstract state of a buffer is the sequence of its occupied bytes in
//! oldest-first order, given by the buffer's view.

use vstd::prelude::*;

verus! {

use vstd::arithmetic::div_mod::lemma_mod_self_0;
use vstd::arithmetic::div_mod::lemma_small_mod;

/// Physical index of the slot that is `i` steps past index `start`, for
/// `0 <= start < capacity` and `0 <= i <= capacity`: the sum, wrapped once.
pub open spec fn wrap_index(start: int, i: int, capacity: int) -> int {
    if start + i < capacity {
        start + i
    } else {
        start + i - capacity
    }
}

/// Logical offset of physical slot `j` from the head: how many steps past
/// `head` the slot lies, walking forward with wrap-around.
pub open spec fn offset_of(j: int, head: int, capacity: int) -> int {
    if j >= head {
        j - head
    } else {
        j - head + capacity
    }
}

/// How many elements a bulk insert accepts on a buffer holding `contents`:
/// all of `data`, or as many as fit, whichever is smaller.
pub open spec fn accepted_count(contents: Seq<u8>, capacity: nat, data: Seq<u8>) -> int
    recommends
        contents.len() <= capacity,
{
    vstd::math::min(data.len() as int, capacity - contents.len())
}

/// How many elements a bulk remove of up to `count` elements takes from a
/// buffer holding `contents`: `count`, or everything, whichever is smaller.
pub open spec fn drained_count(contents: Seq<u8>, count: int) -> int {
    vstd::math::min(count, contents.len() as int)
}

/// A fixed-capacity circular buffer of bytes.
///
/// A buffer's view is the sequence of the bytes it currently holds, in
/// oldest-first order; its length never exceeds `capacity`.
pub struct RingBuffer {
    /// Slot storage; `None` marks a logically empty slot.
    buffer: Vec<Option<u8>>,
    /// Maximum number of elements held at once; positive and immutable.
    capacity: usize,
    /// Index of the next slot to read (the oldest element).
    head: usize,
    /// Index of the next slot to write.
    tail: usize,
    /// Number of currently occupied slots.
    size: usize,
}

impl View for RingBuffer {
    type V = Seq<u8>;

    /// The bytes currently held, oldest first.
    closed spec fn view(&self) -> Seq<u8> {
        Seq::new(
            self.size as nat,
            |i: int| self.buffer@[wrap_index(self.head as int, i, self.capacity as int)]->0,
        )
    }
}

impl RingBuffer {
    /// Maximum number of elements the buffer can hold, as contracts see it.
    pub closed spec fn spec_capacity(&self) -> usize {
        self.capacity
    }

    /// Maximum number of elements the buffer can hold; fixed at construction.
    #[verifier::when_used_as_spec(spec_capacity)]
    pub fn capacity(&self) -> (c: usize)
        ensures
            c == self.spec_capacity(),
    {
        self.capacity
    }

    /// The representation invariant: indices in range, `tail` determined by
    /// `head` and `size`, and exactly the `size` slots starting at `head`
    /// (with wrap-around) occupied.
    pub closed spec fn wf(&self) -> bool {
        &&& 0 < self.capacity
        &&& self.buffer@.len() == self.capacity
        &&& self.head < self.capacity
        &&& self.tail < self.capacity
        &&& self.size <= self.capacity
        &&& self.tail as int == wrap_index(self.head as int, self.size as int, self.capacity as int)
        &&& forall|j: int|
            0 <= j < self.capacity ==> (self.buffer@[j] is Some <==> offset_of(
                j,
                self.head as int,
                self.capacity as int,
            ) < self.size)
    }

    /// Creates an empty buffer with room for `capacity` elements.
    ///
    /// A capacity of zero is a caller error: every index computation below
    /// uses the capacity as a modulus, so such a buffer cannot exist.
    pub fn new(capacity: usize) -> (result: RingBuffer)
        requires
            0 < capacity,
        ensures
            result.wf(),
            result.capacity() == capacity,
            result@ == Seq::<u8>::empty(),
    {
        let mut buffer: Vec<Option<u8>> = Vec::new();
        let mut i: usize = 0;
        while i < capacity
            invariant
                i <= capacity,
                buffer@.len() == i,
                forall|j: int| 0 <= j < i ==> buffer@[j] is None,
            decreases capacity - i,
        {
            buffer.push(None);
            i += 1;
        }
        let result = RingBuffer { buffer, capacity, head: 0, tail: 0, size: 0 };
        proof {
            assert(result@ =~= Seq::<u8>::empty());
        }
        result
    }

    /// Whether the buffer holds no elements.
    pub fn is_empty(&self) -> (r: bool)
        requires
            self.wf(),
        ensures
            r == (self@.len() == 0),
    {
        self.size == 0
    }

    /// Whether the buffer holds as many elements as its capacity allows.
    pub fn is_full(&self) -> (r: bool)
        requires
            self.wf(),
        ensures
            r == (self@.len() == self.capacity()),
    {
        self.size == self.capacity
    }

    /// Number of elements currently held.
    pub fn len(&self) -> (n: usize)
        requires
            self.wf(),
        ensures
            n == self@.len(),
    {
        self.size
    }

    /// Inserts one byte at the tail.
    ///
    /// On a full buffer the insert is refused with a descriptive error and
    /// the buffer is left exactly as it was; otherwise the byte is appended
    /// after the newest element.
    pub fn push(&mut self, value: u8) -> (result: Result<(), String>)
        requires
            old(self).wf(),
        ensures
            final(self).wf(),
            final(self).capacity() == old(self).capacity(),
            old(self)@.len() < old(self).capacity() ==> {
                &&& result is Ok
                &&& final(self)@ == old(self)@.push(value)
            },
            old(self)@.len() == old(self).capacity() ==> {
                &&& (result matches Err(message) && message@ == "buffer is full"@)
                &&& *final(self) == *old(self)
            },
    {
        if self.is_full() {
            return Err(String::from_str("buffer is full"));
        }
        let slot = self.tail;
        self.buffer[slot] = Some(value);
        self.tail = (self.tail + 1) % self.capacity;
        self.size = self.size + 1;
        proof {
            lemma_wrap_index_is_mod(old(self).tail as int, 1, self.capacity as int);
            assert(self@ =~= old(self)@.push(value));
        }
        Ok(())
    }

    /// Removes and returns the oldest byte.
    ///
    /// On an empty buffer this returns `None` and changes nothing: emptiness
    /// is a normal outcome, not an error. Otherwise the slot at the head is
    /// cleared and its byte returned.
    pub fn pop(&mut self) -> (result: Option<u8>)
        requires
            old(self).wf(),
        ensures
            final(self).wf(),
            final(self).capacity() == old(self).capacity(),
            old(self)@.len() == 0 ==> {
                &&& result is None
                &&& *final(self) == *old(self)
            },
            old(self)@.len() > 0 ==> {
                &&& result == Some(old(self)@[0])
                &&& final(self)@ == old(self)@.skip(1)
            },
    {
        if self.is_empty() {
            return None;
        }
        let slot = self.head;
        let value = self.buffer[slot];
        self.buffer[slot] = None;
        self.head = (self.head + 1) % self.capacity;
        self.size = self.size - 1;
        proof {
            lemma_wrap_index_is_mod(old(self).head as int, 1, self.capacity as int);
            assert(self@ =~= old(self)@.skip(1));
        }
        value
    }

    /// Bulk insert: pushes the bytes of `data` in order, stopping at the
    /// first refusal, and returns how many were inserted.
    ///
    /// The inserted bytes are exactly the prefix of `data` that fits: no
    /// element is skipped or reordered, and the buffer never grows past its
    /// capacity.
    pub fn extend(&mut self, data: &[u8]) -> (count: usize)
        requires
            old(self).wf(),
        ensures
            final(self).wf(),
            final(self).capacity() == old(self).capacity(),
            count as int == accepted_count(old(self)@, old(self).capacity() as nat, data@),
            final(self)@ == old(self)@ + data@.take(count as int),
    {
        let mut count: usize = 0;
        proof {
            assert(self@ =~= old(self)@ + data@.take(0));
        }
        while count < data.len()
            invariant
                self.wf(),
                self.capacity() == old(self).capacity(),
                old(self).wf(),
                count <= data@.len(),
                self@ == old(self)@ + data@.take(count as int),
            decreases data@.len() - count,
        {
            match self.push(data[count]) {
                Ok(()) => {},
                Err(_) => {
                    return count;
                },
            }
            proof {
                assert(self@ =~= old(self)@ + data@.take(count as int + 1));
            }
            count = count + 1;
        }
        proof {
            assert(data@.take(count as int) =~= data@);
        }
        count
    }

    /// Bulk remove: pops up to `count` of the oldest bytes, stopping early
    /// if the buffer runs empty, and returns them oldest first.
    ///
    /// The result is exactly the first `min(count, len())` elements in
    /// insertion order: none skipped, duplicated or reordered. Asking for
    /// more than is held is not an error; the result is simply shorter.
    pub fn drain(&mut self, count: usize) -> (result: Vec<u8>)
        requires
            old(self).wf(),
        ensures
            final(self).wf(),
            final(self).capacity() == old(self).capacity(),
            result@ == old(self)@.take(drained_count(old(self)@, count as int)),
            final(self)@ == old(self)@.skip(drained_count(old(self)@, count as int)),
    {
        let mut result: Vec<u8> = Vec::new();
        let mut i: usize = 0;
        proof {
            assert(result@ =~= old(self)@.take(0));
            assert(self@ =~= old(self)@.skip(0));
        }
        while i < count
            invariant
                self.wf(),
                self.capacity() == old(self).capacity(),
                i <= count,
                i == result@.len(),
                i <= old(self)@.len(),
                result@ == old(self)@.take(i as int),
                self@ == old(self)@.skip(i as int),
            decreases count - i,
        {
            match self.pop() {
                Some(byte) => {
                    result.push(byte);
                },
                None => {
                    return result;
                },
            }
            proof {
                assert(result@ =~= old(self)@.take(i as int + 1));
                assert(self@ =~= old(self)@.skip(i as int + 1));
            }
            i = i + 1;
        }
        result
    }
}

/// Capacity law: a well-formed buffer never holds more elements than its
/// capacity, whatever sequence of operations produced it.
pub proof fn law_capacity_invariant(buffer: &RingBuffer)
    requires
        buffer.wf(),
    ensures
        0 <= buffer@.len() <= buffer.spec_capacity(),
{
}

/// FIFO law: bytes inserted in order into an empty buffer, with nothing
/// removed in between, are all accepted when they fit, leave the buffer
/// holding exactly that sequence, and a drain of their number returns them
/// in the same order and leaves the buffer empty.
pub proof fn law_fifo_ordering(values: Seq<u8>, capacity: nat)
    requires
        values.len() <= capacity,
    ensures
        accepted_count(Seq::<u8>::empty(), capacity, values) == values.len(),
        Seq::<u8>::empty() + values.take(values.len() as int) == values,
        drained_count(values, values.len() as int) == values.len(),
        values.take(values.len() as int) == values,
        values.skip(values.len() as int) == Seq::<u8>::empty(),
{
    assert(Seq::<u8>::empty() + values.take(values.len() as int) =~= values);
    assert(values.take(values.len() as int) =~= values);
    assert(values.skip(values.len() as int) =~= Seq::<u8>::empty());
}

/// Partial-fill law: a bulk insert into a buffer with exactly one free slot
/// accepts only the first byte of a non-empty input, appends it, and leaves
/// the buffer full.
pub proof fn law_extend_partial_fill(contents: Seq<u8>, capacity: nat, data: Seq<u8>)
    requires
        contents.len() + 1 == capacity,
        data.len() >= 1,
    ensures
        accepted_count(contents, capacity, data) == 1,
        contents + data.take(1) == contents.push(data[0]),
        (contents + data.take(1)).len() == capacity,
{
    assert(contents + data.take(1) =~= contents.push(data[0]));
}

/// For `0 <= start < capacity` and `0 <= i <= capacity`, the wrapped sum
/// `wrap_index(start, i, capacity)` is `(start + i) % capacity`.
proof fn lemma_wrap_index_is_mod(start: int, i: int, capacity: int)
    requires
        0 <= start < capacity,
        0 <= i <= capacity,
    ensures
        wrap_index(start, i, capacity) == (start + i) % capacity,
{
    if start + i < capacity {
        lemma_small_mod((start + i) as nat, capacity as nat);
    } else {
        lemma_small_mod((start + i - capacity) as nat, capacity as nat);
        lemma_mod_self_0(capacity);
        vstd::arithmetic::div_mod::lemma_add_mod_noop(start + i - capacity, capacity, capacity);
    }
}

} // verus!
