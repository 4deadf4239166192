use vstd::prelude::*;

verus! {

/// Abstract state of a [`CircularBuffer`]: the fields of the buffer, taken
/// as mathematical values.
pub struct BufferState<T> {
    pub capacity: nat,
    pub write_ptr: nat,
    pub storage: Seq<T>,
    pub access_counter: Seq<u16>,
    pub nb_accessor: u16,
}

impl<T> BufferState<T> {
    /// The state of a freshly built buffer.
    pub open spec fn initial(capacity: nat, nb_accessor: u16) -> Self {
        BufferState {
            capacity,
            write_ptr: 0,
            storage: Seq::empty(),
            access_counter: Seq::new(capacity, |i: int| 0u16),
            nb_accessor,
        }
    }

    /// What every reachable state satisfies: one access counter per slot,
    /// at most one value per slot, the slots filled from 0 up during the
    /// first lap, and no pending read on a slot that was never written.
    pub open spec fn wf(self) -> bool {
        &&& self.access_counter.len() == self.capacity
        &&& self.storage.len() <= self.capacity
        &&& (self.capacity > 0 ==> self.write_ptr < self.capacity)
        &&& (self.capacity == 0 ==> self.write_ptr == 0)
        &&& (self.storage.len() < self.capacity ==> self.write_ptr == self.storage.len())
        &&& forall|j: int|
            self.storage.len() <= j < self.access_counter.len() ==> #[trigger] self.access_counter[j]
                == 0
    }

    /// A push is accepted when the slot under the write pointer exists and
    /// no reader still has to read it; otherwise the ring is full.
    pub open spec fn can_push(self) -> bool {
        &&& self.write_ptr < self.access_counter.len()
        &&& self.access_counter[self.write_ptr as int] == 0
    }

    /// The message of a refused push.
    pub open spec fn push_error(self) -> Seq<char> {
        if self.write_ptr >= self.access_counter.len() {
            "Out of bound§"@
        } else {
            "Ring buffer is full"@
        }
    }

    /// The state after an accepted push of `value`: the value replaces the
    /// slot under the write pointer (it fills the next empty slot during the
    /// first lap), that slot owes `nb_accessor` reads, and the write pointer
    /// advances modulo the capacity.
    pub open spec fn after_push(self, value: T) -> Self {
        BufferState {
            capacity: self.capacity,
            write_ptr: (self.write_ptr + 1) % self.capacity,
            storage: if self.write_ptr < self.storage.len() {
                self.storage.update(self.write_ptr as int, value)
            } else {
                self.storage.push(value)
            },
            access_counter: self.access_counter.update(self.write_ptr as int, self.nb_accessor),
            nb_accessor: self.nb_accessor,
        }
    }

    /// Why a read at `read_ptr` is refused, if it is: the reader stands at
    /// the write pointer ("Nothing to read"), or its slot owes no read
    /// ("Already Read").
    pub open spec fn read_error(self, read_ptr: nat) -> Option<Seq<char>> {
        if read_ptr == self.write_ptr {
            Some("Nothing to read"@)
        } else if read_ptr >= self.access_counter.len() || self.access_counter[read_ptr as int] == 0 {
            Some("Already Read"@)
        } else {
            None
        }
    }

    /// A read pointer that a call of `read` may be given: one that does not
    /// index past the access counters unless it is the write pointer.
    pub open spec fn valid_read_ptr(self, read_ptr: nat) -> bool {
        read_ptr == self.write_ptr || read_ptr < self.access_counter.len()
    }

    /// The state after an accepted read at `read_ptr`: its access count drops by one.
    pub open spec fn after_read(self, read_ptr: nat) -> Self {
        BufferState {
            access_counter: self.access_counter.update(
                read_ptr as int,
                (self.access_counter[read_ptr as int] - 1) as u16,
            ),
            ..self
        }
    }

    /// The state after the accepted pushes of `values`, in order.
    pub open spec fn after_pushes(self, values: Seq<T>) -> Self
        decreases values.len(),
    {
        if values.len() == 0 {
            self
        } else {
            self.after_pushes(values.drop_last()).after_push(values.last())
        }
    }

    /// The state after `k` accepted reads of the slot `read_ptr`.
    pub open spec fn after_reads_of(self, read_ptr: nat, k: nat) -> Self
        decreases k,
    {
        if k == 0 {
            self
        } else {
            self.after_reads_of(read_ptr, (k - 1) as nat).after_read(read_ptr)
        }
    }

    /// The state after one reader has read the slots `0 .. k`, one after the other.
    pub open spec fn after_reading_first(self, k: nat) -> Self
        decreases k,
    {
        if k == 0 {
            self
        } else {
            self.after_reading_first((k - 1) as nat).after_read((k - 1) as nat)
        }
    }

    /// Where a reader's pointer goes after an accepted read.
    pub open spec fn next_read_ptr(self, read_ptr: nat) -> nat {
        (read_ptr + 1) % self.capacity
    }
}

/// Advancing a position of a ring of `c` slots wraps to 0 after the last slot.
pub proof fn lemma_advance_wraps(p: nat, c: nat)
    requires
        p < c,
    ensures
        (p + 1) % c == if p + 1 == c { 0 } else { p + 1 },
{
    if p + 1 == c {
        vstd::arithmetic::div_mod::lemma_mod_self_0(c as int);
    } else {
        vstd::arithmetic::div_mod::lemma_small_mod((p + 1) as nat, c);
    }
}

/// An accepted push keeps the buffer well formed.
pub proof fn lemma_push_keeps_wf<T>(s: BufferState<T>, value: T)
    requires
        s.wf(),
        s.can_push(),
    ensures
        s.after_push(value).wf(),
        s.capacity > 0,
        s.write_ptr <= s.storage.len(),
        s.after_push(value).storage[s.write_ptr as int] == value,
        s.after_push(value).write_ptr == if s.write_ptr + 1 == s.capacity { 0 } else { s.write_ptr + 1 },
{
    lemma_advance_wraps(s.write_ptr, s.capacity);
    let t = s.after_push(value);
    assert forall|j: int| t.storage.len() <= j < t.access_counter.len() implies #[trigger] t.access_counter[j]
        == 0 by {
        assert(t.access_counter[j] == s.access_counter[j]);
    }
}

/// An accepted read keeps the buffer well formed.
pub proof fn lemma_read_keeps_wf<T>(s: BufferState<T>, read_ptr: nat)
    requires
        s.wf(),
        s.valid_read_ptr(read_ptr),
        s.read_error(read_ptr) is None,
    ensures
        s.after_read(read_ptr).wf(),
        read_ptr < s.storage.len(),
        s.capacity > 0,
{
    assert(read_ptr < s.storage.len());
    let t = s.after_read(read_ptr);
    assert forall|j: int| t.storage.len() <= j < t.access_counter.len() implies #[trigger] t.access_counter[j]
        == 0 by {
        assert(t.access_counter[j] == s.access_counter[j]);
    }
}

/// A ring of `capacity` slots shared by `nb_accessor` readers, each with its
/// own read pointer. A pushed value replaces the slot under the write
/// pointer, which then owes `nb_accessor` reads; each accepted read lowers
/// that count, and the writer waits (its push is refused) while the slot it
/// would write still owes reads.
pub struct CircularBuffer<T> {
    capacity: usize,
    write_ptr: usize,
    storage: Vec<T>,
    access_counter: Vec<u16>,
    nb_accessor: u16,
}

impl<T> View for CircularBuffer<T> {
    type V = BufferState<T>;

    closed spec fn view(&self) -> BufferState<T> {
        BufferState {
            capacity: self.capacity as nat,
            write_ptr: self.write_ptr as nat,
            storage: self.storage@,
            access_counter: self.access_counter@,
            nb_accessor: self.nb_accessor,
        }
    }
}

impl<T> CircularBuffer<T> {
    /// Every buffer is well formed.
    #[verifier::type_invariant]
    closed spec fn well_formed(self) -> bool {
        self@.wf()
    }

    pub fn new(capacity: usize, nb_accessor: u16) -> (res: Self)
        ensures
            res@ == BufferState::<T>::initial(capacity as nat, nb_accessor),
            res@.wf(),
    {
        let ghost init = BufferState::<T>::initial(capacity as nat, nb_accessor);
        let access_counter = vec![0; capacity];
        assert(access_counter@ =~= init.access_counter);
        Self {
            capacity,
            write_ptr: 0,
            storage: Vec::<T>::with_capacity(capacity),
            access_counter,
            nb_accessor,
        }
    }

    pub fn capacity(&self) -> (capacity: usize)
        ensures
            capacity == self@.capacity,
    {
        self.capacity
    }

    /// Tells whether `read` may be given this read pointer: one that is
    /// the write pointer or indexes an access counter.
    pub fn accepts_read_ptr(&self, read_ptr: usize) -> (ok: bool)
        ensures
            ok == self@.valid_read_ptr(read_ptr as nat),
    {
        read_ptr == self.write_ptr || read_ptr < self.access_counter.len()
    }

    /// Hands the value under `read_ptr` to the reader that owns that
    /// pointer, and moves the pointer to the next slot; refused when the
    /// reader stands at the write pointer, or when the slot owes no read.
    pub fn read(&mut self, read_ptr: &mut usize) -> (res: Result<&T, &'static str>)
        requires
            old(self)@.valid_read_ptr(*old(read_ptr) as nat),
        ensures
            final(self)@.wf(),
            match old(self)@.read_error(*old(read_ptr) as nat) {
                Some(msg) => {
                    &&& res matches Err(e) && e@ == msg
                    &&& final(self)@ == old(self)@
                    &&& *final(read_ptr) == *old(read_ptr)
                },
                None => {
                    &&& *old(read_ptr) < old(self)@.storage.len()
                    &&& res matches Ok(v) && *v == old(self)@.storage[*old(read_ptr) as int]
                    &&& final(self)@ == old(self)@.after_read(*old(read_ptr) as nat)
                    &&& *final(read_ptr) as nat == old(self)@.next_read_ptr(*old(read_ptr) as nat)
                },
            },
    {
        proof {
            use_type_invariant(&*self);
        }
        if self.write_ptr == *read_ptr {
            return Err("Nothing to read");
        }
        if 0 >= self.access_counter[*read_ptr] {
            return Err("Already Read");
        }
        let present_ptr = *read_ptr;
        let ghost pre = self@;
        proof {
            lemma_read_keeps_wf(pre, present_ptr as nat);
        }
        let mut taken = Self::new(0, 0);
        std::mem::swap(&mut taken, self);
        let CircularBuffer { capacity, write_ptr, storage, mut access_counter, nb_accessor } = taken;
        assert(present_ptr < storage.len());
        let count = access_counter[present_ptr];
        access_counter.set(present_ptr, count - 1);
        *read_ptr = (present_ptr + 1) % capacity;
        let rebuilt = CircularBuffer { capacity, write_ptr, storage, access_counter, nb_accessor };
        assert(rebuilt@ == pre.after_read(present_ptr as nat));
        *self = rebuilt;
        Ok(&self.storage[present_ptr])
    }

    /// Writes `value` in the slot under the write pointer and moves the
    /// pointer on; refused while a reader has still to read that slot.
    /// Gives back the new write pointer.
    pub fn push(&mut self, value: T) -> (res: Result<usize, &'static str>)
        ensures
            final(self)@.wf(),
            old(self)@.can_push() ==> {
                &&& final(self)@ == old(self)@.after_push(value)
                &&& res == Ok::<usize, &'static str>(final(self)@.write_ptr as usize)
            },
            !old(self)@.can_push() ==> {
                &&& final(self)@ == old(self)@
                &&& res matches Err(e) && e@ == old(self)@.push_error()
            },
    {
        proof {
            use_type_invariant(&*self);
        }
        if self.write_ptr >= self.access_counter.len() {
            return Err("Out of bound§");
        }
        let nb_access = self.access_counter[self.write_ptr];
        if nb_access > 0 {
            return Err("Ring buffer is full");
        }
        let ghost pre = self@;
        proof {
            lemma_push_keeps_wf(pre, value);
        }
        let mut taken = Self::new(0, 0);
        std::mem::swap(&mut taken, self);
        let CircularBuffer { capacity, write_ptr, mut storage, mut access_counter, nb_accessor } =
            taken;
        if write_ptr < storage.len() {
            storage.set(write_ptr, value);
        } else {
            storage.push(value);
        }
        access_counter.set(write_ptr, nb_accessor);
        let next = (write_ptr + 1) % capacity;
        let rebuilt = CircularBuffer { capacity, write_ptr: next, storage, access_counter, nb_accessor };
        assert(rebuilt@ == pre.after_push(value));
        *self = rebuilt;
        Ok(next)
    }
}

} // verus!
