use vstd::prelude::*;

use super::circular_buffer::{BufferState, lemma_advance_wraps, lemma_push_keeps_wf, lemma_read_keeps_wf};

verus! {

/// Access counts of a ring of `c` slots whose first `k` slots hold `n`
/// pending reads each.
pub open spec fn lap_counters(k: nat, n: u16, c: nat) -> Seq<u16> {
    Seq::new(c, |i: int| if i < k { n } else { 0u16 })
}

/// The shape of a fresh buffer after `values.len() < capacity` pushes.
proof fn lemma_first_lap_shape<T>(capacity: nat, nb_accessor: u16, values: Seq<T>)
    requires
        values.len() < capacity,
    ensures
        ({
            let t = BufferState::<T>::initial(capacity, nb_accessor).after_pushes(values);
            &&& t.wf()
            &&& t.capacity == capacity
            &&& t.nb_accessor == nb_accessor
            &&& t.write_ptr == values.len()
            &&& t.storage == values
            &&& t.access_counter == lap_counters(values.len(), nb_accessor, capacity)
        }),
        forall|k: int|
            0 <= k < values.len() ==> #[trigger] BufferState::<T>::initial(
                capacity,
                nb_accessor,
            ).after_pushes(values.take(k)).can_push(),
    decreases values.len(),
{
    let init = BufferState::<T>::initial(capacity, nb_accessor);
    if values.len() == 0 {
        assert(init.access_counter =~= lap_counters(0, nb_accessor, capacity));
    } else {
        let prefix = values.drop_last();
        lemma_first_lap_shape(capacity, nb_accessor, prefix);
        let s = init.after_pushes(prefix);
        assert(s.can_push());
        lemma_push_keeps_wf(s, values.last());
        let t = s.after_push(values.last());
        assert(t.storage =~= values);
        assert(t.access_counter =~= lap_counters(values.len(), nb_accessor, capacity));
        assert forall|k: int| 0 <= k < values.len() implies #[trigger] init.after_pushes(
            values.take(k),
        ).can_push() by {
            if k < prefix.len() {
                assert(values.take(k) =~= prefix.take(k));
            } else {
                assert(values.take(k) =~= prefix);
            }
        }
    }
}

/// What one reader has done to the counters after reading slots `0 .. i`.
proof fn lemma_reading_first<T>(t: BufferState<T>, k: nat, i: nat)
    requires
        i <= k,
        t.write_ptr == k,
        k < t.capacity,
        t.access_counter == lap_counters(k, t.nb_accessor, t.capacity),
        t.nb_accessor > 0,
    ensures
        t.after_reading_first(i).storage == t.storage,
        t.after_reading_first(i).write_ptr == t.write_ptr,
        t.after_reading_first(i).capacity == t.capacity,
        t.after_reading_first(i).access_counter == Seq::new(
            t.capacity,
            |j: int|
                if j < i {
                    (t.nb_accessor - 1) as u16
                } else if j < k {
                    t.nb_accessor
                } else {
                    0u16
                },
        ),
    decreases i,
{
    if i > 0 {
        lemma_reading_first(t, k, (i - 1) as nat);
        let u = t.after_reading_first((i - 1) as nat);
        assert(u.after_read((i - 1) as nat).access_counter =~= Seq::new(
            t.capacity,
            |j: int|
                if j < i {
                    (t.nb_accessor - 1) as u16
                } else if j < k {
                    t.nb_accessor
                } else {
                    0u16
                },
        ));
    } else {
        assert(t.access_counter =~= Seq::new(
            t.capacity,
            |j: int|
                if j < 0 {
                    (t.nb_accessor - 1) as u16
                } else if j < k {
                    t.nb_accessor
                } else {
                    0u16
                },
        ));
    }
}

/// During the first lap of a fresh buffer every push is accepted, and a
/// reader that starts at slot 0 receives the pushed values in the order in
/// which they were pushed, one slot after the other, and then finds nothing
/// more to read.
pub proof fn law_first_lap_is_fifo<T>(capacity: nat, nb_accessor: u16, values: Seq<T>)
    requires
        values.len() < capacity,
        nb_accessor > 0,
    ensures
        forall|k: int|
            0 <= k < values.len() ==> #[trigger] BufferState::<T>::initial(
                capacity,
                nb_accessor,
            ).after_pushes(values.take(k)).can_push(),
        ({
            let t = BufferState::<T>::initial(capacity, nb_accessor).after_pushes(values);
            &&& t.wf()
            &&& t.write_ptr == values.len()
            &&& forall|i: nat|
                i < values.len() ==> {
                    &&& #[trigger] t.after_reading_first(i).read_error(i) is None
                    &&& t.after_reading_first(i).valid_read_ptr(i)
                    &&& t.after_reading_first(i).storage[i as int] == values[i as int]
                    &&& t.next_read_ptr(i) == i + 1
                }
            &&& t.after_reading_first(values.len()).read_error(values.len()) == Some(
                "Nothing to read"@,
            )
        }),
{
    lemma_first_lap_shape(capacity, nb_accessor, values);
    let t = BufferState::<T>::initial(capacity, nb_accessor).after_pushes(values);
    let k = values.len();
    assert forall|i: nat| i < values.len() implies {
        &&& #[trigger] t.after_reading_first(i).read_error(i) is None
        &&& t.after_reading_first(i).valid_read_ptr(i)
        &&& t.after_reading_first(i).storage[i as int] == values[i as int]
        &&& t.next_read_ptr(i) == i + 1
    } by {
        lemma_reading_first(t, k, i);
        lemma_advance_wraps(i, capacity);
    }
    lemma_reading_first(t, k, k);
}

/// Reading the slot `read_ptr` `k` times lowers its count by `k` and
/// changes nothing else.
proof fn lemma_reads_of_slot<T>(t: BufferState<T>, read_ptr: nat, k: nat)
    requires
        read_ptr < t.access_counter.len(),
        k <= t.access_counter[read_ptr as int],
    ensures
        t.after_reads_of(read_ptr, k).storage == t.storage,
        t.after_reads_of(read_ptr, k).write_ptr == t.write_ptr,
        t.after_reads_of(read_ptr, k).access_counter.len() == t.access_counter.len(),
        t.after_reads_of(read_ptr, k).access_counter[read_ptr as int] == t.access_counter[read_ptr as int]
            - k,
    decreases k,
{
    if k > 0 {
        lemma_reads_of_slot(t, read_ptr, (k - 1) as nat);
    }
}

/// A value accepted by `push` is handed out by exactly `nb_accessor` reads
/// of its slot, whichever readers make them; the read after those reports
/// "Already Read". That each reader receives it once is `law_queue_read`.
pub proof fn law_value_read_once_per_accessor<T>(s: BufferState<T>, value: T, k: nat)
    requires
        s.wf(),
        s.can_push(),
        s.capacity >= 2,
        k <= s.nb_accessor,
    ensures
        ({
            let t = s.after_push(value).after_reads_of(s.write_ptr, k);
            &&& t.storage[s.write_ptr as int] == value
            &&& t.valid_read_ptr(s.write_ptr)
            &&& k < s.nb_accessor ==> t.read_error(s.write_ptr) is None
            &&& k == s.nb_accessor ==> t.read_error(s.write_ptr) == Some("Already Read"@)
        }),
{
    lemma_push_keeps_wf(s, value);
    let u = s.after_push(value);
    lemma_reads_of_slot(u, s.write_ptr, k);
}

/// A reader whose pointer starts at slot 0 may always call `read`: its
/// pointer stays below the capacity (or at 0 in a buffer without slots),
/// which `read` accepts in every well-formed state, pushes never take that
/// away, and an accepted read moves it to the next slot below the capacity.
pub proof fn law_reader_pointer_stays_valid<T>(s: BufferState<T>, read_ptr: nat, value: T)
    requires
        s.wf(),
        read_ptr < s.capacity || read_ptr == 0,
    ensures
        s.valid_read_ptr(read_ptr),
        s.read_error(read_ptr) is None ==> {
            &&& s.next_read_ptr(read_ptr) < s.capacity
            &&& s.after_read(read_ptr).valid_read_ptr(s.next_read_ptr(read_ptr))
        },
        s.can_push() ==> s.after_push(value).valid_read_ptr(read_ptr),
{
    if s.read_error(read_ptr) is None {
        lemma_read_keeps_wf(s, read_ptr);
        lemma_advance_wraps(read_ptr, s.capacity);
    }
    if s.can_push() {
        lemma_push_keeps_wf(s, value);
    }
}

/// Two positions less than `c` apart fall in different slots of a ring of `c` slots.
proof fn lemma_window_slots_differ(a: int, b: int, c: int)
    requires
        0 <= a < b < a + c,
    ensures
        a % c != b % c,
{
    vstd::arithmetic::div_mod::lemma_fundamental_div_mod(a, c);
    vstd::arithmetic::div_mod::lemma_fundamental_div_mod(b, c);
    vstd::arithmetic::div_mod::lemma_mod_bound(a, c);
    vstd::arithmetic::div_mod::lemma_mod_bound(b, c);
    if a % c == b % c {
        assert(false) by (nonlinear_arith)
            requires
                a == c * (a / c) + a % c,
                b == c * (b / c) + b % c,
                a % c == b % c,
                0 < b - a < c,
        ;
    }
}

/// Moving one position on moves one slot on, wrapping after the last.
proof fn lemma_next_slot(w: int, c: int)
    requires
        0 <= w,
        0 < c,
    ensures
        (w % c + 1) % c == (w + 1) % c,
        (w + c) % c == w % c,
        0 <= w % c < c,
{
    vstd::arithmetic::div_mod::lemma_add_mod_noop_right(w % c, 1, c);
    vstd::arithmetic::div_mod::lemma_add_mod_noop(w, 1, c);
    vstd::arithmetic::div_mod::lemma_mod_add_multiples_vanish(w, c);
    vstd::arithmetic::div_mod::lemma_mod_bound(w, c);
}

/// How many of the readers, whose read counts are `reads`, have not read
/// the value at position `j` yet.
pub open spec fn owing(reads: Seq<nat>, j: int) -> nat
    decreases reads.len(),
{
    if reads.len() == 0 {
        0
    } else {
        owing(reads.drop_last(), j) + if reads.last() <= j {
            1nat
        } else {
            0nat
        }
    }
}

proof fn lemma_owing_bounds(reads: Seq<nat>, j: int)
    ensures
        owing(reads, j) <= reads.len(),
        (owing(reads, j) == 0) <==> (forall|k: int| 0 <= k < reads.len() ==> reads[k] > j),
        (forall|k: int| 0 <= k < reads.len() ==> reads[k] <= j) ==> owing(reads, j) == reads.len(),
    decreases reads.len(),
{
    if reads.len() > 0 {
        let p = reads.drop_last();
        lemma_owing_bounds(p, j);
        if owing(reads, j) == 0 {
            assert forall|k: int| 0 <= k < reads.len() implies reads[k] > j by {
                if k < p.len() {
                    assert(p[k] == reads[k]);
                }
            }
        }
        if forall|k: int| 0 <= k < reads.len() ==> reads[k] > j {
            assert forall|k: int| 0 <= k < p.len() implies p[k] > j by {
                assert(p[k] == reads[k]);
            }
            assert(reads[reads.len() - 1] > j);
        }
        if forall|k: int| 0 <= k < reads.len() ==> reads[k] <= j {
            assert forall|k: int| 0 <= k < p.len() implies p[k] <= j by {
                assert(p[k] == reads[k]);
            }
            assert(reads[reads.len() - 1] <= j);
        }
    }
}

/// When reader `k` reads one more value, only the value at its old read
/// count is owed by one reader fewer.
proof fn lemma_owing_after_read(reads: Seq<nat>, k: int, j: int)
    requires
        0 <= k < reads.len(),
    ensures
        owing(reads.update(k, reads[k] + 1), j) + (if reads[k] == j {
            1nat
        } else {
            0nat
        }) == owing(reads, j),
    decreases reads.len(),
{
    let u = reads.update(k, reads[k] + 1);
    if k == reads.len() - 1 {
        assert(u.drop_last() =~= reads.drop_last());
    } else {
        assert(u.drop_last() =~= reads.drop_last().update(k, reads[k] + 1));
        lemma_owing_after_read(reads.drop_last(), k, j);
    }
}

/// The buffer seen as a queue read by `nb_accessor` readers: `history`
/// holds every value ever pushed, in order, and reader `k` has read the
/// first `reads[k]` of them. The last `capacity` values stand in their slots
/// (position `j` in slot `j % capacity`), and each slot owes as many reads
/// as there are readers that have not read its value.
pub open spec fn represents<T>(s: BufferState<T>, history: Seq<T>, reads: Seq<nat>) -> bool {
    let w = history.len() as int;
    let c = s.capacity as int;
    &&& s.wf()
    &&& s.nb_accessor == reads.len()
    &&& c > 0
    &&& forall|k: int| 0 <= k < reads.len() ==> #[trigger] reads[k] <= w <= reads[k] + c
    &&& s.write_ptr == w % c
    &&& s.storage.len() == if w < c {
        w
    } else {
        c
    }
    &&& forall|j: int| 0 <= j && w - c <= j < w ==> #[trigger] slot_holds(s, history, reads, j)
}

/// Position `j` of the history stands in its slot, which owes as many reads
/// as there are readers that have not read it.
pub open spec fn slot_holds<T>(s: BufferState<T>, history: Seq<T>, reads: Seq<nat>, j: int) -> bool {
    &&& s.storage[j % (s.capacity as int)] == history[j]
    &&& s.access_counter[j % (s.capacity as int)] == owing(reads, j)
}

/// A fresh buffer stands for the empty queue, no reader having read anything.
pub proof fn law_queue_starts_empty<T>(capacity: nat, nb_accessor: u16)
    requires
        capacity > 0,
    ensures
        represents(
            BufferState::<T>::initial(capacity, nb_accessor),
            Seq::<T>::empty(),
            Seq::new(nb_accessor as nat, |k: int| 0nat),
        ),
{
    vstd::arithmetic::div_mod::lemma_small_mod(0, capacity);
}

/// A push is accepted exactly when no reader is a whole ring behind the
/// writer, and it appends the value to the queue, owed to every reader.
pub proof fn law_queue_push<T>(s: BufferState<T>, history: Seq<T>, reads: Seq<nat>, value: T)
    requires
        represents(s, history, reads),
    ensures
        s.can_push() <==> (forall|k: int|
            0 <= k < reads.len() ==> history.len() < #[trigger] reads[k] + s.capacity),
        s.can_push() ==> represents(s.after_push(value), history.push(value), reads),
        s.can_push() ==> s.after_push(value).write_ptr == (history.len() + 1) % s.capacity,
{
    let w = history.len() as int;
    let c = s.capacity as int;
    lemma_next_slot(w, c);
    if w >= c {
        lemma_next_slot(w - c, c);
        let j0 = w - c;
        assert(slot_holds(s, history, reads, j0));
        lemma_owing_bounds(reads, j0);
        assert(s.access_counter[w % c] == owing(reads, j0));
    } else {
        vstd::arithmetic::div_mod::lemma_small_mod(w as nat, c as nat);
        assert forall|k: int| 0 <= k < reads.len() implies history.len() < #[trigger] reads[k]
            + s.capacity by {
            assert(reads[k] <= w);
        }
    }
    if s.can_push() {
        lemma_push_keeps_wf(s, value);
        let t = s.after_push(value);
        let h = history.push(value);
        lemma_owing_bounds(reads, w);
        assert forall|j: int| 0 <= j && w + 1 - c <= j < w + 1 implies #[trigger] slot_holds(t, h, reads, j) by {
            vstd::arithmetic::div_mod::lemma_mod_bound(j, c);
            if j < w {
                lemma_window_slots_differ(j, w, c);
                assert(slot_holds(s, history, reads, j));
                assert(history[j] == h[j]);
                if w < c {
                    vstd::arithmetic::div_mod::lemma_small_mod(j as nat, c as nat);
                }
                assert(j % c < s.storage.len());
                assert(t.storage[j % c] == s.storage[j % c]);
                assert(t.access_counter[j % c] == s.access_counter[j % c]);
            } else {
                assert(j == w);
                assert(h[j] == value);
                assert forall|k: int| 0 <= k < reads.len() implies reads[k] <= j by {
                    assert(reads[k] <= w);
                }
            }
        }
        assert forall|k: int| 0 <= k < reads.len() implies #[trigger] reads[k] <= w + 1 <= reads[k]
            + c by {
            assert(reads[k] <= w);
        }
        assert(t.write_ptr == (w + 1) % c);
    }
}

/// A batch of pushes that fits in the ring (no reader would fall a whole
/// ring behind) is accepted push by push, and appends the values to the
/// queue in order.
pub proof fn law_queue_pushes<T>(s: BufferState<T>, history: Seq<T>, reads: Seq<nat>, values: Seq<T>)
    requires
        represents(s, history, reads),
        forall|k: int|
            0 <= k < reads.len() ==> history.len() + values.len() <= #[trigger] reads[k] + s.capacity,
    ensures
        forall|i: int| 0 <= i < values.len() ==> #[trigger] s.after_pushes(values.take(i)).can_push(),
        represents(s.after_pushes(values), history + values, reads),
    decreases values.len(),
{
    if values.len() == 0 {
        assert(history + values =~= history);
    } else {
        let p = values.drop_last();
        law_queue_pushes(s, history, reads, p);
        let t = s.after_pushes(p);
        let hp = history + p;
        law_queue_push(t, hp, reads, values.last());
        assert(t.capacity == s.capacity) by {
            lemma_pushes_keep_capacity(s, p);
        }
        assert(t.can_push()) by {
            assert forall|k: int| 0 <= k < reads.len() implies hp.len() < #[trigger] reads[k] + t.capacity by {
                assert(history.len() + values.len() <= reads[k] + s.capacity);
            }
        }
        assert(hp.push(values.last()) =~= history + values);
        assert forall|i: int| 0 <= i < values.len() implies #[trigger] s.after_pushes(values.take(i)).can_push() by {
            if i < p.len() {
                assert(values.take(i) =~= p.take(i));
            } else {
                assert(values.take(i) =~= p);
            }
        }
    }
}

proof fn lemma_pushes_keep_capacity<T>(s: BufferState<T>, values: Seq<T>)
    ensures
        s.after_pushes(values).capacity == s.capacity,
    decreases values.len(),
{
    if values.len() > 0 {
        lemma_pushes_keep_capacity(s, values.drop_last());
    }
}

/// Reader `k`, whose pointer stands at `reads[k] % capacity`, is handed the
/// oldest value it has not read, in push order, and its read count goes up
/// by one; each reader thus receives every value once, in push order. A
/// reader is refused with "Nothing to read" when it has read every value,
/// and also when it is a whole ring behind: its pointer then meets the write
/// pointer, and the full ring waits.
pub proof fn law_queue_read<T>(s: BufferState<T>, history: Seq<T>, reads: Seq<nat>, k: int)
    requires
        represents(s, history, reads),
        0 <= k < reads.len(),
    ensures
        s.valid_read_ptr(reads[k] % s.capacity),
        (s.read_error(reads[k] % s.capacity) is None) <==> (reads[k] < history.len() < reads[k]
            + s.capacity),
        reads[k] < history.len() < reads[k] + s.capacity ==> {
            &&& s.storage[(reads[k] % s.capacity) as int] == history[reads[k] as int]
            &&& represents(
                s.after_read(reads[k] % s.capacity),
                history,
                reads.update(k, reads[k] + 1),
            )
            &&& s.next_read_ptr(reads[k] % s.capacity) == (reads[k] + 1) % s.capacity
        },
        !(reads[k] < history.len() < reads[k] + s.capacity) ==> s.read_error(
            reads[k] % s.capacity,
        ) == Some("Nothing to read"@),
{
    let w = history.len() as int;
    let c = s.capacity as int;
    let r = reads[k] as int;
    assert(r <= w <= r + c);
    lemma_next_slot(r, c);
    lemma_next_slot(w, c);
    assert((reads[k] % s.capacity) as int == r % c);
    if r < w < r + c {
        lemma_window_slots_differ(r, w, c);
        assert(0 <= r && w - c <= r < w);
        assert(slot_holds(s, history, reads, r));
        lemma_owing_bounds(reads, r);
        assert(owing(reads, r) > 0) by {
            assert(reads[k] <= r);
        }
        assert(r % c < s.access_counter.len());
        assert(s.read_error(reads[k] % s.capacity) is None);
        let t = s.after_read(reads[k] % s.capacity);
        let u = reads.update(k, reads[k] + 1);
        assert forall|j: int| 0 <= j && w - c <= j < w implies #[trigger] slot_holds(t, history, u, j) by {
            vstd::arithmetic::div_mod::lemma_mod_bound(j, c);
            assert(slot_holds(s, history, reads, j));
            lemma_owing_after_read(reads, k, j);
            if j != r {
                if j < r {
                    lemma_window_slots_differ(j, r, c);
                } else {
                    lemma_window_slots_differ(r, j, c);
                }
            }
        }
        assert forall|i: int| 0 <= i < u.len() implies #[trigger] u[i] <= w <= u[i] + c by {
            assert(reads[i] <= w <= reads[i] + c);
        }
        lemma_read_keeps_wf(s, reads[k] % s.capacity);
    } else {
        if r + c == w {
            assert((r + c) % c == r % c);
        }
        assert(r % c == w % c);
        assert(s.read_error(reads[k] % s.capacity) == Some("Nothing to read"@));
    }
}

} // verus!
