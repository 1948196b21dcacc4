//! Fixed-length circular storage with O(1) logical rotation.
//!
//! A `RingBuffer<T>` holds a fixed number of slots. Logical index `i`
//! always maps to physical slot `(base + i) mod capacity`, so rotating the
//! buffer by `k` steps only moves the base offset; no element is copied.
//! Rows that rotate "off" one end reappear at the other end with their old
//! contents; callers are expected to overwrite them.

use vstd::arithmetic::div_mod::{
    lemma_add_mod_noop, lemma_add_mod_noop_right, lemma_mod_bound, lemma_mod_sub_multiples_vanish,
    lemma_small_mod,
};
use vstd::prelude::*;

verus! {

/// Logical position of `i` in a buffer of `n` slots: the representative of
/// `i` modulo `n` that lies in `[0, n)`.
pub open spec fn wrap_index(i: int, n: int) -> int {
    i % n
}

pub struct RingBuffer<T> {
    buffer: Vec<T>,
    base: usize,
}

impl<T> View for RingBuffer<T> {
    type V = Seq<T>;

    /// The contents in logical order.
    closed spec fn view(&self) -> Seq<T> {
        Seq::new(
            self.buffer@.len(),
            |i: int| self.buffer@[(self.base + i) % (self.buffer@.len() as int)],
        )
    }
}

/// `x % n` when `x` is already within `[0, 2n)`: either `x` itself or `x - n`.
proof fn lemma_mod_below_twice(x: int, n: int)
    requires
        n > 0,
        0 <= x < 2 * n,
    ensures
        x % n == if x >= n {
            x - n
        } else {
            x
        },
{
    if x < n {
        lemma_small_mod(x as nat, n as nat);
    } else {
        lemma_mod_sub_multiples_vanish(x, n);
        lemma_small_mod((x - n) as nat, n as nat);
    }
}

impl<T> RingBuffer<T> {
    spec fn spec_base(&self) -> int {
        self.base as int
    }

    /// Structural well-formedness: the base offset points into the buffer.
    pub closed spec fn inv(&self) -> bool {
        &&& self.buffer@.len() == 0 ==> self.base == 0
        &&& self.buffer@.len() > 0 ==> self.base < self.buffer@.len()
        &&& self.buffer@.len() <= isize::MAX
    }

    pub fn len(&self) -> (r: usize)
        ensures
            r == self@.len(),
    {
        self.buffer.len()
    }

    pub fn is_empty(&self) -> (r: bool)
        ensures
            r == (self@.len() == 0),
    {
        self.buffer.len() == 0
    }

    /// Physical slot of logical index `i` (after reduction into `[0, n)`).
    fn physical_index(&self, i: isize) -> (r: usize)
        requires
            self.inv(),
            self@.len() > 0,
        ensures
            r < self@.len(),
            r as int == (self.spec_base() + wrap_index(i as int, self@.len() as int)) % (
            self@.len() as int),
            self@[wrap_index(i as int, self@.len() as int)] == self.buffer@[r as int],
    {
        let n = self.buffer.len();
        let reduced = i.checked_rem_euclid(n as isize).unwrap() as usize;
        let sum = self.base + reduced;
        let r = if sum >= n {
            sum - n
        } else {
            sum
        };
        proof {
            let ni = n as int;
            lemma_mod_bound(i as int, ni);
            lemma_mod_below_twice(self.base + (i as int) % ni, ni);
            lemma_add_mod_noop_right(self.base as int, i as int, ni);
            lemma_mod_bound(self.base + i, ni);
        }
        r
    }

    /// Shared access at a logical index; any index is accepted and wraps
    /// modulo the length.
    pub fn get(&self, i: isize) -> (r: &T)
        requires
            self.inv(),
            self@.len() > 0,
        ensures
            *r == self@[wrap_index(i as int, self@.len() as int)],
    {
        let idx = self.physical_index(i);
        &self.buffer[idx]
    }

    /// Exclusive access at a logical index; the buffer afterwards holds
    /// whatever the caller wrote through the reference, at that index.
    pub fn get_mut(&mut self, i: isize) -> (r: &mut T)
        requires
            old(self).inv(),
            old(self)@.len() > 0,
        ensures
            final(self).inv(),
            *r == old(self)@[wrap_index(i as int, old(self)@.len() as int)],
            final(self)@.len() == old(self)@.len(),
            final(self)@[wrap_index(i as int, old(self)@.len() as int)] == *final(r),
            forall|j: int|
                0 <= j < old(self)@.len() && j != wrap_index(i as int, old(self)@.len() as int)
                    ==> final(self)@[j] == old(self)@[j],
    {
        let idx = self.physical_index(i);
        let ghost w = wrap_index(i as int, self@.len() as int);
        let ghost n = self.buffer@.len() as int;
        let ghost base = self.base as int;
        proof {
            lemma_mod_bound(i as int, n);
            assert forall|j: int| 0 <= j < n && j != w implies #[trigger] ((base + j) % n) != (
            base + w) % n by {
                lemma_mod_bound(base + j, n);
                lemma_mod_bound(base + w, n);
                lemma_mod_below_twice(base + j, n);
                lemma_mod_below_twice(base + w, n);
                if base + j < n && base + w < n {
                } else if base + j >= n && base + w >= n {
                } else {
                }
            }
        }
        &mut self.buffer[idx]
    }

    /// Overwrite the slot at a logical index.
    pub fn set(&mut self, i: isize, value: T)
        requires
            old(self).inv(),
            old(self)@.len() > 0,
        ensures
            final(self).inv(),
            final(self)@ == old(self)@.update(
                wrap_index(i as int, old(self)@.len() as int),
                value,
            ),
    {
        let slot = self.get_mut(i);
        *slot = value;
        proof {
            assert(self@ =~= old(self)@.update(
                wrap_index(i as int, old(self)@.len() as int),
                value,
            ));
        }
    }

    /// Rotate the logical view by `k` steps: afterwards logical index `i`
    /// holds what logical index `i + k` held before (modulo the length).
    /// No element moves; only the base offset changes. Rotating an empty
    /// buffer does nothing.
    pub fn rotate(&mut self, k: isize)
        requires
            old(self).inv(),
        ensures
            final(self).inv(),
            final(self)@.len() == old(self)@.len(),
            old(self)@.len() == 0 ==> final(self)@ == old(self)@,
            old(self)@.len() > 0 ==> forall|i: int|
                0 <= i < final(self)@.len() ==> final(self)@[i] == old(self)@[wrap_index(
                    i + k,
                    final(self)@.len() as int,
                )],
    {
        let n = self.buffer.len();
        if n == 0 {
            proof {
                assert(self@ =~= old(self)@);
            }
            return;
        }
        let shift = k.checked_rem_euclid(n as isize).unwrap() as usize;
        let sum = self.base + shift;
        let new_base = if sum >= n {
            sum - n
        } else {
            sum
        };
        proof {
            lemma_mod_bound(k as int, n as int);
        }
        self.base = new_base;
        proof {
            let ni = n as int;
            let base = old(self).base as int;
            let x = base + (k as int) % ni;
            lemma_mod_below_twice(x, ni);
            assert(new_base as int == x % ni);
            assert forall|i: int| 0 <= i < ni implies self@[i] == old(self)@[wrap_index(
                i + k,
                ni,
            )] by {
                lemma_mod_bound(i + k, ni);
                // both sides read the same physical slot
                assert((x % ni + i) % ni == (base + i + k) % ni) by {
                    lemma_small_mod(i as nat, ni as nat);
                    lemma_add_mod_noop(x, i, ni);
                    lemma_add_mod_noop_right(base + i, k as int, ni);
                }
                assert((base + (i + k) % ni) % ni == (base + i + k) % ni) by {
                    lemma_add_mod_noop_right(base, i + k, ni);
                }
            }
        }
    }
}

impl<T: Clone> RingBuffer<T> {
    /// A buffer of `len` fresh clones of `default`, unrotated.
    pub fn new(len: usize, default: T) -> (r: Self)
        requires
            len <= isize::MAX,
        ensures
            r.inv(),
            r@.len() == len,
            forall|i: int| 0 <= i < len ==> cloned(default, #[trigger] r@[i]),
    {
        let buffer = vec![default; len];
        let r = RingBuffer { buffer, base: 0 };
        proof {
            assert forall|i: int| 0 <= i < len implies cloned(default, #[trigger] r@[i]) by {
                lemma_small_mod(i as nat, len as nat);
            }
        }
        r
    }

    /// Replace the contents with `new_len` slots: the logical prefix that
    /// fits is kept (as clones), new slots are clones of `default`, and
    /// the rotation is reset to zero.
    pub fn resize(&mut self, new_len: usize, default: T)
        requires
            old(self).inv(),
            new_len <= isize::MAX,
        ensures
            final(self).inv(),
            final(self)@.len() == new_len,
            forall|i: int|
                0 <= i < new_len && i < old(self)@.len() ==> cloned(
                    old(self)@[i],
                    #[trigger] final(self)@[i],
                ),
            forall|i: int|
                old(self)@.len() <= i < new_len ==> cloned(default, #[trigger] final(self)@[i]),
    {
        let old_len = self.buffer.len();
        let mut buffer: Vec<T> = Vec::new();
        let mut i: usize = 0;
        while i < new_len
            invariant
                i <= new_len,
                new_len <= isize::MAX,
                old(self).inv(),
                self == old(self),
                old_len == self@.len(),
                buffer@.len() == i,
                forall|j: int|
                    0 <= j < i && j < old_len ==> cloned(self@[j], #[trigger] buffer@[j]),
                forall|j: int| old_len <= j < i ==> cloned(default, #[trigger] buffer@[j]),
            decreases new_len - i,
        {
            if i < old_len {
                let elem = self.get(i as isize);
                proof {
                    lemma_small_mod(i as nat, old_len as nat);
                }
                buffer.push(elem.clone());
            } else {
                buffer.push(default.clone());
            }
            i += 1;
        }
        self.buffer = buffer;
        self.base = 0;
        proof {
            assert forall|j: int| 0 <= j < new_len implies self@[j] == self.buffer@[j] by {
                lemma_small_mod(j as nat, new_len as nat);
            }
        }
    }
}

/// Rotating by less than the length matches the naive shift model: for
/// every logical index whose shifted source `i + k` still lies inside
/// the buffer, the rotated view reads exactly the old element at
/// `i + k`; only vacated slots wrap around. `after` is the view that
/// `rotate(k)` guarantees.
pub proof fn lemma_rotate_matches_shift<T>(before: Seq<T>, after: Seq<T>, k: int)
    requires
        before.len() == after.len(),
        before.len() > 0,
        -(before.len() as int) < k < before.len() as int,
        forall|i: int|
            0 <= i < after.len() ==> after[i] == before[wrap_index(i + k, before.len() as int)],
    ensures
        forall|i: int|
            0 <= i < after.len() && 0 <= i + k < before.len() ==> after[i] == before[i + k],
{
    let n = before.len() as int;
    assert forall|i: int| 0 <= i < after.len() && 0 <= i + k < n implies after[i] == before[i
        + k] by {
        lemma_small_mod((i + k) as nat, n as nat);
    }
}

} // verus!
