//! Scrollback/viewport model.
//!
//! An "actual" window of rows (the authoritative content) overlaps a
//! scrollback store keyed by virtual line position. `scroll` moves the
//! actual window and banks the rows about to be overwritten; stale
//! entries outside the window reachable by the current animated scroll
//! position are discarded. `get_visible_line` answers "what content is at
//! visible row `i`" across both stores.
//!
//! `scroll_position` is fixed-point (thousandths of a row); only its
//! floor decides which row content is chosen.

use crate::fixed::{floor_units, spec_floor_units, SUBUNIT};
use vstd::seq_lib::lemma_multiset_commutative;
use std::collections::VecDeque;
use vstd::prelude::*;

verus! {

/// Bound on row positions: far larger than any real scroll session and
/// small enough that fixed-point products stay inside `i64`.
pub const POSITION_LIMIT: i64 = 0x4000_0000_0000;

/// Entry positions strictly increase.
pub open spec fn entries_sorted<T>(s: Seq<(i64, T)>) -> bool {
    forall|i: int, j: int| 0 <= i < j < s.len() ==> s[i].0 < s[j].0
}

/// Some entry carries virtual position `p`.
pub open spec fn entries_have<T>(s: Seq<(i64, T)>, p: int) -> bool {
    exists|i: int| 0 <= i < s.len() && s[i].0 == p
}

/// The content stored for virtual position `p` (meaningful when
/// `entries_have(s, p)`; unique by sortedness).
pub open spec fn entry_value<T>(s: Seq<(i64, T)>, p: int) -> T {
    s[choose|i: int| 0 <= i < s.len() && s[i].0 == p].1
}

/// The content stored for virtual position `p`, if any.
pub open spec fn entry_lookup<T>(s: Seq<(i64, T)>, p: int) -> Option<T> {
    if entries_have(s, p) {
        Some(entry_value(s, p))
    } else {
        None
    }
}

/// In a sorted entry sequence the position determines the index.
proof fn lemma_sorted_position_unique<T>(s: Seq<(i64, T)>, i: int, j: int)
    requires
        entries_sorted(s),
        0 <= i < s.len(),
        0 <= j < s.len(),
        s[i].0 == s[j].0,
    ensures
        i == j,
{
    if i < j {
        assert(s[i].0 < s[j].0);
    }
    if j < i {
        assert(s[j].0 < s[i].0);
    }
}


/// Appending entries whose positions all differ from `p` does not change
/// what is stored for `p`.
proof fn lemma_lookup_concat_left<T>(a: Seq<(i64, T)>, b: Seq<(i64, T)>, p: int)
    requires
        entries_sorted(a),
        forall|k: int| 0 <= k < b.len() ==> (#[trigger] b[k].0) != p,
    ensures
        entry_lookup(a + b, p) == entry_lookup(a, p),
{
    let full = a + b;
    if entries_have(full, p) {
        let i = choose|i: int| 0 <= i < full.len() && full[i].0 == p;
        assert(i < a.len()) by {
            if i >= a.len() {
                assert(b[i - a.len()].0 != p);
            }
        }
        assert(a[i].0 == p);
        assert(entries_have(a, p));
        let j = choose|j: int| 0 <= j < a.len() && a[j].0 == p;
        lemma_sorted_position_unique(a, i, j);
        assert(full[i] == a[i]);
        assert(entry_value(full, p) == entry_value(a, p));
    } else {
        if entries_have(a, p) {
            let j = choose|j: int| 0 <= j < a.len() && a[j].0 == p;
            assert(full[j] == a[j]);
            assert(false);
        }
    }
}

/// Entries placed in front, whose positions all differ from `p`, do not
/// change what is stored for `p`.
proof fn lemma_lookup_concat_right<T>(a: Seq<(i64, T)>, b: Seq<(i64, T)>, p: int)
    requires
        entries_sorted(b),
        forall|k: int| 0 <= k < a.len() ==> (#[trigger] a[k].0) != p,
    ensures
        entry_lookup(a + b, p) == entry_lookup(b, p),
{
    let full = a + b;
    if entries_have(full, p) {
        let i = choose|i: int| 0 <= i < full.len() && full[i].0 == p;
        assert(i >= a.len());
        assert(b[i - a.len()].0 == p);
        assert(entries_have(b, p));
        let j = choose|j: int| 0 <= j < b.len() && b[j].0 == p;
        lemma_sorted_position_unique(b, i - a.len(), j);
        assert(full[i] == b[i - a.len()]);
        assert(entry_value(full, p) == entry_value(b, p));
    } else {
        if entries_have(b, p) {
            let j = choose|j: int| 0 <= j < b.len() && b[j].0 == p;
            assert(full[a.len() + j] == b[j]);
            assert(false);
        }
    }
}

/// In a sorted entry sequence, the entry at an index is what lookup
/// finds for its position.
proof fn lemma_lookup_at_index<T>(s: Seq<(i64, T)>, i: int)
    requires
        entries_sorted(s),
        0 <= i < s.len(),
    ensures
        entries_have(s, s[i].0 as int),
        entry_value(s, s[i].0 as int) == s[i].1,
{
    let p = s[i].0 as int;
    assert(entries_have(s, p));
    let j = choose|j: int| 0 <= j < s.len() && s[j].0 == p;
    lemma_sorted_position_unique(s, i, j);
}


/// Appending an entry above every existing position keeps the store
/// sorted and only adds that one position.
proof fn lemma_append_high<T>(s: Seq<(i64, T)>, e: (i64, T))
    requires
        entries_sorted(s),
        forall|k: int| 0 <= k < s.len() ==> (#[trigger] s[k].0) < e.0,
    ensures
        entries_sorted(s.push(e)),
        forall|p: int| p != e.0 ==> entry_lookup(s.push(e), p) == entry_lookup(s, p),
        entry_lookup(s.push(e), e.0 as int) == Some(e.1),
{
    let t = s.push(e);
    assert forall|i: int, j: int| 0 <= i < j < t.len() implies t[i].0 < t[j].0 by {
        if j < t.len() - 1 {
            assert(t[i] == s[i]);
            assert(t[j] == s[j]);
        } else {
            assert(t[i] == s[i]);
        }
    }
    assert forall|p: int| p != e.0 implies entry_lookup(t, p) == entry_lookup(s, p) by {
        assert(t =~= s + seq![e]);
        lemma_lookup_concat_left(s, seq![e], p);
    }
    lemma_lookup_at_index(t, t.len() - 1);
}

/// Appending an entry does not change the content stored for any other
/// position.
proof fn lemma_append_high_lookup<T>(s: Seq<(i64, T)>, e: (i64, T), p: int)
    requires
        entries_sorted(s),
        forall|k: int| 0 <= k < s.len() ==> (#[trigger] s[k].0) < e.0,
        p != e.0,
    ensures
        entry_lookup(s.push(e), p) == entry_lookup(s, p),
{
    assert(s.push(e) =~= s + seq![e]);
    lemma_lookup_concat_left(s, seq![e], p);
}

/// Prepending an entry does not change the content stored for any other
/// position.
proof fn lemma_prepend_low_lookup<T>(s: Seq<(i64, T)>, e: (i64, T), p: int)
    requires
        entries_sorted(s),
        forall|k: int| 0 <= k < s.len() ==> (#[trigger] s[k].0) > e.0,
        p != e.0,
    ensures
        entry_lookup(seq![e] + s, p) == entry_lookup(s, p),
{
    lemma_lookup_concat_right(seq![e], s, p);
}

/// Prepending an entry below every existing position keeps the store
/// sorted and only adds that one position.
proof fn lemma_prepend_low<T>(s: Seq<(i64, T)>, e: (i64, T))
    requires
        entries_sorted(s),
        forall|k: int| 0 <= k < s.len() ==> (#[trigger] s[k].0) > e.0,
    ensures
        entries_sorted(seq![e] + s),
        forall|p: int| p != e.0 ==> entry_lookup(seq![e] + s, p) == entry_lookup(s, p),
        entry_lookup(seq![e] + s, e.0 as int) == Some(e.1),
{
    let t = seq![e] + s;
    assert forall|i: int, j: int| 0 <= i < j < t.len() implies t[i].0 < t[j].0 by {
        if i > 0 {
            assert(t[i] == s[i - 1]);
            assert(t[j] == s[j - 1]);
        } else {
            assert(t[j] == s[j - 1]);
        }
    }
    assert forall|p: int| p != e.0 implies entry_lookup(t, p) == entry_lookup(s, p) by {
        lemma_lookup_concat_right(seq![e], s, p);
    }
    lemma_lookup_at_index(t, 0);
}

/// Swapping two slots of a sequence leaves its multiset of elements
/// unchanged.
proof fn lemma_swap_to_multiset<T>(s: Seq<T>, i: int, j: int)
    requires
        0 <= i < s.len(),
        0 <= j < s.len(),
    ensures
        s.update(i, s[j]).update(j, s[i]).to_multiset() == s.to_multiset(),
{
    broadcast use vstd::seq_lib::lemma_multiset_commutative;

    let t = s.update(i, s[j]).update(j, s[i]);
    if i == j {
        assert(t =~= s);
    } else {
        let a = if i < j {
            i
        } else {
            j
        };
        let b = if i < j {
            j
        } else {
            i
        };
        let front = s.subrange(0, a);
        let mid = s.subrange(a + 1, b);
        let back = s.subrange(b + 1, s.len() as int);
        assert(s =~= front + seq![s[a]] + mid + seq![s[b]] + back);
        assert(t =~= front + seq![s[b]] + mid + seq![s[a]] + back);
        assert((front + seq![s[a]] + mid + seq![s[b]] + back).to_multiset()
            =~= front.to_multiset().add(seq![s[a]].to_multiset()).add(mid.to_multiset()).add(
            seq![s[b]].to_multiset(),
        ).add(back.to_multiset())) by {
            lemma_multiset_commutative(front + seq![s[a]] + mid + seq![s[b]], back);
            lemma_multiset_commutative(front + seq![s[a]] + mid, seq![s[b]]);
            lemma_multiset_commutative(front + seq![s[a]], mid);
            lemma_multiset_commutative(front, seq![s[a]]);
        }
        assert((front + seq![s[b]] + mid + seq![s[a]] + back).to_multiset()
            =~= front.to_multiset().add(seq![s[b]].to_multiset()).add(mid.to_multiset()).add(
            seq![s[a]].to_multiset(),
        ).add(back.to_multiset())) by {
            lemma_multiset_commutative(front + seq![s[b]] + mid + seq![s[a]], back);
            lemma_multiset_commutative(front + seq![s[b]] + mid, seq![s[a]]);
            lemma_multiset_commutative(front + seq![s[b]], mid);
            lemma_multiset_commutative(front, seq![s[b]]);
        }
        assert(t.to_multiset() =~= s.to_multiset());
    }
}

/// A window of "actual" rows over a position-keyed scrollback store.
pub struct ScrollbackBuffer<LineType> {
    /// The authoritative rows; `None` where nothing has been drawn.
    pub actual_lines: Vec<Option<LineType>>,
    /// Banked rows by virtual position, sorted ascending.
    pub scrollback_lines: VecDeque<(i64, LineType)>,
    /// Virtual position of the first actual row.
    pub actual_position: i64,
    /// Animated view position, fixed-point thousandths of a row.
    pub scroll_position: i64,
}

impl<LineType: Clone> ScrollbackBuffer<LineType> {
    /// Well-formedness: sorted scrollback whose entries lie outside the
    /// actual window, and positions small enough for exact arithmetic.
    pub open spec fn wf(&self) -> bool {
        &&& entries_sorted(self.scrollback_lines@)
        &&& forall|i: int|
            0 <= i < self.scrollback_lines@.len() ==> (#[trigger] self.scrollback_lines@[i].0
                < self.actual_position || self.scrollback_lines@[i].0 >= self.actual_position
                + self.actual_lines@.len())
        &&& forall|i: int|
            0 <= i < self.scrollback_lines@.len() ==> -2 * (POSITION_LIMIT as int)
                <= (#[trigger] self.scrollback_lines@[i].0) <= 2 * (POSITION_LIMIT as int)
        &&& -POSITION_LIMIT <= self.actual_position <= POSITION_LIMIT
        &&& -(POSITION_LIMIT as int) * (SUBUNIT as int) <= self.scroll_position <= (
        POSITION_LIMIT as int) * (SUBUNIT as int)
        &&& self.actual_lines@.len() <= POSITION_LIMIT
    }

    /// The content visible at row `index`: the row whose virtual position
    /// is `floor(scroll_position) + index`, taken from the actual window
    /// when it lies inside it, else from the scrollback store.
    pub open spec fn spec_visible_line(&self, index: int) -> Option<LineType> {
        let v = spec_floor_units(self.scroll_position as int) + index;
        if self.actual_position <= v < self.actual_position + self.actual_lines@.len() {
            self.actual_lines@[v - self.actual_position]
        } else {
            entry_lookup(self.scrollback_lines@, v)
        }
    }

    pub fn new(size: usize) -> (r: Self)
        requires
            size <= POSITION_LIMIT,
        ensures
            r.wf(),
            r.actual_lines@.len() == size,
            forall|i: int| 0 <= i < size ==> r.actual_lines@[i] is None,
            r.scrollback_lines@.len() == 0,
            r.actual_position == 0,
            r.scroll_position == 0,
    {
        let mut actual_lines: Vec<Option<LineType>> = Vec::new();
        let mut i: usize = 0;
        while i < size
            invariant
                i <= size,
                actual_lines@.len() == i,
                forall|j: int| 0 <= j < i ==> actual_lines@[j] is None,
            decreases size - i,
        {
            actual_lines.push(None);
            i += 1;
        }
        ScrollbackBuffer {
            actual_lines,
            scrollback_lines: VecDeque::new(),
            actual_position: 0,
            scroll_position: 0,
        }
    }

    /// How far (fixed-point rows) the animated view lags behind the
    /// actual window: negative after scrolling down, positive after up.
    pub fn get_scroll_delta(&self) -> (r: i64)
        requires
            self.wf(),
        ensures
            r == self.scroll_position - self.actual_position * SUBUNIT,
    {
        self.scroll_position - self.actual_position * SUBUNIT
    }

    /// The sub-row part of the scroll delta, in `(-SUBUNIT, 0]`: the
    /// pixel offset the drawing step applies below the chosen rows.
    pub fn get_scroll_offset(&self) -> (r: i64)
        requires
            self.wf(),
        ensures
            r == spec_floor_units(
                (self.scroll_position - self.actual_position * SUBUNIT) as int,
            ) * SUBUNIT - (self.scroll_position - self.actual_position * SUBUNIT),
            -SUBUNIT < r <= 0,
    {
        let delta = self.get_scroll_delta();
        let prev_line = floor_units(delta) * SUBUNIT;
        proof {
            vstd::arithmetic::div_mod::lemma_fundamental_div_mod(delta as int, SUBUNIT as int);
            vstd::arithmetic::div_mod::lemma_mod_bound(delta as int, SUBUNIT as int);
        }
        prev_line - delta
    }

    /// Shift the rows of `[top, bottom)` by `rows` positions: a row at
    /// index `y` inside the source part of the range moves to `y - rows`.
    /// The slots it vacates keep swapped leftovers, for the caller to
    /// overwrite; rows outside `[top, bottom)` are untouched. A shift of
    /// the whole range or more does nothing.
    pub fn scroll_internal(&mut self, top: usize, bottom: usize, rows: isize)
        requires
            old(self).wf(),
            top <= bottom <= old(self).actual_lines@.len(),
            rows > isize::MIN,
        ensures
            final(self).wf(),
            final(self).actual_lines@.len() == old(self).actual_lines@.len(),
            final(self).scrollback_lines == old(self).scrollback_lines,
            final(self).actual_position == old(self).actual_position,
            final(self).scroll_position == old(self).scroll_position,
            forall|y: int|
                0 <= y < old(self).actual_lines@.len() && !(top <= y < bottom) ==> final(self).actual_lines@[y] == old(self).actual_lines@[y],
            forall|y: int|
                crate::grid::shift_src_lo(top as int, rows as int) <= y < crate::grid::shift_src_hi(
                    bottom as int,
                    rows as int,
                ) ==> final(self).actual_lines@[y - rows] == old(self).actual_lines@[y],
            // the shifted range is a permutation of its old contents:
            // rows are swapped, never zeroed, so the vacated slots hold
            // leftovers the caller must overwrite
            final(self).actual_lines@.subrange(top as int, bottom as int).to_multiset() == old(self).actual_lines@.subrange(top as int, bottom as int).to_multiset(),
    {
        let ghost g0 = *old(self);
        proof {
            assert(self.actual_lines@.subrange(top as int, bottom as int)
                =~= g0.actual_lines@.subrange(top as int, bottom as int));
        }
        if rows >= 0 {
            let r = rows as usize;
            if r < bottom - top {
                let mut y: usize = top + r;
                while y < bottom
                    invariant
                        top + r <= y <= bottom,
                        r == rows as int,
                        rows >= 0,
                        r < bottom - top,
                        top <= bottom <= g0.actual_lines@.len(),
                        self.wf(),
                        g0.wf(),
                        self.actual_lines@.len() == g0.actual_lines@.len(),
                        self.scrollback_lines == g0.scrollback_lines,
                        self.actual_position == g0.actual_position,
                        self.scroll_position == g0.scroll_position,
                        forall|i: int|
                            0 <= i < g0.actual_lines@.len() && !(top <= i < bottom)
                                ==> self.actual_lines@[i] == g0.actual_lines@[i],
                        // already-moved rows hold their source's old value
                        forall|i: int|
                            top + r <= i < y ==> self.actual_lines@[i - r] == g0.actual_lines@[i],
                        // rows not yet read still hold their old value
                        forall|i: int|
                            y <= i < bottom ==> self.actual_lines@[i] == g0.actual_lines@[i],
                        self.actual_lines@.subrange(top as int, bottom as int).to_multiset()
                            == g0.actual_lines@.subrange(top as int, bottom as int).to_multiset(),
                    decreases bottom - y,
                {
                    let ghost lines_pre = self.actual_lines@;
                    let dest = y - r;
                    let a = self.actual_lines[dest].take();
                    let b = self.actual_lines[y].take();
                    self.actual_lines[dest] = b;
                    self.actual_lines[y] = a;
                    proof {
                        let sub_pre = lines_pre.subrange(top as int, bottom as int);
                        let sub_post = self.actual_lines@.subrange(top as int, bottom as int);
                        assert(sub_post =~= sub_pre.update(
                            dest - top,
                            sub_pre[y - top],
                        ).update(y - top, sub_pre[dest - top]));
                        lemma_swap_to_multiset(sub_pre, dest - top, y - top);
                    }
                    y += 1;
                }
            }
        } else {
            let r = (-rows) as usize;
            if r < bottom - top {
                let mut y: usize = bottom - r;
                while y > top
                    invariant
                        top <= y <= bottom - r,
                        r == -(rows as int),
                        rows < 0,
                        r < bottom - top,
                        top <= bottom <= g0.actual_lines@.len(),
                        self.wf(),
                        g0.wf(),
                        self.actual_lines@.len() == g0.actual_lines@.len(),
                        self.scrollback_lines == g0.scrollback_lines,
                        self.actual_position == g0.actual_position,
                        self.scroll_position == g0.scroll_position,
                        forall|i: int|
                            0 <= i < g0.actual_lines@.len() && !(top <= i < bottom)
                                ==> self.actual_lines@[i] == g0.actual_lines@[i],
                        forall|i: int|
                            y <= i < bottom - r ==> self.actual_lines@[i + r] == g0.actual_lines@[i],
                        forall|i: int|
                            top <= i < y ==> self.actual_lines@[i] == g0.actual_lines@[i],
                        self.actual_lines@.subrange(top as int, bottom as int).to_multiset()
                            == g0.actual_lines@.subrange(top as int, bottom as int).to_multiset(),
                    decreases y,
                {
                    y -= 1;
                    let ghost lines_pre = self.actual_lines@;
                    let dest = y + r;
                    let a = self.actual_lines[dest].take();
                    let b = self.actual_lines[y].take();
                    self.actual_lines[dest] = b;
                    self.actual_lines[y] = a;
                    proof {
                        let sub_pre = lines_pre.subrange(top as int, bottom as int);
                        let sub_post = self.actual_lines@.subrange(top as int, bottom as int);
                        assert(sub_post =~= sub_pre.update(
                            dest - top,
                            sub_pre[y - top],
                        ).update(y - top, sub_pre[dest - top]));
                        lemma_swap_to_multiset(sub_pre, dest - top, y - top);
                    }
                }
            }
        }
    }

    /// First virtual position that is still relevant: everything from the
    /// animated view position up to the edge of the actual window.
    pub open spec fn spec_cleanup_first(sp: int, ap: int, len: int) -> int {
        if sp <= ap * (SUBUNIT as int) {
            sp / (SUBUNIT as int)
        } else {
            ap + len
        }
    }

    /// Last virtual position that is still relevant.
    pub open spec fn spec_cleanup_last(sp: int, ap: int, len: int) -> int {
        if sp <= ap * (SUBUNIT as int) {
            ap - 1
        } else {
            sp / (SUBUNIT as int) + len
        }
    }

    /// Drop scrollback entries that the current scroll position can no
    /// longer reach: only positions between `spec_cleanup_first` and
    /// `spec_cleanup_last` survive, with their values.
    fn cleanup_scrollback(&mut self)
        requires
            entries_sorted(old(self).scrollback_lines@),
            forall|i: int|
                0 <= i < old(self).scrollback_lines@.len() ==> -2 * (POSITION_LIMIT as int) <= (
                #[trigger] old(self).scrollback_lines@[i].0) <= 2 * (POSITION_LIMIT as int),
            -POSITION_LIMIT <= old(self).actual_position <= POSITION_LIMIT,
            -(POSITION_LIMIT as int) * (SUBUNIT as int) <= old(self).scroll_position <= (
            POSITION_LIMIT as int) * (SUBUNIT as int),
            old(self).actual_lines@.len() <= POSITION_LIMIT,
        ensures
            final(self).actual_lines == old(self).actual_lines,
            final(self).actual_position == old(self).actual_position,
            final(self).scroll_position == old(self).scroll_position,
            entries_sorted(final(self).scrollback_lines@),
            forall|i: int|
                0 <= i < final(self).scrollback_lines@.len() ==> -2 * (POSITION_LIMIT as int) <= (
                #[trigger] final(self).scrollback_lines@[i].0) <= 2 * (POSITION_LIMIT as int),
            forall|i: int|
                0 <= i < final(self).scrollback_lines@.len()
                    ==> Self::spec_cleanup_first(
                    old(self).scroll_position as int,
                    old(self).actual_position as int,
                    old(self).actual_lines@.len() as int,
                ) <= (#[trigger] final(self).scrollback_lines@[i].0) <= Self::spec_cleanup_last(
                    old(self).scroll_position as int,
                    old(self).actual_position as int,
                    old(self).actual_lines@.len() as int,
                ),
            forall|p: int|
                entry_lookup(final(self).scrollback_lines@, p) == (if Self::spec_cleanup_first(
                    old(self).scroll_position as int,
                    old(self).actual_position as int,
                    old(self).actual_lines@.len() as int,
                ) <= p <= Self::spec_cleanup_last(
                    old(self).scroll_position as int,
                    old(self).actual_position as int,
                    old(self).actual_lines@.len() as int,
                ) {
                    entry_lookup(old(self).scrollback_lines@, p)
                } else {
                    None::<LineType>
                }),
    {
        let len = self.actual_lines.len() as i64;
        let (first_valid, last_valid): (i64, i64) = if self.scroll_position
            <= self.actual_position * SUBUNIT {
            (floor_units(self.scroll_position), self.actual_position - 1)
        } else {
            (self.actual_position + len, floor_units(self.scroll_position) + len)
        };
        let ghost sb0 = old(self).scrollback_lines@;
        let ghost mut lo: int = 0;
        loop
            invariant
                0 <= lo <= sb0.len(),
                self.actual_lines == old(self).actual_lines,
                self.actual_position == old(self).actual_position,
                self.scroll_position == old(self).scroll_position,
                entries_sorted(sb0),
                self.scrollback_lines@ == sb0.subrange(lo, sb0.len() as int),
                forall|i: int| 0 <= i < lo ==> sb0[i].0 < first_valid,
                first_valid == Self::spec_cleanup_first(
                    old(self).scroll_position as int,
                    old(self).actual_position as int,
                    old(self).actual_lines@.len() as int,
                ),
            ensures
                self.scrollback_lines@.len() == 0 || self.scrollback_lines@[0].0 >= first_valid,
            decreases sb0.len() - lo,
        {
            if self.scrollback_lines.len() == 0 {
                break;
            }
            if self.scrollback_lines[0].0 >= first_valid {
                break;
            }
            self.scrollback_lines.pop_front();
            proof {
                lo = lo + 1;
                assert(self.scrollback_lines@ =~= sb0.subrange(lo, sb0.len() as int));
            }
        }
        let ghost sb1 = self.scrollback_lines@;
        let ghost mut hi: int = sb1.len() as int;
        loop
            invariant
                0 <= hi <= sb1.len(),
                self.actual_lines == old(self).actual_lines,
                self.actual_position == old(self).actual_position,
                self.scroll_position == old(self).scroll_position,
                entries_sorted(sb1),
                self.scrollback_lines@ == sb1.subrange(0, hi),
                forall|i: int| hi <= i < sb1.len() ==> sb1[i].0 > last_valid,
                last_valid == Self::spec_cleanup_last(
                    old(self).scroll_position as int,
                    old(self).actual_position as int,
                    old(self).actual_lines@.len() as int,
                ),
            ensures
                self.scrollback_lines@.len() == 0 || self.scrollback_lines@[self.scrollback_lines@.len()
                    - 1].0 <= last_valid,
            decreases hi,
        {
            let n = self.scrollback_lines.len();
            if n == 0 {
                break;
            }
            if self.scrollback_lines[n - 1].0 <= last_valid {
                break;
            }
            self.scrollback_lines.pop_back();
            proof {
                hi = hi - 1;
                assert(self.scrollback_lines@ =~= sb1.subrange(0, hi));
            }
        }
        proof {
            let first = Self::spec_cleanup_first(
                old(self).scroll_position as int,
                old(self).actual_position as int,
                old(self).actual_lines@.len() as int,
            );
            let last = Self::spec_cleanup_last(
                old(self).scroll_position as int,
                old(self).actual_position as int,
                old(self).actual_lines@.len() as int,
            );
            let sb2 = self.scrollback_lines@;
            assert forall|i: int, j: int| 0 <= i < j < sb2.len() implies sb2[i].0 < sb2[j].0 by {
                assert(sb2[i] == sb0[lo + i]);
                assert(sb2[j] == sb0[lo + j]);
            }
            // every kept entry is in range: the first kept is >= first, the
            // last kept is <= last, and the sequence is sorted
            assert forall|i: int| 0 <= i < sb2.len() implies first <= (#[trigger] sb2[i].0)
                <= last by {
                assert(sb2[i] == sb1[i]);
                assert(sb1[0] == sb0[lo]);
                assert(sb2[i] == sb0[lo + i]);
                assert(sb2[sb2.len() - 1] == sb0[lo + sb2.len() - 1]);
            }
            assert forall|p: int|
                entry_lookup(sb2, p) == (if first <= p <= last {
                    entry_lookup(sb0, p)
                } else {
                    None::<LineType>
                }) by {
                if entries_have(sb2, p) {
                    let i = choose|i: int| 0 <= i < sb2.len() && sb2[i].0 == p;
                    assert(sb2[i] == sb0[lo + i]);
                    assert(first <= p <= last);
                    assert(entries_have(sb0, p));
                    let j = choose|j: int| 0 <= j < sb0.len() && sb0[j].0 == p;
                    lemma_sorted_position_unique(sb0, j, lo + i);
                    assert(entry_value(sb2, p) == entry_value(sb0, p));
                } else {
                    if first <= p <= last && entries_have(sb0, p) {
                        let j = choose|j: int| 0 <= j < sb0.len() && sb0[j].0 == p;
                        // j cannot be among the dropped ends
                        assert(lo <= j);
                        assert(j < lo + hi) by {
                            if j >= lo + hi {
                                assert(sb1[j - lo].0 > last_valid);
                            }
                        }
                        assert(sb2[j - lo].0 == p);
                        assert(false);
                    }
                }
            }
        }
    }

    /// Move the actual window by `rows` virtual positions. Rows about to
    /// be overwritten (the first `rows` on a downward scroll, the last
    /// `|rows|` on an upward one) are banked into the scrollback store,
    /// unless the scroll animation is still on the far side of the new
    /// position (then the stale entries were discarded instead). Entries
    /// out of reach of the current scroll position are dropped. The
    /// actual rows themselves and the scroll position do not change.
    pub fn scroll(&mut self, rows: isize)
        requires
            old(self).wf(),
            rows > isize::MIN,
            -POSITION_LIMIT <= old(self).actual_position + rows <= POSITION_LIMIT,
        ensures
            final(self).wf(),
            final(self).actual_lines == old(self).actual_lines,
            final(self).scroll_position == old(self).scroll_position,
            final(self).actual_position == old(self).actual_position + rows,
            // scrolling down banks the rows leaving through the top
            (0 < rows < old(self).actual_lines@.len() && old(self).scroll_position <= (old(self).actual_position + rows) * SUBUNIT) ==> forall|i: int|
                #![trigger old(self).actual_lines@[i]]
                0 <= i < rows ==> match old(self).actual_lines@[i] {
                    Some(line) => entries_have(
                        final(self).scrollback_lines@,
                        old(self).actual_position + i,
                    ) && cloned(
                        line,
                        entry_value(final(self).scrollback_lines@, old(self).actual_position + i),
                    ),
                    None => !entries_have(
                        final(self).scrollback_lines@,
                        old(self).actual_position + i,
                    ),
                },
            // scrolling up banks the rows leaving through the bottom
            (0 < -rows < old(self).actual_lines@.len() && old(self).scroll_position >= (old(self).actual_position + rows) * SUBUNIT) ==> forall|i: int|
                #![trigger old(self).actual_lines@[i]]
                old(self).actual_lines@.len() + rows <= i < old(self).actual_lines@.len()
                    ==> match old(self).actual_lines@[i] {
                    Some(line) => entries_have(
                        final(self).scrollback_lines@,
                        old(self).actual_position + i,
                    ) && cloned(
                        line,
                        entry_value(final(self).scrollback_lines@, old(self).actual_position + i),
                    ),
                    None => !entries_have(
                        final(self).scrollback_lines@,
                        old(self).actual_position + i,
                    ),
                },
            // a scroll past the whole window banks nothing: the store is
            // exactly the cleaned-up old one
            (rows >= old(self).actual_lines@.len() || -(rows as int) >= old(self).actual_lines@.len()) ==> forall|p: int|
                entry_lookup(final(self).scrollback_lines@, p) == (if Self::spec_cleanup_first(
                    old(self).scroll_position as int,
                    old(self).actual_position as int + rows,
                    old(self).actual_lines@.len() as int,
                ) <= p <= Self::spec_cleanup_last(
                    old(self).scroll_position as int,
                    old(self).actual_position as int + rows,
                    old(self).actual_lines@.len() as int,
                ) {
                    entry_lookup(old(self).scrollback_lines@, p)
                } else {
                    None::<LineType>
                }),
            // everything outside the banked stretch is the cleaned-up old store
            rows >= 0 ==> forall|p: int|
                !(old(self).actual_position <= p < old(self).actual_position + rows)
                    ==> entry_lookup(final(self).scrollback_lines@, p) == (
                if Self::spec_cleanup_first(
                    old(self).scroll_position as int,
                    old(self).actual_position as int + rows,
                    old(self).actual_lines@.len() as int,
                ) <= p <= Self::spec_cleanup_last(
                    old(self).scroll_position as int,
                    old(self).actual_position as int + rows,
                    old(self).actual_lines@.len() as int,
                ) {
                    entry_lookup(old(self).scrollback_lines@, p)
                } else {
                    None::<LineType>
                }),
            rows < 0 ==> forall|p: int|
                !(old(self).actual_position + old(self).actual_lines@.len() + rows <= p < old(self).actual_position + old(self).actual_lines@.len()) ==> entry_lookup(
                    final(self).scrollback_lines@,
                    p,
                ) == (if Self::spec_cleanup_first(
                    old(self).scroll_position as int,
                    old(self).actual_position as int + rows,
                    old(self).actual_lines@.len() as int,
                ) <= p <= Self::spec_cleanup_last(
                    old(self).scroll_position as int,
                    old(self).actual_position as int + rows,
                    old(self).actual_lines@.len() as int,
                ) {
                    entry_lookup(old(self).scrollback_lines@, p)
                } else {
                    None::<LineType>
                }),
    {
        let ghost pre = *old(self);
        let prev = self.actual_position;
        self.actual_position = self.actual_position + (rows as i64);
        let ghost ap2 = self.actual_position as int;
        let ghost lenn = pre.actual_lines@.len() as int;
        let ghost first = Self::spec_cleanup_first(pre.scroll_position as int, ap2, lenn);
        let ghost last = Self::spec_cleanup_last(pre.scroll_position as int, ap2, lenn);
        self.cleanup_scrollback();
        let ghost cleaned = self.scrollback_lines@;
        proof {
            // each kept entry is an old entry: off the old window, and
            // within the cleanup range
            assert forall|k: int| 0 <= k < cleaned.len() implies ((#[trigger] cleaned[k].0) < prev
                || cleaned[k].0 >= prev + lenn) && first <= cleaned[k].0 <= last by {
                lemma_lookup_at_index(cleaned, k);
                assert(entry_lookup(cleaned, cleaned[k].0 as int) == Some(cleaned[k].1));
                assert(entries_have(pre.scrollback_lines@, cleaned[k].0 as int));
                let j = choose|j: int|
                    0 <= j < pre.scrollback_lines@.len() && pre.scrollback_lines@[j].0
                        == cleaned[k].0;
                assert(pre.scrollback_lines@[j].0 < pre.actual_position
                    || pre.scrollback_lines@[j].0 >= pre.actual_position
                    + pre.actual_lines@.len());
            }
        }
        let len = self.actual_lines.len();
        let abs_rows: i64 = if rows >= 0 {
            rows as i64
        } else {
            -(rows as i64)
        };
        if abs_rows < len as i64 {
            if rows > 0 {
                let sb_len = self.scrollback_lines.len();
                let append = sb_len == 0 || self.scrollback_lines[sb_len - 1].0
                    < self.actual_position;
                if append {
                    proof {
                        // with the store cleaned and ending below the new
                        // position, every kept entry is below the old one
                        assert forall|k: int| 0 <= k < cleaned.len() implies (
                        #[trigger] cleaned[k].0) < prev by {
                            assert(cleaned[k].0 <= cleaned[cleaned.len() - 1].0);
                            if cleaned[k].0 >= prev + lenn {
                                assert(cleaned[k].0 < ap2);
                            }
                        }
                    }
                    let n = rows as usize;
                    let mut i: usize = 0;
                    while i < n
                        invariant
                            i <= n,
                            n == rows as int,
                            0 < rows,
                            n < len,
                            len == pre.actual_lines@.len(),
                            prev == pre.actual_position,
                            pre.wf(),
                            -POSITION_LIMIT <= ap2 <= POSITION_LIMIT,
                            self.actual_lines == pre.actual_lines,
                            self.actual_position == ap2,
                            ap2 == prev + rows,
                            self.scroll_position == pre.scroll_position,
                            entries_sorted(self.scrollback_lines@),
                            self.scrollback_lines@.len() >= cleaned.len(),
                            forall|k: int|
                                0 <= k < cleaned.len() ==> (#[trigger] self.scrollback_lines@[k])
                                    == cleaned[k],
                            forall|k: int|
                                cleaned.len() <= k < self.scrollback_lines@.len() ==> prev <= (
                                #[trigger] self.scrollback_lines@[k].0) < prev + i,
                            forall|k: int|
                                0 <= k < self.scrollback_lines@.len() ==> (
                                #[trigger] self.scrollback_lines@[k].0) < prev + i,
                            forall|k: int|
                                0 <= k < self.scrollback_lines@.len() ==> -2 * (
                                POSITION_LIMIT as int) <= (
                                #[trigger] self.scrollback_lines@[k].0) <= 2 * (
                                POSITION_LIMIT as int),
                            forall|p: int|
                                !(prev <= p < prev + i) ==> entry_lookup(
                                    self.scrollback_lines@,
                                    p,
                                ) == entry_lookup(cleaned, p),
                            forall|j: int|
                                #![trigger pre.actual_lines@[j]]
                                0 <= j < i ==> match pre.actual_lines@[j] {
                                    Some(line) => entries_have(
                                        self.scrollback_lines@,
                                        prev + j,
                                    ) && cloned(
                                        line,
                                        entry_value(self.scrollback_lines@, prev + j),
                                    ),
                                    None => !entries_have(self.scrollback_lines@, prev + j),
                                },
                        decreases n - i,
                    {
                        let ghost sb_before = self.scrollback_lines@;
                        let cell = self.actual_lines[i].clone();
                        match cell {
                            Some(line) => {
                                let pos = prev + i as i64;
                                self.scrollback_lines.push_back((pos, line));
                                proof {
                                    let e = self.scrollback_lines@[self.scrollback_lines@.len()
                                        - 1];
                                    assert(self.scrollback_lines@ =~= sb_before.push(e));
                                    lemma_append_high(sb_before, e);
                                }
                            },
                            None => {},
                        }
                        proof {
                            let sb_now = self.scrollback_lines@;
                            let pushed = sb_now.len() > sb_before.len();
                            assert forall|p: int|
                                !(prev <= p < prev + i + 1) implies entry_lookup(sb_now, p)
                                == entry_lookup(cleaned, p) by {
                                if pushed {
                                    let e = sb_now[sb_now.len() - 1];
                                    lemma_append_high_lookup(sb_before, e, p);
                                    assert(sb_now =~= sb_before.push(e));
                                }
                            }
                            assert forall|j: int|
                                #![trigger pre.actual_lines@[j]]
                                0 <= j < i + 1 implies match pre.actual_lines@[j] {
                                Some(line) => entries_have(sb_now, prev + j) && cloned(
                                    line,
                                    entry_value(sb_now, prev + j),
                                ),
                                None => !entries_have(sb_now, prev + j),
                            } by {
                                if j < i {
                                    if pushed {
                                        let e = sb_now[sb_now.len() - 1];
                                        lemma_append_high_lookup(sb_before, e, prev + j);
                                        assert(sb_now =~= sb_before.push(e));
                                    }
                                    assert(entry_lookup(sb_now, prev + j) == entry_lookup(
                                        sb_before,
                                        prev + j,
                                    ));
                                } else {
                                    if pre.actual_lines@[j] is Some {
                                        assert(pushed);
                                        assert(entry_lookup(sb_now, prev + j) == Some(
                                            sb_now[sb_now.len() - 1].1,
                                        ));
                                    } else {
                                        assert(!pushed);
                                        if entries_have(sb_now, prev + j) {
                                            let k = choose|k: int|
                                                0 <= k < sb_now.len() && sb_now[k].0 == prev + j;
                                        }
                                    }
                                }
                            }
                        }
                        i += 1;
                    }
                }
            } else if rows < 0 {
                let append = self.scrollback_lines.len() == 0 || self.scrollback_lines[0].0
                    > self.actual_position;
                if append {
                    proof {
                        // with the store cleaned and starting above the new
                        // position, every kept entry is above the old window
                        assert forall|k: int| 0 <= k < cleaned.len() implies (
                        #[trigger] cleaned[k].0) >= prev + lenn by {
                            assert(cleaned[0].0 <= cleaned[k].0);
                            if cleaned[k].0 < prev {
                                if pre.scroll_position <= ap2 * SUBUNIT {
                                    assert(cleaned[k].0 <= last);
                                } else {
                                    assert(cleaned[k].0 >= first);
                                }
                            }
                        }
                    }
                    let n = (-rows) as usize;
                    let mut i: usize = 0;
                    while i < n
                        invariant
                            i <= n,
                            n == -(rows as int),
                            rows < 0,
                            n < len,
                            len == pre.actual_lines@.len(),
                            prev == pre.actual_position,
                            pre.wf(),
                            -POSITION_LIMIT <= ap2 <= POSITION_LIMIT,
                            self.actual_lines == pre.actual_lines,
                            self.actual_position == ap2,
                            ap2 == prev + rows,
                            self.scroll_position == pre.scroll_position,
                            entries_sorted(self.scrollback_lines@),
                            self.scrollback_lines@.len() >= cleaned.len(),
                            forall|k: int|
                                self.scrollback_lines@.len() - cleaned.len() <= k
                                    < self.scrollback_lines@.len() ==> (
                                #[trigger] self.scrollback_lines@[k]) == cleaned[k - (
                                self.scrollback_lines@.len() - cleaned.len())],
                            forall|k: int|
                                0 <= k < cleaned.len() ==> (#[trigger] cleaned[k].0) >= prev
                                    + len,
                            forall|k: int|
                                0 <= k < self.scrollback_lines@.len() - cleaned.len() ==> prev
                                    + len - i <= (#[trigger] self.scrollback_lines@[k].0) < prev
                                    + len,
                            forall|k: int|
                                0 <= k < self.scrollback_lines@.len() ==> (
                                #[trigger] self.scrollback_lines@[k].0) >= prev + len - i,
                            forall|k: int|
                                0 <= k < self.scrollback_lines@.len() ==> -2 * (
                                POSITION_LIMIT as int) <= (
                                #[trigger] self.scrollback_lines@[k].0) <= 2 * (
                                POSITION_LIMIT as int),
                            forall|p: int|
                                !(prev + len - i <= p < prev + len) ==> entry_lookup(
                                    self.scrollback_lines@,
                                    p,
                                ) == entry_lookup(cleaned, p),
                            forall|j: int|
                                #![trigger pre.actual_lines@[j]]
                                len - i <= j < len ==> match pre.actual_lines@[j] {
                                    Some(line) => entries_have(
                                        self.scrollback_lines@,
                                        prev + j,
                                    ) && cloned(
                                        line,
                                        entry_value(self.scrollback_lines@, prev + j),
                                    ),
                                    None => !entries_have(self.scrollback_lines@, prev + j),
                                },
                        decreases n - i,
                    {
                        let ghost sb_before = self.scrollback_lines@;
                        let idx = len - 1 - i;
                        let cell = self.actual_lines[idx].clone();
                        match cell {
                            Some(line) => {
                                let pos = prev + idx as i64;
                                self.scrollback_lines.push_front((pos, line));
                                proof {
                                    let e = self.scrollback_lines@[0];
                                    assert(self.scrollback_lines@ =~= seq![e] + sb_before);
                                    lemma_prepend_low(sb_before, e);
                                }
                            },
                            None => {},
                        }
                        proof {
                            let sb_now = self.scrollback_lines@;
                            let pushed = sb_now.len() > sb_before.len();
                            assert forall|p: int|
                                !(prev + len - (i + 1) <= p < prev + len) implies entry_lookup(
                                sb_now,
                                p,
                            ) == entry_lookup(cleaned, p) by {
                                if pushed {
                                    let e = sb_now[0];
                                    lemma_prepend_low_lookup(sb_before, e, p);
                                    assert(sb_now =~= seq![e] + sb_before);
                                }
                            }
                            assert forall|j: int|
                                #![trigger pre.actual_lines@[j]]
                                len - (i + 1) <= j < len implies match pre.actual_lines@[j] {
                                Some(line) => entries_have(sb_now, prev + j) && cloned(
                                    line,
                                    entry_value(sb_now, prev + j),
                                ),
                                None => !entries_have(sb_now, prev + j),
                            } by {
                                if j > idx {
                                    if pushed {
                                        let e = sb_now[0];
                                        lemma_prepend_low_lookup(sb_before, e, prev + j);
                                        assert(sb_now =~= seq![e] + sb_before);
                                    }
                                    assert(entry_lookup(sb_now, prev + j) == entry_lookup(
                                        sb_before,
                                        prev + j,
                                    ));
                                } else {
                                    if pre.actual_lines@[j] is Some {
                                        assert(pushed);
                                        assert(entry_lookup(sb_now, prev + j) == Some(
                                            sb_now[0].1,
                                        ));
                                    } else {
                                        assert(!pushed);
                                        if entries_have(sb_now, prev + j) {
                                            let k = choose|k: int|
                                                0 <= k < sb_now.len() && sb_now[k].0 == prev + j;
                                        }
                                    }
                                }
                            }
                        }
                        i += 1;
                    }
                }
            }
        }
        proof {
            let sbf = self.scrollback_lines@;
            if abs_rows >= len as i64 {
                assert forall|p: int|
                    entry_lookup(sbf, p) == (if first <= p <= last {
                        entry_lookup(pre.scrollback_lines@, p)
                    } else {
                        None::<LineType>
                    }) by {
                    assert(entry_lookup(sbf, p) == entry_lookup(cleaned, p));
                }
            }
            if rows >= 0 {
                assert forall|p: int|
                    !(prev <= p < prev + rows) implies entry_lookup(sbf, p) == (if first <= p
                        <= last {
                        entry_lookup(pre.scrollback_lines@, p)
                    } else {
                        None::<LineType>
                    }) by {
                    assert(entry_lookup(sbf, p) == entry_lookup(cleaned, p));
                }
            } else {
                assert forall|p: int|
                    !(prev + lenn + rows <= p < prev + lenn) implies entry_lookup(sbf, p) == (
                    if first <= p <= last {
                        entry_lookup(pre.scrollback_lines@, p)
                    } else {
                        None::<LineType>
                    }) by {
                    assert(entry_lookup(sbf, p) == entry_lookup(cleaned, p));
                }
            }
        }
    }

    /// The content visible at row `index` for the current scroll
    /// position: from the actual window when the virtual line falls
    /// inside it, else looked up in the scrollback store by binary
    /// search, else nothing.
    pub fn get_visible_line(&self, index: usize) -> (r: Option<&LineType>)
        requires
            self.wf(),
        ensures
            match r {
                Some(line) => self.spec_visible_line(index as int) == Some(*line),
                None => self.spec_visible_line(index as int) is None,
            },
    {
        if index as u64 > 4 * (POSITION_LIMIT as u64) {
            // far past anything the window or the store could hold
            proof {
                vstd::arithmetic::div_mod::lemma_div_is_ordered(
                    -(POSITION_LIMIT as int) * (SUBUNIT as int),
                    self.scroll_position as int,
                    SUBUNIT as int,
                );
                vstd::arithmetic::div_mod::lemma_div_multiples_vanish(
                    -(POSITION_LIMIT as int),
                    SUBUNIT as int,
                );
                let v = spec_floor_units(self.scroll_position as int) + index;
                assert(v > self.actual_position + self.actual_lines@.len());
                if entries_have(self.scrollback_lines@, v) {
                    let k = choose|k: int|
                        0 <= k < self.scrollback_lines@.len() && self.scrollback_lines@[k].0 == v;
                }
            }
            return None;
        }
        let start_virtual_line = floor_units(self.scroll_position);
        let virtual_line = start_virtual_line + index as i64;
        let offset = virtual_line - self.actual_position;
        if offset >= 0 && offset < self.actual_lines.len() as i64 {
            self.actual_lines[offset as usize].as_ref()
        } else {
            let sb = &self.scrollback_lines;
            let mut lo: usize = 0;
            let mut hi: usize = sb.len();
            loop
                invariant
                    lo <= hi <= sb@.len(),
                    self.wf(),
                    virtual_line == spec_floor_units(self.scroll_position as int) + index,
                    forall|k: int| 0 <= k < lo ==> (#[trigger] sb@[k].0) < virtual_line,
                    forall|k: int| hi <= k < sb@.len() ==> (#[trigger] sb@[k].0) > virtual_line,
                    sb == &self.scrollback_lines,
                    !(self.actual_position <= virtual_line < self.actual_position
                        + self.actual_lines@.len()),
                ensures
                    lo == hi,
                decreases hi - lo,
            {
                if lo >= hi {
                    break;
                }
                let mid = lo + (hi - lo) / 2;
                let entry_pos = sb[mid].0;
                if entry_pos < virtual_line {
                    lo = mid + 1;
                } else if entry_pos > virtual_line {
                    hi = mid;
                } else {
                    proof {
                        lemma_lookup_at_index(sb@, mid as int);
                    }
                    return Some(&sb[mid].1);
                }
            }
            proof {
                if entries_have(sb@, virtual_line as int) {
                    let k = choose|k: int|
                        0 <= k < sb@.len() && sb@[k].0 == virtual_line;
                    assert(false);
                }
            }
            None
        }
    }

    /// Give the actual window `size` rows and forget all scroll state.
    pub fn resize(&mut self, size: usize)
        requires
            old(self).wf(),
            size <= POSITION_LIMIT,
        ensures
            final(self).wf(),
            final(self).actual_lines@.len() == size,
            forall|i: int|
                0 <= i < size && i < old(self).actual_lines@.len() ==> final(self).actual_lines@[i] == old(self).actual_lines@[i],
            forall|i: int|
                old(self).actual_lines@.len() <= i < size ==> final(self).actual_lines@[i]
                    is None,
            final(self).scrollback_lines@.len() == 0,
            final(self).actual_position == 0,
            final(self).scroll_position == 0,
    {
        let old_len = self.actual_lines.len();
        if size <= old_len {
            self.actual_lines.truncate(size);
        } else {
            let mut i: usize = old_len;
            while i < size
                invariant
                    old_len <= i <= size,
                    self.actual_lines@.len() == i,
                    forall|j: int|
                        0 <= j < old_len ==> self.actual_lines@[j] == old(self).actual_lines@[j],
                    forall|j: int| old_len <= j < i ==> self.actual_lines@[j] is None,
                    self.scrollback_lines == old(self).scrollback_lines,
                decreases size - i,
            {
                self.actual_lines.push(None);
                i += 1;
            }
        }
        // Reset all scrolling after resizing
        self.reset();
    }

    /// Blank every actual row and forget all scroll state.
    pub fn clear(&mut self)
        requires
            old(self).wf(),
        ensures
            final(self).wf(),
            final(self).actual_lines@.len() == old(self).actual_lines@.len(),
            forall|i: int|
                0 <= i < final(self).actual_lines@.len() ==> final(self).actual_lines@[i]
                    is None,
            final(self).scrollback_lines@.len() == 0,
            final(self).actual_position == 0,
            final(self).scroll_position == 0,
    {
        let n = self.actual_lines.len();
        let mut i: usize = 0;
        while i < n
            invariant
                i <= n,
                n == self.actual_lines@.len(),
                forall|j: int| 0 <= j < i ==> self.actual_lines@[j] is None,
                self.scrollback_lines == old(self).scrollback_lines,
            decreases n - i,
        {
            self.actual_lines[i] = None;
            i += 1;
        }
        self.reset();
    }

    /// Snap the animated view to the actual window.
    pub fn reset_scroll(&mut self)
        requires
            old(self).wf(),
        ensures
            final(self).wf(),
            final(self).actual_lines == old(self).actual_lines,
            final(self).scrollback_lines == old(self).scrollback_lines,
            final(self).actual_position == old(self).actual_position,
            final(self).scroll_position == old(self).actual_position * SUBUNIT,
    {
        self.scroll_position = self.actual_position * SUBUNIT;
    }

    /// Forget the scrollback store and all positions.
    pub fn reset(&mut self)
        ensures
            final(self).actual_lines == old(self).actual_lines,
            final(self).scrollback_lines@.len() == 0,
            final(self).actual_position == 0,
            final(self).scroll_position == 0,
            final(self).actual_lines@.len() <= POSITION_LIMIT ==> final(self).wf(),
    {
        self.scrollback_lines.clear();
        self.actual_position = 0;
        self.scroll_position = 0;
    }
}

/// Which row content is visible depends only on the floor of the scroll
/// position: two buffers that differ solely in the fractional part of
/// `scroll_position` show the same line at every index. The fraction
/// moves the pixel offset, never the chosen rows.
pub proof fn lemma_fractional_scroll_interpolation<LineType: Clone>(
    a: ScrollbackBuffer<LineType>,
    b: ScrollbackBuffer<LineType>,
    index: int,
)
    requires
        a.wf(),
        b.wf(),
        a.actual_lines == b.actual_lines,
        a.scrollback_lines == b.scrollback_lines,
        a.actual_position == b.actual_position,
        crate::fixed::spec_floor_units(a.scroll_position as int) == crate::fixed::spec_floor_units(
            b.scroll_position as int,
        ),
    ensures
        a.spec_visible_line(index) == b.spec_visible_line(index),
{
}

/// While the scroll animation still shows the pre-scroll position,
/// every row that scrolled out of the window is still visible: after
/// `scroll(rows)` downward by less than the window height, visible row
/// `i < rows` shows the banked copy of the old actual row `i` (and
/// nothing where that row was empty).
pub proof fn lemma_scroll_down_keeps_view<LineType: Clone>(
    pre: ScrollbackBuffer<LineType>,
    post: ScrollbackBuffer<LineType>,
    rows: int,
    i: int,
)
    requires
        pre.wf(),
        post.wf(),
        0 < rows < pre.actual_lines@.len(),
        // the animation still sits at the old actual position
        pre.scroll_position == pre.actual_position * SUBUNIT,
        post.scroll_position == pre.scroll_position,
        post.actual_position == pre.actual_position + rows,
        post.actual_lines@.len() == pre.actual_lines@.len(),
        // the rows that left through the top were banked, as `scroll` ensures
        forall|j: int|
            #![trigger pre.actual_lines@[j]]
            0 <= j < rows ==> match pre.actual_lines@[j] {
                Some(line) => entries_have(
                    post.scrollback_lines@,
                    pre.actual_position + j,
                ) && cloned(line, entry_value(post.scrollback_lines@, pre.actual_position + j)),
                None => !entries_have(post.scrollback_lines@, pre.actual_position + j),
            },
        0 <= i < rows,
    ensures
        match pre.actual_lines@[i] {
            Some(line) => post.spec_visible_line(i) matches Some(shown) && cloned(line, shown),
            None => post.spec_visible_line(i) is None,
        },
{
    let prev = pre.actual_position as int;
    vstd::arithmetic::div_mod::lemma_div_multiples_vanish(prev, SUBUNIT as int);
    assert(crate::fixed::spec_floor_units(post.scroll_position as int) == prev);
    assert(pre.actual_lines@[i] is Some ==> entries_have(post.scrollback_lines@, prev + i)
        && cloned(
        pre.actual_lines@[i].unwrap(),
        entry_value(post.scrollback_lines@, prev + i),
    ));
}

/// Once the scroll animation has caught up with the new actual
/// position, every visible row inside the window comes straight from
/// the actual rows: the new content shows as-is.
pub proof fn lemma_visible_line_in_window<LineType: Clone>(b: ScrollbackBuffer<LineType>, i: int)
    requires
        b.wf(),
        b.scroll_position == b.actual_position * SUBUNIT,
        0 <= i < b.actual_lines@.len(),
    ensures
        b.spec_visible_line(i) == b.actual_lines@[i],
{
    vstd::arithmetic::div_mod::lemma_div_multiples_vanish(b.actual_position as int, SUBUNIT as int);
}

/// The mirror of `lemma_scroll_down_keeps_view` for upward scrolls:
/// after `scroll(rows)` with `-len < rows < 0`, the rows that left
/// through the bottom are still visible at their old indices while the
/// animation shows the pre-scroll position.
pub proof fn lemma_scroll_up_keeps_view<LineType: Clone>(
    pre: ScrollbackBuffer<LineType>,
    post: ScrollbackBuffer<LineType>,
    rows: int,
    i: int,
)
    requires
        pre.wf(),
        post.wf(),
        -(pre.actual_lines@.len() as int) < rows < 0,
        pre.scroll_position == pre.actual_position * SUBUNIT,
        post.scroll_position == pre.scroll_position,
        post.actual_position == pre.actual_position + rows,
        post.actual_lines@.len() == pre.actual_lines@.len(),
        // the rows that left through the bottom were banked, as `scroll` ensures
        forall|j: int|
            #![trigger pre.actual_lines@[j]]
            pre.actual_lines@.len() + rows <= j < pre.actual_lines@.len() ==> match pre.actual_lines@[j] {
                Some(line) => entries_have(
                    post.scrollback_lines@,
                    pre.actual_position + j,
                ) && cloned(line, entry_value(post.scrollback_lines@, pre.actual_position + j)),
                None => !entries_have(post.scrollback_lines@, pre.actual_position + j),
            },
        pre.actual_lines@.len() + rows <= i < pre.actual_lines@.len(),
    ensures
        match pre.actual_lines@[i] {
            Some(line) => post.spec_visible_line(i) matches Some(shown) && cloned(line, shown),
            None => post.spec_visible_line(i) is None,
        },
{
    let prev = pre.actual_position as int;
    vstd::arithmetic::div_mod::lemma_div_multiples_vanish(prev, SUBUNIT as int);
    assert(crate::fixed::spec_floor_units(post.scroll_position as int) == prev);
    assert(pre.actual_lines@[i] is Some ==> entries_have(post.scrollback_lines@, prev + i)
        && cloned(
        pre.actual_lines@[i].unwrap(),
        entry_value(post.scrollback_lines@, prev + i),
    ));
}

} // verus!
