//! Bookkeeping of the scene: objects removed at a killing border, the
//! motion trail behind each object, the 88×31 download counter and the
//! block order of the title-screen dissolve.

use vstd::prelude::*;
use std::collections::VecDeque;
use crate::shuffle::is_permutation;

verus! {

/// `s` with the positions of `dead` removed, the last position first.
pub open spec fn remove_positions<T>(s: Seq<T>, dead: Seq<usize>) -> Seq<T>
    decreases dead.len(),
{
    if dead.len() == 0 {
        s
    } else {
        remove_positions(s.remove(dead.last() as int), dead.drop_last())
    }
}

/// `dead` lists positions of a sequence of length `n`, in increasing order.
pub open spec fn increasing_positions(dead: Seq<usize>, n: nat) -> bool {
    &&& forall|k: int| 0 <= k < dead.len() ==> #[trigger] dead[k] < n
    &&& forall|a: int, b: int| 0 <= a < b < dead.len() ==> dead[a] < dead[b]
}

/// Removes the objects at the positions `dead` (increasing), from the last
/// to the first, and returns them in that order.  A drag on a removed
/// object ends; a drag on another object keeps its position number.
pub fn remove_killed<T>(objects: &mut Vec<T>, dead: &Vec<usize>, drag: Option<usize>) -> (r: (
    Vec<T>,
    Option<usize>,
))
    requires
        increasing_positions(dead@, old(objects)@.len()),
    ensures
        final(objects)@ == remove_positions(old(objects)@, dead@),
        final(objects)@.len() == old(objects)@.len() - dead@.len(),
        r.0@.len() == dead@.len(),
        forall|k: int|
            0 <= k < dead@.len() ==> #[trigger] r.0@[k] == old(objects)@[dead@[dead@.len() - 1 - k] as int],
        r.1 == match drag {
            Some(d) => if dead@.contains(d) {
                None
            } else {
                Some(d)
            },
            None => None,
        },
{
    let ghost orig = objects@;
    let mut removed: Vec<T> = Vec::new();
    let mut drag_now = drag;
    let mut k: usize = dead.len();
    assert(dead@.take(k as int) =~= dead@);
    assert(dead@.subrange(k as int, dead@.len() as int) =~= Seq::<usize>::empty());
    while k > 0
        invariant
            k <= dead.len(),
            increasing_positions(dead@, orig.len()),
            remove_positions(orig, dead@) == remove_positions(objects@, dead@.take(k as int)),
            objects@.len() == orig.len() - (dead.len() - k),
            forall|m: int| 0 <= m < k ==> dead@[m] < objects@.len(),
            forall|m: int| 0 <= m < k ==> #[trigger] objects@[dead@[m] as int] == orig[dead@[m] as int],
            removed@.len() == dead.len() - k,
            forall|m: int|
                0 <= m < removed@.len() ==> #[trigger] removed@[m] == orig[dead@[dead@.len() - 1 - m] as int],
            drag_now == match drag {
                Some(d) => if dead@.subrange(k as int, dead@.len() as int).contains(d) {
                    None
                } else {
                    Some(d)
                },
                None => None,
            },
        decreases k,
    {
        k = k - 1;
        let i = dead[k];
        if drag_now == Some(i) {
            drag_now = None;
        }
        let ghost before = objects@;
        assert(dead@.take(k + 1).drop_last() =~= dead@.take(k as int));
        assert(dead@.take(k + 1).last() == i);
        let obj = objects.remove(i);
        removed.push(obj);
        proof {
            assert forall|m: int| 0 <= m < k implies dead@[m] < objects@.len() by {
                assert(dead@[m] < dead@[k as int]);
            }
            assert forall|m: int| 0 <= m < k implies #[trigger] objects@[dead@[m] as int] == orig[dead@[m] as int] by {
                assert(dead@[m] < dead@[k as int]);
                assert(objects@[dead@[m] as int] == before[dead@[m] as int]);
            }
            let rest = dead@.subrange(k + 1, dead@.len() as int);
            let now = dead@.subrange(k as int, dead@.len() as int);
            assert(now =~= seq![i] + rest);
            assert forall|x: usize| now.contains(x) == (x == i || rest.contains(x)) by {
                if x == i {
                    assert(now[0] == i);
                }
                if rest.contains(x) {
                    let w = choose|w: int| 0 <= w < rest.len() && rest[w] == x;
                    assert(now[w + 1] == x);
                }
                if now.contains(x) && x != i {
                    let w = choose|w: int| 0 <= w < now.len() && now[w] == x;
                    assert(w > 0);
                    assert(rest[w - 1] == x);
                }
            }
        }
    }
    assert(dead@.take(0) =~= Seq::<usize>::empty());
    assert(dead@.subrange(0, dead@.len() as int) =~= dead@);
    (removed, drag_now)
}

/// The motion trail behind an object: its recent snapshots, oldest first.
pub struct Trail<T> {
    items: VecDeque<T>,
}

impl<T> View for Trail<T> {
    type V = Seq<T>;

    /// The snapshots, oldest first.
    closed spec fn view(&self) -> Seq<T> {
        self.items@
    }
}

impl<T> Trail<T> {
    pub fn new() -> (r: Trail<T>)
        ensures
            r@ == Seq::<T>::empty(),
    {
        Trail { items: VecDeque::new() }
    }

    pub fn len(&self) -> (r: usize)
        ensures
            r == self@.len(),
    {
        self.items.len()
    }

    /// The snapshot at position `i` (0 is the oldest).
    pub fn get(&self, i: usize) -> (r: &T)
        requires
            i < self@.len(),
        ensures
            *r == self@[i as int],
    {
        &self.items[i]
    }

    /// The oldest snapshot.
    pub fn oldest(&self) -> (r: Option<&T>)
        ensures
            self@.len() == 0 ==> r is None,
            self@.len() > 0 ==> r == Some(&self@[0]),
    {
        if self.items.len() == 0 {
            None
        } else {
            Some(&self.items[0])
        }
    }

    /// The newest snapshot.
    pub fn newest(&self) -> (r: Option<&T>)
        ensures
            self@.len() == 0 ==> r is None,
            self@.len() > 0 ==> r == Some(&self@.last()),
    {
        let n = self.items.len();
        if n == 0 {
            None
        } else {
            Some(&self.items[n - 1])
        }
    }

    /// Drops the oldest snapshot, if any.
    pub fn drop_oldest(&mut self)
        ensures
            final(self)@ == if old(self)@.len() > 0 {
                old(self)@.drop_first()
            } else {
                old(self)@
            },
    {
        let _ = self.items.pop_front();
    }

    /// Drops the oldest snapshots until at most `max_len` remain.
    pub fn trim_to(&mut self, max_len: usize)
        ensures
            final(self)@ == if old(self)@.len() > max_len {
                old(self)@.subrange(old(self)@.len() - max_len, old(self)@.len() as int)
            } else {
                old(self)@
            },
    {
        let ghost orig = self.items@;
        assert(orig.subrange(0, orig.len() as int) =~= orig);
        while self.items.len() > max_len
            invariant
                self.items@.len() <= orig.len(),
                self.items@ == orig.subrange(orig.len() - self.items@.len(), orig.len() as int),
                self.items@.len() >= max_len || self.items@ == orig,
            decreases self.items@.len(),
        {
            let ghost before = self.items@;
            let _ = self.items.pop_front();
            assert(self.items@ =~= orig.subrange(orig.len() - self.items@.len(), orig.len() as int));
        }
    }

    /// Appends a snapshot, then drops the oldest one if more than
    /// `max_len` are held.
    pub fn push_capped(&mut self, item: T, max_len: usize)
        ensures
            final(self)@ == if old(self)@.len() + 1 > max_len {
                old(self)@.push(item).drop_first()
            } else {
                old(self)@.push(item)
            },
    {
        self.items.push_back(item);
        if self.items.len() > max_len {
            let _ = self.items.pop_front();
        }
    }
}

/// Law: a trail within its limit stays within it when a snapshot is added
/// with `push_capped`, and (for a limit of at least one) its newest
/// snapshot is the one added.
pub proof fn lemma_push_capped_bounded<T>(before: Seq<T>, item: T, max_len: nat)
    requires
        before.len() <= max_len,
    ensures
        ({
            let after = if before.len() + 1 > max_len {
                before.push(item).drop_first()
            } else {
                before.push(item)
            };
            &&& after.len() <= max_len
            &&& max_len >= 1 ==> after.last() == item
        }),
{
}

/// The 88×31 download in progress: how many buttons are still expected and
/// whether their channel is still being read.
pub struct ButtonFetch {
    pub pending: usize,
    pub listening: bool,
}

impl ButtonFetch {
    pub fn new() -> (r: ButtonFetch)
        ensures
            r.pending == 0,
            !r.listening,
    {
        ButtonFetch { pending: 0, listening: false }
    }

    /// F starts a download of `count` buttons unless one is still under
    /// way; returns whether it started.
    pub fn start(&mut self, count: usize) -> (r: bool)
        ensures
            r == (old(self).pending == 0),
            r ==> final(self).pending == count && final(self).listening,
            !r ==> *final(self) == *old(self),
    {
        if self.pending != 0 {
            return false;
        }
        self.pending = count;
        self.listening = true;
        true
    }

    /// A button arrived.
    pub fn received(&mut self)
        ensures
            final(self).pending == if old(self).pending > 0 {
                old(self).pending - 1
            } else {
                0
            },
            final(self).listening == old(self).listening,
    {
        self.pending = self.pending.saturating_sub(1);
    }

    /// The downloader finished (its channel closed).
    pub fn disconnected(&mut self)
        ensures
            final(self).pending == 0,
            !final(self).listening,
    {
        self.pending = 0;
        self.listening = false;
    }

    /// After the channel has been read for this frame: stop listening once
    /// nothing is expected any more.
    pub fn end_of_frame(&mut self)
        ensures
            final(self).pending == old(self).pending,
            final(self).listening == (old(self).listening && old(self).pending > 0),
    {
        if self.pending == 0 {
            self.listening = false;
        }
    }
}

/// A uniformly drawn integer of `[low, high)`.
///
/// Trusted: `macroquad::rand::gen_range` (quad-rand), which computes
/// `low + (high - low) · k / 2^32` in `f64` for a random 32-bit `k` and
/// truncates.  When `high` is at most 2^20 every step of that is exact, so
/// the result lies in `[low, high)`; for larger bounds the rounding is not
/// followed and nothing is stated.  The value itself is random.
#[verifier::external_body]
fn random_below(low: usize, high: usize) -> (r: usize)
    ensures
        low < high && high <= 0x100000 ==> low <= r < high,
{
    macroquad::rand::gen_range(low, high)
}

/// The position swapped with position `i` for the drawn value `d`: the
/// draw itself when it is at most `i`, else `i` (no swap).
pub open spec fn draw_pick(d: usize, i: nat) -> int {
    if d <= i {
        d as int
    } else {
        i as int
    }
}

/// Positions `i, i-1, ..., 1` of `order` swapped with the positions their
/// draws pick (`draws[i]` for position `i`).
pub open spec fn draw_pass(order: Seq<usize>, draws: Seq<usize>, i: nat) -> Seq<usize>
    decreases i,
{
    if i == 0 {
        order
    } else {
        let j = draw_pick(draws[i as int], i);
        draw_pass(order.update(i as int, order[j]).update(j, order[i as int]), draws, (i - 1) as nat)
    }
}

/// The Fisher–Yates order of `0..n` (`n` the number of draws) for the
/// given draws; `draws[0]` is not used.
pub open spec fn order_by_draws(draws: Seq<usize>) -> Seq<usize> {
    if draws.len() == 0 {
        Seq::empty()
    } else {
        draw_pass(crate::shuffle::identity_order(draws.len()), draws, (draws.len() - 1) as nat)
    }
}

proof fn lemma_draw_pass_permutation(order: Seq<usize>, draws: Seq<usize>, n: nat, i: nat)
    requires
        is_permutation(order, n),
        i < n,
        i < draws.len(),
    ensures
        is_permutation(draw_pass(order, draws, i), n),
    decreases i,
{
    if i > 0 {
        let j = draw_pick(draws[i as int], i);
        crate::shuffle::lemma_swap_keeps_permutation(order, n, i as int, j);
        lemma_draw_pass_permutation(
            order.update(i as int, order[j]).update(j, order[i as int]),
            draws,
            n,
            (i - 1) as nat,
        );
    }
}

/// The shuffled order of `0..n` for `n = draws.len()` drawn values: from
/// the last position down to the second, each position is swapped with
/// the one its draw picks.
pub fn order_from_draws(draws: &Vec<usize>) -> (r: Vec<usize>)
    ensures
        r@ == order_by_draws(draws@),
        is_permutation(r@, draws@.len()),
{
    let n = draws.len();
    let mut order: Vec<usize> = Vec::new();
    let mut k: usize = 0;
    while k < n
        invariant
            k <= n,
            n == draws@.len(),
            order@ == crate::shuffle::identity_order(k as nat),
        decreases n - k,
    {
        order.push(k);
        k = k + 1;
        assert(order@ =~= crate::shuffle::identity_order(k as nat));
    }
    if n == 0 {
        return order;
    }
    proof {
        let id = crate::shuffle::identity_order(n as nat);
        assert forall|m: int| 0 <= m < id.len() implies #[trigger] id[m] == m by {
        }
        assert(is_permutation(id, n as nat));
        lemma_draw_pass_permutation(id, draws@, n as nat, (n - 1) as nat);
    }
    let ghost target = order_by_draws(draws@);
    let mut i: usize = n - 1;
    while i > 0
        invariant
            i < n,
            n == draws@.len(),
            order@.len() == n,
            draw_pass(order@, draws@, i as nat) == target,
        decreases i,
    {
        let d = draws[i];
        let j = if d <= i {
            d
        } else {
            i
        };
        let vi = order[i];
        let vj = order[j];
        order.set(i, vj);
        order.set(j, vi);
        i = i - 1;
    }
    order
}

/// A random order of the `n` blocks of the title-screen dissolve: one
/// value of `0..=i` is drawn for each position `i` from the last down to
/// the second, and `order_from_draws` applies them.
pub fn dismissal_order(n: usize) -> (r: Vec<usize>)
    ensures
        is_permutation(r@, n as nat),
        exists|draws: Seq<usize>| draws.len() == n && r@ == order_by_draws(draws),
{
    let mut draws: Vec<usize> = Vec::new();
    let mut k: usize = 0;
    while k < n
        invariant
            k <= n,
            draws@.len() == k,
        decreases n - k,
    {
        draws.push(0);
        k = k + 1;
    }
    if n > 0 {
        let mut i: usize = n - 1;
        while i > 0
            invariant
                i < n,
                draws@.len() == n,
            decreases i,
        {
            let d = random_below(0, i + 1);
            draws.set(i, d);
            i = i - 1;
        }
    }
    order_from_draws(&draws)
}

/// `n` random picks from a palette of `palette_len` colours.
pub fn palette_picks(n: usize, palette_len: usize) -> (r: Vec<usize>)
    requires
        0 < palette_len <= 0x100000,
    ensures
        r@.len() == n,
        forall|k: int| 0 <= k < n ==> #[trigger] r@[k] < palette_len,
{
    let mut out: Vec<usize> = Vec::new();
    let mut k: usize = 0;
    while k < n
        invariant
            k <= n,
            0 < palette_len <= 0x100000,
            out@.len() == k,
            forall|m: int| 0 <= m < k ==> #[trigger] out@[m] < palette_len,
        decreases n - k,
    {
        out.push(random_below(0, palette_len));
        k = k + 1;
    }
    out
}

/// Grid cell (column, row) of block `idx` in a grid `cols` blocks wide.
pub fn block_cell(idx: usize, cols: usize) -> (r: (usize, usize))
    requires
        cols > 0,
    ensures
        r.0 == idx % cols,
        r.1 == idx / cols,
        r.1 * cols + r.0 == idx,
{
    let c = idx % cols;
    let row = idx / cols;
    assert(row * cols + c == idx) by (nonlinear_arith)
        requires
            c == idx % cols,
            row == idx / cols,
            cols > 0,
    ;
    (c, row)
}

} // verus!
