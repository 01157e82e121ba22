//! The bounded window of the most recent measurements, with the tick counter
//! and the quit flag of the consumer loop.
use std::collections::VecDeque;
use vstd::prelude::*;

verus! {

/// The window holds at most this many snapshots.
pub const CAPACITY: usize = 100;

/// One accepted measurement: its magnitudes, one per subcarrier, and the
/// sequence number it was given when it entered the window.
pub struct CsiPacket<T> {
    pub amplitude: Vec<T>,
    pub sequence: u64,
}

/// A snapshot as the contracts see it: magnitudes and sequence number.
pub type Snapshot<T> = (Seq<T>, int);

pub open spec fn snapshot_of<T>(p: CsiPacket<T>) -> Snapshot<T> {
    (p.amplitude@, p.sequence as int)
}

/// The window after one push: the oldest snapshot leaves first when the
/// window is full, and the new one is appended with sequence number `next`.
pub open spec fn push_model<T>(w: Seq<Snapshot<T>>, next: int, m: Seq<T>) -> Seq<Snapshot<T>> {
    if w.len() >= CAPACITY {
        w.drop_first().push((m, next))
    } else {
        w.push((m, next))
    }
}

/// The window after pushing the measurements `ms` in order.
pub open spec fn pushes_model<T>(w: Seq<Snapshot<T>>, next: int, ms: Seq<Seq<T>>) -> Seq<
    Snapshot<T>,
>
    decreases ms.len(),
{
    if ms.len() == 0 {
        w
    } else {
        push_model(pushes_model(w, next, ms.drop_last()), next + ms.len() - 1, ms.last())
    }
}

pub open spec fn min(a: int, b: int) -> int {
    if a <= b {
        a
    } else {
        b
    }
}

/// The window after the measurements `ms` were pushed into an empty one:
/// the last `min(n, CAPACITY)` of them, each with its position as number.
pub open spec fn window_of<T>(ms: Seq<Seq<T>>) -> Seq<Snapshot<T>> {
    let n = ms.len() as int;
    let len = min(n, CAPACITY as int);
    Seq::new(len as nat, |k: int| (ms[n - len + k], n - len + k))
}

/// A window of `next` pushes: as many snapshots as were pushed, up to the
/// capacity, numbered without gaps up to `next - 1`.
pub open spec fn window_wf<T>(w: Seq<Snapshot<T>>, next: int) -> bool {
    &&& w.len() == min(next, CAPACITY as int)
    &&& forall|k: int| 0 <= k < w.len() ==> #[trigger] w[k].1 == next - w.len() + k
}

pub open spec fn measurements<T>(v: Seq<Vec<T>>) -> Seq<Seq<T>> {
    v.map_values(|m: Vec<T>| m@)
}

pub struct App<T> {
    pub should_quit: bool,
    /// Frame ticks so far, for display.
    pub counter: u64,
    /// The window, oldest first.
    pub csi_history: VecDeque<CsiPacket<T>>,
    /// The sequence number the next accepted measurement gets.
    pub next_sequence: u64,
}

impl<T> App<T> {
    pub open spec fn window(&self) -> Seq<Snapshot<T>> {
        self.csi_history@.map_values(|p: CsiPacket<T>| snapshot_of(p))
    }

    pub open spec fn wf(&self) -> bool {
        window_wf(self.window(), self.next_sequence as int)
    }

    pub fn new() -> (r: Self)
        ensures
            r.wf(),
            r.window() == Seq::<Snapshot<T>>::empty(),
            r.next_sequence == 0,
            r.counter == 0,
            !r.should_quit,
    {
        let r = App {
            should_quit: false,
            counter: 0,
            csi_history: VecDeque::with_capacity(CAPACITY),
            next_sequence: 0,
        };
        assert(r.window() =~= Seq::<Snapshot<T>>::empty());
        r
    }

    pub fn on_tick(&mut self)
        requires
            old(self).counter < u64::MAX,
        ensures
            final(self).counter == old(self).counter + 1,
            final(self).should_quit == old(self).should_quit,
            final(self).window() == old(self).window(),
            final(self).next_sequence == old(self).next_sequence,
    {
        self.counter = self.counter + 1;
    }

    pub fn quit(&mut self)
        ensures
            final(self).should_quit,
            final(self).counter == old(self).counter,
            final(self).window() == old(self).window(),
            final(self).next_sequence == old(self).next_sequence,
    {
        self.should_quit = true;
    }

    /// Accepts one measurement: it gets the next sequence number and is
    /// appended; when the window is full the oldest snapshot leaves first.
    pub fn push_data(&mut self, incoming_data: Vec<T>)
        requires
            old(self).wf(),
            old(self).next_sequence < u64::MAX,
        ensures
            final(self).wf(),
            final(self).window() == push_model(
                old(self).window(),
                old(self).next_sequence as int,
                incoming_data@,
            ),
            final(self).next_sequence == old(self).next_sequence + 1,
            final(self).counter == old(self).counter,
            final(self).should_quit == old(self).should_quit,
    {
        let ghost w0 = self.window();
        if self.csi_history.len() >= CAPACITY {
            self.csi_history.pop_front();
            assert(self.window() =~= w0.drop_first());
        }
        let ghost w1 = self.window();
        let packet = CsiPacket { amplitude: incoming_data, sequence: self.next_sequence };
        self.csi_history.push_back(packet);
        assert(self.window() =~= w1.push(snapshot_of(packet)));
        self.next_sequence = self.next_sequence + 1;
        assert(self.window() =~= push_model(w0, self.next_sequence - 1, incoming_data@));
        proof {
            lemma_push_keeps_wf(w0, self.next_sequence - 1, incoming_data@);
        }
    }

    /// Pushes each pending measurement in arrival order.
    pub fn drain_into(&mut self, pending: Vec<Vec<T>>)
        requires
            old(self).wf(),
            old(self).next_sequence + pending@.len() <= u64::MAX,
        ensures
            final(self).wf(),
            final(self).window() == pushes_model(
                old(self).window(),
                old(self).next_sequence as int,
                measurements(pending@),
            ),
            final(self).next_sequence == old(self).next_sequence + pending@.len(),
            final(self).counter == old(self).counter,
            final(self).should_quit == old(self).should_quit,
    {
        let ghost w0 = self.window();
        let ghost n0 = self.next_sequence as int;
        let ghost all = measurements(pending@);
        let mut rest = pending;
        let ghost mut i: int = 0;
        assert(all.take(0) =~= Seq::<Seq<T>>::empty());
        while rest.len() > 0
            invariant
                0 <= i <= all.len(),
                all.len() == pending@.len(),
                measurements(rest@) == all.subrange(i, all.len() as int),
                self.wf(),
                self.next_sequence == n0 + i,
                n0 + all.len() <= u64::MAX,
                self.window() == pushes_model(w0, n0, all.take(i)),
                self.counter == old(self).counter,
                self.should_quit == old(self).should_quit,
            decreases rest.len(),
        {
            let ghost before = measurements(rest@);
            let m = rest.remove(0);
            assert(before[0] == m@);
            assert(measurements(rest@) =~= before.drop_first());
            assert(all.take(i + 1).drop_last() =~= all.take(i));
            assert(all.take(i + 1).last() == all[i]);
            self.push_data(m);
            proof {
                i = i + 1;
            }
        }
        assert(all.take(i) =~= all);
    }

    /// Handles one key press: `q` asks the loop to stop.
    pub fn on_key(&mut self, key: char)
        ensures
            final(self).should_quit == (old(self).should_quit || key == 'q'),
            final(self).counter == old(self).counter,
            final(self).window() == old(self).window(),
            final(self).next_sequence == old(self).next_sequence,
    {
        if key == 'q' {
            self.quit();
        }
    }

    /// The most recently accepted snapshot, if any.
    pub fn latest(&self) -> (r: Option<&CsiPacket<T>>)
        ensures
            r is None <==> self.window().len() == 0,
            r matches Some(p) ==> snapshot_of(*p) == self.window().last(),
    {
        let n = self.csi_history.len();
        if n == 0 {
            None
        } else {
            Some(&self.csi_history[n - 1])
        }
    }
}

proof fn lemma_push_keeps_wf<T>(w: Seq<Snapshot<T>>, next: int, m: Seq<T>)
    requires
        window_wf(w, next),
    ensures
        window_wf(push_model(w, next, m), next + 1),
{
    let w2 = push_model(w, next, m);
    assert forall|k: int| 0 <= k < w2.len() implies #[trigger] w2[k].1 == next + 1 - w2.len() + k by {
        if w.len() >= CAPACITY {
            if k < w2.len() - 1 {
                assert(w2[k] == w[k + 1]);
            }
        } else {
            if k < w2.len() - 1 {
                assert(w2[k] == w[k]);
            }
        }
    }
}

/// Pushing measurements one by one into an empty window leaves the last
/// `min(n, CAPACITY)` of them, the `j`-th push carrying sequence number `j`.
pub proof fn lemma_window_after_pushes<T>(ms: Seq<Seq<T>>)
    ensures
        pushes_model(Seq::<Snapshot<T>>::empty(), 0, ms) == window_of(ms),
    decreases ms.len(),
{
    if ms.len() > 0 {
        let prev = ms.drop_last();
        lemma_window_after_pushes(prev);
        let w = window_of(prev);
        let n = ms.len() as int;
        assert forall|k: int| 0 <= k < prev.len() implies #[trigger] prev[k] == ms[k] by {}
        assert(push_model(w, n - 1, ms.last()) =~= window_of(ms));
    }
}

/// After more than `CAPACITY` pushes into an empty window, exactly
/// `CAPACITY` snapshots remain: the newest is the last push, and their
/// numbers are the `CAPACITY` highest given so far, without gaps.
pub proof fn lemma_full_window<T>(ms: Seq<Seq<T>>)
    requires
        ms.len() > CAPACITY,
    ensures
        ({
            let w = pushes_model(Seq::<Snapshot<T>>::empty(), 0, ms);
            let n = ms.len() as int;
            &&& w.len() == CAPACITY
            &&& w.last() == (ms.last(), n - 1)
            &&& forall|k: int|
                0 <= k < CAPACITY ==> #[trigger] w[k] == (ms[n - CAPACITY + k], n - CAPACITY + k)
        }),
{
    lemma_window_after_pushes(ms);
}

/// Sequence numbers start at 0, the `j`-th push is given `j`, and the
/// numbers in a window strictly increase from oldest to newest.
pub proof fn lemma_sequence_numbers<T>(ms: Seq<Seq<T>>, j: int)
    requires
        0 <= j < ms.len(),
    ensures
        pushes_model(Seq::<Snapshot<T>>::empty(), 0, ms.take(j + 1)).last() == (ms[j], j),
        ({
            let w = pushes_model(Seq::<Snapshot<T>>::empty(), 0, ms);
            forall|a: int, b: int| 0 <= a < b < w.len() ==> #[trigger] w[a].1 < #[trigger] w[b].1
        }),
{
    lemma_window_after_pushes(ms.take(j + 1));
    lemma_window_after_pushes(ms);
}

} // verus!
