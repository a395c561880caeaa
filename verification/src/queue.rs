//! The bounded queues between the stream and the consumer, and the order in which packets leave
//! them.

use crate::duration::{Duration, NANOS_PER_SEC};
use crate::edit::Lane;
use std::collections::VecDeque;
use vstd::prelude::*;

verus! {

/// The last `n` elements of a list, or all of them where there are fewer.
pub open spec fn latest<T>(items: Seq<T>, n: nat) -> Seq<T> {
    if items.len() <= n {
        items
    } else {
        items.skip(items.len() - n)
    }
}

/// A first-in first-out queue of bounded size. Where a new item does not fit, the oldest makes
/// room for it. Its view is the list of its items, the oldest first.
pub struct BoundedQueue<T> {
    items: VecDeque<T>,
    capacity: usize,
}

impl<T> View for BoundedQueue<T> {
    type V = Seq<T>;

    closed spec fn view(&self) -> Seq<T> {
        self.items@
    }
}

impl<T> BoundedQueue<T> {
    /// The number of items that fit.
    pub closed spec fn bound(&self) -> nat {
        self.capacity as nat
    }

    /// The queue has room for an item, and holds no more items than it has room for.
    pub open spec fn wf(&self) -> bool {
        0 < self.bound() && self@.len() <= self.bound()
    }

    /// A queue with room for `capacity` items.
    pub fn new(capacity: usize) -> (queue: BoundedQueue<T>)
        requires
            capacity > 0,
        ensures
            queue.wf(),
            queue.bound() == capacity,
            queue@ == Seq::<T>::empty(),
    {
        BoundedQueue { items: VecDeque::new(), capacity }
    }

    /// Adds an item. Gives the oldest item where that had to make room.
    pub fn offer(&mut self, item: T) -> (dropped: Option<T>)
        requires
            old(self).wf(),
        ensures
            final(self).wf(),
            final(self).bound() == old(self).bound(),
            final(self)@ == latest(old(self)@.push(item), old(self).bound()),
            dropped is Some <==> old(self)@.len() == old(self).bound(),
            dropped is Some ==> dropped->0 == old(self)@[0],
    {
        let dropped = if self.items.len() == self.capacity {
            self.items.pop_front()
        } else {
            None
        };
        self.items.push_back(item);
        assert(self.items@ =~= latest(old(self)@.push(item), old(self).bound()));
        dropped
    }

    /// Takes the oldest item.
    pub fn take(&mut self) -> (item: Option<T>)
        requires
            old(self).wf(),
        ensures
            final(self).wf(),
            final(self).bound() == old(self).bound(),
            item is None <==> old(self)@.len() == 0,
            item is None ==> final(self)@ == old(self)@,
            item is Some ==> item->0 == old(self)@[0],
            item is Some ==> final(self)@ == old(self)@.skip(1),
    {
        let item = self.items.pop_front();
        proof {
            if item is Some {
                assert(self.items@ =~= old(self)@.skip(1));
            }
        }
        item
    }

    /// The number of items.
    pub fn len(&self) -> (n: usize)
        ensures
            n == self@.len(),
    {
        self.items.len()
    }
}

/// What the consumer finds.
#[derive(Debug, PartialEq, Eq)]
pub enum Next<T> {
    /// A packet to handle.
    Packet(T),
    /// Nothing for now.
    Wait,
    /// Nothing any more.
    Closed,
}

/// Packets by the lane they belong to, the oldest first.
#[verifier::ext_equal]
pub struct ByLane<P> {
    pub human: Seq<P>,
    pub bot: Seq<P>,
}

impl<P> ByLane<P> {
    /// No packets on either lane.
    pub open spec fn none() -> ByLane<P> {
        ByLane { human: Seq::empty(), bot: Seq::empty() }
    }

    /// The packets of a lane.
    pub open spec fn on(self, lane: Lane) -> Seq<P> {
        match lane {
            Lane::Human => self.human,
            Lane::Bot => self.bot,
        }
    }

    /// The same packets but for a lane's, which are the given ones.
    pub open spec fn with(self, lane: Lane, packets: Seq<P>) -> ByLane<P> {
        match lane {
            Lane::Human => ByLane { human: packets, bot: self.bot },
            Lane::Bot => ByLane { human: self.human, bot: packets },
        }
    }

    /// What waits after a packet was queued on a lane with room for `bound` packets.
    pub open spec fn enqueued(self, lane: Lane, packet: P, bound: nat) -> ByLane<P> {
        self.with(lane, latest(self.on(lane).push(packet), bound))
    }

    /// The lane to be served next: the humans' where a packet waits there, and then the bots',
    /// unless they are held back.
    pub open spec fn served(self, hold_bots: bool) -> Option<Lane> {
        if self.human.len() > 0 {
            Some(Lane::Human)
        } else if !hold_bots && self.bot.len() > 0 {
            Some(Lane::Bot)
        } else {
            None
        }
    }

    /// What waits after the oldest packet of a lane was taken.
    pub open spec fn taken(self, lane: Lane) -> ByLane<P> {
        self.with(lane, self.on(lane).skip(1))
    }
}

/// The queues of both lanes.
pub struct Lanes<T> {
    pub human: BoundedQueue<T>,
    pub bot: BoundedQueue<T>,
    /// Whether the stream has ended, so that nothing will be queued any more.
    pub closed: bool,
}

impl<T> Lanes<T> {
    /// Both queues are well-formed.
    pub open spec fn wf(&self) -> bool {
        self.human.wf() && self.bot.wf()
    }

    /// Whether nothing but the items of the queues has changed from `before` to `self`.
    pub open spec fn same_shape(&self, before: &Lanes<T>) -> bool {
        &&& self.closed == before.closed
        &&& self.human.bound() == before.human.bound()
        &&& self.bot.bound() == before.bot.bound()
    }

    /// The packets that wait on the lanes.
    pub open spec fn waiting(&self) -> ByLane<T> {
        ByLane { human: self.human@, bot: self.bot@ }
    }

    /// The number of packets that fit on a lane.
    pub open spec fn bound(&self, lane: Lane) -> nat {
        match lane {
            Lane::Human => self.human.bound(),
            Lane::Bot => self.bot.bound(),
        }
    }

    /// Empty lanes with room for `capacity` packets each.
    pub fn new(capacity: usize) -> (lanes: Lanes<T>)
        requires
            capacity > 0,
        ensures
            lanes.wf(),
            lanes.bound(Lane::Human) == capacity,
            lanes.bound(Lane::Bot) == capacity,
            lanes.waiting() == ByLane::<T>::none(),
            !lanes.closed,
    {
        Lanes {
            human: BoundedQueue::new(capacity),
            bot: BoundedQueue::new(capacity),
            closed: false,
        }
    }

    /// Queues a packet on a lane. Gives the packet that had to make room, where one had to.
    pub fn enqueue(&mut self, lane: Lane, packet: T) -> (dropped: Option<T>)
        requires
            old(self).wf(),
        ensures
            final(self).wf(),
            final(self).same_shape(old(self)),
            final(self).waiting() == old(self).waiting().enqueued(
                lane,
                packet,
                old(self).bound(lane),
            ),
            dropped is Some <==> old(self).waiting().on(lane).len() == old(self).bound(lane),
            dropped is Some ==> dropped->0 == old(self).waiting().on(lane)[0],
    {
        match lane {
            Lane::Human => self.human.offer(packet),
            Lane::Bot => self.bot.offer(packet),
        }
    }

    /// Takes the next packet the way the asynchronous consumer does: humans first; then the end of
    /// the stream; then bots, unless the mode is degraded.
    pub fn next_async(&mut self, degraded: bool) -> (next: Next<T>)
        requires
            old(self).wf(),
        ensures
            final(self).wf(),
            final(self).same_shape(old(self)),
            old(self).human@.len() > 0 ==> {
                &&& next == Next::Packet(old(self).human@[0])
                &&& final(self).human@ == old(self).human@.drop_first()
                &&& final(self).bot@ == old(self).bot@
            },
            final(self).bot@ != old(self).bot@ ==> {
                &&& old(self).human@.len() == 0
                &&& !degraded
                &&& next == Next::Packet(old(self).bot@[0])
                &&& final(self).human@ == old(self).human@
                &&& final(self).bot@ == old(self).bot@.drop_first()
            },
            next is Packet <==> old(self).human@.len() > 0 || (!old(self).closed && !degraded
                && old(self).bot@.len() > 0),
            next is Closed ==> old(self).closed,
            next is Wait ==> !old(self).closed,
            match old(self).waiting().served(degraded || old(self).closed) {
                Some(lane) => {
                    &&& next == Next::Packet(old(self).waiting().on(lane)[0])
                    &&& final(self).waiting() == old(self).waiting().taken(lane)
                },
                None => {
                    &&& next == (if old(self).closed {
                        Next::Closed
                    } else {
                        Next::<T>::Wait
                    })
                    &&& final(self).waiting() == old(self).waiting()
                },
            },
    {
        if let Some(packet) = self.human.take() {
            return Next::Packet(packet);
        }
        if self.closed {
            return Next::Closed;
        }
        if !degraded {
            if let Some(packet) = self.bot.take() {
                return Next::Packet(packet);
            }
        }
        Next::Wait
    }

    /// Takes the next packet the way the threaded consumer does: humans first; then bots, unless
    /// the mode is degraded; then the end of the stream.
    pub fn next_threaded(&mut self, degraded: bool) -> (next: Next<T>)
        requires
            old(self).wf(),
        ensures
            final(self).wf(),
            final(self).same_shape(old(self)),
            old(self).human@.len() > 0 ==> {
                &&& next == Next::Packet(old(self).human@[0])
                &&& final(self).human@ == old(self).human@.drop_first()
                &&& final(self).bot@ == old(self).bot@
            },
            final(self).bot@ != old(self).bot@ ==> {
                &&& old(self).human@.len() == 0
                &&& !degraded
                &&& next == Next::Packet(old(self).bot@[0])
                &&& final(self).human@ == old(self).human@
                &&& final(self).bot@ == old(self).bot@.drop_first()
            },
            next is Packet <==> old(self).human@.len() > 0 || (!degraded
                && old(self).bot@.len() > 0),
            next is Closed ==> old(self).closed,
            next is Wait ==> !old(self).closed,
            match old(self).waiting().served(degraded) {
                Some(lane) => {
                    &&& next == Next::Packet(old(self).waiting().on(lane)[0])
                    &&& final(self).waiting() == old(self).waiting().taken(lane)
                },
                None => {
                    &&& next == (if old(self).closed {
                        Next::Closed
                    } else {
                        Next::<T>::Wait
                    })
                    &&& final(self).waiting() == old(self).waiting()
                },
            },
    {
        if let Some(packet) = self.human.take() {
            return Next::Packet(packet);
        }
        if !degraded {
            if let Some(packet) = self.bot.take() {
                return Next::Packet(packet);
            }
        }
        if self.closed {
            return Next::Closed;
        }
        Next::Wait
    }
}

/// The time without a packet after which the watchdog reports, in seconds.
pub const WATCHDOG_SECS: u64 = 10;

/// Tells whether the consumer has been idle so long that the watchdog has to report.
pub fn watchdog_expired(idle: Duration) -> (r: bool)
    ensures
        r == (idle@ >= WATCHDOG_SECS * NANOS_PER_SEC),
        r <==> idle@ >= 10_000_000_000,
{
    idle.as_nanos() >= Duration::from_secs(WATCHDOG_SECS).as_nanos()
}

/// Tells whether a run has lasted as long as it was meant to.
pub fn run_complete(elapsed: Duration, run_duration: Duration) -> (r: bool)
    ensures
        r == (elapsed@ >= run_duration@),
{
    elapsed.as_nanos() >= run_duration.as_nanos()
}

/// What a bounded queue holds after any number of additions to an empty queue.
pub open spec fn after_offers<T>(items: Seq<T>, bound: nat) -> Seq<T>
    decreases items.len(),
{
    if items.len() == 0 {
        items
    } else {
        latest(after_offers(items.drop_last(), bound).push(items.last()), bound)
    }
}

/// A queue to which items are added, and from which none is taken, holds the latest of them in
/// the order in which they came: dropping the oldest is all that is ever lost.
pub proof fn law_drop_oldest<T>(items: Seq<T>, bound: nat)
    requires
        bound > 0,
    ensures
        after_offers(items, bound) == latest(items, bound),
    decreases items.len(),
{
    if items.len() > 0 {
        let front = items.drop_last();
        law_drop_oldest(front, bound);
        assert(latest(latest(front, bound).push(items.last()), bound) =~= latest(items, bound));
    } else {
        assert(latest(items, bound) =~= items);
    }
}

/// A queue that holds everything that was ever added to it from position `from` on keeps doing so.
/// After an addition it has lost at most the item at that position, and after taking an item just
/// that one: items leave in the order in which they came, and none is lost in between.
pub proof fn law_first_in_first_out<T>(history: Seq<T>, from: int, item: T, bound: nat)
    requires
        bound > 0,
        0 <= from <= history.len(),
        history.len() - from <= bound,
    ensures
        ({
            let held = history.skip(from);
            let kept = if held.len() < bound {
                from
            } else {
                from + 1
            };
            &&& latest(held.push(item), bound) == history.push(item).skip(kept)
            &&& held.len() > 0 ==> held[0] == history[from]
            &&& held.len() > 0 ==> held.skip(1) == history.skip(from + 1)
        }),
{
    let held = history.skip(from);
    let kept = if held.len() < bound {
        from
    } else {
        from + 1
    };
    assert(latest(held.push(item), bound) =~= history.push(item).skip(kept));
    if held.len() > 0 {
        assert(held.skip(1) =~= history.skip(from + 1));
    }
}

/// The latest elements of a list are its end: as many as asked for, or all where there are fewer.
pub proof fn law_latest<T>(items: Seq<T>, n: nat)
    ensures
        latest(items, n).len() == vstd::math::min(items.len() as int, n as int),
        items.take(items.len() - latest(items, n).len()) + latest(items, n) == items,
{
    assert(items.take(items.len() - latest(items, n).len()) + latest(items, n) =~= items);
}

/// Each lane has its own packets, and setting those of one leaves the other as it was.
pub proof fn law_lanes_are_separate<P>(w: ByLane<P>, packets: Seq<P>)
    ensures
        w.on(Lane::Human) == w.human,
        w.on(Lane::Bot) == w.bot,
        w.with(Lane::Human, packets).human == packets,
        w.with(Lane::Human, packets).bot == w.bot,
        w.with(Lane::Bot, packets).human == w.human,
        w.with(Lane::Bot, packets).bot == packets,
        ByLane::<P>::none().human.len() == 0,
        ByLane::<P>::none().bot.len() == 0,
{
}

/// Whenever a human packet waits, the humans are served, however many bots wait and whether or
/// not these are held back. Bots are served exactly where no human packet waits, one of theirs
/// does, and they are not held back. What waits further back makes no difference.
pub proof fn law_humans_first<P>(w: ByLane<P>, hold_bots: bool, human: P, bot: P)
    ensures
        w.human.len() > 0 ==> w.served(hold_bots) == Some(Lane::Human),
        w.served(hold_bots) == Some(Lane::Bot) <==> w.human.len() == 0 && w.bot.len() > 0
            && !hold_bots,
        w.served(hold_bots) is None <==> w.human.len() == 0 && (w.bot.len() == 0 || hold_bots),
        w.human.len() > 0 ==> (ByLane { human: w.human.push(human), bot: w.bot.push(bot) }).served(
            hold_bots,
        ) == w.served(hold_bots),
{
}

/// A packet goes to the end of its lane. Where the lane is full, its oldest packet leaves, and no
/// other. Taking a packet takes the oldest of a lane. The other lane stays as it was.
pub proof fn law_queuing_and_taking<P>(w: ByLane<P>, lane: Lane, packet: P, bound: nat)
    requires
        0 < bound,
        w.on(lane).len() <= bound,
    ensures
        ({
            let mine = if lane is Human {
                w.human
            } else {
                w.bot
            };
            let after = w.enqueued(lane, packet, bound);
            let queued = if lane is Human {
                after.human
            } else {
                after.bot
            };
            let taken = if lane is Human {
                w.taken(lane).human
            } else {
                w.taken(lane).bot
            };
            &&& mine.len() < bound ==> queued == mine.push(packet)
            &&& mine.len() == bound ==> queued == mine.push(packet).drop_first()
            &&& mine.len() > 0 ==> seq![mine[0]] + taken == mine
            &&& lane is Human ==> after.bot == w.bot && w.taken(lane).bot == w.bot
            &&& lane is Bot ==> after.human == w.human && w.taken(lane).human == w.human
        }),
{
    let mine = w.on(lane);
    assert(latest(mine.push(packet), bound) =~= if mine.len() < bound {
        mine.push(packet)
    } else {
        mine.push(packet).drop_first()
    });
    if mine.len() > 0 {
        assert(seq![mine[0]] + mine.skip(1) =~= mine);
    }
}

/// What waits on the lanes is what their queues hold, and lanes of the same shape agree in the
/// room on each and in whether the stream has ended.
pub proof fn law_lanes_hold_their_queues<T>(lanes: Lanes<T>, before: Lanes<T>)
    ensures
        lanes.waiting().human == lanes.human@,
        lanes.waiting().bot == lanes.bot@,
        lanes.bound(Lane::Human) == lanes.human.bound(),
        lanes.bound(Lane::Bot) == lanes.bot.bound(),
        lanes.wf() <==> {
            &&& 0 < lanes.human.bound()
            &&& 0 < lanes.bot.bound()
            &&& lanes.human@.len() <= lanes.human.bound()
            &&& lanes.bot@.len() <= lanes.bot.bound()
        },
        lanes.same_shape(&before) ==> {
            &&& lanes.closed == before.closed
            &&& lanes.human.bound() == before.human.bound()
            &&& lanes.bot.bound() == before.bot.bound()
        },
{
}

} // verus!
