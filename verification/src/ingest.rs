//! The way from the lines of the stream to the packets that wait on the lanes.

use crate::duration::{ascending, Clock, Duration};
use crate::edit::{
    event_payload, lane_of, law_framing, payload, route, trim, trimmed, Lane, WikipediaEdit,
};
use crate::queue::{latest, ByLane, Lanes};
use vstd::prelude::*;

verus! {

/// A packet: the data of an event, and when it was queued.
#[derive(Debug, PartialEq, Eq)]
pub struct Packet {
    pub data: String,
    pub enqueue_time: Duration,
}

impl View for Packet {
    type V = (Seq<char>, nat);

    open spec fn view(&self) -> (Seq<char>, nat) {
        (self.data@, self.enqueue_time@)
    }
}

/// What some packets hold.
pub open spec fn packet_views(packets: Seq<Packet>) -> Seq<(Seq<char>, nat)> {
    Seq::new(packets.len(), |i: int| packets[i]@)
}

/// What the packets of both lanes hold.
pub open spec fn lane_views(packets: ByLane<Packet>) -> ByLane<(Seq<char>, nat)> {
    ByLane { human: packet_views(packets.human), bot: packet_views(packets.bot) }
}

/// The data that a line of the stream hands to the lanes, with or without the white space around
/// it. Other lines than data lines hand over nothing.
pub open spec fn line_data(line: Seq<char>, trims: bool) -> Option<Seq<char>> {
    match payload(line) {
        Some(data) => Some(
            if trims {
                trimmed(data)
            } else {
                data
            },
        ),
        None => None,
    }
}

/// Takes the data out of a line of the stream, and the white space off it where `trims` says so.
pub fn read_line<'a>(line: &'a str, trims: bool) -> (data: Option<&'a str>)
    ensures
        data is Some <==> line_data(line@, trims) is Some,
        data is Some ==> (data->0)@ == line_data(line@, trims)->0,
{
    match event_payload(line) {
        Some(data) => Some(
            if trims {
                trim(data)
            } else {
                data
            },
        ),
        None => None,
    }
}

/// Queues an event on its lane, given its data, the edit that the data describe, where they
/// describe one, and the time. Gives the lane, and the packet that had to make room, where one
/// had to.
pub fn ingest(
    lanes: &mut Lanes<Packet>,
    data: &str,
    edit: Option<WikipediaEdit<'_>>,
    enqueue_time: Duration,
) -> (outcome: (Lane, Option<Packet>))
    requires
        old(lanes).wf(),
    ensures
        final(lanes).wf(),
        final(lanes).same_shape(old(lanes)),
        outcome.0 == lane_of(edit),
        lane_views(final(lanes).waiting()) == lane_views(old(lanes).waiting()).enqueued(
            lane_of(edit),
            (data@, enqueue_time@),
            old(lanes).bound(lane_of(edit)),
        ),
        outcome.1 is Some <==> old(lanes).waiting().on(lane_of(edit)).len() == old(lanes).bound(
            lane_of(edit),
        ),
        outcome.1 is Some ==> outcome.1->0 == old(lanes).waiting().on(lane_of(edit))[0],
{
    let lane = route(edit);
    let packet = Packet { data: data.to_owned(), enqueue_time };
    proof {
        law_views_of_waiting(lanes.waiting(), lane, packet, lanes.bound(lane));
    }
    let dropped = lanes.enqueue(lane, packet);
    (lane, dropped)
}

/// Whether `parse` may give `edit` as the edit that some data describe.
pub open spec fn parsed<P: for<'b> Fn(&'b str) -> Option<WikipediaEdit<'b>>>(
    parse: P,
    data: Seq<char>,
    edit: Option<WikipediaEdit<'_>>,
) -> bool {
    exists|s: &str| s@ == data && #[trigger] call_ensures(parse, (s,), edit)
}

/// Takes a line of the stream: where it carries data, reads the clock, parses the data, and queues
/// the event on its lane. Gives the lane, and the packet that had to make room, where one had to.
/// Gives nothing for other lines, and leaves everything as it was.
pub fn ingest_line<P: for<'b> Fn(&'b str) -> Option<WikipediaEdit<'b>>>(
    lanes: &mut Lanes<Packet>,
    clock: &mut Clock,
    line: &str,
    trims: bool,
    parse: P,
) -> (outcome: Option<(Lane, Option<Packet>)>)
    requires
        old(lanes).wf(),
        forall|s: &str| #[trigger] call_requires(parse, (s,)),
    ensures
        final(lanes).wf(),
        final(lanes).same_shape(old(lanes)),
        final(clock).started() == old(clock).started(),
        match line_data(line@, trims) {
            None => {
                &&& outcome is None
                &&& final(lanes).waiting() == old(lanes).waiting()
                &&& final(clock).readings() == old(clock).readings()
            },
            Some(data) => {
                let time = final(clock).readings().last();
                let before = old(lanes).waiting();
                &&& outcome matches Some((lane, dropped))
                &&& final(clock).readings() == old(clock).readings().push(time)
                &&& ascending(final(clock).readings())
                &&& exists|edit: Option<WikipediaEdit<'_>>| #[trigger]
                    parsed(parse, data, edit) && lane == lane_of(edit)
                &&& lane_views(final(lanes).waiting()) == lane_views(before).enqueued(
                    lane,
                    (data, time),
                    old(lanes).bound(lane),
                )
                &&& dropped is Some <==> before.on(lane).len() == old(lanes).bound(lane)
                &&& dropped is Some ==> dropped->0 == before.on(lane)[0]
            },
        },
{
    match read_line(line, trims) {
        Some(data) => {
            let enqueue_time = clock.now();
            let edit = parse(data);
            assert(parsed(parse, data@, edit));
            Some(ingest(lanes, data, edit, enqueue_time))
        },
        None => None,
    }
}

/// Queuing and taking packets does to what they hold what it does to the packets: which lane is
/// served, what its oldest packet holds, and what then waits can be read off what the waiting
/// packets hold.
pub proof fn law_views_of_waiting(w: ByLane<Packet>, lane: Lane, packet: Packet, bound: nat)
    ensures
        lane_views(w.enqueued(lane, packet, bound)) == lane_views(w).enqueued(
            lane,
            packet@,
            bound,
        ),
        lane_views(w).served(true) == w.served(true),
        lane_views(w).served(false) == w.served(false),
        w.on(lane).len() > 0 ==> {
            &&& lane_views(w).on(lane)[0] == w.on(lane)[0]@
            &&& lane_views(w.taken(lane)) == lane_views(w).taken(lane)
        },
{
    let s = w.on(lane);
    assert(packet_views(s.push(packet)) =~= packet_views(s).push(packet@));
    assert(packet_views(latest(s.push(packet), bound)) =~= latest(
        packet_views(s.push(packet)),
        bound,
    ));
    if s.len() > 0 {
        assert(packet_views(s.skip(1)) =~= packet_views(s).skip(1));
    }
}

/// What can happen to the lanes: a line of the stream arrives at some time, or the consumer asks
/// for a packet, with or without the bots held back.
pub enum Event {
    Line { line: Seq<char>, time: nat },
    Serve { hold_bots: bool },
}

/// How a stream is read: whether data lines are trimmed, the edit that some data describe, and
/// the room on each lane.
pub struct Reading {
    pub trims: bool,
    pub edit: spec_fn(Seq<char>) -> Option<WikipediaEdit<'static>>,
    pub bound: nat,
}

/// What has become of the packets: those that wait, those that the consumer got, and those that
/// had to make room.
#[verifier::ext_equal]
pub struct Traffic {
    pub waiting: ByLane<(Seq<char>, nat)>,
    pub handed_over: ByLane<(Seq<char>, nat)>,
    pub lost: ByLane<(Seq<char>, nat)>,
}

impl Traffic {
    /// Before anything happens.
    pub open spec fn none() -> Traffic {
        Traffic { waiting: ByLane::none(), handed_over: ByLane::none(), lost: ByLane::none() }
    }

    /// After a packet was queued on a lane.
    pub open spec fn queued(self, lane: Lane, packet: (Seq<char>, nat), bound: nat) -> Traffic {
        let held = self.waiting.on(lane);
        Traffic {
            waiting: self.waiting.enqueued(lane, packet, bound),
            lost: if held.len() == bound {
                self.lost.with(lane, self.lost.on(lane).push(held[0]))
            } else {
                self.lost
            },
            ..self
        }
    }

    /// After the consumer asked for a packet.
    pub open spec fn served(self, hold_bots: bool) -> Traffic {
        match self.waiting.served(hold_bots) {
            Some(lane) => Traffic {
                waiting: self.waiting.taken(lane),
                handed_over: self.handed_over.with(
                    lane,
                    self.handed_over.on(lane).push(self.waiting.on(lane)[0]),
                ),
                ..self
            },
            None => self,
        }
    }
}

/// The packet that an event brings to a lane, where it brings one.
pub open spec fn brought(event: Event, lane: Lane, how: Reading) -> Option<(Seq<char>, nat)> {
    match event {
        Event::Line { line, time } => match line_data(line, how.trims) {
            Some(data) if lane_of((how.edit)(data)) == lane => Some((data, time)),
            _ => None,
        },
        Event::Serve { .. } => None,
    }
}

/// The packets that some events bring to a lane, in the order of the events.
pub open spec fn carried(events: Seq<Event>, lane: Lane, how: Reading) -> Seq<(Seq<char>, nat)>
    decreases events.len(),
{
    if events.len() == 0 {
        Seq::empty()
    } else {
        let before = carried(events.drop_last(), lane, how);
        match brought(events.last(), lane, how) {
            Some(packet) => before.push(packet),
            None => before,
        }
    }
}

/// What has become of the packets after some events on lanes that were empty.
pub open spec fn traffic(events: Seq<Event>, how: Reading) -> Traffic
    decreases events.len(),
{
    if events.len() == 0 {
        Traffic::none()
    } else {
        let before = traffic(events.drop_last(), how);
        match events.last() {
            Event::Line { line, time } => match line_data(line, how.trims) {
                Some(data) => before.queued(lane_of((how.edit)(data)), (data, time), how.bound),
                None => before,
            },
            Event::Serve { hold_bots } => before.served(hold_bots),
        }
    }
}

/// The times at which the data lines among some events arrive, in the order of the events.
pub open spec fn arrivals(events: Seq<Event>, trims: bool) -> Seq<nat>
    decreases events.len(),
{
    if events.len() == 0 {
        Seq::empty()
    } else {
        let before = arrivals(events.drop_last(), trims);
        match events.last() {
            Event::Line { line, time } if line_data(line, trims) is Some => before.push(time),
            _ => before,
        }
    }
}

/// One more event moves the packets as the functions that take a line and serve the consumer do:
/// a data line is queued on its lane and stamped with the time, a line without data changes
/// nothing, and a request of the consumer takes the oldest packet of the lane to be served.
pub proof fn law_traffic_steps(
    events: Seq<Event>,
    how: Reading,
    line: Seq<char>,
    time: nat,
    hold_bots: bool,
)
    ensures
        ({
            let now = traffic(events, how).waiting;
            let then = events.push(Event::Line { line, time });
            match line_data(line, how.trims) {
                Some(data) => {
                    &&& traffic(then, how).waiting == now.enqueued(
                        lane_of((how.edit)(data)),
                        (data, time),
                        how.bound,
                    )
                    &&& arrivals(then, how.trims) == arrivals(events, how.trims).push(time)
                },
                None => {
                    &&& traffic(then, how).waiting == now
                    &&& arrivals(then, how.trims) == arrivals(events, how.trims)
                },
            }
        }),
        ({
            let now = traffic(events, how).waiting;
            let then = events.push(Event::Serve { hold_bots });
            &&& traffic(then, how).waiting == (match now.served(hold_bots) {
                Some(lane) => now.taken(lane),
                None => now,
            })
            &&& arrivals(then, how.trims) == arrivals(events, how.trims)
        }),
{
    assert(events.push(Event::Line { line, time }).drop_last() =~= events);
    assert(events.push(Event::Serve { hold_bots }).drop_last() =~= events);
}

/// Whatever happens, a lane holds the latest packets that the stream brought to it, in the order
/// of the stream. As long as no packet had to make room there, the packets that the consumer got
/// from it and those that still wait are together exactly those that the stream brought to it:
/// none is missing, none comes twice, and none overtakes another.
pub proof fn law_stream_order(events: Seq<Event>, lane: Lane, how: Reading)
    requires
        how.bound > 0,
    ensures
        traffic(events, how).waiting.on(lane).is_suffix_of(carried(events, lane, how)),
        traffic(events, how).waiting.on(lane).len() <= how.bound,
        traffic(events, how).lost.on(lane).len() == 0 ==> traffic(events, how).handed_over.on(lane)
            + traffic(events, how).waiting.on(lane) == carried(events, lane, how),
    decreases events.len(),
{
    let now = traffic(events, how);
    let all = carried(events, lane, how);
    if events.len() == 0 {
        assert(now.handed_over.on(lane) + now.waiting.on(lane) =~= all);
    } else {
        law_stream_order(events.drop_last(), lane, how);
        let before = traffic(events.drop_last(), how);
        let earlier = carried(events.drop_last(), lane, how);
        let held = before.waiting.on(lane);
        assert(held =~= earlier.subrange(earlier.len() - held.len(), earlier.len() as int));
        assert(now.waiting.on(lane) =~= all.subrange(
            all.len() - now.waiting.on(lane).len(),
            all.len() as int,
        ));
        if now.lost.on(lane).len() == 0 {
            assert(now.handed_over.on(lane) + now.waiting.on(lane) =~= all);
        }
    }
}

/// Every packet that the stream brought to a lane waits, was handed over to the consumer, or had
/// to make room, and just one of these.
pub proof fn law_packets_accounted_for(events: Seq<Event>, lane: Lane, how: Reading)
    requires
        how.bound > 0,
    ensures
        ({
            let now = traffic(events, how);
            now.waiting.on(lane).to_multiset().add(now.handed_over.on(lane).to_multiset()).add(
                now.lost.on(lane).to_multiset(),
            ) == carried(events, lane, how).to_multiset()
        }),
    decreases events.len(),
{
    let now = traffic(events, how);
    let all = carried(events, lane, how);
    broadcast use vstd::seq_lib::group_to_multiset_ensures;

    if events.len() == 0 {
        assert(now.waiting.on(lane).to_multiset().add(now.handed_over.on(lane).to_multiset()).add(
            now.lost.on(lane).to_multiset(),
        ) =~= all.to_multiset());
    } else {
        law_packets_accounted_for(events.drop_last(), lane, how);
        law_stream_order(events.drop_last(), lane, how);
        let before = traffic(events.drop_last(), how);
        let held = before.waiting.on(lane);
        match brought(events.last(), lane, how) {
            Some(packet) => {
                assert(held.len() == how.bound ==> now.waiting.on(lane) =~= held.push(
                    packet,
                ).remove(0));
                assert(held.len() < how.bound ==> now.waiting.on(lane) =~= held.push(packet));
            },
            None => {
                assert(held.len() > 0 ==> held.skip(1) =~= held.remove(0));
            },
        }
        assert(now.waiting.on(lane).to_multiset().add(now.handed_over.on(lane).to_multiset()).add(
            now.lost.on(lane).to_multiset(),
        ) =~= all.to_multiset());
    }
}

/// Where the data lines of a stream are stamped one after the other, the times of the packets of a
/// lane never go back.
pub proof fn law_times_ascend(events: Seq<Event>, lane: Lane, how: Reading)
    requires
        ascending(arrivals(events, how.trims)),
    ensures
        forall|i: int, j: int|
            0 <= i < j < carried(events, lane, how).len() ==> (#[trigger] carried(
                events,
                lane,
                how,
            )[i]).1 <= (#[trigger] carried(events, lane, how)[j]).1,
    decreases events.len(),
{
    if events.len() > 0 {
        let front = events.drop_last();
        let before = arrivals(front, how.trims);
        let all = arrivals(events, how.trims);
        assert(ascending(before)) by {
            assert forall|i: int, j: int| 0 <= i < j < before.len() implies #[trigger] before[i]
                <= #[trigger] before[j] by {
                assert(all[i] == before[i] && all[j] == before[j]);
            }
        }
        law_times_ascend(front, lane, how);
        assert forall|i: int|
            0 <= i < carried(front, lane, how).len() && brought(events.last(), lane, how) is Some
            implies (#[trigger] carried(front, lane, how)[i]).1 <= events.last()->time by {
            lemma_carried_has_arrived(front, lane, how, i);
            let k = choose|k: int|
                0 <= k < before.len() && #[trigger] before[k] == carried(front, lane, how)[i].1;
            assert(all[k] == before[k]);
            assert(all[all.len() - 1] == events.last()->time);
        }
    }
}

/// Where the data lines of a stream are stamped with readings of one clock, each with the reading
/// that follows the last, the times of the packets of a lane never go back. The clock may have
/// been read `earlier` times before the first of them.
pub proof fn law_clocked_times_ascend(
    events: Seq<Event>,
    lane: Lane,
    how: Reading,
    readings: Seq<nat>,
    earlier: nat,
)
    requires
        ascending(readings),
        earlier <= readings.len(),
        arrivals(events, how.trims) == readings.skip(earlier as int),
    ensures
        forall|i: int, j: int|
            0 <= i < j < carried(events, lane, how).len() ==> (#[trigger] carried(
                events,
                lane,
                how,
            )[i]).1 <= (#[trigger] carried(events, lane, how)[j]).1,
{
    let stamps = arrivals(events, how.trims);
    assert forall|i: int, j: int| 0 <= i < j < stamps.len() implies #[trigger] stamps[i]
        <= #[trigger] stamps[j] by {
        assert(readings[earlier + i] <= readings[earlier + j]);
    }
    law_times_ascend(events, lane, how);
}

proof fn lemma_carried_has_arrived(events: Seq<Event>, lane: Lane, how: Reading, i: int)
    requires
        0 <= i < carried(events, lane, how).len(),
    ensures
        exists|k: int|
            0 <= k < arrivals(events, how.trims).len() && #[trigger] arrivals(
                events,
                how.trims,
            )[k] == carried(events, lane, how)[i].1,
    decreases events.len(),
{
    let front = events.drop_last();
    let before = carried(front, lane, how);
    let all = arrivals(events, how.trims);
    if i < before.len() {
        lemma_carried_has_arrived(front, lane, how, i);
        let k = choose|k: int|
            0 <= k < arrivals(front, how.trims).len() && #[trigger] arrivals(front, how.trims)[k]
                == before[i].1;
        assert(all[k] == carried(events, lane, how)[i].1);
    } else {
        assert(all[all.len() - 1] == carried(events, lane, how)[i].1);
    }
}

/// A stream that is taken up again after an interruption goes on where it ended: what two
/// connections bring to a lane is what the first brings, and then what the second brings.
pub proof fn law_connections_join(first: Seq<Event>, second: Seq<Event>, lane: Lane, how: Reading)
    ensures
        carried(first + second, lane, how) == carried(first, lane, how) + carried(
            second,
            lane,
            how,
        ),
    decreases second.len(),
{
    if second.len() == 0 {
        assert(first + second =~= first);
        assert(carried(first, lane, how) + carried(second, lane, how) =~= carried(
            first,
            lane,
            how,
        ));
    } else {
        law_connections_join(first, second.drop_last(), lane, how);
        assert((first + second).drop_last() =~= first + second.drop_last());
        assert(carried(first + second, lane, how) =~= carried(first, lane, how) + carried(
            second,
            lane,
            how,
        ));
    }
}

/// A line carries what follows its field name `data`, a colon and a blank, and the same without
/// the white space around it where that is taken off. A line with another beginning carries
/// nothing.
pub proof fn law_line_data(line: Seq<char>, data: Seq<char>)
    ensures
        line_data("data: "@ + data, false) == Some(data),
        line_data("data: "@ + data, true) == Some(trimmed(data)),
        !("data: "@.is_prefix_of(line)) ==> line_data(line, false) is None && line_data(
            line,
            true,
        ) is None,
{
    law_framing(line, data);
}

/// What the packets of a lane hold is the data and the time of each, in the order of the packets,
/// and each lane's is its own.
pub proof fn law_packet_views(packets: ByLane<Packet>)
    ensures
        lane_views(packets).human.len() == packets.human.len(),
        lane_views(packets).bot.len() == packets.bot.len(),
        forall|i: int|
            0 <= i < packets.human.len() ==> #[trigger] lane_views(packets).human[i] == (
                packets.human[i].data@,
                packets.human[i].enqueue_time@,
            ),
        forall|i: int|
            0 <= i < packets.bot.len() ==> #[trigger] lane_views(packets).bot[i] == (
                packets.bot[i].data@,
                packets.bot[i].enqueue_time@,
            ),
{
}

/// What some data parse to is something that the parser gives for a text of just these data.
pub proof fn law_parsed<P: for<'b> Fn(&'b str) -> Option<WikipediaEdit<'b>>>(
    parse: P,
    data: Seq<char>,
    edit: Option<WikipediaEdit<'_>>,
)
    requires
        parsed(parse, data, edit),
    ensures
        exists|s: &str| s@ == data && #[trigger] call_ensures(parse, (s,), edit),
{
}

/// A data line brings its data, with the time of its arrival, to the lane of the edit that they
/// describe, and to no other. Other lines and requests of the consumer bring nothing to a lane.
pub proof fn law_carried_steps(
    events: Seq<Event>,
    data: Seq<char>,
    line: Seq<char>,
    time: nat,
    hold_bots: bool,
    lane: Lane,
    how: Reading,
)
    requires
        !how.trims,
        !("data: "@.is_prefix_of(line)),
    ensures
        carried(Seq::empty(), lane, how).len() == 0,
        ({
            let bot = (how.edit)(data) is Some && ((how.edit)(data)->0).bot;
            let then = events.push(Event::Line { line: "data: "@ + data, time });
            carried(then, lane, how) == if bot == (lane is Bot) {
                carried(events, lane, how).push((data, time))
            } else {
                carried(events, lane, how)
            }
        }),
        carried(events.push(Event::Line { line, time }), lane, how) == carried(events, lane, how),
        carried(events.push(Event::Serve { hold_bots }), lane, how) == carried(events, lane, how),
{
    law_line_data(line, data);
    assert(events.push(Event::Line { line: "data: "@ + data, time }).drop_last() =~= events);
    assert(events.push(Event::Line { line, time }).drop_last() =~= events);
    assert(events.push(Event::Serve { hold_bots }).drop_last() =~= events);
}

} // verus!
