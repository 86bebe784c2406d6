//! What a whole run of a worker amounts to.
//!
//! A run is the sequence of events that a driver reports to one worker. The
//! laws here say which files such a run asks for: one per record that the
//! capture yields, in the order of the records, numbered from 1, each with the
//! record's bytes and nothing else.

use crate::naming::{base_name_of, lemma_file_name_injective, lemma_path_in_injective, file_name_of};
use crate::splitter::{
    output_directory_name, packet_path, sequence_limit, transition, Action, ActionView, Event,
    EventView, SplitError, Splitter, SplitterState, SplitterView,
};
use vstd::prelude::*;

verus! {

/// A record as the capture yields it, with the time at which it arrived.
pub ghost struct Arrival {
    pub now_millis: nat,
    pub payload: Seq<u8>,
}

/// A file that a worker asked to be written.
pub ghost struct OutputFile {
    pub path: Seq<char>,
    pub content: Seq<u8>,
}

/// The state that `events` lead to from `s`, and the actions asked for on the
/// way. An event that the worker does not await changes nothing.
pub open spec fn replay(s: SplitterView, events: Seq<EventView>) -> (SplitterView, Seq<ActionView>)
    decreases events.len(),
{
    if events.len() == 0 {
        (s, Seq::empty())
    } else {
        let (before, actions) = replay(s, events.drop_last());
        match transition(before, events.last()) {
            Some((after, action)) => (after, actions.push(action)),
            None => (before, actions),
        }
    }
}

/// The files that `actions` ask for, in the order in which they are asked for.
pub open spec fn files_of(actions: Seq<ActionView>) -> Seq<OutputFile>
    decreases actions.len(),
{
    if actions.len() == 0 {
        Seq::empty()
    } else {
        let earlier = files_of(actions.drop_last());
        match actions.last() {
            ActionView::WritePacket { path, payload } => earlier.push(
                OutputFile { path, content: payload },
            ),
            _ => earlier,
        }
    }
}

/// The events by which `arrivals` are reported, one `Packet` each.
pub open spec fn packet_events(arrivals: Seq<Arrival>) -> Seq<EventView> {
    Seq::new(
        arrivals.len(),
        |i: int|
            EventView::Packet { now_millis: arrivals[i].now_millis, payload: arrivals[i].payload },
    )
}

/// The files that a worker for `capture_path` owes for `arrivals`, where
/// `already` records came before them.
pub open spec fn files_for(capture_path: Seq<char>, already: nat, arrivals: Seq<Arrival>) -> Seq<
    OutputFile,
> {
    Seq::new(
        arrivals.len(),
        |i: int|
            OutputFile {
                path: packet_path(capture_path, arrivals[i].now_millis, (already + i + 1) as nat),
                content: arrivals[i].payload,
            },
    )
}

/// The events of a run without failure on a regular file: start, probe,
/// open, the filter where there is one, every record, the end.
pub open spec fn clean_run(filter: Seq<char>, arrivals: Seq<Arrival>) -> Seq<EventView> {
    let opening = seq![
        EventView::Started,
        EventView::PathProbed { is_regular_file: true },
        EventView::Opened,
    ];
    let filtering = if filter.len() > 0 {
        seq![EventView::FilterAttached]
    } else {
        Seq::empty()
    };
    opening + filtering + packet_events(arrivals) + seq![EventView::EndOfStream]
}

/// Replaying two runs one after the other is replaying them joined.
pub proof fn lemma_replay_joined(s: SplitterView, first: Seq<EventView>, second: Seq<EventView>)
    ensures
        replay(s, first + second) == ({
            let (middle, early) = replay(s, first);
            let (end, late) = replay(middle, second);
            (end, early + late)
        }),
    decreases second.len(),
{
    let (middle, early) = replay(s, first);
    if second.len() == 0 {
        assert(first + second =~= first);
        assert(early + Seq::<ActionView>::empty() =~= early);
    } else {
        lemma_replay_joined(s, first, second.drop_last());
        assert((first + second).drop_last() =~= first + second.drop_last());
        assert((first + second).last() == second.last());
        let (before, late) = replay(middle, second.drop_last());
        match transition(before, second.last()) {
            Some((after, action)) => {
                assert((early + late).push(action) =~= early + late.push(action));
            },
            None => {},
        }
    }
}

/// The files of two runs of actions, joined.
pub proof fn lemma_files_joined(first: Seq<ActionView>, second: Seq<ActionView>)
    ensures
        files_of(first + second) == files_of(first) + files_of(second),
    decreases second.len(),
{
    if second.len() == 0 {
        assert(first + second =~= first);
        assert(files_of(first) + files_of(second) =~= files_of(first));
    } else {
        lemma_files_joined(first, second.drop_last());
        assert((first + second).drop_last() =~= first + second.drop_last());
        assert((first + second).last() == second.last());
        assert(files_of(first + second) =~= files_of(first) + files_of(second));
    }
}

/// A finished worker stays as it is and asks for nothing, whatever is reported.
pub proof fn lemma_finished_is_final(s: SplitterView, events: Seq<EventView>)
    requires
        s.finished(),
    ensures
        replay(s, events) == (s, Seq::<ActionView>::empty()),
    decreases events.len(),
{
    if events.len() > 0 {
        lemma_finished_is_final(s, events.drop_last());
    }
}

/// While streaming, every record that arrives is given the next sequence
/// number and a file of its own that holds its bytes; nothing else is asked for.
pub proof fn lemma_streaming(s: SplitterView, arrivals: Seq<Arrival>)
    requires
        s.state == SplitterState::Streaming,
        s.sequence + arrivals.len() <= sequence_limit(),
    ensures
        replay(s, packet_events(arrivals)).0 == (SplitterView {
            sequence: s.sequence + arrivals.len(),
            ..s
        }),
        files_of(replay(s, packet_events(arrivals)).1) == files_for(s.path, s.sequence, arrivals),
        replay(s, packet_events(arrivals)).1.len() == arrivals.len(),
    decreases arrivals.len(),
{
    let events = packet_events(arrivals);
    if arrivals.len() > 0 {
        let front = arrivals.drop_last();
        lemma_streaming(s, front);
        assert(events.drop_last() =~= packet_events(front));
        let (before, actions) = replay(s, packet_events(front));
        let last = arrivals.last();
        assert(events.last() == EventView::Packet {
            now_millis: last.now_millis,
            payload: last.payload,
        });
        let action = ActionView::WritePacket {
            path: packet_path(s.path, last.now_millis, before.sequence + 1),
            payload: last.payload,
        };
        assert(transition(before, events.last()) == Some(
            (SplitterView { sequence: before.sequence + 1, ..before }, action),
        ));
        assert(replay(s, events).1 == actions.push(action));
        assert(actions.push(action).drop_last() =~= actions);
        assert(files_of(actions.push(action)) =~= files_for(s.path, s.sequence, arrivals));
    } else {
        assert(files_of(replay(s, events).1) =~= files_for(s.path, s.sequence, arrivals));
    }
}

/// The events of a list, as mathematical values.
pub open spec fn events_of(events: Seq<Event>) -> Seq<EventView> {
    Seq::new(events.len(), |i: int| events[i]@)
}

/// The actions of a list, as mathematical values.
pub open spec fn actions_of(actions: Seq<Action>) -> Seq<ActionView> {
    Seq::new(actions.len(), |i: int| actions[i]@)
}

/// Reports `events` to `worker` one after the other, and returns what it
/// asked for on the way: the run that the laws of this module speak of.
pub fn report_all(worker: &mut Splitter, events: Vec<Event>) -> (actions: Vec<Action>)
    ensures
        final(worker)@ == replay(old(worker)@, events_of(events@)).0,
        actions_of(actions@) == replay(old(worker)@, events_of(events@)).1,
{
    let ghost start = worker@;
    let ghost all = events_of(events@);
    let mut actions: Vec<Action> = Vec::new();
    for event in it: events.into_iter()
        invariant
            it.seq() == events@,
            all == events_of(events@),
            worker@ == replay(start, all.take(it.index())).0,
            actions_of(actions@) == replay(start, all.take(it.index())).1,
    {
        proof {
            let k = it.index();
            lemma_replay_one_more(start, all.take(k), event@);
            assert(all.take(k).push(event@) =~= all.take(k + 1));
        }
        let ghost before = actions@;
        match worker.on_event(event) {
            Some(action) => {
                actions.push(action);
                assert(actions_of(actions@) =~= actions_of(before).push(action@));
            },
            None => {},
        }
    }
    proof {
        assert(all.take(all.len() as int) =~= all);
    }
    actions
}

/// Replaying one more event is one more step of the worker's rule.
pub proof fn lemma_replay_one_more(s: SplitterView, events: Seq<EventView>, event: EventView)
    ensures
        replay(s, events.push(event)) == ({
            let (before, actions) = replay(s, events);
            match transition(before, event) {
                Some((after, action)) => (after, actions.push(action)),
                None => (before, actions),
            }
        }),
{
    assert(events.push(event).drop_last() =~= events);
}

/// A run without failure on a regular file ends in `Done`, has counted every
/// record, and has asked for exactly the files owed for the records: as many
/// files as records, the file of record number `i` named after `i` and
/// holding that record's bytes unchanged.
pub proof fn lemma_clean_run(path: Seq<char>, filter: Seq<char>, arrivals: Seq<Arrival>)
    requires
        arrivals.len() <= sequence_limit(),
    ensures
        replay(SplitterView::initial(path, filter), clean_run(filter, arrivals)).0
            == (SplitterView {
            path,
            filter,
            state: SplitterState::Done,
            sequence: arrivals.len(),
        }),
        files_of(replay(SplitterView::initial(path, filter), clean_run(filter, arrivals)).1)
            == files_for(path, 0, arrivals),
{
    let idle = SplitterView::initial(path, filter);
    let none = Seq::<EventView>::empty();
    let started = EventView::Started;
    let probed = EventView::PathProbed { is_regular_file: true };
    let opened = EventView::Opened;
    let attached = EventView::FilterAttached;
    let prefix = if filter.len() > 0 {
        seq![started, probed, opened, attached]
    } else {
        seq![started, probed, opened]
    };
    let streaming = idle.moved_to(SplitterState::Streaming);
    // Up to the first record.
    lemma_replay_one_more(idle, none, started);
    lemma_replay_one_more(idle, none.push(started), probed);
    lemma_replay_one_more(idle, none.push(started).push(probed), opened);
    let three = none.push(started).push(probed).push(opened);
    assert(three =~= seq![started, probed, opened]);
    if filter.len() > 0 {
        lemma_replay_one_more(idle, three, attached);
        assert(three.push(attached) =~= prefix);
    }
    let (ready, asked) = replay(idle, prefix);
    assert(ready == streaming);
    assert(files_of(asked) =~= Seq::<OutputFile>::empty()) by {
        reveal_with_fuel(files_of, 5);
    }
    // The records.
    lemma_streaming(streaming, arrivals);
    lemma_replay_joined(idle, prefix, packet_events(arrivals));
    let (fed, written) = replay(streaming, packet_events(arrivals));
    lemma_files_joined(asked, written);
    assert(files_of(asked + written) =~= files_for(path, 0, arrivals));
    // The end.
    let body = prefix + packet_events(arrivals);
    lemma_replay_one_more(idle, body, EventView::EndOfStream);
    assert(body.push(EventView::EndOfStream) =~= clean_run(filter, arrivals));
    let all = (asked + written).push(ActionView::Stop);
    assert(all.drop_last() =~= asked + written);
}

/// The bytes of each file, in the order of the files.
pub open spec fn contents(files: Seq<OutputFile>) -> Seq<Seq<u8>> {
    Seq::new(files.len(), |i: int| files[i].content)
}

/// The bytes of each record, in the order of the records.
pub open spec fn payloads(arrivals: Seq<Arrival>) -> Seq<Seq<u8>> {
    Seq::new(arrivals.len(), |i: int| arrivals[i].payload)
}

/// Without a filter, a capture of K records gives exactly K files, and file
/// number `i` holds the bytes of record number `i`, byte for byte.
pub proof fn lemma_one_file_per_record(path: Seq<char>, arrivals: Seq<Arrival>)
    requires
        arrivals.len() <= sequence_limit(),
    ensures
        ({
            let run = clean_run(Seq::empty(), arrivals);
            let files = files_of(replay(SplitterView::initial(path, Seq::empty()), run).1);
            &&& files.len() == arrivals.len()
            &&& forall|i: int|
                0 <= i < arrivals.len() ==> (#[trigger] files[i]).content == arrivals[i].payload
            &&& forall|i: int|
                0 <= i < arrivals.len() ==> (#[trigger] files[i]).path == packet_path(
                    path,
                    arrivals[i].now_millis,
                    (i + 1) as nat,
                )
        }),
{
    lemma_clean_run(path, Seq::empty(), arrivals);
}

/// Read back in the order of their sequence numbers, the files of a run hold
/// what the capture yielded: the same payloads in the same order, and so the
/// same bytes when laid end to end.
pub proof fn lemma_round_trip(path: Seq<char>, filter: Seq<char>, arrivals: Seq<Arrival>)
    requires
        arrivals.len() <= sequence_limit(),
    ensures
        ({
            let run = clean_run(filter, arrivals);
            let files = files_of(replay(SplitterView::initial(path, filter), run).1);
            &&& contents(files) == payloads(arrivals)
            &&& contents(files).flatten() == payloads(arrivals).flatten()
        }),
{
    lemma_clean_run(path, filter, arrivals);
    let run = clean_run(filter, arrivals);
    let files = files_of(replay(SplitterView::initial(path, filter), run).1);
    assert(contents(files) =~= payloads(arrivals));
}

/// With a filter, the capture yields the records that the filter selects, in
/// their order in the capture; the files then are as many as the selected
/// records, no more than the capture holds, and hold them in that order.
pub proof fn lemma_filtered_run(
    path: Seq<char>,
    filter: Seq<char>,
    records: Seq<Seq<u8>>,
    selects: spec_fn(Seq<u8>) -> bool,
    arrivals: Seq<Arrival>,
)
    requires
        payloads(arrivals) == records.filter(selects),
        arrivals.len() <= sequence_limit(),
    ensures
        ({
            let run = clean_run(filter, arrivals);
            let files = files_of(replay(SplitterView::initial(path, filter), run).1);
            &&& files.len() == records.filter(selects).len()
            &&& files.len() <= records.len()
            &&& contents(files) == records.filter(selects)
            &&& forall|i: int| 0 <= i < files.len() ==> selects(#[trigger] contents(files)[i])
        }),
{
    lemma_round_trip(path, filter, arrivals);
    records.lemma_filter_len(selects);
    let kept = records.filter(selects);
    assert(payloads(arrivals).len() == arrivals.len());
    assert forall|i: int| 0 <= i < kept.len() implies selects(#[trigger] kept[i]) by {
        records.lemma_filter_pred(selects, i);
    }
}

/// Two output paths are the same only where the captures have the same base
/// name and the records the same sequence number and time of writing.
pub proof fn lemma_packet_path_injective(
    capture_a: Seq<char>,
    millis_a: nat,
    sequence_a: nat,
    capture_b: Seq<char>,
    millis_b: nat,
    sequence_b: nat,
)
    requires
        packet_path(capture_a, millis_a, sequence_a) == packet_path(
            capture_b,
            millis_b,
            sequence_b,
        ),
    ensures
        base_name_of(capture_a) == base_name_of(capture_b),
        millis_a == millis_b,
        sequence_a == sequence_b,
{
    lemma_path_in_injective(
        output_directory_name(),
        file_name_of(millis_a, base_name_of(capture_a), sequence_a),
        file_name_of(millis_b, base_name_of(capture_b), sequence_b),
    );
    lemma_file_name_injective(
        millis_a,
        base_name_of(capture_a),
        sequence_a,
        millis_b,
        base_name_of(capture_b),
        sequence_b,
    );
}

/// Whether `file_path` is where record number `sequence` of the capture at
/// `capture_path` is written, at some time.
pub open spec fn is_path_of(file_path: Seq<char>, capture_path: Seq<char>, sequence: nat) -> bool {
    exists|millis: nat| file_path == #[trigger] packet_path(capture_path, millis, sequence)
}

/// Whatever is reported to a worker, in whatever order: it keeps its capture
/// and its filter, its count never falls, it asks for one file per record
/// counted, and the files carry the sequence numbers that follow the count
/// it began with, one after the other.
pub proof fn lemma_sequence_numbers(s: SplitterView, events: Seq<EventView>)
    ensures
        ({
            let (end, actions) = replay(s, events);
            let files = files_of(actions);
            &&& end.path == s.path
            &&& end.filter == s.filter
            &&& end.sequence == s.sequence + files.len()
            &&& forall|i: int|
                0 <= i < files.len() ==> is_path_of(
                    (#[trigger] files[i]).path,
                    s.path,
                    (s.sequence + i + 1) as nat,
                )
        }),
    decreases events.len(),
{
    if events.len() > 0 {
        lemma_sequence_numbers(s, events.drop_last());
        let (before, asked) = replay(s, events.drop_last());
        let earlier = files_of(asked);
        match transition(before, events.last()) {
            Some((after, action)) => {
                assert(asked.push(action).drop_last() =~= asked);
                let files = files_of(asked.push(action));
                match action {
                    ActionView::WritePacket { path, payload } => {
                        let millis = events.last()->Packet_now_millis;
                        assert(path == packet_path(s.path, millis, before.sequence + 1));
                        assert forall|i: int| 0 <= i < files.len() implies is_path_of(
                            (#[trigger] files[i]).path,
                            s.path,
                            (s.sequence + i + 1) as nat,
                        ) by {
                            if i < earlier.len() {
                                assert(files[i] == earlier[i]);
                            } else {
                                assert(files[i].path == packet_path(
                                    s.path,
                                    millis,
                                    (s.sequence + i + 1) as nat,
                                ));
                            }
                        }
                    },
                    _ => {
                        assert(files == earlier);
                    },
                }
            },
            None => {},
        }
    }
}

/// No two files of one worker have the same path, whatever is reported to it.
pub proof fn lemma_paths_distinct(s: SplitterView, events: Seq<EventView>, i: int, j: int)
    requires
        0 <= i < j < files_of(replay(s, events).1).len(),
    ensures
        files_of(replay(s, events).1)[i].path != files_of(replay(s, events).1)[j].path,
{
    lemma_sequence_numbers(s, events);
    let files = files_of(replay(s, events).1);
    let a = (s.sequence + i + 1) as nat;
    let b = (s.sequence + j + 1) as nat;
    assert(is_path_of(files[i].path, s.path, a));
    assert(is_path_of(files[j].path, s.path, b));
    let first = choose|millis: nat| files[i].path == #[trigger] packet_path(s.path, millis, a);
    let second = choose|millis: nat| files[j].path == #[trigger] packet_path(s.path, millis, b);
    if files[i].path == files[j].path {
        lemma_packet_path_injective(s.path, first, a, s.path, second, b);
    }
}

/// Workers for captures with different base names never ask for the same
/// path, at whatever times they write and whatever is reported to them.
pub proof fn lemma_workers_do_not_collide(
    a: SplitterView,
    events_a: Seq<EventView>,
    b: SplitterView,
    events_b: Seq<EventView>,
    i: int,
    j: int,
)
    requires
        base_name_of(a.path) != base_name_of(b.path),
        0 <= i < files_of(replay(a, events_a).1).len(),
        0 <= j < files_of(replay(b, events_b).1).len(),
    ensures
        files_of(replay(a, events_a).1)[i].path != files_of(replay(b, events_b).1)[j].path,
{
    lemma_sequence_numbers(a, events_a);
    lemma_sequence_numbers(b, events_b);
    let files_a = files_of(replay(a, events_a).1);
    let files_b = files_of(replay(b, events_b).1);
    let n = (a.sequence + i + 1) as nat;
    let m = (b.sequence + j + 1) as nat;
    assert(is_path_of(files_a[i].path, a.path, n));
    assert(is_path_of(files_b[j].path, b.path, m));
    let first = choose|millis: nat| files_a[i].path == #[trigger] packet_path(a.path, millis, n);
    let second = choose|millis: nat| files_b[j].path == #[trigger] packet_path(b.path, millis, m);
    if files_a[i].path == files_b[j].path {
        lemma_packet_path_injective(a.path, first, n, b.path, second, m);
    }
}

/// Whether `action` pulls a record from the capture.
pub open spec fn pulls_a_record(action: ActionView) -> bool {
    action is ReadNext || action is WritePacket
}

/// Whether one of the first `before` of `actions` attaches `filter`.
pub open spec fn attached_before(actions: Seq<ActionView>, filter: Seq<char>, before: int) -> bool {
    exists|j: int|
        0 <= j < before && j < actions.len() && #[trigger] actions[j] == (ActionView::AttachFilter {
            expression: filter,
        })
}

proof fn lemma_attached_stays(
    actions: Seq<ActionView>,
    action: ActionView,
    filter: Seq<char>,
    before: int,
)
    requires
        attached_before(actions, filter, before),
    ensures
        attached_before(actions.push(action), filter, before),
{
    let attach = ActionView::AttachFilter { expression: filter };
    let j = choose|j: int| 0 <= j < before && j < actions.len() && #[trigger] actions[j] == attach;
    assert(actions.push(action)[j] == attach);
}

proof fn lemma_filter_order(path: Seq<char>, filter: Seq<char>, events: Seq<EventView>)
    requires
        filter.len() > 0,
    ensures
        ({
            let (end, actions) = replay(SplitterView::initial(path, filter), events);
            &&& end.filter == filter
            &&& end.state is Filtering || end.state is Streaming ==> attached_before(
                actions,
                filter,
                actions.len() as int,
            )
            &&& forall|i: int|
                0 <= i < actions.len() && pulls_a_record(#[trigger] actions[i]) ==> attached_before(
                    actions,
                    filter,
                    i,
                )
        }),
    decreases events.len(),
{
    let idle = SplitterView::initial(path, filter);
    if events.len() > 0 {
        lemma_filter_order(path, filter, events.drop_last());
        let (before, asked) = replay(idle, events.drop_last());
        match transition(before, events.last()) {
            Some((after, action)) => {
                let actions = asked.push(action);
                let count = asked.len() as int;
                assert forall|i: int|
                    0 <= i < actions.len() && pulls_a_record(
                        #[trigger] actions[i],
                    ) implies attached_before(actions, filter, i) by {
                    if i < count {
                        assert(actions[i] == asked[i]);
                        lemma_attached_stays(asked, action, filter, i);
                    } else {
                        lemma_attached_stays(asked, action, filter, count);
                    }
                }
                if after.state is Filtering || after.state is Streaming {
                    if action == (ActionView::AttachFilter { expression: filter }) {
                        assert(actions[count] == action);
                    } else {
                        lemma_attached_stays(asked, action, filter, count);
                    }
                }
            },
            None => {},
        }
    }
}

/// Where there is a filter, it is attached before any record is pulled:
/// whatever is reported, an action that pulls a record comes after the one
/// that attaches the filter.
pub proof fn lemma_filter_comes_first(
    path: Seq<char>,
    filter: Seq<char>,
    events: Seq<EventView>,
    i: int,
)
    requires
        filter.len() > 0,
        0 <= i < replay(SplitterView::initial(path, filter), events).1.len(),
        pulls_a_record(replay(SplitterView::initial(path, filter), events).1[i]),
    ensures
        attached_before(replay(SplitterView::initial(path, filter), events).1, filter, i),
{
    lemma_filter_order(path, filter, events);
}

/// A path that is no regular file, such as a directory, is passed over: the
/// worker is `Done` at once and asks for no file, whatever is reported after.
pub proof fn lemma_not_a_file_is_skipped(path: Seq<char>, filter: Seq<char>, rest: Seq<EventView>)
    ensures
        ({
            let probe = seq![EventView::Started, EventView::PathProbed { is_regular_file: false }];
            let (end, actions) = replay(SplitterView::initial(path, filter), probe + rest);
            &&& end.state == SplitterState::Done
            &&& end.sequence == 0
            &&& files_of(actions).len() == 0
        }),
{
    let idle = SplitterView::initial(path, filter);
    let none = Seq::<EventView>::empty();
    let started = EventView::Started;
    let probed = EventView::PathProbed { is_regular_file: false };
    lemma_replay_one_more(idle, none, started);
    lemma_replay_one_more(idle, none.push(started), probed);
    assert(none.push(started).push(probed) =~= seq![started, probed]);
    let (skipped, asked) = replay(idle, seq![started, probed]);
    lemma_finished_is_final(skipped, rest);
    lemma_replay_joined(idle, seq![started, probed], rest);
    lemma_sequence_numbers(idle, seq![started, probed] + rest);
}

/// A capture that cannot be opened costs its own worker, and nothing else:
/// the worker ends `Errored` and asks for no file, whatever is reported after.
pub proof fn lemma_unreadable_capture_writes_nothing(
    path: Seq<char>,
    filter: Seq<char>,
    rest: Seq<EventView>,
)
    ensures
        ({
            let opening = seq![
                EventView::Started,
                EventView::PathProbed { is_regular_file: true },
                EventView::OpenFailed,
            ];
            let (end, actions) = replay(SplitterView::initial(path, filter), opening + rest);
            &&& end.state == SplitterState::Errored(SplitError::OpenFailed)
            &&& end.sequence == 0
            &&& files_of(actions).len() == 0
        }),
{
    let idle = SplitterView::initial(path, filter);
    let none = Seq::<EventView>::empty();
    let started = EventView::Started;
    let probed = EventView::PathProbed { is_regular_file: true };
    let failed = EventView::OpenFailed;
    lemma_replay_one_more(idle, none, started);
    lemma_replay_one_more(idle, none.push(started), probed);
    lemma_replay_one_more(idle, none.push(started).push(probed), failed);
    let opening = seq![started, probed, failed];
    assert(none.push(started).push(probed).push(failed) =~= opening);
    let (given_up, asked) = replay(idle, opening);
    lemma_finished_is_final(given_up, rest);
    lemma_replay_joined(idle, opening, rest);
    lemma_sequence_numbers(idle, opening + rest);
}

} // verus!
