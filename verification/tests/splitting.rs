use pcap_splitter::run::report_all;
use pcap_splitter::splitter::{Action, Event, SplitError, Splitter, SplitterState};

fn worker(path: &str, filter: &str) -> Splitter {
    Splitter::new(String::from(path), String::from(filter))
}

fn packet(now_millis: u128, payload: &[u8]) -> Event {
    Event::Packet { now_millis, payload: payload.to_vec() }
}

/// The events that bring a worker without filter to its first record.
fn opening() -> Vec<Event> {
    vec![Event::Started, Event::PathProbed { is_regular_file: true }, Event::Opened]
}

/// Reports `events` one after the other and collects what is asked for.
fn drive(worker: &mut Splitter, events: Vec<Event>) -> Vec<Action> {
    report_all(worker, events)
}

/// The files among `actions`: path and content, in order.
fn files(actions: &[Action]) -> Vec<(String, Vec<u8>)> {
    let mut out = Vec::new();
    for action in actions {
        if let Action::WritePacket { path, payload } = action {
            out.push((path.clone(), payload.clone()));
        }
    }
    out
}

#[test]
fn new_worker_is_idle_and_has_counted_nothing() {
    let w = worker("dir/a.pcap", "tcp");
    assert_eq!(w.state(), SplitterState::Idle);
    assert_eq!(w.sequence(), 0);
    assert_eq!(w.path(), "dir/a.pcap");
    assert_eq!(w.filter(), "tcp");
    assert!(!w.is_finished());
}

#[test]
fn start_asks_for_a_probe_of_the_path() {
    let mut w = worker("dir/a.pcap", "");
    assert_eq!(
        w.on_event(Event::Started),
        Some(Action::ProbePath { path: String::from("dir/a.pcap") })
    );
    assert_eq!(w.state(), SplitterState::Idle);
}

#[test]
fn regular_file_is_opened() {
    let mut w = worker("dir/a.pcap", "");
    w.on_event(Event::Started);
    assert_eq!(
        w.on_event(Event::PathProbed { is_regular_file: true }),
        Some(Action::OpenCapture { path: String::from("dir/a.pcap") })
    );
    assert_eq!(w.state(), SplitterState::Opening);
}

#[test]
fn without_filter_streaming_begins_once_open() {
    let mut w = worker("a.pcap", "");
    drive(&mut w, vec![Event::Started, Event::PathProbed { is_regular_file: true }]);
    assert_eq!(w.on_event(Event::Opened), Some(Action::ReadNext));
    assert_eq!(w.state(), SplitterState::Streaming);
}

#[test]
fn with_filter_it_is_attached_before_any_record_is_pulled() {
    let mut w = worker("a.pcap", "udp port 53");
    drive(&mut w, vec![Event::Started, Event::PathProbed { is_regular_file: true }]);
    assert_eq!(
        w.on_event(Event::Opened),
        Some(Action::AttachFilter { expression: String::from("udp port 53") })
    );
    assert_eq!(w.state(), SplitterState::Filtering);
    assert_eq!(w.on_event(Event::FilterAttached), Some(Action::ReadNext));
    assert_eq!(w.state(), SplitterState::Streaming);
}

#[test]
fn three_packets_without_filter_give_three_files() {
    let mut w = worker("a.pcap", "");
    let actions = drive(
        &mut w,
        vec![
            Event::Started,
            Event::PathProbed { is_regular_file: true },
            Event::Opened,
            packet(1700000000001, &[0xde, 0xad]),
            packet(1700000000002, &[0xbe, 0xef, 0x00]),
            packet(1700000000005, &[]),
            Event::EndOfStream,
        ],
    );
    assert_eq!(
        files(&actions),
        vec![
            (String::from("./output/1700000000001_a.pcap_1.bin"), vec![0xde, 0xad]),
            (String::from("./output/1700000000002_a.pcap_2.bin"), vec![0xbe, 0xef, 0x00]),
            (String::from("./output/1700000000005_a.pcap_3.bin"), vec![]),
        ]
    );
    assert_eq!(w.state(), SplitterState::Done);
    assert_eq!(w.sequence(), 3);
    assert!(w.is_finished());
    assert_eq!(actions.last(), Some(&Action::Stop));
    assert_eq!(actions.len(), 7);
}

#[test]
fn filter_that_matches_two_of_five_gives_two_files() {
    let capture: Vec<Vec<u8>> = vec![vec![1], vec![2, 2], vec![3], vec![4, 4, 4, 4], vec![5]];
    // The reader yields only what the filter selects: here the 2nd and the 4th.
    let yielded = vec![capture[1].clone(), capture[3].clone()];
    let mut w = worker("/captures/five.pcap", "tcp");
    let mut events = vec![
        Event::Started,
        Event::PathProbed { is_regular_file: true },
        Event::Opened,
        Event::FilterAttached,
    ];
    for (i, payload) in yielded.iter().enumerate() {
        events.push(Event::Packet { now_millis: 1000 + i as u128, payload: payload.clone() });
    }
    events.push(Event::EndOfStream);
    let actions = drive(&mut w, events);
    assert_eq!(
        files(&actions),
        vec![
            (String::from("./output/1000_five.pcap_1.bin"), vec![2, 2]),
            (String::from("./output/1001_five.pcap_2.bin"), vec![4, 4, 4, 4]),
        ]
    );
    assert_eq!(w.state(), SplitterState::Done);
    assert_eq!(w.sequence(), 2);
}

#[test]
fn files_read_back_in_order_give_the_payloads_back() {
    let payloads: Vec<Vec<u8>> = vec![vec![1, 2, 3], vec![], vec![4], vec![5, 6]];
    let mut w = worker("t.pcap", "");
    let mut events =
        vec![Event::Started, Event::PathProbed { is_regular_file: true }, Event::Opened];
    for (i, p) in payloads.iter().enumerate() {
        events.push(Event::Packet { now_millis: 7 * i as u128, payload: p.clone() });
    }
    events.push(Event::EndOfStream);
    let written = files(&drive(&mut w, events));
    let contents: Vec<Vec<u8>> = written.iter().map(|f| f.1.clone()).collect();
    assert_eq!(contents, payloads);
    assert_eq!(contents.concat(), vec![1, 2, 3, 4, 5, 6]);
}

#[test]
fn paths_of_one_worker_are_distinct_in_one_millisecond() {
    let mut w = worker("a.pcap", "");
    let mut events =
        vec![Event::Started, Event::PathProbed { is_regular_file: true }, Event::Opened];
    for _ in 0..50 {
        events.push(packet(1700000000000, &[1]));
    }
    let written = files(&drive(&mut w, events));
    assert_eq!(written.len(), 50);
    for i in 0..written.len() {
        for j in (i + 1)..written.len() {
            assert_ne!(written[i].0, written[j].0);
        }
    }
}

#[test]
fn same_named_captures_written_at_different_times_do_not_collide() {
    let mut first = worker("north/a.pcap", "");
    let mut second = worker("south/a.pcap", "");
    drive(&mut first, opening());
    drive(&mut second, opening());
    let a = files(&drive(&mut first, vec![packet(100, &[1]), packet(100, &[2])]));
    let b = files(&drive(&mut second, vec![packet(101, &[3]), packet(101, &[4])]));
    for x in &a {
        for y in &b {
            assert_ne!(x.0, y.0);
        }
    }
    assert_eq!(a[0].0, "./output/100_a.pcap_1.bin");
    assert_eq!(b[0].0, "./output/101_a.pcap_1.bin");
}

#[test]
fn directory_entry_that_is_no_file_is_skipped() {
    let mut w = worker("captures/sub", "");
    let actions = drive(
        &mut w,
        vec![Event::Started, Event::PathProbed { is_regular_file: false }],
    );
    assert_eq!(
        actions,
        vec![Action::ProbePath { path: String::from("captures/sub") }, Action::Stop]
    );
    assert_eq!(w.state(), SplitterState::Done);
    assert_eq!(w.sequence(), 0);
    assert!(files(&actions).is_empty());
}

#[test]
fn capture_that_does_not_open_fails_its_worker_only() {
    let mut broken = worker("captures/broken.pcap", "");
    let mut sound = worker("captures/good.pcap", "");
    let broken_actions = drive(
        &mut broken,
        vec![Event::Started, Event::PathProbed { is_regular_file: true }, Event::OpenFailed],
    );
    let sound_actions = drive(
        &mut sound,
        vec![
            Event::Started,
            Event::PathProbed { is_regular_file: true },
            Event::Opened,
            packet(9, &[7, 7]),
            Event::EndOfStream,
        ],
    );
    assert_eq!(broken.state(), SplitterState::Errored(SplitError::OpenFailed));
    assert!(files(&broken_actions).is_empty());
    assert_eq!(broken_actions.last(), Some(&Action::Stop));
    assert_eq!(sound.state(), SplitterState::Done);
    assert_eq!(
        files(&sound_actions),
        vec![(String::from("./output/9_good.pcap_1.bin"), vec![7, 7])]
    );
}

#[test]
fn rejected_filter_fails_before_any_record() {
    let mut w = worker("a.pcap", "not a filter ((");
    let actions = drive(
        &mut w,
        vec![
            Event::Started,
            Event::PathProbed { is_regular_file: true },
            Event::Opened,
            Event::FilterRejected,
            packet(1, &[1]),
        ],
    );
    assert_eq!(w.state(), SplitterState::Errored(SplitError::FilterRejected));
    assert!(files(&actions).is_empty());
    assert_eq!(w.sequence(), 0);
}

#[test]
fn read_failure_ends_the_stream_and_keeps_what_was_written() {
    let mut w = worker("a.pcap", "");
    let actions = drive(
        &mut w,
        vec![
            Event::Started,
            Event::PathProbed { is_regular_file: true },
            Event::Opened,
            packet(1, &[1]),
            packet(2, &[2]),
            Event::ReadFailed,
            packet(3, &[3]),
        ],
    );
    assert_eq!(w.state(), SplitterState::Errored(SplitError::ReadFailed));
    assert_eq!(files(&actions).len(), 2);
    assert_eq!(w.sequence(), 2);
}

#[test]
fn write_failure_ends_the_stream() {
    let mut w = worker("a.pcap", "");
    drive(
        &mut w,
        vec![
            Event::Started,
            Event::PathProbed { is_regular_file: true },
            Event::Opened,
            packet(1, &[1]),
        ],
    );
    assert_eq!(w.on_event(Event::WriteFailed), Some(Action::Stop));
    assert_eq!(w.state(), SplitterState::Errored(SplitError::WriteFailed));
    assert_eq!(w.on_event(packet(2, &[2])), None);
}

#[test]
fn write_failure_is_not_awaited_before_a_write() {
    let mut w = worker("a.pcap", "");
    drive(&mut w, vec![Event::Started, Event::PathProbed { is_regular_file: true }, Event::Opened]);
    assert_eq!(w.on_event(Event::WriteFailed), None);
    assert_eq!(w.state(), SplitterState::Streaming);
}

#[test]
fn empty_capture_gives_no_file() {
    let mut w = worker("empty.pcap", "");
    let actions = drive(
        &mut w,
        vec![
            Event::Started,
            Event::PathProbed { is_regular_file: true },
            Event::Opened,
            Event::EndOfStream,
        ],
    );
    assert!(files(&actions).is_empty());
    assert_eq!(w.state(), SplitterState::Done);
}

#[test]
fn event_that_is_not_awaited_changes_nothing() {
    let mut w = worker("a.pcap", "tcp");
    assert_eq!(w.on_event(Event::Opened), None);
    assert_eq!(w.on_event(packet(1, &[1])), None);
    assert_eq!(w.on_event(Event::EndOfStream), None);
    assert_eq!(w.state(), SplitterState::Idle);
    drive(&mut w, vec![Event::Started, Event::PathProbed { is_regular_file: true }]);
    assert_eq!(w.on_event(Event::Started), None);
    assert_eq!(w.on_event(Event::FilterAttached), None);
    assert_eq!(w.state(), SplitterState::Opening);
    w.on_event(Event::Opened);
    assert_eq!(w.on_event(Event::Opened), None);
    assert_eq!(w.on_event(packet(1, &[1])), None);
    assert_eq!(w.state(), SplitterState::Filtering);
    assert_eq!(w.sequence(), 0);
}

#[test]
fn finished_worker_awaits_nothing() {
    let mut w = worker("a.pcap", "");
    drive(
        &mut w,
        vec![
            Event::Started,
            Event::PathProbed { is_regular_file: true },
            Event::Opened,
            packet(1, &[1]),
            Event::EndOfStream,
        ],
    );
    for event in [
        Event::Started,
        Event::PathProbed { is_regular_file: true },
        Event::Opened,
        Event::OpenFailed,
        Event::FilterAttached,
        Event::FilterRejected,
        packet(2, &[2]),
        Event::EndOfStream,
        Event::ReadFailed,
        Event::WriteFailed,
    ] {
        assert_eq!(w.on_event(event), None);
    }
    assert_eq!(w.state(), SplitterState::Done);
    assert_eq!(w.sequence(), 1);
}

#[test]
fn sequence_numbers_start_at_one_and_rise_by_one() {
    let mut w = worker("a.pcap", "");
    drive(&mut w, vec![Event::Started, Event::PathProbed { is_regular_file: true }, Event::Opened]);
    for n in 1..=20u64 {
        let action = w.on_event(packet(5, &[n as u8]));
        assert_eq!(
            action,
            Some(Action::WritePacket {
                path: format!("./output/5_a.pcap_{}.bin", n),
                payload: vec![n as u8],
            })
        );
        assert_eq!(w.sequence(), n);
    }
}

#[test]
fn reporting_a_run_at_once_is_reporting_it_step_by_step() {
    let run = || {
        vec![
            Event::Started,
            Event::Opened,
            Event::PathProbed { is_regular_file: true },
            Event::Opened,
            Event::FilterAttached,
            packet(4, &[1]),
            Event::WriteFailed,
            packet(5, &[2]),
        ]
    };
    let mut at_once = worker("x/a.pcap", "ip");
    let mut stepwise = worker("x/a.pcap", "ip");
    let collected = report_all(&mut at_once, run());
    let mut single = Vec::new();
    for event in run() {
        if let Some(action) = stepwise.on_event(event) {
            single.push(action);
        }
    }
    assert_eq!(collected, single);
    assert_eq!(
        collected,
        vec![
            Action::ProbePath { path: String::from("x/a.pcap") },
            Action::OpenCapture { path: String::from("x/a.pcap") },
            Action::AttachFilter { expression: String::from("ip") },
            Action::ReadNext,
            Action::WritePacket {
                path: String::from("./output/4_a.pcap_1.bin"),
                payload: vec![1],
            },
            Action::Stop,
        ]
    );
    assert_eq!(at_once.state(), SplitterState::Errored(SplitError::WriteFailed));
    assert_eq!(stepwise.state(), at_once.state());
    assert_eq!(at_once.sequence(), 1);
}

#[test]
fn failures_are_described_in_words() {
    assert_eq!(SplitError::OpenFailed.describe(), "unable to open the capture file");
    assert_eq!(SplitError::FilterRejected.describe(), "invalid filter expression");
    assert_eq!(SplitError::ReadFailed.describe(), "unable to read the next packet");
    assert_eq!(SplitError::WriteFailed.describe(), "unable to write an output file");
    assert_eq!(SplitError::SequenceExhausted.describe(), "too many packets in one capture");
}
