use std::collections::BTreeMap;

use filedrop::protocol::{Action, CloseKind, Event, Message};
use filedrop::retrieval::download_target;
use filedrop::session::{Session, HEARTBEAT_TICK_MS, TIMEOUT_MS};

type Disk = Option<BTreeMap<String, Vec<u8>>>;

fn perform(disk: &mut Disk, actions: &[Action]) {
    for a in actions {
        match a {
            Action::ResetWorkspace => *disk = None,
            Action::OpenFile { file } => {
                disk.get_or_insert_with(BTreeMap::new).entry(file.clone()).or_default();
            }
            Action::Append { file, bytes } => {
                if let Some(m) = disk.as_mut() {
                    if let Some(v) = m.get_mut(file) {
                        v.extend_from_slice(bytes);
                    }
                }
            }
            _ => {}
        }
    }
}

fn announce(file: &str, size: u64) -> Event {
    Event::Text(Some(Message::File { file: file.to_string(), size }))
}

fn link(id: &str) -> Action {
    Action::SendText(Message::Link { link: id.to_string() })
}

fn append(file: &str, bytes: &[u8]) -> Action {
    Action::Append { file: file.to_string(), bytes: bytes.to_vec() }
}

#[test]
fn new_session_resets_its_workspace() {
    let (s, actions) = Session::new("ABCDE".to_string());
    assert_eq!(actions, vec![Action::ResetWorkspace]);
    assert_eq!(s.identifier(), "ABCDE");
    assert!(s.pending().is_empty());
    assert!(!s.is_closed());
    assert_eq!(s.last_heartbeat(), 0);
}

#[test]
fn started_session_has_token_identifier() {
    let (s, actions) = Session::start();
    assert_eq!(actions, vec![Action::ResetWorkspace]);
    assert_eq!(s.identifier().len(), 5);
    assert!(s.identifier().chars().all(|c| c.is_ascii_uppercase()));
}

#[test]
fn stale_workspace_leaves_no_files() {
    let mut old = BTreeMap::new();
    old.insert("old.bin".to_string(), vec![1, 2, 3]);
    let mut disk: Disk = Some(old);
    let (mut s, start) = Session::new("ABCDE".to_string());
    perform(&mut disk, &start);
    let a = s.step(announce("new.txt", 1));
    perform(&mut disk, &a);
    let a = s.step(Event::Binary(vec![7]));
    perform(&mut disk, &a);
    let m = disk.unwrap();
    assert_eq!(m.len(), 1);
    assert_eq!(m.get("new.txt"), Some(&vec![7u8]));
    assert!(m.get("old.bin").is_none());
}

#[test]
fn end_to_end_single_file() {
    let mut disk: Disk = None;
    let (mut s, start) = Session::new("QWERT".to_string());
    perform(&mut disk, &start);
    let a = s.step(Event::Text(Some(Message::File { file: "a.txt".to_string(), size: 3 })));
    assert_eq!(a, vec![Action::OpenFile { file: "a.txt".to_string() }]);
    perform(&mut disk, &a);
    let a = s.step(Event::Binary(vec![0x41, 0x42, 0x43]));
    assert_eq!(a, vec![append("a.txt", b"ABC"), link("QWERT")]);
    perform(&mut disk, &a);
    assert!(s.pending().is_empty());
    let m = disk.unwrap();
    assert_eq!(m.get("a.txt"), Some(&b"ABC".to_vec()));
    let first = m.keys().next().cloned();
    assert_eq!(download_target(s.identifier(), true, first), Ok("a.txt".to_string()));
}

#[test]
fn ordered_writes_over_several_files() {
    let mut disk: Disk = None;
    let (mut s, start) = Session::new("ABCDE".to_string());
    perform(&mut disk, &start);
    let mut sent = vec![];
    for (f, n) in [("x", 4u64), ("y", 2), ("z", 0)] {
        let a = s.step(announce(f, n));
        perform(&mut disk, &a);
    }
    let chunks: Vec<&[u8]> = vec![b"ab", b"", b"cd", b"ef", b""];
    let mut links = 0;
    for c in chunks {
        let a = s.step(Event::Binary(c.to_vec()));
        perform(&mut disk, &a);
        for x in &a {
            if matches!(x, Action::SendText(_)) {
                links += 1;
            }
        }
        sent.extend(a);
    }
    assert_eq!(
        sent,
        vec![
            append("x", b"ab"),
            append("x", b""),
            append("x", b"cd"),
            link("ABCDE"),
            append("y", b"ef"),
            link("ABCDE"),
            append("z", b""),
            link("ABCDE"),
        ]
    );
    assert_eq!(links, 3);
    assert!(!s.is_closed());
    let m = disk.unwrap();
    assert_eq!(m.get("x"), Some(&b"abcd".to_vec()));
    assert_eq!(m.get("y"), Some(&b"ef".to_vec()));
    assert_eq!(m.get("z"), Some(&vec![]));
    assert_eq!(m.len(), 3);
}

#[test]
fn chunk_goes_to_queue_head() {
    let (mut s, _) = Session::new("ABCDE".to_string());
    s.step(announce("first", 4));
    s.step(announce("second", 4));
    let a = s.step(Event::Binary(vec![1, 2]));
    assert_eq!(a, vec![append("first", &[1, 2])]);
    assert_eq!(s.pending().len(), 2);
    assert_eq!(s.pending()[0].file, "first");
    assert_eq!(s.pending()[0].written, 2);
    assert_eq!(s.pending()[1].written, 0);
    let a = s.step(Event::Binary(vec![3, 4]));
    assert_eq!(a, vec![append("first", &[3, 4]), link("ABCDE")]);
    assert_eq!(s.pending().len(), 1);
    assert_eq!(s.pending()[0].file, "second");
    let a = s.step(Event::Binary(vec![5]));
    assert_eq!(a, vec![append("second", &[5])]);
}

#[test]
fn binary_without_announcement_closes_abruptly() {
    let (mut s, _) = Session::new("ABCDE".to_string());
    let a = s.step(Event::Binary(vec![1]));
    assert_eq!(a, vec![Action::Close(CloseKind::Abrupt)]);
    assert!(s.is_closed());
}

#[test]
fn chunk_beyond_declared_size_closes_abruptly() {
    let (mut s, _) = Session::new("ABCDE".to_string());
    s.step(announce("f", 2));
    let a = s.step(Event::Binary(vec![1, 2, 3]));
    assert_eq!(a, vec![Action::Close(CloseKind::Abrupt)]);
    assert!(s.is_closed());
}

#[test]
fn malformed_or_unexpected_text_is_ignored() {
    let (mut s, _) = Session::new("ABCDE".to_string());
    assert!(s.step(Event::Text(None)).is_empty());
    let a = s.step(Event::Text(Some(Message::Link { link: "ZZZZZ".to_string() })));
    assert!(a.is_empty());
    assert!(s.step(Event::Other).is_empty());
    assert!(s.pending().is_empty());
    assert!(!s.is_closed());
}

#[test]
fn ping_is_answered_and_refreshes_heartbeat() {
    let (mut s, _) = Session::new("ABCDE".to_string());
    let a = s.step(Event::Ping { payload: vec![9, 8], now: 1234 });
    assert_eq!(a, vec![Action::SendPong { payload: vec![9, 8] }]);
    assert_eq!(s.last_heartbeat(), 1234);
    let a = s.step(Event::Pong { now: 5678 });
    assert!(a.is_empty());
    assert_eq!(s.last_heartbeat(), 5678);
}

#[test]
fn tick_within_timeout_probes_peer() {
    let (mut s, _) = Session::new("ABCDE".to_string());
    assert_eq!(s.step(Event::Tick { now: HEARTBEAT_TICK_MS }), vec![Action::SendPing]);
    assert_eq!(s.step(Event::Tick { now: TIMEOUT_MS }), vec![Action::SendPing]);
    assert!(!s.is_closed());
}

#[test]
fn tick_after_timeout_closes_silently() {
    let (mut s, _) = Session::new("ABCDE".to_string());
    s.step(Event::Pong { now: 1000 });
    let a = s.step(Event::Tick { now: 1000 + 6 * HEARTBEAT_TICK_MS + 1 });
    assert_eq!(a, vec![Action::Close(CloseKind::Abrupt)]);
    assert!(s.is_closed());
    assert!(s.step(Event::Tick { now: 100_000 }).is_empty());
    assert!(s.step(Event::Ping { payload: vec![], now: 100_000 }).is_empty());
    assert!(s.step(Event::Outbound(Message::Link { link: "ABCDE".to_string() })).is_empty());
}

#[test]
fn tick_with_clock_behind_heartbeat_probes() {
    let (mut s, _) = Session::new("ABCDE".to_string());
    s.step(Event::Pong { now: 50_000 });
    assert_eq!(s.step(Event::Tick { now: 10 }), vec![Action::SendPing]);
}

#[test]
fn failed_probe_closes_abruptly() {
    let (mut s, _) = Session::new("ABCDE".to_string());
    assert_eq!(s.step(Event::ProbeFailed), vec![Action::Close(CloseKind::Abrupt)]);
    assert!(s.is_closed());
}

#[test]
fn peer_close_is_echoed() {
    let (mut s, _) = Session::new("ABCDE".to_string());
    assert_eq!(s.step(Event::Close), vec![Action::Close(CloseKind::EchoPeer)]);
    assert!(s.is_closed());
}

#[test]
fn io_failure_closes_with_error() {
    let (mut s, _) = Session::new("ABCDE".to_string());
    s.step(announce("f", 1));
    assert_eq!(s.step(Event::IoFailed), vec![Action::Close(CloseKind::Failure)]);
    assert!(s.is_closed());
}

#[test]
fn outbound_messages_are_forwarded() {
    let (mut s, _) = Session::new("ABCDE".to_string());
    let m = Message::Link { link: "ABCDE".to_string() };
    assert_eq!(s.step(Event::Outbound(m.clone())), vec![Action::SendText(m)]);
}

#[test]
fn each_file_announced_then_sent() {
    let mut disk: Disk = None;
    let (mut s, start) = Session::new("LMNOP".to_string());
    perform(&mut disk, &start);
    let mut sent = vec![];
    for (f, chunks) in [("p", vec![&b"12"[..], &b"3"[..]]), ("q", vec![&b"45"[..]])] {
        let size: u64 = chunks.iter().map(|c| c.len() as u64).sum();
        let a = s.step(announce(f, size));
        perform(&mut disk, &a);
        sent.extend(a);
        for c in chunks {
            let a = s.step(Event::Binary(c.to_vec()));
            perform(&mut disk, &a);
            sent.extend(a);
        }
    }
    assert_eq!(
        sent,
        vec![
            Action::OpenFile { file: "p".to_string() },
            append("p", b"12"),
            append("p", b"3"),
            link("LMNOP"),
            Action::OpenFile { file: "q".to_string() },
            append("q", b"45"),
            link("LMNOP"),
        ]
    );
    let m = disk.unwrap();
    assert_eq!(m.len(), 2);
    assert_eq!(m.get("p"), Some(&b"123".to_vec()));
    assert_eq!(m.get("q"), Some(&b"45".to_vec()));
}

#[test]
fn silent_peer_dropped_on_seventh_tick() {
    let (mut s, _) = Session::new("ABCDE".to_string());
    for k in 1..=6u64 {
        assert_eq!(s.step(Event::Tick { now: k * HEARTBEAT_TICK_MS }), vec![Action::SendPing]);
        assert!(s.step(Event::Text(None)).is_empty());
    }
    let a = s.step(Event::Tick { now: 7 * HEARTBEAT_TICK_MS });
    assert_eq!(a, vec![Action::Close(CloseKind::Abrupt)]);
    assert!(s.is_closed());
}
