use banco::error::Error;
use banco::node::{Node, NodeStatus};
use banco::teller::{Teller, TellerServer};
use std::io;
use std::path::PathBuf;

const TIMEOUT: u64 = 1_000;

fn name(s: &str) -> String {
    s.to_string()
}

fn node(n: &str, path: &str) -> Node {
    Node::new(name(n), PathBuf::from(path))
}

fn refused() -> io::Error {
    io::Error::new(io::ErrorKind::NotFound, "No such file or directory")
}

fn status_of(server: &TellerServer<u32>, n: &str) -> Option<NodeStatus> {
    server.list_nodes().get(&name(n)).map(|node| node.status)
}

#[test]
fn new_server_lists_nothing() {
    let server: TellerServer<u32> = TellerServer::new(TIMEOUT);
    assert_eq!(server.list_nodes().len(), 0);
    assert_eq!(server.check_vacant(&name("a")), Ok(()));
}

#[test]
fn start_node_succeeds_and_lists_node_as_initialising() {
    let mut server: TellerServer<u32> = TellerServer::new(TIMEOUT);
    assert_eq!(server.check_vacant(&name("a")), Ok(()));
    assert_eq!(server.start_node(node("a", "/bin/true"), Ok(1), 0), Ok(()));
    let listing = server.list_nodes();
    assert_eq!(listing.len(), 1);
    let a = listing.get(&name("a")).expect("a is listed");
    assert_eq!(
        *a,
        Node {
            name: name("a"),
            executable_path: PathBuf::from("/bin/true"),
            status: NodeStatus::Initialising,
        }
    );
}

#[test]
fn second_start_before_removal_is_node_already_exists() {
    let mut server: TellerServer<u32> = TellerServer::new(TIMEOUT);
    assert_eq!(server.start_node(node("a", "/bin/true"), Ok(1), 0), Ok(()));
    assert_eq!(server.check_vacant(&name("a")), Err(Error::NodeAlreadyExists));
    assert_eq!(
        server.start_node(node("a", "/bin/true"), Ok(2), 1),
        Err(Error::NodeAlreadyExists)
    );
    assert_eq!(server.list_nodes().len(), 1);
}

#[test]
fn start_of_nonexistent_executable_fails_and_lists_nothing() {
    let mut server: TellerServer<u32> = TellerServer::new(TIMEOUT);
    assert_eq!(server.check_vacant(&name("b")), Ok(()));
    let r = server.start_node(node("b", "/nonexistent"), Err(refused()), 0);
    assert_eq!(
        r,
        Err(Error::FailedToSpawn("No such file or directory".to_string()))
    );
    assert_eq!(server.list_nodes().len(), 0);
    assert!(server.list_nodes().get(&name("b")).is_none());
    assert_eq!(server.check_vacant(&name("b")), Ok(()));
}

#[test]
fn failed_start_does_not_begin_watching_the_name() {
    let mut server: TellerServer<u32> = TellerServer::new(TIMEOUT);
    server
        .start_node(node("b", "/nonexistent"), Err(refused()), 0)
        .unwrap_err();
    assert!(server.sweep(1_000_000).is_empty());
    assert_eq!(server.start_node(node("b", "/bin/true"), Ok(1), 5), Ok(()));
    assert_eq!(status_of(&server, "b"), Some(NodeStatus::Initialising));
}

#[test]
fn clean_exit_shows_node_as_stopped_not_crashed() {
    let mut server: TellerServer<u32> = TellerServer::new(TIMEOUT);
    server.start_node(node("a", "/bin/true"), Ok(1), 0).unwrap();
    server.process_exited(&name("a"), true);
    assert_eq!(
        status_of(&server, "a"),
        Some(NodeStatus::Stopped { crashed: false })
    );
}

#[test]
fn failing_exit_shows_node_as_crashed() {
    let mut server: TellerServer<u32> = TellerServer::new(TIMEOUT);
    server.start_node(node("a", "/bin/false"), Ok(1), 0).unwrap();
    server.heartbeat(name("a"), 1);
    server.process_exited(&name("a"), false);
    assert_eq!(
        status_of(&server, "a"),
        Some(NodeStatus::Stopped { crashed: true })
    );
}

#[test]
fn exit_of_unknown_name_changes_nothing() {
    let mut server: TellerServer<u32> = TellerServer::new(TIMEOUT);
    server.start_node(node("a", "/bin/true"), Ok(1), 0).unwrap();
    server.process_exited(&name("ghost"), false);
    assert_eq!(server.list_nodes().len(), 1);
    assert_eq!(status_of(&server, "a"), Some(NodeStatus::Initialising));
}

#[test]
fn node_without_heartbeat_is_stopped_as_crashed_after_timeout() {
    let mut server: TellerServer<u32> = TellerServer::new(TIMEOUT);
    server.start_node(node("c", "/bin/sleep"), Ok(1), 100).unwrap();
    assert!(server.sweep(100 + TIMEOUT).is_empty());
    assert_eq!(status_of(&server, "c"), Some(NodeStatus::Initialising));
    assert_eq!(server.sweep(100 + TIMEOUT + 1), vec![name("c")]);
    assert_eq!(
        status_of(&server, "c"),
        Some(NodeStatus::Stopped { crashed: true })
    );
    assert!(server.sweep(100 + 10 * TIMEOUT).is_empty());
}

#[test]
fn heartbeat_every_half_timeout_keeps_node_alive() {
    let mut server: TellerServer<u32> = TellerServer::new(TIMEOUT);
    server.start_node(node("c", "/bin/sleep"), Ok(1), 0).unwrap();
    let mut now: u64 = 0;
    let mut round: u32 = 0;
    while round < 200 {
        now += TIMEOUT / 2;
        server.heartbeat(name("c"), now);
        assert!(server.sweep(now + TIMEOUT / 4).is_empty());
        assert_eq!(status_of(&server, "c"), Some(NodeStatus::Running));
        round += 1;
    }
    assert!(server.sweep(now + TIMEOUT).is_empty());
    assert_eq!(status_of(&server, "c"), Some(NodeStatus::Running));
}

#[test]
fn first_heartbeat_promotes_to_running() {
    let mut server: TellerServer<u32> = TellerServer::new(TIMEOUT);
    server.start_node(node("a", "/bin/sleep"), Ok(1), 0).unwrap();
    assert_eq!(status_of(&server, "a"), Some(NodeStatus::Initialising));
    server.heartbeat(name("a"), 10);
    assert_eq!(status_of(&server, "a"), Some(NodeStatus::Running));
    server.heartbeat(name("a"), 20);
    assert_eq!(status_of(&server, "a"), Some(NodeStatus::Running));
}

#[test]
fn heartbeat_of_unknown_name_is_a_silent_no_op() {
    let mut server: TellerServer<u32> = TellerServer::new(TIMEOUT);
    server.start_node(node("a", "/bin/sleep"), Ok(1), 0).unwrap();
    server.heartbeat(name("ghost"), 10);
    assert_eq!(server.list_nodes().len(), 1);
    assert_eq!(status_of(&server, "a"), Some(NodeStatus::Initialising));
    assert!(server.sweep(TIMEOUT).is_empty());
}

#[test]
fn heartbeat_does_not_revive_a_stopped_node() {
    let mut server: TellerServer<u32> = TellerServer::new(TIMEOUT);
    server.start_node(node("a", "/bin/sleep"), Ok(1), 0).unwrap();
    server.process_exited(&name("a"), true);
    server.heartbeat(name("a"), 10);
    assert_eq!(
        status_of(&server, "a"),
        Some(NodeStatus::Stopped { crashed: false })
    );
    assert!(server.sweep(10 * TIMEOUT).is_empty());
    assert_eq!(
        status_of(&server, "a"),
        Some(NodeStatus::Stopped { crashed: false })
    );
}

#[test]
fn exit_after_staleness_keeps_the_crashed_flag() {
    let mut server: TellerServer<u32> = TellerServer::new(TIMEOUT);
    server.start_node(node("a", "/bin/sleep"), Ok(1), 0).unwrap();
    assert_eq!(server.sweep(TIMEOUT + 1), vec![name("a")]);
    server.process_exited(&name("a"), true);
    assert_eq!(
        status_of(&server, "a"),
        Some(NodeStatus::Stopped { crashed: true })
    );
}

#[test]
fn sweep_stops_only_the_silent_nodes() {
    let mut server: TellerServer<u32> = TellerServer::new(TIMEOUT);
    server.start_node(node("quiet", "/bin/sleep"), Ok(1), 0).unwrap();
    server.start_node(node("chatty", "/bin/sleep"), Ok(2), 0).unwrap();
    server.start_node(node("done", "/bin/true"), Ok(3), 0).unwrap();
    server.process_exited(&name("done"), true);
    server.heartbeat(name("chatty"), 900);
    assert_eq!(server.sweep(1_500), vec![name("quiet")]);
    assert_eq!(
        status_of(&server, "quiet"),
        Some(NodeStatus::Stopped { crashed: true })
    );
    assert_eq!(status_of(&server, "chatty"), Some(NodeStatus::Running));
    assert_eq!(
        status_of(&server, "done"),
        Some(NodeStatus::Stopped { crashed: false })
    );
}

#[test]
fn at_most_one_start_succeeds_until_the_name_is_removed() {
    let mut server: TellerServer<u32> = TellerServer::new(TIMEOUT);
    let mut successes: u32 = 0;
    let mut attempt: u32 = 0;
    while attempt < 10 {
        if server
            .start_node(node("a", "/bin/true"), Ok(attempt), u64::from(attempt))
            .is_ok()
        {
            successes += 1;
        }
        if attempt == 3 {
            server.heartbeat(name("a"), 3);
        }
        if attempt == 6 {
            server.process_exited(&name("a"), false);
        }
        attempt += 1;
    }
    assert_eq!(successes, 1);
    assert!(server.remove_node(&name("a")));
    assert_eq!(server.list_nodes().len(), 0);
    assert_eq!(server.start_node(node("a", "/bin/true"), Ok(99), 50), Ok(()));
    assert_eq!(status_of(&server, "a"), Some(NodeStatus::Initialising));
}

#[test]
fn racing_starts_of_one_name_have_exactly_one_winner() {
    let mut server: TellerServer<u32> = TellerServer::new(TIMEOUT);
    let mut results = Vec::new();
    let mut attempt: u32 = 0;
    while attempt < 8 {
        results.push(server.start_node(node("n", "/bin/true"), Ok(attempt), 0));
        attempt += 1;
    }
    assert_eq!(results[0], Ok(()));
    assert_eq!(results.iter().filter(|r| r.is_ok()).count(), 1);
    assert_eq!(
        results
            .iter()
            .filter(|r| **r == Err(Error::NodeAlreadyExists))
            .count(),
        7
    );
}

#[test]
fn remove_node_forgets_the_liveness_record() {
    let mut server: TellerServer<u32> = TellerServer::new(TIMEOUT);
    server.start_node(node("a", "/bin/sleep"), Ok(1), 0).unwrap();
    assert!(server.remove_node(&name("a")));
    assert!(!server.remove_node(&name("a")));
    assert!(server.sweep(10 * TIMEOUT).is_empty());
    server.heartbeat(name("a"), 5);
    assert_eq!(server.list_nodes().len(), 0);
}

#[test]
fn restarted_name_is_watched_from_its_new_start() {
    let mut server: TellerServer<u32> = TellerServer::new(TIMEOUT);
    server.start_node(node("a", "/bin/sleep"), Ok(1), 0).unwrap();
    server.remove_node(&name("a"));
    server.start_node(node("a", "/bin/sleep"), Ok(2), 5_000).unwrap();
    assert!(server.sweep(5_000 + TIMEOUT).is_empty());
    assert_eq!(status_of(&server, "a"), Some(NodeStatus::Initialising));
    assert_eq!(server.sweep(5_000 + TIMEOUT + 1), vec![name("a")]);
}

#[test]
fn status_never_goes_back() {
    let mut server: TellerServer<u32> = TellerServer::new(TIMEOUT);
    server.start_node(node("a", "/bin/sleep"), Ok(1), 0).unwrap();
    server.heartbeat(name("a"), 1);
    let _ = server.start_node(node("a", "/bin/other"), Ok(2), 2);
    assert_eq!(status_of(&server, "a"), Some(NodeStatus::Running));
    server.process_exited(&name("a"), false);
    server.heartbeat(name("a"), 3);
    server.process_exited(&name("a"), true);
    let _ = server.sweep(1_000_000);
    let _ = server.start_node(node("a", "/bin/other"), Err(refused()), 4);
    let listing = server.list_nodes();
    assert_eq!(
        *listing.get(&name("a")).expect("a is listed"),
        Node {
            name: name("a"),
            executable_path: PathBuf::from("/bin/sleep"),
            status: NodeStatus::Stopped { crashed: true },
        }
    );
}

#[test]
fn snapshot_is_not_affected_by_a_later_transition() {
    let mut server: TellerServer<u32> = TellerServer::new(TIMEOUT);
    server.start_node(node("a", "/bin/sleep"), Ok(1), 0).unwrap();
    let before = server.list_nodes();
    server.heartbeat(name("a"), 1);
    let after = server.list_nodes();
    assert_eq!(
        before.get(&name("a")).map(|n| n.status),
        Some(NodeStatus::Initialising)
    );
    assert_eq!(
        after.get(&name("a")).map(|n| n.status),
        Some(NodeStatus::Running)
    );
}

#[test]
fn silent_node_is_stopped_by_the_first_sweep_past_the_deadline() {
    let period: u64 = 300;
    let heard: u64 = 1_234;
    let mut server: TellerServer<u32> = TellerServer::new(TIMEOUT);
    server.start_node(node("a", "/bin/sleep"), Ok(1), 0).unwrap();
    server.heartbeat(name("a"), heard);
    let mut at: u64 = 0;
    let mut stopped_at: Option<u64> = None;
    while at <= heard + TIMEOUT + period {
        if !server.sweep(at).is_empty() {
            stopped_at = Some(at);
            break;
        }
        at += period;
    }
    let stopped_at = stopped_at.expect("a sweep stops the node");
    assert_eq!(stopped_at, 2_400);
    assert!(stopped_at > heard + TIMEOUT);
    assert!(stopped_at <= heard + TIMEOUT + period);
    assert_eq!(
        status_of(&server, "a"),
        Some(NodeStatus::Stopped { crashed: true })
    );
}
