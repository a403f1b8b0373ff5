use banco::error::Error;
use banco::node::{Node, NodeStatus};
use banco::nodes::NodeManager;
use std::io;
use std::path::PathBuf;

fn name(s: &str) -> String {
    s.to_string()
}

fn node(n: &str, path: &str) -> Node {
    Node::new(name(n), PathBuf::from(path))
}

fn refused() -> io::Error {
    io::Error::new(io::ErrorKind::NotFound, "No such file or directory")
}

#[test]
fn new_manager_lists_nothing() {
    let manager: NodeManager<u32> = NodeManager::new();
    assert_eq!(manager.list().len(), 0);
    assert!(!manager.contains(&name("a")));
    assert_eq!(manager.status(&name("a")), None);
    assert_eq!(manager.check_vacant(&name("a")), Ok(()));
}

#[test]
fn started_node_is_listed_as_initialising() {
    let mut manager: NodeManager<u32> = NodeManager::new();
    assert_eq!(manager.start_node(node("a", "/bin/true"), Ok(41)), Ok(()));
    let listing = manager.list();
    assert_eq!(listing.len(), 1);
    let a = listing.get(&name("a")).expect("a is listed");
    assert_eq!(a.name, "a");
    assert_eq!(a.executable_path, PathBuf::from("/bin/true"));
    assert_eq!(a.status, NodeStatus::Initialising);
    assert!(manager.has_handle(&name("a")));
}

#[test]
fn status_given_on_input_is_ignored() {
    let mut manager: NodeManager<u32> = NodeManager::new();
    let mut n = node("a", "/bin/true");
    n.status = NodeStatus::Stopped { crashed: true };
    assert_eq!(manager.start_node(n, Ok(1)), Ok(()));
    assert_eq!(manager.status(&name("a")), Some(NodeStatus::Initialising));
}

#[test]
fn second_start_of_a_name_is_refused_without_side_effects() {
    let mut manager: NodeManager<u32> = NodeManager::new();
    assert_eq!(manager.start_node(node("a", "/bin/true"), Ok(1)), Ok(()));
    manager.mark_running(&name("a"));
    assert_eq!(manager.check_vacant(&name("a")), Err(Error::NodeAlreadyExists));
    assert_eq!(
        manager.start_node(node("a", "/bin/false"), Ok(2)),
        Err(Error::NodeAlreadyExists)
    );
    let listing = manager.list();
    assert_eq!(listing.len(), 1);
    let a = listing.get(&name("a")).expect("a is listed");
    assert_eq!(a.executable_path, PathBuf::from("/bin/true"));
    assert_eq!(a.status, NodeStatus::Running);
}

#[test]
fn taken_name_wins_over_a_failed_spawn() {
    let mut manager: NodeManager<u32> = NodeManager::new();
    assert_eq!(manager.start_node(node("a", "/bin/true"), Ok(1)), Ok(()));
    assert_eq!(
        manager.start_node(node("a", "/nonexistent"), Err(refused())),
        Err(Error::NodeAlreadyExists)
    );
}

#[test]
fn stopped_name_is_still_taken() {
    let mut manager: NodeManager<u32> = NodeManager::new();
    assert_eq!(manager.start_node(node("a", "/bin/true"), Ok(1)), Ok(()));
    manager.mark_stopped(&name("a"), false);
    assert_eq!(
        manager.start_node(node("a", "/bin/true"), Ok(2)),
        Err(Error::NodeAlreadyExists)
    );
    assert_eq!(
        manager.status(&name("a")),
        Some(NodeStatus::Stopped { crashed: false })
    );
}

#[test]
fn failed_spawn_registers_nothing() {
    let mut manager: NodeManager<u32> = NodeManager::new();
    assert_eq!(manager.start_node(node("a", "/bin/true"), Ok(1)), Ok(()));
    assert_eq!(
        manager.start_node(node("b", "/nonexistent"), Err(refused())),
        Err(Error::FailedToSpawn("No such file or directory".to_string()))
    );
    let listing = manager.list();
    assert_eq!(listing.len(), 1);
    assert!(listing.get(&name("b")).is_none());
    assert!(!manager.contains(&name("b")));
    assert!(!manager.has_handle(&name("b")));
    assert_eq!(manager.check_vacant(&name("b")), Ok(()));
}

#[test]
fn mark_running_promotes_only_an_initialising_node() {
    let mut manager: NodeManager<u32> = NodeManager::new();
    manager.start_node(node("a", "/bin/true"), Ok(1)).unwrap();
    manager.mark_running(&name("a"));
    assert_eq!(manager.status(&name("a")), Some(NodeStatus::Running));
    manager.mark_running(&name("a"));
    assert_eq!(manager.status(&name("a")), Some(NodeStatus::Running));
    manager.mark_stopped(&name("a"), true);
    manager.mark_running(&name("a"));
    assert_eq!(
        manager.status(&name("a")),
        Some(NodeStatus::Stopped { crashed: true })
    );
    manager.mark_running(&name("ghost"));
    assert!(!manager.contains(&name("ghost")));
}

#[test]
fn mark_stopped_is_idempotent() {
    let mut manager: NodeManager<u32> = NodeManager::new();
    manager.start_node(node("a", "/bin/true"), Ok(1)).unwrap();
    manager.mark_stopped(&name("a"), false);
    assert_eq!(
        manager.status(&name("a")),
        Some(NodeStatus::Stopped { crashed: false })
    );
    manager.mark_stopped(&name("a"), true);
    assert_eq!(
        manager.status(&name("a")),
        Some(NodeStatus::Stopped { crashed: false })
    );
    manager.mark_stopped(&name("ghost"), true);
    assert_eq!(manager.list().len(), 1);
}

#[test]
fn mark_stopped_keeps_name_path_and_handle() {
    let mut manager: NodeManager<u32> = NodeManager::new();
    manager.start_node(node("a", "/bin/sleep"), Ok(77)).unwrap();
    manager.mark_stopped(&name("a"), true);
    let listing = manager.list();
    let a = listing.get(&name("a")).expect("a is listed");
    assert_eq!(
        *a,
        Node {
            name: name("a"),
            executable_path: PathBuf::from("/bin/sleep"),
            status: NodeStatus::Stopped { crashed: true },
        }
    );
    assert!(manager.has_handle(&name("a")));
}

#[test]
fn release_handle_hands_the_handle_out_once() {
    let mut manager: NodeManager<u32> = NodeManager::new();
    manager.start_node(node("a", "/bin/true"), Ok(77)).unwrap();
    manager.start_node(node("b", "/bin/true"), Ok(78)).unwrap();
    assert_eq!(manager.release_handle(&name("a")), Some(77));
    assert!(!manager.has_handle(&name("a")));
    assert!(manager.has_handle(&name("b")));
    assert_eq!(manager.release_handle(&name("a")), None);
    assert_eq!(manager.release_handle(&name("ghost")), None);
    assert_eq!(manager.status(&name("a")), Some(NodeStatus::Initialising));
    assert_eq!(manager.list().len(), 2);
}

#[test]
fn removed_name_can_be_started_again() {
    let mut manager: NodeManager<u32> = NodeManager::new();
    manager.start_node(node("a", "/bin/true"), Ok(1)).unwrap();
    manager.mark_stopped(&name("a"), true);
    assert!(manager.remove(&name("a")));
    assert!(!manager.contains(&name("a")));
    assert!(!manager.remove(&name("a")));
    assert_eq!(manager.start_node(node("a", "/bin/echo"), Ok(2)), Ok(()));
    let listing = manager.list();
    let a = listing.get(&name("a")).expect("a is listed");
    assert_eq!(a.status, NodeStatus::Initialising);
    assert_eq!(a.executable_path, PathBuf::from("/bin/echo"));
}

#[test]
fn listing_is_a_snapshot() {
    let mut manager: NodeManager<u32> = NodeManager::new();
    manager.start_node(node("a", "/bin/true"), Ok(1)).unwrap();
    manager.start_node(node("b", "/bin/true"), Ok(2)).unwrap();
    let before = manager.list();
    manager.mark_stopped(&name("a"), true);
    manager.remove(&name("b"));
    let after = manager.list();
    assert_eq!(before.len(), 2);
    assert_eq!(
        before.get(&name("a")).map(|n| n.status),
        Some(NodeStatus::Initialising)
    );
    assert_eq!(
        before.get(&name("b")).map(|n| n.status),
        Some(NodeStatus::Initialising)
    );
    assert_eq!(after.len(), 1);
    assert_eq!(
        after.get(&name("a")).map(|n| n.status),
        Some(NodeStatus::Stopped { crashed: true })
    );
}

#[test]
fn node_status_is_stopped_only_when_stopped() {
    assert!(!NodeStatus::Initialising.is_stopped());
    assert!(!NodeStatus::Running.is_stopped());
    assert!(NodeStatus::Stopped { crashed: false }.is_stopped());
    assert!(NodeStatus::Stopped { crashed: true }.is_stopped());
}

#[test]
fn new_node_starts_out_initialising_and_clones_equal() {
    let n = node("a", "/bin/true");
    assert_eq!(n.status, NodeStatus::Initialising);
    let copy = n.clone();
    assert_eq!(copy, n);
    assert_eq!(copy.name, "a");
    assert_eq!(copy.executable_path, PathBuf::from("/bin/true"));
}

#[test]
fn cloned_listing_holds_the_same_records() {
    let mut manager: NodeManager<u32> = NodeManager::new();
    manager.start_node(node("a", "/bin/true"), Ok(1)).unwrap();
    manager.start_node(node("b", "/bin/sleep"), Ok(2)).unwrap();
    manager.mark_running(&name("b"));
    let listing = manager.list();
    let copy = listing.clone();
    assert_eq!(copy.len(), 2);
    assert_eq!(copy.get(&name("a")), listing.get(&name("a")));
    assert_eq!(copy.get(&name("b")), listing.get(&name("b")));
    assert_eq!(
        copy.get(&name("b")).map(|n| n.status),
        Some(NodeStatus::Running)
    );
    assert!(copy.get(&name("c")).is_none());
}
