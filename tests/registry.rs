use skylane::bundle::Bundle;
use skylane::defs::{SkylaneError, Task};
use skylane::object::{incremented, DISPLAY_ID, SERVER_START_ID};
use skylane::sockets::Socket;

fn empty() -> Bundle<&'static str> {
    Bundle::new(Socket::new(-1))
}

#[test]
fn client_allocation_on_empty_registry_is_display_id() {
    let bundle = empty();
    assert_eq!(bundle.get_next_available_client_object_id(), DISPLAY_ID);
    assert_eq!(DISPLAY_ID, 1);
}

#[test]
fn server_allocation_on_empty_registry_is_server_start() {
    let bundle = empty();
    assert_eq!(bundle.get_next_available_server_object_id(), SERVER_START_ID);
    assert_eq!(SERVER_START_ID, 0xff00_0000);
}

#[test]
fn client_allocation_is_one_above_the_largest() {
    let mut bundle = empty();
    bundle.add_object(3, "c");
    bundle.add_object(9, "b");
    bundle.add_object(5, "a");
    assert_eq!(bundle.get_next_available_client_object_id(), 10);
}

#[test]
fn client_allocation_below_display_id_gives_display_id() {
    let mut bundle = empty();
    bundle.add_object(0, "zero");
    assert_eq!(bundle.get_next_available_client_object_id(), DISPLAY_ID);
}

#[test]
fn server_allocation_below_range_gives_server_start() {
    let mut bundle = empty();
    bundle.add_object(1, "display");
    bundle.add_object(40, "other");
    assert_eq!(bundle.get_next_available_server_object_id(), SERVER_START_ID);
}

#[test]
fn server_allocation_is_one_above_the_largest() {
    let mut bundle = empty();
    bundle.add_object(1, "display");
    bundle.add_object(SERVER_START_ID + 3, "server");
    assert_eq!(bundle.get_next_available_server_object_id(), SERVER_START_ID + 4);
    assert_eq!(bundle.get_next_available_client_object_id(), SERVER_START_ID + 4);
}

#[test]
fn add_next_objects_register_under_allocated_ids() {
    let mut bundle = empty();
    assert_eq!(bundle.add_next_client_object("a"), 1);
    assert_eq!(bundle.add_next_client_object("b"), 2);
    assert_eq!(bundle.add_next_server_object("s"), SERVER_START_ID);
    assert_eq!(bundle.add_next_server_object("t"), SERVER_START_ID + 1);
    assert_eq!(bundle.get_handler(2).ok(), Some(&"b"));
    assert_eq!(bundle.get_handler(SERVER_START_ID + 1).ok(), Some(&"t"));
}

#[test]
fn insert_overwrites() {
    let mut bundle = empty();
    bundle.add_object(7, "first");
    bundle.add_object(7, "second");
    assert_eq!(bundle.get_handler(7).ok(), Some(&"second"));
    assert_eq!(bundle.get_next_available_client_object_id(), 8);
}

#[test]
fn remove_absent_is_no_op() {
    let mut bundle = empty();
    bundle.add_object(3, "a");
    bundle.remove_object(8);
    assert_eq!(bundle.get_handler(3).ok(), Some(&"a"));
    assert_eq!(bundle.get_next_available_client_object_id(), 4);
}

#[test]
fn remove_then_lookup_is_wrong_object() {
    let mut bundle = empty();
    bundle.add_object(7, "a");
    bundle.remove_object(7);
    bundle.remove_object(7);
    assert!(matches!(
        bundle.get_handler(7),
        Err(SkylaneError::WrongObject { object_id: 7 })
    ));
    assert_eq!(bundle.get_next_available_client_object_id(), DISPLAY_ID);
}

#[test]
fn lookup_of_unregistered_id_is_wrong_object() {
    let bundle = empty();
    assert!(matches!(
        bundle.get_handler(42),
        Err(SkylaneError::WrongObject { object_id: 42 })
    ));
}

#[test]
fn apply_tasks() {
    let mut bundle = empty();
    bundle.apply_task(Task::Create { id: 4, object: "new" });
    assert_eq!(bundle.get_handler(4).ok(), Some(&"new"));
    bundle.apply_task(Task::NoChange);
    assert_eq!(bundle.get_handler(4).ok(), Some(&"new"));
    bundle.apply_task(Task::Destroy { id: 4 });
    assert!(bundle.get_handler(4).is_err());
}

#[test]
fn successor_of_an_id() {
    assert_eq!(incremented(1), 2);
    assert_eq!(incremented(SERVER_START_ID), SERVER_START_ID + 1);
}

#[test]
fn bundle_socket_serials_count_up() {
    let mut bundle = empty();
    assert_eq!(bundle.get_socket_mut().get_next_serial(), 0);
    assert_eq!(bundle.get_socket_mut().get_next_serial(), 1);
    assert_eq!(bundle.get_socket().get_fd(), -1);
}
