use std::cell::RefCell;
use std::rc::Rc;

use skylane::bundle::Bundle;
use skylane::connection::{encode_header, next_frame_position, read_header};
use skylane::cursor::{store_fds, ByteCursor};
use skylane::defs::{Header, SkylaneError, Task};
use skylane::object::{Object, ObjectId, DISPLAY_ID};
use skylane::sockets::Socket;

/// What a probe saw: its tag, the header it was dispatched with, and a value it read or
/// computed (zero where none).
type Log = Rc<RefCell<Vec<(u32, Header, u32)>>>;

/// A handler whose behaviour is chosen by the opcode of the message it gets.
struct Probe {
    tag: u32,
    log: Log,
}

impl Probe {
    fn new(tag: u32, log: &Log) -> Probe {
        Probe { tag, log: log.clone() }
    }
}

impl Object for Probe {
    fn dispatch(
        &mut self,
        bundle: &mut Bundle<Self>,
        header: &Header,
        bytes_buf: &mut ByteCursor,
        fds_buf: &mut ByteCursor,
    ) -> Result<Task<Self>, SkylaneError> {
        let mut value = 0;
        let task = match header.opcode {
            0 => Task::NoChange,
            1 => Task::Create { id: 2, object: Probe::new(self.tag + 100, &self.log) },
            2 => Task::Destroy { id: header.object_id },
            3 => {
                value = bytes_buf.read_u32()?;
                Task::NoChange
            }
            4 => {
                return Err(SkylaneError::WrongOpcode {
                    name: "probe",
                    object_id: header.object_id,
                    opcode: header.opcode,
                });
            }
            5 => {
                value = bundle.get_next_available_client_object_id();
                Task::NoChange
            }
            6 => {
                value = fds_buf.read_i32()? as u32;
                Task::NoChange
            }
            7 => {
                value = bytes_buf.position() as u32;
                Task::NoChange
            }
            _ => Task::NoChange,
        };
        self.log.borrow_mut().push((self.tag, *header, value));
        Ok(task)
    }
}

fn message(object_id: u32, opcode: u16, size: u16, payload: &[u8]) -> Vec<u8> {
    let mut bytes = Vec::new();
    bytes.extend_from_slice(&object_id.to_ne_bytes());
    bytes.extend_from_slice(&opcode.to_ne_bytes());
    bytes.extend_from_slice(&size.to_ne_bytes());
    bytes.extend_from_slice(payload);
    bytes
}

fn header(object_id: u32, opcode: u16, size: u16) -> Header {
    Header { object_id, opcode, size }
}

fn bundle_with_display(log: &Log) -> Bundle<Probe> {
    let mut bundle = Bundle::new(Socket::new(-1));
    bundle.add_object(DISPLAY_ID, Probe::new(1, log));
    bundle
}

fn tag_of(bundle: &Bundle<Probe>, id: ObjectId) -> Option<u32> {
    bundle.get_handler(id).ok().map(|p| p.tag)
}

#[test]
fn dispatch_hello() {
    let log: Log = Rc::new(RefCell::new(Vec::new()));
    let mut bundle = bundle_with_display(&log);
    let bytes = message(1, 0, 8, &[]);
    assert!(bundle.process_messages(&bytes, &vec![0; 24]).is_ok());
    assert_eq!(*log.borrow(), vec![(1, header(1, 0, 8), 0)]);
    assert_eq!(tag_of(&bundle, DISPLAY_ID), Some(1));
}

#[test]
fn bind_new_object() {
    let log: Log = Rc::new(RefCell::new(Vec::new()));
    let mut bundle = bundle_with_display(&log);
    let bytes = message(1, 1, 8, &[]);
    assert!(bundle.process_messages(&bytes, &vec![0; 24]).is_ok());
    assert_eq!(tag_of(&bundle, 2), Some(101));
    assert_eq!(tag_of(&bundle, DISPLAY_ID), Some(1));
}

#[test]
fn unknown_object() {
    let log: Log = Rc::new(RefCell::new(Vec::new()));
    let mut bundle = bundle_with_display(&log);
    let bytes = message(99, 0, 8, &[]);
    let result = bundle.process_messages(&bytes, &vec![0; 24]);
    assert!(matches!(result, Err(SkylaneError::WrongObject { object_id: 99 })));
    assert!(log.borrow().is_empty());
    assert_eq!(tag_of(&bundle, DISPLAY_ID), Some(1));
    assert_eq!(tag_of(&bundle, 99), None);
    assert_eq!(bundle.get_next_available_client_object_id(), 2);
}

#[test]
fn batch_framing() {
    let log: Log = Rc::new(RefCell::new(Vec::new()));
    let mut bundle = bundle_with_display(&log);
    let mut bytes = message(1, 0, 8, &[]);
    bytes.extend(message(1, 3, 12, &77u32.to_ne_bytes()));
    assert!(bundle.process_messages(&bytes, &vec![0; 24]).is_ok());
    assert_eq!(
        *log.borrow(),
        vec![(1, header(1, 0, 8), 0), (1, header(1, 3, 12), 77)]
    );
}

#[test]
fn framing_round_trip_in_order() {
    let log: Log = Rc::new(RefCell::new(Vec::new()));
    let mut bundle = bundle_with_display(&log);
    bundle.add_object(7, Probe::new(7, &log));
    let mut bytes = message(7, 0, 8, &[]);
    bytes.extend(message(1, 3, 12, &5u32.to_ne_bytes()));
    bytes.extend(message(7, 9, 16, &[0; 8]));
    assert!(bundle.process_messages(&bytes, &Vec::new()).is_ok());
    assert_eq!(
        *log.borrow(),
        vec![
            (7, header(7, 0, 8), 0),
            (1, header(1, 3, 12), 5),
            (7, header(7, 9, 16), 0)
        ]
    );
}

#[test]
fn empty_batch_dispatches_nothing() {
    let log: Log = Rc::new(RefCell::new(Vec::new()));
    let mut bundle = bundle_with_display(&log);
    assert!(bundle.process_messages(&Vec::new(), &Vec::new()).is_ok());
    assert!(log.borrow().is_empty());
}

#[test]
fn create_then_message_to_new_object_in_one_batch() {
    let log: Log = Rc::new(RefCell::new(Vec::new()));
    let mut bundle = bundle_with_display(&log);
    let mut bytes = message(1, 1, 8, &[]);
    bytes.extend(message(2, 0, 8, &[]));
    assert!(bundle.process_messages(&bytes, &Vec::new()).is_ok());
    assert_eq!(
        *log.borrow(),
        vec![(1, header(1, 1, 8), 0), (101, header(2, 0, 8), 0)]
    );
}

#[test]
fn handler_destroys_itself() {
    let log: Log = Rc::new(RefCell::new(Vec::new()));
    let mut bundle = bundle_with_display(&log);
    bundle.add_object(7, Probe::new(7, &log));
    let bytes = message(7, 2, 8, &[]);
    assert!(bundle.process_messages(&bytes, &Vec::new()).is_ok());
    assert_eq!(tag_of(&bundle, 7), None);
    assert_eq!(tag_of(&bundle, DISPLAY_ID), Some(1));
}

#[test]
fn no_change_task_keeps_registry() {
    let log: Log = Rc::new(RefCell::new(Vec::new()));
    let mut bundle = bundle_with_display(&log);
    bundle.add_object(7, Probe::new(7, &log));
    let bytes = message(7, 0, 8, &[]);
    assert!(bundle.process_messages(&bytes, &Vec::new()).is_ok());
    assert_eq!(tag_of(&bundle, 7), Some(7));
    assert_eq!(tag_of(&bundle, DISPLAY_ID), Some(1));
    assert_eq!(bundle.get_next_available_client_object_id(), 8);
}

#[test]
fn allocation_during_dispatch_skips_the_dispatching_object() {
    let log: Log = Rc::new(RefCell::new(Vec::new()));
    let mut bundle = bundle_with_display(&log);
    let bytes = message(1, 5, 8, &[]);
    assert!(bundle.process_messages(&bytes, &Vec::new()).is_ok());
    assert_eq!(*log.borrow(), vec![(1, header(1, 5, 8), 2)]);
}

#[test]
fn handler_error_aborts_batch() {
    let log: Log = Rc::new(RefCell::new(Vec::new()));
    let mut bundle = bundle_with_display(&log);
    let mut bytes = message(1, 0, 8, &[]);
    bytes.extend(message(1, 4, 8, &[]));
    bytes.extend(message(1, 0, 8, &[]));
    let result = bundle.process_messages(&bytes, &Vec::new());
    assert!(matches!(
        result,
        Err(SkylaneError::WrongOpcode { name: "probe", object_id: 1, opcode: 4 })
    ));
    assert_eq!(*log.borrow(), vec![(1, header(1, 0, 8), 0)]);
    assert_eq!(tag_of(&bundle, DISPLAY_ID), Some(1));
}

#[test]
fn size_below_header_is_an_io_error() {
    let log: Log = Rc::new(RefCell::new(Vec::new()));
    let mut bundle = bundle_with_display(&log);
    let bytes = message(1, 0, 4, &[]);
    let result = bundle.process_messages(&bytes, &Vec::new());
    assert!(matches!(result, Err(SkylaneError::IO { .. })));
    assert!(log.borrow().is_empty());
}

#[test]
fn header_cut_short_is_an_io_error() {
    let log: Log = Rc::new(RefCell::new(Vec::new()));
    let mut bundle = bundle_with_display(&log);
    let mut bytes = message(1, 0, 8, &[]);
    bytes.extend_from_slice(&[1, 0, 0]);
    let result = bundle.process_messages(&bytes, &Vec::new());
    assert!(matches!(result, Err(SkylaneError::IO { .. })));
    assert_eq!(*log.borrow(), vec![(1, header(1, 0, 8), 0)]);
}

#[test]
fn payload_read_past_end_fails() {
    let log: Log = Rc::new(RefCell::new(Vec::new()));
    let mut bundle = bundle_with_display(&log);
    let bytes = message(1, 3, 10, &[1, 2]);
    let result = bundle.process_messages(&bytes, &Vec::new());
    assert!(matches!(result, Err(SkylaneError::IO { .. })));
}

#[test]
fn encode_header_matches_native_layout() {
    let h = header(0x0102_0304, 0x0506, 12);
    assert_eq!(encode_header(&h), message(0x0102_0304, 0x0506, 12, &[]));
}

#[test]
fn read_header_decodes_encoded_header() {
    let h = header(99, 3, 16);
    let mut bytes = vec![0xFF, 0xFF];
    bytes.extend(encode_header(&h));
    assert_eq!(read_header(&bytes, 2).unwrap(), h);
    assert!(matches!(read_header(&bytes, 3), Err(SkylaneError::IO { .. })));
    assert!(matches!(read_header(&bytes, 40), Err(SkylaneError::IO { .. })));
}

#[test]
fn next_frame_position_steps_by_size() {
    assert_eq!(next_frame_position(0, &header(1, 0, 8), 20).unwrap(), 8);
    assert_eq!(next_frame_position(8, &header(1, 0, 12), 20).unwrap(), 20);
    assert_eq!(next_frame_position(8, &header(1, 0, 100), 20).unwrap(), 20);
    assert!(matches!(
        next_frame_position(0, &header(1, 0, 7), 20),
        Err(SkylaneError::IO { .. })
    ));
}

#[test]
fn encoded_messages_are_dispatched_with_their_headers() {
    let log: Log = Rc::new(RefCell::new(Vec::new()));
    let mut bundle = bundle_with_display(&log);
    let first = header(1, 0, 8);
    let second = header(1, 3, 12);
    let mut bytes = encode_header(&first);
    bytes.extend(encode_header(&second));
    bytes.extend_from_slice(&9u32.to_ne_bytes());
    assert!(bundle.process_messages(&bytes, &Vec::new()).is_ok());
    assert_eq!(*log.borrow(), vec![(1, first, 0), (1, second, 9)]);
}

#[test]
fn payload_cursor_stands_past_each_header() {
    let log: Log = Rc::new(RefCell::new(Vec::new()));
    let mut bundle = bundle_with_display(&log);
    let mut bytes = message(1, 7, 8, &[]);
    bytes.extend(message(1, 7, 12, &[0; 4]));
    assert!(bundle.process_messages(&bytes, &Vec::new()).is_ok());
    assert_eq!(
        *log.borrow(),
        vec![(1, header(1, 7, 8), 8), (1, header(1, 7, 12), 16)]
    );
}

#[test]
fn descriptor_cursor_is_shared_across_the_batch() {
    let log: Log = Rc::new(RefCell::new(Vec::new()));
    let mut bundle = bundle_with_display(&log);
    let mut fds = vec![0u8; 24];
    assert_eq!(store_fds(&vec![10, 11], &mut fds).unwrap(), 2);
    let mut bytes = message(1, 6, 8, &[]);
    bytes.extend(message(1, 6, 8, &[]));
    assert!(bundle.process_messages(&bytes, &fds).is_ok());
    assert_eq!(
        *log.borrow(),
        vec![(1, header(1, 6, 8), 10), (1, header(1, 6, 8), 11)]
    );
}

#[test]
fn unknown_later_object_stops_the_batch() {
    let log: Log = Rc::new(RefCell::new(Vec::new()));
    let mut bundle = bundle_with_display(&log);
    let mut bytes = message(1, 1, 8, &[]);
    bytes.extend(message(42, 0, 8, &[]));
    bytes.extend(message(1, 0, 8, &[]));
    let result = bundle.process_messages(&bytes, &Vec::new());
    assert!(matches!(result, Err(SkylaneError::WrongObject { object_id: 42 })));
    assert_eq!(*log.borrow(), vec![(1, header(1, 1, 8), 0)]);
    assert_eq!(tag_of(&bundle, 2), Some(101));
}
