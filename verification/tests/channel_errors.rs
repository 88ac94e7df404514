use abi_stable::external_types::flume::{RRecvError, RSendError, RTryRecvError, RTrySendError};

#[test]
fn send_error_gives_back_the_message() {
    let e = RSendError(vec![1u8, 2, 3]);
    assert_eq!(e.display_text(), "sending on a closed channel");
    assert_eq!(e.debug_text(), "RSendError(..)");
    assert_eq!(e.into_inner(), vec![1u8, 2, 3]);
}

#[test]
fn recv_error_texts() {
    let e = RRecvError::Disconnected;
    assert_eq!(e.display_text(), "receiving on a closed channel");
    assert_eq!(e.debug_text(), "RRecvError{..}");
    assert!(e == RRecvError::Disconnected);
}

#[test]
fn try_send_error_full() {
    let e = RTrySendError::Full(String::from("hello"));
    assert!(e.is_full());
    assert!(!e.is_disconnected());
    assert_eq!(e.display_text(), "sending on a full channel");
    assert_eq!(e.debug_text(), "Full{..}");
    assert_eq!(e.into_inner(), "hello");
}

#[test]
fn try_send_error_disconnected() {
    let e = RTrySendError::Disconnected(7u32);
    assert!(!e.is_full());
    assert!(e.is_disconnected());
    assert_eq!(e.display_text(), "sending on a closed channel");
    assert_eq!(e.debug_text(), "Disconnected{..}");
    assert_eq!(e.into_inner(), 7);
}

#[test]
fn try_recv_error_kinds() {
    let empty = RTryRecvError::Empty;
    let closed = RTryRecvError::Disconnected;
    assert!(empty.is_empty());
    assert!(!empty.is_disconnected());
    assert!(!closed.is_empty());
    assert!(closed.is_disconnected());
    assert_eq!(empty.display_text(), "reciving on an empty channel");
    assert_eq!(closed.display_text(), "channel is empty and closed");
    assert_eq!(format!("{:?}", empty), "Empty");
    assert_eq!(format!("{:?}", closed), "Disconnected");
}
