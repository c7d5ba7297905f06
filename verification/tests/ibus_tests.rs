use rustibus::deque::Deque;
use rustibus::ibus::IBusMsg;
use rustibus::ibus::popIBusMsg;

type Buffer = Deque<u8, 64>;

#[test]
fn lib_test_resync() {
    let mut buffer = Buffer::new();
    // Test a wrong command code followed by a correct message
    buffer.load(&[0x04, 0x04, 0x81, 0x7a, 0xff]);
    assert_eq!(popIBusMsg(&buffer), (None, 1));
    // Test a message that is too short
    buffer.clear();
    buffer.load(&[0x00, 0x04, 0x81, 0x7a, 0xff]);
    assert_eq!(popIBusMsg(&buffer), (None, 1));
    // Test a message that is too long
    buffer.clear();
    buffer.load(&[0x21, 0x04, 0x81, 0x7a, 0xff]);
    assert_eq!(popIBusMsg(&buffer), (None, 1));
    // Test a message that is not complete
    buffer.clear();
    buffer.load(&[0x04, 0x81, 0x7a]);
    assert_eq!(popIBusMsg(&buffer), (None, 0));
    // Test a message with a wrong CRC check
    buffer.clear();
    buffer.load(&[0x04, 0x81, 0x7b, 0xff]);
    assert_eq!(popIBusMsg(&buffer), (None, 1));
    // Test a message with a wrong command code
    buffer.clear();
    buffer.load(&[0x04, 0x11, 0xea, 0xff]);
    assert_eq!(popIBusMsg(&buffer), (None, 1));
    // Test a good message can still be read
    buffer.clear();
    buffer.load(&[0x04, 0x81, 0x7a, 0xff]);
    assert_eq!(popIBusMsg(&buffer), (Some(IBusMsg::DiscoveryRequest(0x1)), 4));
}

#[test]
fn lib_test_setmsg() {
    let mut buffer = Buffer::new();
    buffer.load(&[
        0x20, 0x40, 0xDB, 0x05, 0xDC, 0x05, 0x54, 0x05, 0xDC, 0x05, 0xE8, 0x03, 0xD0, 0x07, 0xD2,
        0x05, 0xE8, 0x03, 0xDC, 0x05, 0xDC, 0x05, 0xDC, 0x05, 0xDC, 0x05, 0xDC, 0x05, 0xDC, 0x05,
        0xDA, 0xF3,
    ]);
    assert_eq!(
        popIBusMsg(&buffer),
        (
            Some(IBusMsg::SetMsg([
                0x5DB, 0x5DC, 0x554, 0x5DC, 0x3E8, 0x7D0, 0x5D2, 0x3E8, 0x5DC, 0x5DC, 0x5DC,
                0x5DC, 0x5DC, 0x5DC
            ])),
            0x20
        )
    );
}

#[test]
fn lib_test_parseshortmsgs() {
    let mut buffer = Buffer::new();
    buffer.load(&[0x04, 0x81, 0x7a, 0xff]);
    assert_eq!(popIBusMsg(&buffer), (Some(IBusMsg::DiscoveryRequest(0x01)), 4));
    buffer.clear();
    buffer.load(&[0x04, 0x92, 0x69, 0xff]);
    assert_eq!(popIBusMsg(&buffer), (Some(IBusMsg::TypeRequest(0x02)), 4));
    buffer.clear();
    buffer.load(&[0x04, 0xa3, 0x58, 0xff]);
    assert_eq!(popIBusMsg(&buffer), (Some(IBusMsg::ValueRequest(0x03)), 4));
    buffer.clear();
}

#[test]
fn test_resync_recovery() {
    // An invalid leading length byte costs exactly one discarded byte, after
    // which the frame behind it decodes normally.
    let mut buffer = Buffer::new();
    buffer.load(&[0x00, 0x04, 0x81, 0x7A, 0xFF]);
    assert_eq!(popIBusMsg(&buffer), (None, 1));
    buffer.pop();
    assert_eq!(popIBusMsg(&buffer), (Some(IBusMsg::DiscoveryRequest(0x1)), 4));
}

#[test]
fn test_incomplete_frame_wait() {
    // A frame that declares four bytes but has only three: the decoder asks
    // the caller to wait and the buffer is left untouched.
    let mut buffer = Buffer::new();
    buffer.load(&[0x04, 0x81, 0x7A]);
    assert_eq!(popIBusMsg(&buffer), (None, 0));
    assert_eq!(buffer.len(), 3);
    assert_eq!(buffer.index(0), 0x04);
    assert_eq!(buffer.index(1), 0x81);
    assert_eq!(buffer.index(2), 0x7A);
}

#[test]
fn test_value_request_short_frame() {
    let mut buffer = Buffer::new();
    buffer.load(&[0x04, 0xA3, 0x58, 0xFF]);
    assert_eq!(popIBusMsg(&buffer), (Some(IBusMsg::ValueRequest(0x3)), 4));
}

#[test]
fn test_set_frame_short_payload() {
    // An eight-byte set frame carries two channel values; the other twelve
    // slots stay zero.  Checksum: 0xffff - 8 - 0x41 - 0xe8 - 3 - 0xd0 - 7 = 0xfdf4.
    let mut buffer = Buffer::new();
    buffer.load(&[0x08, 0x41, 0xE8, 0x03, 0xD0, 0x07, 0xF4, 0xFD]);
    assert_eq!(
        popIBusMsg(&buffer),
        (
            Some(IBusMsg::SetMsg([0x3E8, 0x7D0, 0, 0, 0, 0, 0, 0, 0, 0, 0, 0, 0, 0])),
            8
        )
    );
}
