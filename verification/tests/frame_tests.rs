use fress_guest::frame::{announced, frame, try_frame, unframe, HEADER_LEN, MAX_PAYLOAD};

#[test]
fn the_header_is_the_length_least_significant_byte_first() {
    assert_eq!(frame(&[]), vec![0, 0, 0, 0]);
    assert_eq!(frame(&[7, 8, 9]), vec![3, 0, 0, 0, 7, 8, 9]);
    let long = vec![1u8; 0x0102];
    let buffer = frame(&long);
    assert_eq!(buffer[..4], [0x02, 0x01, 0, 0]);
    assert_eq!(buffer.len(), long.len() + HEADER_LEN);
    assert_eq!(announced(&buffer), 0x0102);
}

#[test]
fn unframe_gives_the_payload_back() {
    for payload in [vec![], vec![0xFFu8], vec![5u8; 300]] {
        assert_eq!(unframe(&frame(&payload)), Some(payload.clone()));
        assert_eq!(try_frame(&payload), Some(frame(&payload)));
    }
}

#[test]
fn unframe_refuses_a_header_that_counts_wrongly() {
    assert_eq!(unframe(&[]), None);
    assert_eq!(unframe(&[0, 0, 0]), None);
    assert_eq!(unframe(&[1, 0, 0, 0]), None);
    assert_eq!(unframe(&[1, 0, 0, 0, 9, 9]), None);
    assert_eq!(unframe(&[0, 0, 0, 1, 9]), None);
}

#[test]
fn the_payload_limit_leaves_room_for_the_header() {
    assert_eq!(MAX_PAYLOAD as u64 + HEADER_LEN as u64, u32::MAX as u64);
}
