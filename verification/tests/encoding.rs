use ws2812_spi::driver::CommLayer;
use ws2812_spi::recording::RecordingPort;

/// The symbol triplet a channel byte must come out as: each data bit, most
/// significant first, widened to `110` (for 1) or `100` (for 0).
fn expected_symbol(b: u8) -> [u8; 3] {
    let mut acc: u32 = 0;
    let mut d = b;
    for _ in 0..8 {
        let pattern: u32 = if d & 0x80 == 0x80 { 0b110 } else { 0b100 };
        acc = (acc << 3) | pattern;
        d <<= 1;
    }
    [(acc >> 16) as u8, (acc >> 8) as u8, acc as u8]
}

#[test]
fn encode_zero_byte() {
    let mut cl = CommLayer::new(RecordingPort::new());
    cl.write_byte(0x00).unwrap();
    assert_eq!(cl.port().sent, vec![0b10010010, 0b01001001, 0b00100100]);
}

#[test]
fn encode_full_byte() {
    let mut cl = CommLayer::new(RecordingPort::new());
    cl.write_byte(0xFF).unwrap();
    assert_eq!(cl.port().sent, vec![0b11011011, 0b01101101, 0b10110110]);
}

#[test]
fn encode_alternating_byte() {
    let mut cl = CommLayer::new(RecordingPort::new());
    cl.write_byte(0xAA).unwrap();
    assert_eq!(cl.port().sent, vec![0b11010011, 0b01001101, 0b00110100]);
}

#[test]
fn encode_every_byte_gives_three_patterned_bytes() {
    for b in 0..=255u8 {
        let mut cl = CommLayer::new(RecordingPort::new());
        cl.write_byte(b).unwrap();
        let sent = &cl.port().sent;
        assert_eq!(sent.len(), 3);
        assert_eq!(sent[..], expected_symbol(b));
        let bits: u32 =
            ((sent[0] as u32) << 16) | ((sent[1] as u32) << 8) | (sent[2] as u32);
        for i in 0..8u32 {
            let group = (bits >> (3 * i)) & 0b111;
            let expected = if (b >> i) & 1 == 1 { 0b110 } else { 0b100 };
            assert_eq!(group, expected, "byte {b}, bit {i}");
        }
    }
}

#[test]
fn flush_sends_twenty_zero_bytes() {
    let mut cl = CommLayer::new(RecordingPort::new());
    cl.flush().unwrap();
    assert_eq!(cl.port().sent, vec![0u8; 20]);
}

#[test]
fn write_byte_surfaces_port_error_after_prefix() {
    let mut cl = CommLayer::new(RecordingPort::failing_after(1, 7));
    assert_eq!(cl.write_byte(0xFF), Err(7));
    assert_eq!(cl.port().sent, vec![0b11011011]);
}

#[test]
fn flush_aborts_on_first_failure() {
    let mut cl = CommLayer::new(RecordingPort::failing_after(4, 3));
    assert_eq!(cl.flush(), Err(3));
    assert_eq!(cl.port().sent, vec![0u8; 4]);
}
