use ws2812_spi::color::Rgb8;
use ws2812_spi::color::Rgbw8;
use ws2812_spi::driver::Sk6812w;
use ws2812_spi::driver::Ws2812;
use ws2812_spi::recording::RecordingPort;

/// The symbol triplet a channel byte must come out as.
fn expected_symbol(b: u8) -> [u8; 3] {
    let mut acc: u32 = 0;
    let mut d = b;
    for _ in 0..8 {
        let pattern: u32 = if d & 0x80 == 0x80 { 0b110 } else { 0b100 };
        acc = (acc << 3) | pattern;
        d <<= 1;
    }
    [(acc >> 16) as u8, (acc >> 8) as u8, acc as u8]
}

/// The wire bytes of one 3-channel pixel: green, red, blue.
fn expected_rgb_pixel(c: Rgb8) -> Vec<u8> {
    let mut out = Vec::new();
    for ch in [c.g, c.r, c.b] {
        out.extend_from_slice(&expected_symbol(ch));
    }
    out
}

/// The wire bytes of one 4-channel pixel: green, red, blue, white.
fn expected_rgbw_pixel(c: Rgbw8) -> Vec<u8> {
    let mut out = Vec::new();
    for ch in [c.g, c.r, c.b, c.w] {
        out.extend_from_slice(&expected_symbol(ch));
    }
    out
}

#[test]
fn ws2812_write_transmits_nine_bytes_per_pixel_plus_reset() {
    for n in [0usize, 1, 2, 5, 16] {
        let mut strip = Ws2812::new(RecordingPort::new());
        let colors = vec![Rgb8::new(10, 20, 30); n];
        strip.write(&colors).unwrap();
        assert_eq!(strip.port().sent.len(), n * 9 + 20);
    }
}

#[test]
fn sk6812w_write_transmits_twelve_bytes_per_pixel_plus_reset() {
    for n in [0usize, 1, 2, 5, 16] {
        let mut strip = Sk6812w::new(RecordingPort::new());
        let colors = vec![Rgbw8::new(10, 20, 30, 40); n];
        strip.write(&colors).unwrap();
        assert_eq!(strip.port().sent.len(), n * 12 + 20);
    }
}

#[test]
fn ws2812_channel_order_is_green_red_blue() {
    let mut strip = Ws2812::new(RecordingPort::new());
    strip.write(&[Rgb8::new(1, 2, 3)]).unwrap();
    let mut expected = Vec::new();
    expected.extend_from_slice(&expected_symbol(2));
    expected.extend_from_slice(&expected_symbol(1));
    expected.extend_from_slice(&expected_symbol(3));
    expected.extend_from_slice(&[0u8; 20]);
    assert_eq!(strip.port().sent, expected);
}

#[test]
fn sk6812w_channel_order_is_green_red_blue_white() {
    let mut strip = Sk6812w::new(RecordingPort::new());
    strip.write(&[Rgbw8::new(1, 2, 3, 4)]).unwrap();
    let mut expected = Vec::new();
    expected.extend_from_slice(&expected_symbol(2));
    expected.extend_from_slice(&expected_symbol(1));
    expected.extend_from_slice(&expected_symbol(3));
    expected.extend_from_slice(&expected_symbol(4));
    expected.extend_from_slice(&[0u8; 20]);
    assert_eq!(strip.port().sent, expected);
}

#[test]
fn ws2812_multi_pixel_frame_is_pixels_then_reset() {
    let colors = [Rgb8::new(255, 0, 0), Rgb8::new(0, 255, 0), Rgb8::new(9, 8, 7)];
    let mut strip = Ws2812::new(RecordingPort::new());
    strip.write(&colors).unwrap();
    let mut expected = Vec::new();
    for c in colors {
        expected.extend_from_slice(&expected_rgb_pixel(c));
    }
    expected.extend_from_slice(&[0u8; 20]);
    assert_eq!(strip.port().sent, expected);
}

#[test]
fn ws2812_write_stops_at_failing_transfer() {
    // The port fails on the 13th byte: the 4th channel byte overall, i.e.
    // the 1st byte of the red channel of the 2nd pixel.
    let colors = [Rgb8::new(1, 2, 3), Rgb8::new(4, 5, 6), Rgb8::new(7, 8, 9)];
    let mut strip = Ws2812::new(RecordingPort::failing_after(12, 9));
    assert_eq!(strip.write(&colors), Err(9));
    let mut expected = Vec::new();
    expected.extend_from_slice(&expected_rgb_pixel(colors[0]));
    expected.extend_from_slice(&expected_symbol(colors[1].g));
    assert_eq!(strip.port().sent, expected);
}

#[test]
fn sk6812w_write_stops_at_failing_transfer() {
    // One 4-channel pixel is 12 bytes; fail on the last (white) channel.
    let colors = [Rgbw8::new(1, 2, 3, 4), Rgbw8::new(5, 6, 7, 8)];
    let mut strip = Sk6812w::new(RecordingPort::failing_after(10, 5));
    assert_eq!(strip.write(&colors), Err(5));
    let sent = &strip.port().sent;
    assert_eq!(sent.len(), 10);
    assert_eq!(sent[..], expected_rgbw_pixel(colors[0])[..10]);
}

#[test]
fn empty_write_with_idle_high_sends_two_flushes() {
    let mut strip = Ws2812::new_mosi_idle_high(RecordingPort::new());
    strip.write(&[]).unwrap();
    assert_eq!(strip.port().sent, vec![0u8; 40]);
}

#[test]
fn empty_write_without_idle_high_sends_one_flush() {
    let mut strip = Ws2812::new(RecordingPort::new());
    strip.write(&[]).unwrap();
    assert_eq!(strip.port().sent, vec![0u8; 20]);
}

#[test]
fn sk6812w_empty_write_with_idle_high_sends_two_flushes() {
    let mut strip = Sk6812w::new_mosi_idle_high(RecordingPort::new());
    strip.write(&[]).unwrap();
    assert_eq!(strip.port().sent, vec![0u8; 40]);
}

#[test]
fn idle_high_pre_flush_comes_before_pixel_data() {
    let mut strip = Ws2812::new_mosi_idle_high(RecordingPort::new());
    strip.write(&[Rgb8::new(1, 2, 3)]).unwrap();
    let mut expected = vec![0u8; 20];
    expected.extend_from_slice(&expected_rgb_pixel(Rgb8::new(1, 2, 3)));
    expected.extend_from_slice(&[0u8; 20]);
    assert_eq!(strip.port().sent, expected);
}

#[test]
fn idle_high_failing_pre_flush_aborts_before_pixel_data() {
    let mut strip = Ws2812::new_mosi_idle_high(RecordingPort::failing_after(0, 1));
    assert_eq!(strip.write(&[Rgb8::new(1, 2, 3)]), Err(1));
    assert!(strip.port().sent.is_empty());
}

#[test]
fn busy_port_is_retried_until_ready() {
    let mut strip = Ws2812::new(RecordingPort::busy_at_first(5));
    strip.write(&[Rgb8::new(1, 2, 3)]).unwrap();
    let mut expected = expected_rgb_pixel(Rgb8::new(1, 2, 3));
    expected.extend_from_slice(&[0u8; 20]);
    assert_eq!(strip.port().sent, expected);
}
