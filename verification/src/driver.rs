//! The communication layer (symbol transmission and flush) and the per-strip
//! drivers with their fixed channel orders.

use vstd::prelude::*;

use crate::color::Rgb8;
use crate::color::Rgbw8;
use crate::encoding::encode_byte;
use crate::encoding::reset_seq;
use crate::encoding::symbol_seq;
use crate::encoding::zeros;
use crate::encoding::RESET_BYTES;
use crate::port::drain;
use crate::port::send_blocking;
use crate::port::SpiPort;
use crate::prefix::is_prefix_of;
use crate::prefix::lemma_concat_prefix;
use crate::prefix::lemma_prefix_of_concat;
use crate::prefix::lemma_prefix_trans;
use crate::prefix::lemma_take_is_prefix;

verus! {

/// The internal communication layer: pushes encoded symbol bytes and flushes
/// through the port, draining stale receive state between transfers.
pub struct CommLayer<SPI> {
    spi: SPI,
}

impl<SPI: SpiPort> CommLayer<SPI> {
    /// The bytes this layer has put on the wire so far.
    pub closed spec fn wire(&self) -> Seq<u8> {
        self.spi.wire()
    }

    /// Wrap a port. It should be clocked at 3 MHz for WS2812 strips and
    /// 4 MHz for SK6812-W strips, or the pulse widths come out wrong.
    pub fn new(spi: SPI) -> (r: Self)
        ensures
            r.wire() == spi.wire(),
    {
        CommLayer { spi }
    }

    /// Borrow the underlying port, e.g. to inspect a recording port.
    pub fn port(&self) -> (r: &SPI)
        ensures
            r.wire() == self.wire(),
    {
        &self.spi
    }

    /// Encode one channel byte and transmit its three wire bytes, most
    /// significant first, draining after the first and second transfer.
    /// On failure the error is surfaced unchanged and only a proper prefix
    /// of the three bytes is on the wire.
    pub fn write_byte(&mut self, data: u8) -> (r: Result<(), SPI::Error>)
        ensures
            r is Ok ==> final(self).wire() == old(self).wire() + symbol_seq(data),
            r is Err ==> (exists|k: int|
                0 <= k < 3 && final(self).wire() == old(self).wire() + symbol_seq(data).take(k)),
            r is Err ==> final(self).wire().len() < old(self).wire().len() + 3,
    {
        let acc: u32 = encode_byte(data);
        let b0: u8 = ((acc >> 16) & 0xff) as u8;
        let b1: u8 = ((acc >> 8) & 0xff) as u8;
        let b2: u8 = (acc & 0xff) as u8;
        proof {
            assert(symbol_seq(data) =~= seq![b0, b1, b2]);
        }
        match send_blocking(&mut self.spi, b0) {
            Ok(()) => {},
            Err(e) => {
                proof {
                    assert(symbol_seq(data).take(0) =~= Seq::<u8>::empty());
                    assert(self.wire() =~= old(self).wire() + symbol_seq(data).take(0));
                }
                return Err(e);
            },
        }
        drain(&mut self.spi);
        match send_blocking(&mut self.spi, b1) {
            Ok(()) => {},
            Err(e) => {
                proof {
                    assert(self.wire() =~= old(self).wire() + symbol_seq(data).take(1));
                }
                return Err(e);
            },
        }
        drain(&mut self.spi);
        match send_blocking(&mut self.spi, b2) {
            Ok(()) => {},
            Err(e) => {
                proof {
                    assert(self.wire() =~= old(self).wire() + symbol_seq(data).take(2));
                }
                return Err(e);
            },
        }
        proof {
            assert(self.wire() =~= old(self).wire() + symbol_seq(data));
        }
        Ok(())
    }

    /// Emit the reset/latch flush: `RESET_BYTES` zero bytes, each followed by
    /// a drain. Aborts on the first transfer failure, leaving only the zero
    /// bytes already accepted on the wire.
    pub fn flush(&mut self) -> (r: Result<(), SPI::Error>)
        ensures
            r is Ok ==> final(self).wire() == old(self).wire() + reset_seq(),
            r is Err ==> (exists|k: nat|
                k < RESET_BYTES && final(self).wire() == old(self).wire() + #[trigger] zeros(k)),
            r is Err ==> final(self).wire().len() < old(self).wire().len() + RESET_BYTES,
    {
        let mut i: usize = 0;
        proof {
            assert(self.wire() =~= old(self).wire() + zeros(0));
        }
        while i < RESET_BYTES
            invariant
                i <= RESET_BYTES,
                self.wire() == old(self).wire() + zeros(i as nat),
            decreases RESET_BYTES - i,
        {
            match send_blocking(&mut self.spi, 0u8) {
                Ok(()) => {},
                Err(e) => {
                    proof {
                        assert(self.wire() == old(self).wire() + zeros(i as nat));
                    }
                    return Err(e);
                },
            }
            drain(&mut self.spi);
            proof {
                assert(zeros((i + 1) as nat) =~= zeros(i as nat).push(0u8));
                assert(self.wire() =~= old(self).wire() + zeros((i + 1) as nat));
            }
            i = i + 1;
        }
        proof {
            assert(zeros(RESET_BYTES as nat) == reset_seq());
        }
        Ok(())
    }
}

/// Wire bytes of one 3-channel pixel, in protocol order green, red, blue.
pub open spec fn rgb_pixel_bytes(c: Rgb8) -> Seq<u8> {
    symbol_seq(c.g) + symbol_seq(c.r) + symbol_seq(c.b)
}

/// Wire bytes of a 3-channel pixel sequence, in order.
pub open spec fn rgb_frame(colors: Seq<Rgb8>) -> Seq<u8>
    decreases colors.len(),
{
    if colors.len() == 0 {
        Seq::empty()
    } else {
        rgb_frame(colors.drop_last()) + rgb_pixel_bytes(colors.last())
    }
}

/// Everything one 3-channel write call puts on the wire: the optional
/// idle-high pre-flush, each pixel's channel bytes in order, and the
/// latching flush.
pub open spec fn rgb_write_bytes(pre_flush: bool, colors: Seq<Rgb8>) -> Seq<u8> {
    (if pre_flush {
        reset_seq()
    } else {
        Seq::<u8>::empty()
    }) + rgb_frame(colors) + reset_seq()
}

/// Law: a 3-channel frame is exactly 9 wire bytes per pixel.
pub proof fn lemma_rgb_frame_len(colors: Seq<Rgb8>)
    ensures
        rgb_frame(colors).len() == 9 * colors.len(),
    decreases colors.len(),
{
    if colors.len() > 0 {
        lemma_rgb_frame_len(colors.drop_last());
    }
}

/// Taking one more pixel appends exactly that pixel's channel bytes.
proof fn lemma_rgb_frame_take_succ(colors: Seq<Rgb8>, i: int)
    requires
        0 <= i < colors.len(),
    ensures
        rgb_frame(colors.take(i + 1)) == rgb_frame(colors.take(i)) + rgb_pixel_bytes(colors[i]),
{
    assert(colors.take(i + 1).drop_last() =~= colors.take(i));
    assert(colors.take(i + 1).last() == colors[i]);
}

/// The frame of the first pixels is a prefix of the whole frame.
proof fn lemma_rgb_frame_take_prefix(colors: Seq<Rgb8>, i: int)
    requires
        0 <= i <= colors.len(),
    ensures
        is_prefix_of(rgb_frame(colors.take(i)), rgb_frame(colors)),
    decreases colors.len() - i,
{
    if i == colors.len() {
        assert(colors.take(i) =~= colors);
        assert(rgb_frame(colors) =~= rgb_frame(colors).take(rgb_frame(colors).len() as int));
    } else {
        lemma_rgb_frame_take_succ(colors, i);
        lemma_prefix_of_concat(rgb_frame(colors.take(i)), rgb_pixel_bytes(colors[i]));
        lemma_rgb_frame_take_prefix(colors, i + 1);
        lemma_prefix_trans(
            rgb_frame(colors.take(i)),
            rgb_frame(colors.take(i + 1)),
            rgb_frame(colors),
        );
    }
}

/// Driver for strings of WS2812 LEDs (3 channels, green-red-blue). The port
/// should be clocked at ~3 MHz.
pub struct Ws2812<SPI> {
    comms: CommLayer<SPI>,
    idle_high: bool,
}

impl<SPI: SpiPort> Ws2812<SPI> {
    /// The bytes this driver has put on the wire so far.
    pub closed spec fn wire(&self) -> Seq<u8> {
        self.comms.wire()
    }

    /// Whether the port's data line idles high, so that every write must
    /// start with a flush forcing it to the protocol's idle-low polarity.
    pub closed spec fn mosi_idle_high(&self) -> bool {
        self.idle_high
    }

    /// Create a strip driver from the provided port. The port should be
    /// running at 3 MHz, with an idle-low data line.
    pub fn new(spi: SPI) -> (r: Self)
        ensures
            r.wire() == spi.wire(),
            !r.mosi_idle_high(),
    {
        Ws2812 { comms: CommLayer::new(spi), idle_high: false }
    }

    /// Like [`Ws2812::new`], for a port whose data line idles high: every
    /// write then starts with an extra flush to settle the line low.
    pub fn new_mosi_idle_high(spi: SPI) -> (r: Self)
        ensures
            r.wire() == spi.wire(),
            r.mosi_idle_high(),
    {
        Ws2812 { comms: CommLayer::new(spi), idle_high: true }
    }

    /// Borrow the underlying port, e.g. to inspect a recording port.
    pub fn port(&self) -> (r: &SPI)
        ensures
            r.wire() == self.wire(),
    {
        self.comms.port()
    }

    /// Write one pixel's channel bytes in protocol order green, red, blue.
    fn write_pixel(&mut self, c: Rgb8) -> (r: Result<(), SPI::Error>)
        ensures
            final(self).mosi_idle_high() == old(self).mosi_idle_high(),
            r is Ok ==> final(self).wire() == old(self).wire() + rgb_pixel_bytes(c),
            r is Err ==> is_prefix_of(old(self).wire(), final(self).wire()) && is_prefix_of(
                final(self).wire(),
                old(self).wire() + rgb_pixel_bytes(c),
            ),
            r is Err ==> final(self).wire().len() < old(self).wire().len() + 9,
    {
        let ghost w0: Seq<u8> = self.wire();
        match self.comms.write_byte(c.g) {
            Ok(()) => {},
            Err(e) => {
                proof {
                    let k = choose|k: int|
                        0 <= k < 3 && self.wire() == w0 + symbol_seq(c.g).take(k);
                    lemma_prefix_of_concat(w0, symbol_seq(c.g).take(k));
                    lemma_take_is_prefix(symbol_seq(c.g), k);
                    lemma_prefix_of_concat(symbol_seq(c.g), symbol_seq(c.r) + symbol_seq(c.b));
                    assert(symbol_seq(c.g) + (symbol_seq(c.r) + symbol_seq(c.b)) =~= rgb_pixel_bytes(c));
                    lemma_prefix_trans(symbol_seq(c.g).take(k), symbol_seq(c.g), rgb_pixel_bytes(c));
                    lemma_concat_prefix(w0, symbol_seq(c.g).take(k), rgb_pixel_bytes(c));
                }
                return Err(e);
            },
        }
        match self.comms.write_byte(c.r) {
            Ok(()) => {},
            Err(e) => {
                proof {
                    let k = choose|k: int|
                        0 <= k < 3 && self.wire() == (w0 + symbol_seq(c.g)) + symbol_seq(c.r).take(k);
                    assert(self.wire() =~= w0 + (symbol_seq(c.g) + symbol_seq(c.r).take(k)));
                    lemma_prefix_of_concat(w0, symbol_seq(c.g) + symbol_seq(c.r).take(k));
                    lemma_take_is_prefix(symbol_seq(c.r), k);
                    lemma_concat_prefix(symbol_seq(c.g), symbol_seq(c.r).take(k), symbol_seq(c.r));
                    lemma_prefix_of_concat(symbol_seq(c.g) + symbol_seq(c.r), symbol_seq(c.b));
                    lemma_prefix_trans(
                        symbol_seq(c.g) + symbol_seq(c.r).take(k),
                        symbol_seq(c.g) + symbol_seq(c.r),
                        rgb_pixel_bytes(c),
                    );
                    lemma_concat_prefix(
                        w0,
                        symbol_seq(c.g) + symbol_seq(c.r).take(k),
                        rgb_pixel_bytes(c),
                    );
                }
                return Err(e);
            },
        }
        match self.comms.write_byte(c.b) {
            Ok(()) => {},
            Err(e) => {
                proof {
                    let k = choose|k: int|
                        0 <= k < 3 && self.wire() == ((w0 + symbol_seq(c.g)) + symbol_seq(c.r))
                            + symbol_seq(c.b).take(k);
                    assert(self.wire() =~= w0 + ((symbol_seq(c.g) + symbol_seq(c.r))
                        + symbol_seq(c.b).take(k)));
                    lemma_prefix_of_concat(
                        w0,
                        (symbol_seq(c.g) + symbol_seq(c.r)) + symbol_seq(c.b).take(k),
                    );
                    lemma_take_is_prefix(symbol_seq(c.b), k);
                    lemma_concat_prefix(
                        symbol_seq(c.g) + symbol_seq(c.r),
                        symbol_seq(c.b).take(k),
                        symbol_seq(c.b),
                    );
                    lemma_concat_prefix(
                        w0,
                        (symbol_seq(c.g) + symbol_seq(c.r)) + symbol_seq(c.b).take(k),
                        rgb_pixel_bytes(c),
                    );
                }
                return Err(e);
            },
        }
        proof {
            assert(self.wire() =~= w0 + rgb_pixel_bytes(c));
        }
        Ok(())
    }

    /// Write a whole frame to the strip: the idle-high pre-flush if
    /// configured, every color's channel bytes in order, then the latching
    /// flush. Consumes the colors in order, exactly once; aborts on the
    /// first transfer failure and surfaces the port's error unchanged, with
    /// only a prefix of the frame on the wire.
    pub fn write(&mut self, colors: &[Rgb8]) -> (r: Result<(), SPI::Error>)
        ensures
            final(self).mosi_idle_high() == old(self).mosi_idle_high(),
            r is Ok ==> final(self).wire() == old(self).wire() + rgb_write_bytes(
                old(self).mosi_idle_high(),
                colors@,
            ),
            r is Ok ==> final(self).wire().len() == old(self).wire().len() + colors@.len() * 9 + (
            if old(self).mosi_idle_high() {
                2 * RESET_BYTES
            } else {
                RESET_BYTES as int
            }),
            r is Err ==> is_prefix_of(old(self).wire(), final(self).wire()) && is_prefix_of(
                final(self).wire(),
                old(self).wire() + rgb_write_bytes(old(self).mosi_idle_high(), colors@),
            ),
            r is Err ==> final(self).wire().len() < old(self).wire().len() + rgb_write_bytes(
                old(self).mosi_idle_high(),
                colors@,
            ).len(),
    {
        let ghost w0: Seq<u8> = self.wire();
        let ghost pre: Seq<u8> = if self.idle_high {
            reset_seq()
        } else {
            Seq::<u8>::empty()
        };
        let ghost full: Seq<u8> = w0 + rgb_write_bytes(self.idle_high, colors@);
        proof {
            assert(full =~= ((w0 + pre) + rgb_frame(colors@)) + reset_seq());
        }
        if self.idle_high {
            match self.comms.flush() {
                Ok(()) => {},
                Err(e) => {
                    proof {
                        let k = choose|k: nat| k < RESET_BYTES && self.wire() == w0 + zeros(k);
                        lemma_prefix_of_concat(w0, zeros(k));
                        assert(zeros(k) =~= reset_seq().take(k as int));
                        lemma_take_is_prefix(reset_seq(), k as int);
                        lemma_prefix_of_concat(reset_seq(), rgb_frame(colors@) + reset_seq());
                        assert(reset_seq() + (rgb_frame(colors@) + reset_seq()) =~= rgb_write_bytes(
                            true,
                            colors@,
                        ));
                        lemma_prefix_trans(zeros(k), reset_seq(), rgb_write_bytes(true, colors@));
                        lemma_concat_prefix(w0, zeros(k), rgb_write_bytes(true, colors@));
                    }
                    return Err(e);
                },
            }
        }
        proof {
            assert(self.wire() =~= (w0 + pre) + rgb_frame(colors@.take(0)));
        }
        let mut i: usize = 0;
        while i < colors.len()
            invariant
                i <= colors@.len(),
                self.idle_high == old(self).idle_high,
                w0 == old(self).wire(),
                pre == (if old(self).idle_high {
                    reset_seq()
                } else {
                    Seq::<u8>::empty()
                }),
                full == w0 + rgb_write_bytes(old(self).idle_high, colors@),
                full == ((w0 + pre) + rgb_frame(colors@)) + reset_seq(),
                self.wire() == (w0 + pre) + rgb_frame(colors@.take(i as int)),
            decreases colors@.len() - i,
        {
            let ghost wi: Seq<u8> = self.wire();
            match self.write_pixel(colors[i]) {
                Ok(()) => {},
                Err(e) => {
                    proof {
                        lemma_prefix_of_concat(w0, pre + rgb_frame(colors@.take(i as int)));
                        assert(w0 + (pre + rgb_frame(colors@.take(i as int))) =~= wi);
                        lemma_prefix_trans(w0, wi, self.wire());
                        lemma_rgb_frame_take_succ(colors@, i as int);
                        assert(wi + rgb_pixel_bytes(colors@[i as int]) =~= (w0 + pre) + rgb_frame(
                            colors@.take(i as int + 1),
                        ));
                        lemma_rgb_frame_take_prefix(colors@, i as int + 1);
                        lemma_concat_prefix(
                            w0 + pre,
                            rgb_frame(colors@.take(i as int + 1)),
                            rgb_frame(colors@),
                        );
                        lemma_prefix_of_concat((w0 + pre) + rgb_frame(colors@), reset_seq());
                        lemma_prefix_trans(
                            self.wire(),
                            wi + rgb_pixel_bytes(colors@[i as int]),
                            (w0 + pre) + rgb_frame(colors@),
                        );
                        lemma_prefix_trans(
                            self.wire(),
                            (w0 + pre) + rgb_frame(colors@),
                            full,
                        );
                        lemma_rgb_frame_len(colors@);
                        lemma_rgb_frame_len(colors@.take(i as int));
                    }
                    return Err(e);
                },
            }
            proof {
                lemma_rgb_frame_take_succ(colors@, i as int);
                assert(self.wire() =~= (w0 + pre) + rgb_frame(colors@.take(i as int + 1)));
            }
            i = i + 1;
        }
        proof {
            assert(colors@.take(colors@.len() as int) =~= colors@);
        }
        let ghost wn: Seq<u8> = self.wire();
        match self.comms.flush() {
            Ok(()) => {},
            Err(e) => {
                proof {
                    let k = choose|k: nat| k < RESET_BYTES && self.wire() == wn + zeros(k);
                    lemma_prefix_of_concat(w0, pre + rgb_frame(colors@));
                    assert(w0 + (pre + rgb_frame(colors@)) =~= wn);
                    lemma_prefix_of_concat(wn, zeros(k));
                    lemma_prefix_trans(w0, wn, self.wire());
                    assert(zeros(k) =~= reset_seq().take(k as int));
                    lemma_take_is_prefix(reset_seq(), k as int);
                    lemma_concat_prefix(wn, zeros(k), reset_seq());
                    assert(wn + reset_seq() =~= full);
                    assert(full =~= full.take(full.len() as int));
                    lemma_prefix_trans(self.wire(), wn + reset_seq(), full);
                }
                return Err(e);
            },
        }
        proof {
            assert(self.wire() =~= full);
            lemma_rgb_frame_len(colors@);
        }
        Ok(())
    }
}

/// Wire bytes of one 4-channel pixel, in protocol order green, red, blue,
/// white.
pub open spec fn rgbw_pixel_bytes(c: Rgbw8) -> Seq<u8> {
    symbol_seq(c.g) + symbol_seq(c.r) + symbol_seq(c.b) + symbol_seq(c.w)
}

/// Wire bytes of a 4-channel pixel sequence, in order.
pub open spec fn rgbw_frame(colors: Seq<Rgbw8>) -> Seq<u8>
    decreases colors.len(),
{
    if colors.len() == 0 {
        Seq::empty()
    } else {
        rgbw_frame(colors.drop_last()) + rgbw_pixel_bytes(colors.last())
    }
}

/// Everything one 4-channel write call puts on the wire: the optional
/// idle-high pre-flush, each pixel's channel bytes in order, and the
/// latching flush.
pub open spec fn rgbw_write_bytes(pre_flush: bool, colors: Seq<Rgbw8>) -> Seq<u8> {
    (if pre_flush {
        reset_seq()
    } else {
        Seq::<u8>::empty()
    }) + rgbw_frame(colors) + reset_seq()
}

/// Law: a 4-channel frame is exactly 12 wire bytes per pixel.
pub proof fn lemma_rgbw_frame_len(colors: Seq<Rgbw8>)
    ensures
        rgbw_frame(colors).len() == 12 * colors.len(),
    decreases colors.len(),
{
    if colors.len() > 0 {
        lemma_rgbw_frame_len(colors.drop_last());
    }
}

/// Taking one more pixel appends exactly that pixel's channel bytes.
proof fn lemma_rgbw_frame_take_succ(colors: Seq<Rgbw8>, i: int)
    requires
        0 <= i < colors.len(),
    ensures
        rgbw_frame(colors.take(i + 1)) == rgbw_frame(colors.take(i)) + rgbw_pixel_bytes(colors[i]),
{
    assert(colors.take(i + 1).drop_last() =~= colors.take(i));
    assert(colors.take(i + 1).last() == colors[i]);
}

/// The frame of the first pixels is a prefix of the whole frame.
proof fn lemma_rgbw_frame_take_prefix(colors: Seq<Rgbw8>, i: int)
    requires
        0 <= i <= colors.len(),
    ensures
        is_prefix_of(rgbw_frame(colors.take(i)), rgbw_frame(colors)),
    decreases colors.len() - i,
{
    if i == colors.len() {
        assert(colors.take(i) =~= colors);
        assert(rgbw_frame(colors) =~= rgbw_frame(colors).take(rgbw_frame(colors).len() as int));
    } else {
        lemma_rgbw_frame_take_succ(colors, i);
        lemma_prefix_of_concat(rgbw_frame(colors.take(i)), rgbw_pixel_bytes(colors[i]));
        lemma_rgbw_frame_take_prefix(colors, i + 1);
        lemma_prefix_trans(
            rgbw_frame(colors.take(i)),
            rgbw_frame(colors.take(i + 1)),
            rgbw_frame(colors),
        );
    }
}

/// Driver for strings of SK6812-W LEDs (4 channels, green-red-blue-white).
/// The port should be clocked at ~4 MHz.
pub struct Sk6812w<SPI> {
    comms: CommLayer<SPI>,
    idle_high: bool,
}

impl<SPI: SpiPort> Sk6812w<SPI> {
    /// The bytes this driver has put on the wire so far.
    pub closed spec fn wire(&self) -> Seq<u8> {
        self.comms.wire()
    }

    /// Whether the port's data line idles high, so that every write must
    /// start with a flush forcing it to the protocol's idle-low polarity.
    pub closed spec fn mosi_idle_high(&self) -> bool {
        self.idle_high
    }

    /// Create a strip driver from the provided port. The port should be
    /// running at 4 MHz, with an idle-low data line.
    pub fn new(spi: SPI) -> (r: Self)
        ensures
            r.wire() == spi.wire(),
            !r.mosi_idle_high(),
    {
        Sk6812w { comms: CommLayer::new(spi), idle_high: false }
    }

    /// Like [`Sk6812w::new`], for a port whose data line idles high: every
    /// write then starts with an extra flush to settle the line low.
    pub fn new_mosi_idle_high(spi: SPI) -> (r: Self)
        ensures
            r.wire() == spi.wire(),
            r.mosi_idle_high(),
    {
        Sk6812w { comms: CommLayer::new(spi), idle_high: true }
    }

    /// Borrow the underlying port, e.g. to inspect a recording port.
    pub fn port(&self) -> (r: &SPI)
        ensures
            r.wire() == self.wire(),
    {
        self.comms.port()
    }

    /// Write one pixel's channel bytes in protocol order green, red, blue,
    /// white.
    fn write_pixel(&mut self, c: Rgbw8) -> (r: Result<(), SPI::Error>)
        ensures
            final(self).mosi_idle_high() == old(self).mosi_idle_high(),
            r is Ok ==> final(self).wire() == old(self).wire() + rgbw_pixel_bytes(c),
            r is Err ==> is_prefix_of(old(self).wire(), final(self).wire()) && is_prefix_of(
                final(self).wire(),
                old(self).wire() + rgbw_pixel_bytes(c),
            ),
            r is Err ==> final(self).wire().len() < old(self).wire().len() + 12,
    {
        let ghost w0: Seq<u8> = self.wire();
        match self.comms.write_byte(c.g) {
            Ok(()) => {},
            Err(e) => {
                proof {
                    let k = choose|k: int|
                        0 <= k < 3 && self.wire() == w0 + symbol_seq(c.g).take(k);
                    lemma_prefix_of_concat(w0, symbol_seq(c.g).take(k));
                    lemma_take_is_prefix(symbol_seq(c.g), k);
                    lemma_prefix_of_concat(
                        symbol_seq(c.g),
                        symbol_seq(c.r) + symbol_seq(c.b) + symbol_seq(c.w),
                    );
                    assert(symbol_seq(c.g) + (symbol_seq(c.r) + symbol_seq(c.b) + symbol_seq(c.w))
                        =~= rgbw_pixel_bytes(c));
                    lemma_prefix_trans(symbol_seq(c.g).take(k), symbol_seq(c.g), rgbw_pixel_bytes(c));
                    lemma_concat_prefix(w0, symbol_seq(c.g).take(k), rgbw_pixel_bytes(c));
                }
                return Err(e);
            },
        }
        match self.comms.write_byte(c.r) {
            Ok(()) => {},
            Err(e) => {
                proof {
                    let k = choose|k: int|
                        0 <= k < 3 && self.wire() == (w0 + symbol_seq(c.g)) + symbol_seq(c.r).take(k);
                    assert(self.wire() =~= w0 + (symbol_seq(c.g) + symbol_seq(c.r).take(k)));
                    lemma_prefix_of_concat(w0, symbol_seq(c.g) + symbol_seq(c.r).take(k));
                    lemma_take_is_prefix(symbol_seq(c.r), k);
                    lemma_concat_prefix(symbol_seq(c.g), symbol_seq(c.r).take(k), symbol_seq(c.r));
                    lemma_prefix_of_concat(
                        symbol_seq(c.g) + symbol_seq(c.r),
                        symbol_seq(c.b) + symbol_seq(c.w),
                    );
                    assert((symbol_seq(c.g) + symbol_seq(c.r)) + (symbol_seq(c.b) + symbol_seq(c.w))
                        =~= rgbw_pixel_bytes(c));
                    lemma_prefix_trans(
                        symbol_seq(c.g) + symbol_seq(c.r).take(k),
                        symbol_seq(c.g) + symbol_seq(c.r),
                        rgbw_pixel_bytes(c),
                    );
                    lemma_concat_prefix(
                        w0,
                        symbol_seq(c.g) + symbol_seq(c.r).take(k),
                        rgbw_pixel_bytes(c),
                    );
                }
                return Err(e);
            },
        }
        match self.comms.write_byte(c.b) {
            Ok(()) => {},
            Err(e) => {
                proof {
                    let k = choose|k: int|
                        0 <= k < 3 && self.wire() == ((w0 + symbol_seq(c.g)) + symbol_seq(c.r))
                            + symbol_seq(c.b).take(k);
                    assert(self.wire() =~= w0 + ((symbol_seq(c.g) + symbol_seq(c.r))
                        + symbol_seq(c.b).take(k)));
                    lemma_prefix_of_concat(
                        w0,
                        (symbol_seq(c.g) + symbol_seq(c.r)) + symbol_seq(c.b).take(k),
                    );
                    lemma_take_is_prefix(symbol_seq(c.b), k);
                    lemma_concat_prefix(
                        symbol_seq(c.g) + symbol_seq(c.r),
                        symbol_seq(c.b).take(k),
                        symbol_seq(c.b),
                    );
                    lemma_prefix_of_concat(
                        symbol_seq(c.g) + symbol_seq(c.r) + symbol_seq(c.b),
                        symbol_seq(c.w),
                    );
                    lemma_prefix_trans(
                        (symbol_seq(c.g) + symbol_seq(c.r)) + symbol_seq(c.b).take(k),
                        symbol_seq(c.g) + symbol_seq(c.r) + symbol_seq(c.b),
                        rgbw_pixel_bytes(c),
                    );
                    lemma_concat_prefix(
                        w0,
                        (symbol_seq(c.g) + symbol_seq(c.r)) + symbol_seq(c.b).take(k),
                        rgbw_pixel_bytes(c),
                    );
                }
                return Err(e);
            },
        }
        match self.comms.write_byte(c.w) {
            Ok(()) => {},
            Err(e) => {
                proof {
                    let k = choose|k: int|
                        0 <= k < 3 && self.wire() == (((w0 + symbol_seq(c.g)) + symbol_seq(c.r))
                            + symbol_seq(c.b)) + symbol_seq(c.w).take(k);
                    assert(self.wire() =~= w0 + ((symbol_seq(c.g) + symbol_seq(c.r) + symbol_seq(
                        c.b,
                    )) + symbol_seq(c.w).take(k)));
                    lemma_prefix_of_concat(
                        w0,
                        (symbol_seq(c.g) + symbol_seq(c.r) + symbol_seq(c.b)) + symbol_seq(
                            c.w,
                        ).take(k),
                    );
                    lemma_take_is_prefix(symbol_seq(c.w), k);
                    lemma_concat_prefix(
                        symbol_seq(c.g) + symbol_seq(c.r) + symbol_seq(c.b),
                        symbol_seq(c.w).take(k),
                        symbol_seq(c.w),
                    );
                    lemma_concat_prefix(
                        w0,
                        (symbol_seq(c.g) + symbol_seq(c.r) + symbol_seq(c.b)) + symbol_seq(
                            c.w,
                        ).take(k),
                        rgbw_pixel_bytes(c),
                    );
                }
                return Err(e);
            },
        }
        proof {
            assert(self.wire() =~= w0 + rgbw_pixel_bytes(c));
        }
        Ok(())
    }

    /// Write a whole frame to the strip: the idle-high pre-flush if
    /// configured, every color's channel bytes in order, then the latching
    /// flush. Consumes the colors in order, exactly once; aborts on the
    /// first transfer failure and surfaces the port's error unchanged, with
    /// only a prefix of the frame on the wire.
    pub fn write(&mut self, colors: &[Rgbw8]) -> (r: Result<(), SPI::Error>)
        ensures
            final(self).mosi_idle_high() == old(self).mosi_idle_high(),
            r is Ok ==> final(self).wire() == old(self).wire() + rgbw_write_bytes(
                old(self).mosi_idle_high(),
                colors@,
            ),
            r is Ok ==> final(self).wire().len() == old(self).wire().len() + colors@.len() * 12 + (
            if old(self).mosi_idle_high() {
                2 * RESET_BYTES
            } else {
                RESET_BYTES as int
            }),
            r is Err ==> is_prefix_of(old(self).wire(), final(self).wire()) && is_prefix_of(
                final(self).wire(),
                old(self).wire() + rgbw_write_bytes(old(self).mosi_idle_high(), colors@),
            ),
            r is Err ==> final(self).wire().len() < old(self).wire().len() + rgbw_write_bytes(
                old(self).mosi_idle_high(),
                colors@,
            ).len(),
    {
        let ghost w0: Seq<u8> = self.wire();
        let ghost pre: Seq<u8> = if self.idle_high {
            reset_seq()
        } else {
            Seq::<u8>::empty()
        };
        let ghost full: Seq<u8> = w0 + rgbw_write_bytes(self.idle_high, colors@);
        proof {
            assert(full =~= ((w0 + pre) + rgbw_frame(colors@)) + reset_seq());
        }
        if self.idle_high {
            match self.comms.flush() {
                Ok(()) => {},
                Err(e) => {
                    proof {
                        let k = choose|k: nat| k < RESET_BYTES && self.wire() == w0 + zeros(k);
                        lemma_prefix_of_concat(w0, zeros(k));
                        assert(zeros(k) =~= reset_seq().take(k as int));
                        lemma_take_is_prefix(reset_seq(), k as int);
                        lemma_prefix_of_concat(reset_seq(), rgbw_frame(colors@) + reset_seq());
                        assert(reset_seq() + (rgbw_frame(colors@) + reset_seq())
                            =~= rgbw_write_bytes(true, colors@));
                        lemma_prefix_trans(zeros(k), reset_seq(), rgbw_write_bytes(true, colors@));
                        lemma_concat_prefix(w0, zeros(k), rgbw_write_bytes(true, colors@));
                    }
                    return Err(e);
                },
            }
        }
        proof {
            assert(self.wire() =~= (w0 + pre) + rgbw_frame(colors@.take(0)));
        }
        let mut i: usize = 0;
        while i < colors.len()
            invariant
                i <= colors@.len(),
                self.idle_high == old(self).idle_high,
                w0 == old(self).wire(),
                pre == (if old(self).idle_high {
                    reset_seq()
                } else {
                    Seq::<u8>::empty()
                }),
                full == w0 + rgbw_write_bytes(old(self).idle_high, colors@),
                full == ((w0 + pre) + rgbw_frame(colors@)) + reset_seq(),
                self.wire() == (w0 + pre) + rgbw_frame(colors@.take(i as int)),
            decreases colors@.len() - i,
        {
            let ghost wi: Seq<u8> = self.wire();
            match self.write_pixel(colors[i]) {
                Ok(()) => {},
                Err(e) => {
                    proof {
                        lemma_prefix_of_concat(w0, pre + rgbw_frame(colors@.take(i as int)));
                        assert(w0 + (pre + rgbw_frame(colors@.take(i as int))) =~= wi);
                        lemma_prefix_trans(w0, wi, self.wire());
                        lemma_rgbw_frame_take_succ(colors@, i as int);
                        assert(wi + rgbw_pixel_bytes(colors@[i as int]) =~= (w0 + pre)
                            + rgbw_frame(colors@.take(i as int + 1)));
                        lemma_rgbw_frame_take_prefix(colors@, i as int + 1);
                        lemma_concat_prefix(
                            w0 + pre,
                            rgbw_frame(colors@.take(i as int + 1)),
                            rgbw_frame(colors@),
                        );
                        lemma_prefix_of_concat((w0 + pre) + rgbw_frame(colors@), reset_seq());
                        lemma_prefix_trans(
                            self.wire(),
                            wi + rgbw_pixel_bytes(colors@[i as int]),
                            (w0 + pre) + rgbw_frame(colors@),
                        );
                        lemma_prefix_trans(
                            self.wire(),
                            (w0 + pre) + rgbw_frame(colors@),
                            full,
                        );
                        lemma_rgbw_frame_len(colors@);
                        lemma_rgbw_frame_len(colors@.take(i as int));
                    }
                    return Err(e);
                },
            }
            proof {
                lemma_rgbw_frame_take_succ(colors@, i as int);
                assert(self.wire() =~= (w0 + pre) + rgbw_frame(colors@.take(i as int + 1)));
            }
            i = i + 1;
        }
        proof {
            assert(colors@.take(colors@.len() as int) =~= colors@);
        }
        let ghost wn: Seq<u8> = self.wire();
        match self.comms.flush() {
            Ok(()) => {},
            Err(e) => {
                proof {
                    let k = choose|k: nat| k < RESET_BYTES && self.wire() == wn + zeros(k);
                    lemma_prefix_of_concat(w0, pre + rgbw_frame(colors@));
                    assert(w0 + (pre + rgbw_frame(colors@)) =~= wn);
                    lemma_prefix_of_concat(wn, zeros(k));
                    lemma_prefix_trans(w0, wn, self.wire());
                    assert(zeros(k) =~= reset_seq().take(k as int));
                    lemma_take_is_prefix(reset_seq(), k as int);
                    lemma_concat_prefix(wn, zeros(k), reset_seq());
                    assert(wn + reset_seq() =~= full);
                    assert(full =~= full.take(full.len() as int));
                    lemma_prefix_trans(self.wire(), wn + reset_seq(), full);
                }
                return Err(e);
            },
        }
        proof {
            assert(self.wire() =~= full);
            lemma_rgbw_frame_len(colors@);
        }
        Ok(())
    }
}

} // verus!
