//! Decoding of the Spektrum DSM serial protocol as sent by a satellite
//! receiver: 16-byte frames made of a fade count, a system byte and seven
//! big-endian servo words in the 1024-step format.

use vstd::prelude::*;

use crate::myhal::reciever::Reciever;
use crate::timer::UpTimer;

verus! {

/// The transmission system announced in the second byte of a frame.
#[allow(non_camel_case_types)]
#[derive(Debug, PartialEq, Eq, Structural, Clone, Copy)]
pub enum DsmSystem {
    DsmX_11Ms,
    DsmX_22Ms,
    Dsm2_11Ms,
    Dsm2_22Ms,
    Invalid,
}

/// The system that the byte `value` announces.
pub open spec fn dsm_system_of(value: u8) -> DsmSystem {
    if value == 0x01 {
        DsmSystem::Dsm2_22Ms
    } else if value == 0x12 {
        DsmSystem::Dsm2_11Ms
    } else if value == 0xa2 {
        DsmSystem::DsmX_22Ms
    } else if value == 0xb2 {
        DsmSystem::DsmX_11Ms
    } else {
        DsmSystem::Invalid
    }
}

impl From<u8> for DsmSystem {
    fn from(value: u8) -> (system: Self) {
        match value {
            0x01 => Self::Dsm2_22Ms,
            0x12 => Self::Dsm2_11Ms,
            0xa2 => Self::DsmX_22Ms,
            0xb2 => Self::DsmX_11Ms,
            _ => Self::Invalid,
        }
    }
}

impl vstd::std_specs::convert::FromSpecImpl<u8> for DsmSystem {
    open spec fn obeys_from_spec() -> bool {
        true
    }

    open spec fn from_spec(value: u8) -> Self {
        dsm_system_of(value)
    }
}

/// One servo word of a frame in the 1024-step format: a 6-bit channel
/// number and a 10-bit position.
#[derive(Debug, PartialEq, Eq, Structural, Clone, Copy)]
pub struct Dsm1024Servo {
    pub channel_id: u8,
    pub position: u16,
}

/// The servo that the 16-bit word `value` encodes: the channel in its top
/// six bits, the position in its low ten.
pub open spec fn servo_of_word(value: u16) -> Dsm1024Servo {
    Dsm1024Servo { channel_id: (value / 1024) as u8, position: (value % 1024) as u16 }
}

/// The servo that the big-endian byte pair `hi`, `lo` encodes.
pub open spec fn servo_of_bytes(hi: u8, lo: u8) -> Dsm1024Servo {
    servo_of_word((hi * 256 + lo) as u16)
}

/// The significand of 1.166 in binary64: the double nearest to 1.166 is
/// exactly `ONE_POINT_166_SIGNIFICAND / 2^51`.
pub const ONE_POINT_166_SIGNIFICAND: u128 = 2625598582756999;

/// 2^51, the denominator of the double nearest to 1.166.
pub const TWO_POW_51: u128 = 2251799813685248;

/// 2^53: binary64 holds every integer below it exactly.
pub const TWO_POW_53: u128 = 9007199254740992;

/// The spacing `d * 2^k` of binary64 numbers around the integer `q * d`,
/// where `k` is how often `q` must be halved to fall below 2^53.
pub open spec fn binary64_spacing(q: nat, d: nat) -> nat
    decreases q,
{
    if q < TWO_POW_53 {
        d
    } else {
        binary64_spacing(q / 2, d * 2)
    }
}

/// `p` rounded to the nearest multiple of `d`, ties to an even multiple.
pub open spec fn round_half_even(p: nat, d: nat) -> nat {
    let q = p / d;
    let r = p % d;
    let q2 = if 2 * r > d || (2 * r == d && q % 2 == 1) {
        q + 1
    } else {
        q
    };
    (q2 * d) as nat
}

/// `position as f64 * 1.166` evaluated in binary64 (round to nearest, ties
/// to even) and then cast to `u16` (truncated towards zero, saturated at
/// `u16::MAX`).
pub open spec fn scaled_position(position: u16) -> int {
    let p = (position * ONE_POINT_166_SIGNIFICAND) as nat;
    let t = round_half_even(p, binary64_spacing(p, 1)) / (TWO_POW_51 as nat);
    if t > u16::MAX {
        u16::MAX as int
    } else {
        t as int
    }
}

/// The pulse width in microseconds that a servo position stands for:
/// 903 plus the position scaled by 1.166.
pub open spec fn pulse_width_us(position: u16) -> int {
    scaled_position(position) + 903
}

/// Doubling the spacing halves the remaining count: the spacing found from
/// `q` and `d` is either `d` itself or at most `q * d / 2^52`.
proof fn lemma_binary64_spacing_bound(q: nat, d: nat)
    requires
        d >= 1,
    ensures
        binary64_spacing(q, d) >= d,
        binary64_spacing(q, d) == d || binary64_spacing(q, d) * (TWO_POW_53 / 2) <= q * d,
    decreases q,
{
    if q >= TWO_POW_53 {
        lemma_binary64_spacing_bound(q / 2, d * 2);
        assert((q / 2) * (d * 2) <= q * d) by (nonlinear_arith);
        assert((d * 2) * (TWO_POW_53 / 2) <= q * d) by (nonlinear_arith)
            requires
                q >= TWO_POW_53,
        ;
    }
}

/// Rounding to a multiple of `d` moves `p` by at most half of `d`.
proof fn lemma_round_half_even_close(p: nat, d: nat)
    requires
        d >= 1,
    ensures
        2 * round_half_even(p, d) <= 2 * p + d,
        2 * p <= 2 * round_half_even(p, d) + d,
{
    let q = p / d;
    let r = p % d;
    assert(p == q * d + r && r < d) by (nonlinear_arith)
        requires
            q == p / d,
            r == p % d,
            d >= 1,
    ;
    assert((q + 1) * d == q * d + d) by (nonlinear_arith);
}

/// For the ten-bit positions that the protocol carries, the binary64
/// computation agrees with exact arithmetic: the pulse width is
/// `903 + position * 1166 / 1000` microseconds, from 903 to 2095.
pub proof fn lemma_ten_bit_pulse_width(position: u16)
    requires
        position < 1024,
    ensures
        scaled_position(position) == position * 1166 / 1000,
        903 <= pulse_width_us(position) <= 2095,
{
    let x = position as int;
    let p = (position * ONE_POINT_166_SIGNIFICAND) as nat;
    if x == 0 {
        assert(binary64_spacing(0, 1) == 1);
        assert(round_half_even(0, 1) == 0);
    } else if x == 500 {
        reveal_with_fuel(binary64_spacing, 11);
        assert(binary64_spacing(p, 1) == 256);
    } else if x == 1000 {
        reveal_with_fuel(binary64_spacing, 11);
        assert(binary64_spacing(p, 1) == 512);
    } else {
        let d = binary64_spacing(p, 1);
        lemma_binary64_spacing_bound(p, 1);
        assert(p <= 1023 * ONE_POINT_166_SIGNIFICAND) by (nonlinear_arith)
            requires
                p == x * ONE_POINT_166_SIGNIFICAND,
                0 <= x < 1024,
        ;
        assert(d == 1 || d * 4503599627370496 <= p);
        assert(d < 1024);
        lemma_round_half_even_close(p, d);
        let r = round_half_even(p, d);
        let n = 583 * x / 500;
        assert(n == x * 1166 / 1000);
        assert(500 * p == 583 * x * TWO_POW_51 - 84 * x);
        assert(583 * x - 500 * n >= 1);
        assert(n * TWO_POW_51 <= r < (n + 1) * TWO_POW_51);
        assert(r / (TWO_POW_51 as nat) == n);
    }
}

impl Dsm1024Servo {
    /// The servo's position as a pulse width in microseconds.
    pub fn get_us(&self) -> (us: u16)
        requires
            pulse_width_us(self.position) <= u16::MAX,
        ensures
            us == pulse_width_us(self.position),
    {
        let p: u128 = (self.position as u128) * ONE_POINT_166_SIGNIFICAND;
        let mut q: u128 = p;
        let mut d: u128 = 1;
        while q >= TWO_POW_53
            invariant
                binary64_spacing(q as nat, d as nat) == binary64_spacing(p as nat, 1),
                1 <= d <= 131072,
                q * d <= p,
                p <= 65535 * ONE_POINT_166_SIGNIFICAND,
            decreases q,
        {
            assert(d < 65536 && (q / 2) * (d * 2) <= q * d) by (nonlinear_arith)
                requires
                    q >= TWO_POW_53,
                    q * d <= p,
                    p <= 65535 * ONE_POINT_166_SIGNIFICAND,
                    1 <= d,
            ;
            q = q / 2;
            d = d * 2;
        }
        let quot = p / d;
        let rem = p % d;
        assert(quot * d <= p && rem < d) by (nonlinear_arith)
            requires
                quot == p / d,
                rem == p % d,
                1 <= d,
        ;
        let rounded = if 2 * rem > d || (2 * rem == d && quot % 2 == 1) {
            quot + 1
        } else {
            quot
        };
        assert(rounded * d <= p + d) by (nonlinear_arith)
            requires
                rounded <= quot + 1,
                quot * d <= p,
        ;
        let truncated = rounded * d / TWO_POW_51;
        let scaled: u16 = if truncated > 65535 {
            65535
        } else {
            truncated as u16
        };
        scaled + 903
    }
}

impl From<u16> for Dsm1024Servo {
    fn from(value: u16) -> (servo: Self) {
        let channel_id = ((value & 0xFC00) >> 10) as u8;
        let position = value & 0x03FF;
        assert(((value & 0xFC00) >> 10) == value / 1024 && value & 0x03FF == value % 1024)
            by (bit_vector);
        Self { channel_id, position }
    }
}

impl vstd::std_specs::convert::FromSpecImpl<u16> for Dsm1024Servo {
    open spec fn obeys_from_spec() -> bool {
        true
    }

    open spec fn from_spec(value: u16) -> Self {
        servo_of_word(value)
    }
}

impl From<[u8; 2]> for Dsm1024Servo {
    fn from(value: [u8; 2]) -> (servo: Self) {
        let word: u16 = (value[0] as u16) * 256 + (value[1] as u16);
        Self::from(word)
    }
}

impl vstd::std_specs::convert::FromSpecImpl<[u8; 2]> for Dsm1024Servo {
    open spec fn obeys_from_spec() -> bool {
        true
    }

    open spec fn from_spec(value: [u8; 2]) -> Self {
        servo_of_bytes(value@[0], value@[1])
    }
}

/// A decoded frame: the fade count, the transmission system and seven servos.
#[derive(Debug, Clone, Copy)]
pub struct DsmInternalFrame {
    pub fades: u8,
    pub system: DsmSystem,
    pub servos: [Dsm1024Servo; 7],
}

impl DsmInternalFrame {
    /// Whether this frame is what the 16 bytes `bytes` decode to: byte 0 is
    /// the fade count, byte 1 the system, and bytes `2i + 2`, `2i + 3` the
    /// big-endian word of servo `i`.
    pub open spec fn decodes(self, bytes: Seq<u8>) -> bool {
        &&& bytes.len() == 16
        &&& self.fades == bytes[0]
        &&& self.system == dsm_system_of(bytes[1])
        &&& forall|i: int|
            0 <= i < 7 ==> #[trigger] self.servos@[i] == servo_of_bytes(
                bytes[2 * i + 2],
                bytes[2 * i + 3],
            )
    }
}

/// Sixteen bytes decode to one frame only.
pub proof fn lemma_frame_decoding_unique(f: DsmInternalFrame, g: DsmInternalFrame, bytes: Seq<u8>)
    requires
        f.decodes(bytes),
        g.decodes(bytes),
    ensures
        f == g,
{
    assert(f.servos =~= g.servos);
}

/// Any sixteen bytes decode to some frame.
pub proof fn lemma_frame_decoding_exists(bytes: Seq<u8>)
    requires
        bytes.len() == 16,
    ensures
        exists|f: DsmInternalFrame| f.decodes(bytes),
{
    let servo = |i: int| servo_of_bytes(bytes[2 * i + 2], bytes[2 * i + 3]);
    let a: [Dsm1024Servo; 7] = vstd::array::spec_array_fill_for_copy_type(servo(0));
    let a = vstd::array::spec_array_update(a, 1, servo(1));
    let a = vstd::array::spec_array_update(a, 2, servo(2));
    let a = vstd::array::spec_array_update(a, 3, servo(3));
    let a = vstd::array::spec_array_update(a, 4, servo(4));
    let a = vstd::array::spec_array_update(a, 5, servo(5));
    let a = vstd::array::spec_array_update(a, 6, servo(6));
    let f = DsmInternalFrame { fades: bytes[0], system: dsm_system_of(bytes[1]), servos: a };
    assert forall|i: int| 0 <= i < 7 implies #[trigger] f.servos@[i] == servo(i) by {}
    assert(f.decodes(bytes));
}

impl<'a> From<&'a [u8; 16]> for DsmInternalFrame {
    fn from(bytes: &'a [u8; 16]) -> (frame: Self) {
        let mut servos: [Dsm1024Servo; 7] = [Dsm1024Servo { channel_id: 0, position: 0 }; 7];

        for i in 1..8usize
            invariant
                forall|j: int|
                    0 <= j < i - 1 ==> #[trigger] servos@[j] == servo_of_bytes(
                        bytes@[2 * j + 2],
                        bytes@[2 * j + 3],
                    ),
        {
            let index = i * 2;
            let servo: [u8; 2] = [bytes[index], bytes[index + 1]];

            servos[i - 1] = Dsm1024Servo::from(servo);
        }

        let frame = Self { fades: bytes[0], system: DsmSystem::from(bytes[1]), servos: servos };
        proof {
            assert(frame.decodes(bytes@));
            let c = choose|f: DsmInternalFrame| f.decodes(bytes@);
            lemma_frame_decoding_unique(frame, c, bytes@);
        }
        frame
    }
}

impl<'a> vstd::std_specs::convert::FromSpecImpl<&'a [u8; 16]> for DsmInternalFrame {
    open spec fn obeys_from_spec() -> bool {
        true
    }

    open spec fn from_spec(bytes: &'a [u8; 16]) -> Self {
        choose|f: DsmInternalFrame| f.decodes(bytes@)
    }
}

/// The length of a frame in bytes.
pub const FRAME_LEN: usize = 16;

/// A silence longer than this many milliseconds separates two frames.
pub const FRAME_GAP_MS: usize = 17;

/// After this many milliseconds without a frame the link counts as lost.
pub const FAILSAFE_TIMEOUT_MS: usize = 1000;

/// The bytes of a cleared buffer.
pub open spec fn cleared_buffer() -> Seq<u8> {
    Seq::new(16, |i: int| 0u8)
}

/// Assembles the bytes of a satellite receiver into frames.
pub struct DsmRx {
    pub buffer: [u8; 16],
    pub buffer_index: usize,
    prev_frame: Option<DsmInternalFrame>,
    has_new_frame: bool,
    timer: UpTimer,
    failsafe_timer: UpTimer,
}

impl DsmRx {
    /// How many bytes of the current frame the buffer holds.
    pub closed spec fn buffered_count(&self) -> nat {
        self.buffer_index as nat
    }

    /// The bytes in the buffer.
    pub closed spec fn buffer_bytes(&self) -> Seq<u8> {
        self.buffer@
    }

    /// The buffer always holds 16 bytes.
    pub proof fn lemma_buffer_len(&self)
        ensures
            self.buffer_bytes().len() == FRAME_LEN,
    {
    }


    /// The last frame received, if any.
    pub closed spec fn last_frame(&self) -> Option<DsmInternalFrame> {
        self.prev_frame
    }

    /// Whether a frame has completed since the last frame was read.
    pub closed spec fn frame_pending(&self) -> bool {
        self.has_new_frame
    }

    /// The counter reading at which the last byte arrived (or the receiver was made).
    pub closed spec fn last_byte_ms(&self) -> usize {
        self.timer.start_ms()
    }

    /// The counter reading at which the last frame completed (or the receiver was made).
    pub closed spec fn last_frame_ms(&self) -> usize {
        self.failsafe_timer.start_ms()
    }

    /// Whether a byte arriving at `now_ms` comes after a silence that ends a frame.
    pub open spec fn gap_before(&self, now_ms: usize) -> bool {
        now_ms - self.last_byte_ms() > FRAME_GAP_MS
    }

    /// Where a byte arriving at `now_ms` is written.
    pub open spec fn slot_for(&self, now_ms: usize) -> int {
        if self.gap_before(now_ms) {
            0
        } else {
            self.buffered_count() as int
        }
    }

    /// The buffer once a byte arriving at `now_ms` is written into it.
    pub open spec fn filled_buffer(&self, byte: u8, now_ms: usize) -> Seq<u8> {
        let base = if self.gap_before(now_ms) {
            cleared_buffer()
        } else {
            self.buffer_bytes()
        };
        base.update(self.slot_for(now_ms), byte)
    }

    /// Whether a byte arriving at `now_ms` is the last of a frame.
    pub open spec fn completes_frame(&self, now_ms: usize) -> bool {
        self.slot_for(now_ms) + 1 >= FRAME_LEN
    }

    /// `next` is this receiver after `byte` arrived at the counter reading `now_ms`.
    pub open spec fn receives(&self, byte: u8, now_ms: usize, next: DsmRx) -> bool {
        &&& next.last_byte_ms() == now_ms
        &&& if self.completes_frame(now_ms) {
            &&& next.buffered_count() == 0
            &&& next.buffer_bytes() == cleared_buffer()
            &&& next.last_frame() matches Some(f) && f.decodes(self.filled_buffer(byte, now_ms))
            &&& next.frame_pending()
            &&& next.last_frame_ms() == now_ms
        } else {
            &&& next.buffered_count() == self.slot_for(now_ms) + 1
            &&& next.buffer_bytes() == self.filled_buffer(byte, now_ms)
            &&& next.last_frame() == self.last_frame()
            &&& next.frame_pending() == self.frame_pending()
            &&& next.last_frame_ms() == self.last_frame_ms()
        }
    }

    /// A receiver with an empty buffer and no frame, made at the counter reading `now_ms`.
    pub fn new(now_ms: usize) -> (rx: Self)
        ensures
            rx.buffer_bytes() == cleared_buffer(),
            rx.buffered_count() == 0,
            rx.last_frame() is None,
            !rx.frame_pending(),
            rx.last_byte_ms() == now_ms,
            rx.last_frame_ms() == now_ms,
    {
        let rx = DsmRx {
            buffer: [0; 16],
            buffer_index: 0,
            prev_frame: None,
            has_new_frame: false,
            timer: UpTimer::new(now_ms),
            failsafe_timer: UpTimer::new(now_ms),
        };
        assert(rx.buffer@ =~= cleared_buffer());
        rx
    }

    fn clear_buffer(&mut self)
        ensures
            final(self).buffer@ == cleared_buffer(),
            final(self).buffer_index == 0,
            final(self).prev_frame == old(self).prev_frame,
            final(self).has_new_frame == old(self).has_new_frame,
            final(self).timer == old(self).timer,
            final(self).failsafe_timer == old(self).failsafe_timer,
    {
        self.buffer_index = 0;
        self.buffer = [0; 16];
        assert(self.buffer@ =~= cleared_buffer());
    }

    /// Handle a byte from the UART.
    ///
    /// You must call this function when a new byte is recieved, with the
    /// counter reading `now_ms` at which it arrived.
    pub fn handle_serial_event(&mut self, byte: u8, now_ms: usize)
        requires
            old(self).last_byte_ms() <= now_ms,
            old(self).gap_before(now_ms) || old(self).buffered_count() < FRAME_LEN,
        ensures
            old(self).receives(byte, now_ms, *final(self)),
            final(self).buffered_count() < FRAME_LEN,
    {
        if self.timer.elapsed_ms(now_ms) > FRAME_GAP_MS {
            self.clear_buffer();
        }
        self.buffer[self.buffer_index] = byte;
        self.buffer_index += 1;
        self.timer.reset(now_ms);
        assert(self.buffer@ =~= old(self).filled_buffer(byte, now_ms));

        if self.frame_is_avaliable() {
            proof {
                lemma_frame_decoding_exists(self.buffer@);
            }
            self.prev_frame = Some(DsmInternalFrame::from(&self.buffer));
            self.has_new_frame = true;
            self.clear_buffer();

            self.failsafe_timer.reset(now_ms);
        }
    }

    /// Whether the buffer holds a whole frame.
    pub fn frame_is_avaliable(&self) -> (available: bool)
        ensures
            available == (self.buffered_count() >= FRAME_LEN),
    {
        self.buffer_index >= FRAME_LEN
    }

    /// The last frame received, if any; afterwards no new data is pending.
    pub fn get_frame(&mut self) -> (frame: Option<DsmInternalFrame>)
        ensures
            frame == old(self).last_frame(),
            final(self).last_frame() == old(self).last_frame(),
            !final(self).frame_pending(),
            final(self).buffer_bytes() == old(self).buffer_bytes(),
            final(self).buffered_count() == old(self).buffered_count(),
            final(self).last_byte_ms() == old(self).last_byte_ms(),
            final(self).last_frame_ms() == old(self).last_frame_ms(),
    {
        self.has_new_frame = false;
        self.prev_frame
    }
}

/// The channel pulse widths before any frame has arrived: throttle (channel
/// 0) at 0 us so that it stays still, every other channel centred at 1500 us.
pub open spec fn default_channels() -> Seq<u16> {
    seq![0u16, 1500u16, 1500u16, 1500u16, 1500u16, 1500u16, 1500u16]
}

/// The channel pulse widths once the first `n` servos of `servos` are
/// applied in order over the defaults, each setting the channel it names.
pub open spec fn channels_after(servos: Seq<Dsm1024Servo>, n: nat) -> Seq<u16>
    decreases n,
{
    if n == 0 {
        default_channels()
    } else {
        let s = servos[n - 1];
        channels_after(servos, (n - 1) as nat).update(
            s.channel_id as int,
            pulse_width_us(s.position) as u16,
        )
    }
}

/// Whether `get_channels` can apply servo `s`: it names one of the seven
/// channels and its pulse width fits in a `u16`.
pub open spec fn servo_applicable(s: Dsm1024Servo) -> bool {
    s.channel_id < 7 && pulse_width_us(s.position) <= u16::MAX
}

impl Reciever<7> for DsmRx {
    open spec fn new_data_pending(&self) -> bool {
        self.frame_pending()
    }

    open spec fn channels_readable(&self) -> bool {
        self.last_frame() matches Some(f) ==> forall|i: int|
            0 <= i < 7 ==> servo_applicable(#[trigger] f.servos@[i])
    }

    open spec fn channel_pulse_widths(&self) -> Seq<u16> {
        match self.last_frame() {
            Some(f) => channels_after(f.servos@, 7),
            None => default_channels(),
        }
    }

    open spec fn clock_readable(&self, now_ms: usize) -> bool {
        self.last_frame_ms() <= now_ms
    }

    open spec fn link_lost(&self, now_ms: usize) -> bool {
        now_ms - self.last_frame_ms() > FAILSAFE_TIMEOUT_MS
    }

    fn has_new_data(&self) -> (new_data: bool) {
        self.has_new_frame
    }

    // TODO: Converting a DsmInternalFrame to an array of ints isn't super fast. Cache the result instead
    // so that we don't waste computing time when a user calls this funtion continuously
    fn get_channels(&mut self) -> (channels: [u16; 7])
        ensures
            final(self).last_frame() == old(self).last_frame(),
            final(self).buffer_bytes() == old(self).buffer_bytes(),
            final(self).buffered_count() == old(self).buffered_count(),
            final(self).last_byte_ms() == old(self).last_byte_ms(),
            final(self).last_frame_ms() == old(self).last_frame_ms(),
    {
        let mut out = [1500u16; 7];  // We set the default array value as 1500us so that the servos are centered until a frame has been recieved
        out[0] = 0;  // We set the first element in the array to 0us since we don't want the throttle to move until a frame has been recieved
        assert(out@ =~= default_channels());

        if let Some(frame) = &self.prev_frame {
            for i in 0..7usize
                invariant
                    out@ == channels_after(frame.servos@, i as nat),
                    forall|j: int| 0 <= j < 7 ==> servo_applicable(#[trigger] frame.servos@[j]),
            {
                let s = frame.servos[i];
                assert(servo_applicable(frame.servos@[i as int]));
                out[s.channel_id as usize] = s.get_us();
            }
        }

        self.has_new_frame = false;

        out
    }

    fn is_in_failsafe(&self, now_ms: usize) -> (lost: bool) {
        // Spektrum's satellite reciever spec advises that the flight controller should
        // enter failsafe mode after not recieving a frame for longer than one second
        self.failsafe_timer.elapsed_ms(now_ms) > FAILSAFE_TIMEOUT_MS
    }
}

/// A servo word splits into its channel and its ten-bit position and is
/// made again from them: `word == channel_id * 1024 + position`.
pub proof fn lemma_servo_word_round_trip(word: u16)
    ensures
        servo_of_word(word).channel_id < 64,
        servo_of_word(word).position < 1024,
        servo_of_word(word).channel_id * 1024 + servo_of_word(word).position == word,
{
}

/// A byte pair is the big-endian word that `From<u16>` is given: the
/// channel is the top six bits of the high byte, the position its low two
/// bits followed by the low byte.
pub proof fn lemma_servo_bytes_fields(hi: u8, lo: u8)
    ensures
        servo_of_bytes(hi, lo).channel_id == hi / 4,
        servo_of_bytes(hi, lo).position == (hi % 4) * 256 + lo,
{
}

/// Every frame that bytes decode to can be read by `get_channels` as long
/// as each servo names one of the seven channels (its high byte is below 28).
pub proof fn lemma_decoded_frame_readable(f: DsmInternalFrame, bytes: Seq<u8>)
    requires
        f.decodes(bytes),
        forall|i: int| 0 <= i < 7 ==> #[trigger] bytes[2 * i + 2] < 28,
    ensures
        forall|i: int| 0 <= i < 7 ==> servo_applicable(#[trigger] f.servos@[i]),
{
    assert forall|i: int| 0 <= i < 7 implies servo_applicable(#[trigger] f.servos@[i]) by {
        let hi = bytes[2 * i + 2];
        let lo = bytes[2 * i + 3];
        lemma_servo_bytes_fields(hi, lo);
        lemma_ten_bit_pulse_width(f.servos@[i].position);
    }
}

/// The invariant of the byte buffer: after any byte that `handle_serial_event`
/// accepts, fewer than sixteen bytes are buffered.
pub proof fn lemma_buffer_stays_short(rx: DsmRx, byte: u8, now_ms: usize, next: DsmRx)
    requires
        rx.gap_before(now_ms) || rx.buffered_count() < FRAME_LEN,
        rx.receives(byte, now_ms, next),
    ensures
        0 <= next.buffered_count() < FRAME_LEN,
{
}

/// The buffer invariant that `new` sets up and every accepted byte keeps:
/// fewer than sixteen bytes are buffered (so no frame is waiting in the
/// buffer) and every byte past them is zero.
pub proof fn lemma_buffer_invariant_kept(rx: DsmRx, byte: u8, now_ms: usize, next: DsmRx)
    requires
        rx.buffered_count() < FRAME_LEN,
        forall|j: int| rx.buffered_count() <= j < FRAME_LEN ==> #[trigger] rx.buffer_bytes()[j] == 0,
        rx.receives(byte, now_ms, next),
    ensures
        next.buffered_count() < FRAME_LEN,
        forall|j: int| next.buffered_count() <= j < FRAME_LEN ==> #[trigger] next.buffer_bytes()[j] == 0,
{
    rx.lemma_buffer_len();
}

/// A byte that arrives more than 17 ms after the previous one starts a new
/// frame, whatever was buffered: it is the only byte in the buffer, the
/// rest is cleared, and the last frame, its pending flag and the failsafe
/// clock are unchanged.
pub proof fn lemma_gap_starts_new_frame(rx: DsmRx, byte: u8, now_ms: usize, next: DsmRx)
    requires
        rx.receives(byte, now_ms, next),
        (now_ms as int) - (rx.last_byte_ms() as int) > 17,
    ensures
        next.buffered_count() == 1,
        next.buffer_bytes() == cleared_buffer().update(0, byte),
        next.last_frame() == rx.last_frame(),
        next.new_data_pending() == rx.new_data_pending(),
        next.last_frame_ms() == rx.last_frame_ms(),
        next.last_byte_ms() == now_ms,
{
}

/// New data becomes pending only when a byte completes a frame; a byte
/// that does not complete one leaves the flag as it was.
pub proof fn lemma_new_data_only_from_frames(rx: DsmRx, byte: u8, now_ms: usize, next: DsmRx)
    requires
        rx.receives(byte, now_ms, next),
    ensures
        next.new_data_pending() <==> (rx.new_data_pending() || rx.completes_frame(now_ms)),
{
}

/// A completed frame holds off failsafe for the next second.
pub proof fn lemma_frame_holds_off_failsafe(
    rx: DsmRx,
    byte: u8,
    now_ms: usize,
    next: DsmRx,
    later_ms: usize,
)
    requires
        rx.receives(byte, now_ms, next),
        rx.completes_frame(now_ms),
        now_ms <= later_ms <= now_ms + FAILSAFE_TIMEOUT_MS,
    ensures
        next.clock_readable(later_ms),
        !next.link_lost(later_ms),
{
}

/// Without a completed frame the failsafe clock keeps running: a byte that
/// does not complete a frame leaves the time of the last frame unchanged.
pub proof fn lemma_bytes_without_frame_keep_failsafe_clock(
    rx: DsmRx,
    byte: u8,
    now_ms: usize,
    next: DsmRx,
)
    requires
        rx.receives(byte, now_ms, next),
        !rx.completes_frame(now_ms),
    ensures
        next.last_frame_ms() == rx.last_frame_ms(),
        forall|t: usize| #[trigger] next.link_lost(t) == rx.link_lost(t),
{
}

/// `states[i + 1]` is `states[i]` after `bytes[i]` arrived at `times[i]`.
pub open spec fn byte_received(states: Seq<DsmRx>, bytes: Seq<u8>, times: Seq<usize>, i: int) -> bool {
    states[i].receives(bytes[i], times[i], states[i + 1])
}

/// The last frame changes only when a frame completes: a byte that leaves
/// the buffer short of sixteen bytes (it came after a pause, or fewer than
/// fifteen bytes were buffered) keeps the last frame, whatever it was.
pub proof fn lemma_partial_frame_keeps_last_frame(
    rx: DsmRx,
    byte: u8,
    now_ms: usize,
    next: DsmRx,
)
    requires
        rx.receives(byte, now_ms, next),
        (now_ms as int) - (rx.last_byte_ms() as int) > 17 || rx.buffered_count() + 1 < FRAME_LEN,
    ensures
        next.last_frame() == rx.last_frame(),
        next.new_data_pending() == rx.new_data_pending(),
{
}

/// When a byte completes a frame the last frame becomes exactly the
/// decoding of the sixteen buffered bytes, the buffered ones followed by
/// the new byte.
pub proof fn lemma_completed_frame_is_the_buffer(
    rx: DsmRx,
    byte: u8,
    now_ms: usize,
    next: DsmRx,
)
    requires
        rx.receives(byte, now_ms, next),
        !((now_ms as int) - (rx.last_byte_ms() as int) > 17),
        rx.buffered_count() + 1 == FRAME_LEN,
    ensures
        next.last_frame() matches Some(f) && f.decodes(
            rx.buffer_bytes().subrange(0, 15).push(byte),
        ),
{
    rx.lemma_buffer_len();
    assert(rx.filled_buffer(byte, now_ms) =~= rx.buffer_bytes().subrange(0, 15).push(byte));
}

/// Failsafe is exact and monotone in the time since the last frame: the
/// link counts as lost at `t` exactly when more than 1000 ms have passed
/// since the last frame, and once lost it stays lost at every later time
/// until a frame arrives.
pub proof fn lemma_failsafe_exact_and_monotone(rx: DsmRx, t: usize, later: usize)
    requires
        rx.last_frame_ms() <= t <= later,
    ensures
        rx.link_lost(t) <==> (t as int) - (rx.last_frame_ms() as int) > 1000,
        rx.link_lost(t) ==> rx.link_lost(later),
        !rx.link_lost(later) ==> !rx.link_lost(t),
{
}

/// The channels depend on the last frame alone: two receivers with the
/// same last frame give the same channels, whatever their buffers, clocks
/// or pending flags hold.
pub proof fn lemma_channels_depend_only_on_last_frame(a: DsmRx, b: DsmRx)
    requires
        a.last_frame() == b.last_frame(),
    ensures
        a.channel_pulse_widths() == b.channel_pulse_widths(),
        a.channels_readable() == b.channels_readable(),
{
}

/// What applying the first `n` servos does to each channel: a channel that
/// none of them names keeps its default; otherwise it takes the pulse width
/// of the last servo that names it.
proof fn lemma_channels_after_by_channel(servos: Seq<Dsm1024Servo>, n: nat)
    requires
        n <= 7,
        servos.len() == 7,
        forall|i: int| 0 <= i < 7 ==> (#[trigger] servos[i]).channel_id < 7,
    ensures
        channels_after(servos, n).len() == 7,
        forall|c: int|
            0 <= c < 7 && (forall|i: int| 0 <= i < n ==> servos[i].channel_id != c) ==> (
            #[trigger] channels_after(servos, n)[c]) == default_channels()[c],
        forall|c: int, i: int|
            0 <= i < n && servos[i].channel_id == c && (forall|k: int|
                i < k < n ==> servos[k].channel_id != c) ==> #[trigger] channels_after(servos, n)[c]
                == #[trigger] (pulse_width_us(servos[i].position) as u16),
    decreases n,
{
    if n > 0 {
        lemma_channels_after_by_channel(servos, (n - 1) as nat);
        let s = servos[n - 1];
        assert(s.channel_id < 7);
        assert forall|c: int|
            0 <= c < 7 && (forall|i: int| 0 <= i < n ==> servos[i].channel_id != c) implies (
            #[trigger] channels_after(servos, n)[c]) == default_channels()[c] by {
            assert(servos[n - 1].channel_id != c);
        }
        assert forall|c: int, i: int|
            0 <= i < n && servos[i].channel_id == c && (forall|k: int|
                i < k < n ==> servos[k].channel_id != c) implies #[trigger] channels_after(
                servos,
                n,
            )[c] == #[trigger] (pulse_width_us(servos[i].position) as u16) by {
            if i < n - 1 {
                assert(servos[n - 1].channel_id != c);
            }
        }
    }
}

/// Before any frame the channels are the safe defaults: throttle (channel
/// 0) at 0 us and the six other channels centred at 1500 us.
pub proof fn lemma_channels_without_frame(rx: DsmRx)
    requires
        rx.last_frame() is None,
    ensures
        rx.channels_readable(),
        rx.channel_pulse_widths() =~= seq![0u16, 1500, 1500, 1500, 1500, 1500, 1500],
{
}

/// How `get_channels` maps a frame to channels, channel by channel: each of
/// the seven channels that some servo of the frame names carries the pulse
/// width of the last such servo; a channel that no servo names keeps its
/// default, 0 us for the throttle (channel 0) and 1500 us for the others.
pub proof fn lemma_channels_of_frame(rx: DsmRx, f: DsmInternalFrame)
    requires
        rx.last_frame() == Some(f),
        rx.channels_readable(),
    ensures
        rx.channel_pulse_widths().len() == 7,
        forall|c: int|
            0 <= c < 7 && (forall|i: int| 0 <= i < 7 ==> f.servos@[i].channel_id != c)
                ==> #[trigger] rx.channel_pulse_widths()[c] == (if c == 0 {
                0u16
            } else {
                1500u16
            }),
        forall|c: int, i: int|
            0 <= i < 7 && f.servos@[i].channel_id == c && (forall|k: int|
                i < k < 7 ==> f.servos@[k].channel_id != c) ==> #[trigger] rx.channel_pulse_widths()[c]
                == pulse_width_us(#[trigger] f.servos@[i].position),
{
    assert forall|i: int| 0 <= i < 7 implies (#[trigger] f.servos@[i]).channel_id < 7 by {
        assert(servo_applicable(f.servos@[i]));
    }
    lemma_channels_after_by_channel(f.servos@, 7);
    assert forall|c: int, i: int|
        0 <= i < 7 && f.servos@[i].channel_id == c && (forall|k: int|
            i < k < 7 ==> f.servos@[k].channel_id != c) implies #[trigger] rx.channel_pulse_widths()[c]
            == pulse_width_us(#[trigger] f.servos@[i].position) by {
        assert(servo_applicable(f.servos@[i]));
        assert(channels_after(f.servos@, 7)[c] == (pulse_width_us(f.servos@[i].position) as u16));
    }
}

/// The bytes of a frame in progress: `states[k]` holds the first `k` of
/// `bytes` when the first went to an empty buffer or came after a pause,
/// and each later byte arrived within 17 ms of the one before.
proof fn lemma_frame_in_progress(states: Seq<DsmRx>, bytes: Seq<u8>, times: Seq<usize>, k: int)
    requires
        states.len() == 17,
        bytes.len() == 16,
        times.len() == 16,
        states[0].buffered_count() == 0 || states[0].gap_before(times[0]),
        forall|i: int| 0 <= i < 16 ==> #[trigger] byte_received(states, bytes, times, i),
        forall|i: int| 0 < i < 16 ==> #[trigger] times[i] <= times[i - 1] + 17,
        forall|i: int| 0 < i < 16 ==> times[i - 1] <= #[trigger] times[i],
        1 <= k < 16,
    ensures
        states[k].buffered_count() == k,
        forall|j: int| 0 <= j < k ==> #[trigger] states[k].buffer_bytes()[j] == bytes[j],
        states[k].buffer_bytes().len() == 16,
    decreases k,
{
    if k == 1 {
        assert(states[0].buffer_bytes().len() == 16);
        assert(byte_received(states, bytes, times, 0));
    } else {
        lemma_frame_in_progress(states, bytes, times, k - 1);
        assert(byte_received(states, bytes, times, k - 1));
        if k > 1 {
            assert(byte_received(states, bytes, times, k - 2));
        }
    }
}

/// Sixteen bytes make one frame when the first goes to an empty buffer or
/// comes after a pause of more than 17 ms (whatever was buffered before),
/// and each later byte arrives within 17 ms of the one before: afterwards
/// the last frame is what those bytes decode to, it is pending, and the
/// buffer is empty again.
pub proof fn lemma_sixteen_bytes_make_a_frame(
    states: Seq<DsmRx>,
    bytes: Seq<u8>,
    times: Seq<usize>,
)
    requires
        states.len() == 17,
        bytes.len() == 16,
        times.len() == 16,
        states[0].buffered_count() == 0 || states[0].gap_before(times[0]),
        forall|i: int| 0 <= i < 16 ==> #[trigger] byte_received(states, bytes, times, i),
        forall|i: int| 0 < i < 16 ==> #[trigger] times[i] <= times[i - 1] + 17,
        forall|i: int| 0 < i < 16 ==> times[i - 1] <= #[trigger] times[i],
    ensures
        states[16].last_frame() matches Some(f) && f.decodes(bytes),
        states[16].new_data_pending(),
        states[16].buffered_count() == 0,
        states[16].last_frame_ms() == times[15],
{
    lemma_frame_in_progress(states, bytes, times, 15);
    assert(byte_received(states, bytes, times, 15));
    assert(byte_received(states, bytes, times, 14));
    assert(states[15].filled_buffer(bytes[15], times[15]) =~= bytes);
}

} // verus!
