//! The first DSM frame assembler: a 20-byte buffer that the caller parses
//! on demand. Its servo words keep the channel number shifted left by two
//! bits (the top six bits of the word moved down by eight, not ten).

use vstd::prelude::*;

use crate::myhal_implementations::dsmrx::{dsm_system_of, DsmSystem};
use crate::timer::UpTimer;

verus! {

/// One servo word of a frame.
#[derive(Debug, Clone, Copy)]
pub struct Dsm1024Servo {
    pub channel_id: u8,
    pub position: u16,
}

/// The servo that the word `value` gives: `channel_id` holds the word's top
/// six bits moved down by eight places (four times the channel number),
/// `position` its low ten bits.
pub open spec fn servo_of_word(value: u16) -> Dsm1024Servo {
    Dsm1024Servo { channel_id: (value / 1024 * 4) as u8, position: (value % 1024) as u16 }
}

/// The servo that the big-endian byte pair `hi`, `lo` gives.
pub open spec fn servo_of_bytes(hi: u8, lo: u8) -> Dsm1024Servo {
    servo_of_word((hi * 256 + lo) as u16)
}

impl From<u16> for Dsm1024Servo {
    fn from(value: u16) -> (servo: Self) {
        assert(((value & 0xFC00) >> 8) == value / 1024 * 4 && value & 0x03FF == value % 1024)
            by (bit_vector);
        Self { channel_id: ((value & 0xFC00) >> 8) as u8, position: value & 0x03FF }
    }
}

impl vstd::std_specs::convert::FromSpecImpl<u16> for Dsm1024Servo {
    open spec fn obeys_from_spec() -> bool {
        true
    }

    open spec fn from_spec(value: u16) -> Self {
        servo_of_word(value)
    }
}

impl From<[u8; 2]> for Dsm1024Servo {
    fn from(value: [u8; 2]) -> (servo: Self) {
        let word: u16 = (value[0] as u16) * 256 + (value[1] as u16);
        Self::from(word)
    }
}

impl vstd::std_specs::convert::FromSpecImpl<[u8; 2]> for Dsm1024Servo {
    open spec fn obeys_from_spec() -> bool {
        true
    }

    open spec fn from_spec(value: [u8; 2]) -> Self {
        servo_of_bytes(value@[0], value@[1])
    }
}

/// A decoded frame.
#[derive(Debug)]
pub struct DsmInternalFrame {
    fades: u8,
    system: DsmSystem,
    servos: [Dsm1024Servo; 7],
}

impl DsmInternalFrame {
    /// The fade count.
    pub closed spec fn fade_count(&self) -> u8 {
        self.fades
    }

    /// The transmission system.
    pub closed spec fn dsm_system(&self) -> DsmSystem {
        self.system
    }

    /// The seven servos.
    pub closed spec fn servo_words(&self) -> Seq<Dsm1024Servo> {
        self.servos@
    }

    /// Whether this frame is what the first 16 of `bytes` decode to.
    pub open spec fn decodes(&self, bytes: Seq<u8>) -> bool {
        &&& bytes.len() >= 16
        &&& self.fade_count() == bytes[0]
        &&& self.dsm_system() == dsm_system_of(bytes[1])
        &&& self.servo_words().len() == 7
        &&& forall|i: int|
            0 <= i < 7 ==> #[trigger] self.servo_words()[i] == servo_of_bytes(
                bytes[2 * i + 2],
                bytes[2 * i + 3],
            )
    }
}

/// The length of the buffer in bytes.
pub const BUFFER_LEN: usize = 20;

/// A silence longer than this many milliseconds separates two frames.
pub const FRAME_GAP_MS: usize = 17;

/// The bytes of a cleared buffer.
pub open spec fn cleared_buffer() -> Seq<u8> {
    Seq::new(20, |i: int| 0u8)
}

/// Collects the bytes of a frame until the caller parses it.
pub struct DsmRx {
    pub buffer: [u8; 20],
    pub buffer_index: usize,
    timer: UpTimer,
}

impl DsmRx {
    /// How many bytes the buffer holds.
    pub closed spec fn buffered_count(&self) -> nat {
        self.buffer_index as nat
    }

    /// The bytes in the buffer.
    pub closed spec fn buffer_bytes(&self) -> Seq<u8> {
        self.buffer@
    }

    /// The buffer always holds 20 bytes.
    pub proof fn lemma_buffer_len(&self)
        ensures
            self.buffer_bytes().len() == BUFFER_LEN,
    {
    }


    /// The counter reading at which the last byte arrived (or the receiver was made).
    pub closed spec fn last_byte_ms(&self) -> usize {
        self.timer.start_ms()
    }

    /// Whether a byte arriving at `now_ms` comes after a silence that ends a frame.
    pub open spec fn gap_before(&self, now_ms: usize) -> bool {
        now_ms - self.last_byte_ms() > FRAME_GAP_MS
    }

    /// `next` is this receiver after `byte` arrived at the counter reading `now_ms`.
    pub open spec fn receives(&self, byte: u8, now_ms: usize, next: DsmRx) -> bool {
        &&& next.last_byte_ms() == now_ms
        &&& self.gap_before(now_ms) ==> {
            &&& next.buffered_count() == 1
            &&& next.buffer_bytes() == cleared_buffer().update(0, byte)
        }
        &&& !self.gap_before(now_ms) ==> {
            &&& next.buffered_count() == self.buffered_count() + 1
            &&& next.buffer_bytes() == self.buffer_bytes().update(self.buffered_count() as int, byte)
        }
    }

    /// An empty receiver made at the counter reading `now_ms`.
    pub fn new(now_ms: usize) -> (rx: Self)
        ensures
            rx.buffer_bytes() == cleared_buffer(),
            rx.buffered_count() == 0,
            rx.last_byte_ms() == now_ms,
    {
        let timer = UpTimer::new(now_ms);

        let rx = DsmRx { buffer: [0; 20], buffer_index: 0, timer };
        assert(rx.buffer@ =~= cleared_buffer());
        rx
    }

    fn clear_buffer(&mut self)
        ensures
            final(self).buffer@ == cleared_buffer(),
            final(self).buffer_index == 0,
            final(self).timer == old(self).timer,
    {
        self.buffer_index = 0;
        self.buffer = [0; 20];
        assert(self.buffer@ =~= cleared_buffer());
    }

    /// Stores a byte that arrived at the counter reading `now_ms`, first
    /// emptying the buffer if more than 17 ms passed since the last byte.
    pub fn handle_serial_event(&mut self, byte: u8, now_ms: usize)
        requires
            old(self).last_byte_ms() <= now_ms,
            old(self).gap_before(now_ms) || old(self).buffered_count() < BUFFER_LEN,
        ensures
            old(self).receives(byte, now_ms, *final(self)),
    {
        if self.timer.elapsed_ms(now_ms) > FRAME_GAP_MS {
            self.clear_buffer();
        }
        self.buffer[self.buffer_index] = byte;
        self.buffer_index += 1;
        self.timer.reset(now_ms);
    }

    /// Decodes the first 16 bytes of the buffer into a frame and empties the buffer.
    pub fn parse_frame(&mut self) -> (frame: DsmInternalFrame)
        ensures
            frame.decodes(old(self).buffer_bytes()),
            final(self).buffer_bytes() == cleared_buffer(),
            final(self).buffered_count() == 0,
            final(self).last_byte_ms() == old(self).last_byte_ms(),
    {
        let mut servos: [Dsm1024Servo; 7] = [Dsm1024Servo { channel_id: 0, position: 0 }; 7];

        for i in 1..8usize
            invariant
                self.buffer@.len() == 20,
                forall|j: int|
                    0 <= j < i - 1 ==> #[trigger] servos@[j] == servo_of_bytes(
                        self.buffer@[2 * j + 2],
                        self.buffer@[2 * j + 3],
                    ),
        {
            let index = i * 2;
            let servo = [self.buffer[index], self.buffer[index + 1]];

            servos[i - 1] = Dsm1024Servo::from(servo);
        }

        let frame = DsmInternalFrame {
            fades: self.buffer[0],
            system: DsmSystem::from(self.buffer[1]),
            servos: servos,
        };

        self.clear_buffer();

        frame
    }
}

/// A byte that arrives more than 17 ms after the previous one starts a new
/// buffer, whatever was buffered: it is the only byte, the rest is zero.
/// A byte that arrives sooner is appended after the buffered ones.
pub proof fn lemma_pause_starts_new_buffer(rx: DsmRx, byte: u8, now_ms: usize, next: DsmRx)
    requires
        rx.receives(byte, now_ms, next),
        (now_ms as int) - (rx.last_byte_ms() as int) > 17 || rx.buffered_count() < BUFFER_LEN,
    ensures
        next.last_byte_ms() == now_ms,
        (now_ms as int) - (rx.last_byte_ms() as int) > 17 ==> {
            &&& next.buffered_count() == 1
            &&& next.buffer_bytes()[0] == byte
            &&& forall|j: int| 1 <= j < 20 ==> #[trigger] next.buffer_bytes()[j] == 0
        },
        (now_ms as int) - (rx.last_byte_ms() as int) <= 17 ==> {
            &&& next.buffered_count() == rx.buffered_count() + 1
            &&& next.buffer_bytes()[rx.buffered_count() as int] == byte
            &&& forall|j: int|
                0 <= j < 20 && j != rx.buffered_count() ==> #[trigger] next.buffer_bytes()[j]
                    == rx.buffer_bytes()[j]
        },
{
    rx.lemma_buffer_len();
}

/// `states[i + 1]` is `states[i]` after `bytes[i]` arrived at `times[i]`.
pub open spec fn byte_received(states: Seq<DsmRx>, bytes: Seq<u8>, times: Seq<usize>, i: int) -> bool {
    states[i].receives(bytes[i], times[i], states[i + 1])
}

/// `states[k]` holds the first `k` of `bytes`, in order, when they were fed
/// to an empty buffer each within 17 ms of the one before.
proof fn lemma_bytes_in_order(states: Seq<DsmRx>, bytes: Seq<u8>, times: Seq<usize>, k: int)
    requires
        states.len() == bytes.len() + 1,
        times.len() == bytes.len(),
        bytes.len() <= BUFFER_LEN,
        states[0].buffered_count() == 0,
        states[0].buffer_bytes().len() == BUFFER_LEN,
        forall|i: int| 0 <= i < bytes.len() ==> #[trigger] byte_received(states, bytes, times, i),
        forall|i: int| 0 < i < bytes.len() ==> #[trigger] times[i] <= times[i - 1] + FRAME_GAP_MS,
        forall|i: int| 0 < i < bytes.len() ==> times[i - 1] <= #[trigger] times[i],
        0 <= k <= bytes.len(),
    ensures
        states[k].buffered_count() == k,
        states[k].buffer_bytes().len() == BUFFER_LEN,
        forall|j: int| 0 <= j < k ==> #[trigger] states[k].buffer_bytes()[j] == bytes[j],
    decreases k,
{
    if k > 0 {
        lemma_bytes_in_order(states, bytes, times, k - 1);
        assert(byte_received(states, bytes, times, k - 1));
        if k > 1 {
            assert(byte_received(states, bytes, times, k - 2));
        }
    }
}

/// Sixteen bytes fed to an empty buffer, each within 17 ms of the one
/// before, are what `parse_frame` then decodes.
pub proof fn lemma_sixteen_bytes_parse_to_their_frame(
    states: Seq<DsmRx>,
    bytes: Seq<u8>,
    times: Seq<usize>,
)
    requires
        states.len() == 17,
        bytes.len() == 16,
        times.len() == 16,
        states[0].buffered_count() == 0,
        states[0].buffer_bytes().len() == BUFFER_LEN,
        forall|i: int| 0 <= i < 16 ==> #[trigger] byte_received(states, bytes, times, i),
        forall|i: int| 0 < i < 16 ==> #[trigger] times[i] <= times[i - 1] + FRAME_GAP_MS,
        forall|i: int| 0 < i < 16 ==> times[i - 1] <= #[trigger] times[i],
    ensures
        states[16].buffered_count() == 16,
        forall|f: DsmInternalFrame| #[trigger] f.decodes(states[16].buffer_bytes()) ==> f.decodes(bytes),
{
    lemma_bytes_in_order(states, bytes, times, 16);
}

} // verus!
