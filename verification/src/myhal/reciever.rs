//! The interface of a radio-control receiver.

use vstd::prelude::*;

verus! {

/// A trait for reciever implementations.
///
/// The reciever's state is seen through spec functions that each
/// implementation defines; the methods are specified over them.
/// Time is read from a free-running millisecond counter whose reading,
/// `now_ms`, the caller passes in.
pub trait Reciever<const NUM_CHANNELS: usize> {
    /// Whether a packet has arrived since the channels were last read.
    spec fn new_data_pending(&self) -> bool;

    /// Whether `get_channels` can be called in this state.
    spec fn channels_readable(&self) -> bool;

    /// The pulse widths, in microseconds, that `get_channels` returns in this state.
    spec fn channel_pulse_widths(&self) -> Seq<u16>;

    /// Whether `is_in_failsafe` can be called at the counter reading `now_ms`.
    spec fn clock_readable(&self, now_ms: usize) -> bool;

    /// Whether the link to the transmitter counts as lost at the counter reading `now_ms`.
    spec fn link_lost(&self, now_ms: usize) -> bool;

    /// Returns true if there are new channel positions to read
    fn has_new_data(&self) -> (new_data: bool)
        ensures
            new_data == self.new_data_pending(),
    ;

    /// Return an array of the PWM pulse width for each channel (in microseconds)
    ///
    /// Calling this function will make `has_new_data()` return false until another
    /// packet is recieved from the transmitter
    fn get_channels(&mut self) -> (channels: [u16; NUM_CHANNELS])
        requires
            old(self).channels_readable(),
        ensures
            channels@ == old(self).channel_pulse_widths(),
            !final(self).new_data_pending(),
    ;

    /// Returns true if the reciever has lost connection with the transmitter
    /// and has entered failsafe mode
    fn is_in_failsafe(&self, now_ms: usize) -> (lost: bool)
        requires
            self.clock_readable(now_ms),
        ensures
            lost == self.link_lost(now_ms),
    ;
}

} // verus!
