//! Servos and a controller that drives a fixed set of them together.

use vstd::prelude::*;

verus! {

/// A servo that can be commanded to a pulse width.
pub trait Servo {
    /// The pulse width, in microseconds, that the servo was last commanded to.
    spec fn commanded_us(&self) -> u16;

    /// Whether this servo is the servo `before` after exactly one command,
    /// to the pulse width `us`, and nothing else done to it.
    spec fn commanded_from(&self, before: &Self, us: u16) -> bool;

    /// Commands the servo to the pulse width `us`, in microseconds.
    fn set_us(&mut self, us: u16)
        ensures
            final(self).commanded_us() == us,
            final(self).commanded_from(old(self), us),
    ;
}

/// Drives `N` servos at once.
pub struct ServoController<const N: usize, T: Servo> {
    servos: [T; N],
}

impl<const N: usize, T: Servo> ServoController<N, T> {
    /// The controlled servos, in order.
    pub closed spec fn servos(&self) -> Seq<T> {
        self.servos@
    }

    /// A controller of the servos `servos`.
    pub fn new(servos: [T; N]) -> (controller: Self)
        ensures
            controller.servos() == servos@,
    {
        Self { servos }
    }

    /// Commands servo `i` to the pulse width `positions[i]`, once, for each
    /// `i` in order; the servos stay in the same order.
    pub fn set_servo_us(&mut self, positions: [u16; N])
        ensures
            final(self).servos().len() == N,
            forall|i: int|
                0 <= i < N ==> {
                    &&& #[trigger] final(self).servos()[i].commanded_us() == positions@[i]
                    &&& final(self).servos()[i].commanded_from(&old(self).servos()[i], positions@[i])
                },
    {
        let mut i: usize = 0;
        while i < N
            invariant
                0 <= i <= N,
                self.servos@.len() == N,
                old(self).servos@.len() == N,
                forall|j: int|
                    0 <= j < i ==> {
                        &&& #[trigger] self.servos@[j].commanded_us() == positions@[j]
                        &&& self.servos@[j].commanded_from(&old(self).servos@[j], positions@[j])
                    },
                forall|j: int| i <= j < N ==> #[trigger] self.servos@[j] == old(self).servos@[j],
            decreases N - i,
        {
            self.servos[i].set_us(positions[i]);
            i += 1;
        }
    }
}

} // verus!
