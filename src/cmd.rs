//! The device commands built on top of messages: the LED mask and the motor
//! power ratio.

use crate::channel::receive_within;
use crate::frame::be16;
use crate::message::{submit, Message, SubmitError};
use std::sync::mpsc::Sender;
use vstd::prelude::*;

verus! {

/// Command that sets the LEDs.
pub const LED_SET_COMMAND: u16 = 0x0000;

/// Command that reads the LEDs back.
pub const LED_GET_COMMAND: u16 = 0x0001;

/// Command that sets the motor power ratio.
pub const MOTOR_POWER_COMMAND: u16 = 0x0100;

/// Number of LEDs in a mask.
pub const LED_COUNT: usize = 8;

/// Seconds to wait for the device to report its LEDs.
pub const LED_READ_TIMEOUT_SECS: u64 = 10;

/// Whether LED `led` is on in `mask`: LED 0 is the most significant bit.
pub open spec fn led_on(mask: u8, led: u8) -> bool {
    (mask >> ((7 - led) as u8)) & 1u8 == 1u8
}

proof fn lemma_led_bits(mask: u8, i: u8, l: u8)
    requires
        i < 8,
        l < 8,
    ensures
        ((mask | (0x80u8 >> i)) >> ((7 - l) as u8)) & 1u8 == 1u8 <==> (((mask >> ((7 - l) as u8)) & 1u8
            == 1u8) || l == i),
        (0u8 >> ((7 - l) as u8)) & 1u8 != 1u8,
{
    assert(((mask | (0x80u8 >> i)) >> ((7 - l) as u8)) & 1u8 == 1u8 <==> (((mask >> ((7 - l) as u8)) & 1u8
        == 1u8) || l == i)) by (bit_vector)
        requires
            i < 8,
            l < 8,
    ;
    assert((0u8 >> ((7 - l) as u8)) & 1u8 != 1u8) by (bit_vector);
}

/// Why the LED state could not be read.
#[derive(Debug, PartialEq, Eq)]
pub enum LedError {
    /// The link to the device is gone.
    LinkClosed,
    /// No response came in time.
    NoResponse,
    /// The response did not hold exactly one byte; this many came.
    BadLength(usize),
}

/// Which LEDs are on: a bit mask where LED 0 is the most significant bit.
pub struct LedMask(u8);

impl LedMask {
    /// The mask's bits.
    pub closed spec fn bits(&self) -> u8 {
        self.0
    }

    /// The mask's bits.
    pub fn to_bits(&self) -> (r: u8)
        ensures
            r == self.bits(),
    {
        self.0
    }

    /// Builds the mask from one flag per LED, LED 0 first; LEDs past the end
    /// of `leds` are off.
    pub fn from_bools(leds: Vec<bool>) -> (r: LedMask)
        requires
            leds@.len() <= LED_COUNT,
        ensures
            forall|l: u8| l < 8 ==> (led_on(r.bits(), l) <==> (l < leds@.len() && leds@[l as int])),
    {
        let mut mask: u8 = 0;
        let mut i: usize = 0;
        proof {
            assert forall|l: u8| l < 8 implies !led_on(mask, l) by {
                lemma_led_bits(0, 0, l);
            }
        }
        while i < leds.len()
            invariant
                i <= leds@.len() <= 8,
                forall|l: u8| l < 8 ==> (led_on(mask, l) <==> (l < i && leds@[l as int])),
            decreases leds@.len() - i,
        {
            let ghost old_mask = mask;
            if leds[i] {
                mask = mask | (0x80u8 >> (i as u8));
                proof {
                    assert forall|l: u8| l < 8 implies (led_on(mask, l) <==> (l < i + 1
                        && leds@[l as int])) by {
                        lemma_led_bits(old_mask, i as u8, l);
                        assert(led_on(old_mask, l) <==> (l < i && leds@[l as int]));
                    }
                }
            } else {
                proof {
                    assert forall|l: u8| l < 8 implies (led_on(mask, l) <==> (l < i + 1
                        && leds@[l as int])) by {
                        if l == i {
                            assert(!leds@[l as int]);
                        }
                    }
                }
            }
            i += 1;
        }
        LedMask(mask)
    }

    /// One flag per LED, LED 0 first.
    pub fn to_bools(&self) -> (r: Vec<bool>)
        ensures
            r@.len() == LED_COUNT,
            forall|l: u8| l < 8 ==> r@[l as int] == led_on(self.bits(), l),
    {
        let mut r: Vec<bool> = Vec::new();
        let mut i: u8 = 0;
        while i < 8
            invariant
                i <= 8,
                r@.len() == i,
                forall|l: u8| l < i ==> r@[l as int] == led_on(self.0, l),
            decreases 8 - i,
        {
            r.push((self.0 >> (7 - i)) & 1 == 1);
            i += 1;
        }
        r
    }

    /// Reads the mask from the device's response to the LED query, which
    /// must be exactly one byte.
    pub fn from_response(response: &Vec<u8>) -> (r: Result<LedMask, LedError>)
        ensures
            r is Ok <==> response@.len() == 1,
            r matches Ok(m) ==> m.bits() == response@[0],
            r is Err ==> (r matches Err(LedError::BadLength(n)) && n == response@.len()),
    {
        if response.len() != 1 {
            return Err(LedError::BadLength(response.len()));
        }
        Ok(LedMask(response[0]))
    }

    /// Payload of the command that sets the LEDs to this mask.
    pub fn payload(&self) -> (r: Vec<u8>)
        ensures
            r@ == seq![self.bits()],
    {
        vec![self.0]
    }

    /// Asks the device for its current LEDs through `link` and waits for the
    /// answer.
    pub fn read(link: &Sender<Message>) -> (r: Result<LedMask, LedError>)
        ensures
            r matches Err(LedError::BadLength(n)) ==> n != 1,
    {
        let receiver = match submit(link, LED_GET_COMMAND, Vec::new()) {
            Ok(receiver) => receiver,
            Err(_) => {
                return Err(LedError::LinkClosed);
            },
        };
        match receive_within(&receiver, LED_READ_TIMEOUT_SECS) {
            Some(response) => LedMask::from_response(&response),
            None => Err(LedError::NoResponse),
        }
    }

    /// Tells the device through `link` to set its LEDs to this mask. The
    /// device's answer carries nothing of interest and is not awaited.
    pub fn send(&self, link: &Sender<Message>) -> (r: Result<(), SubmitError>)
        ensures
            !(r matches Err(SubmitError::TooLarge(_))),
    {
        match submit(link, LED_SET_COMMAND, self.payload()) {
            Ok(_) => Ok(()),
            Err(e) => Err(e),
        }
    }
}

/// Power of the left and right motors, each over the whole `i16` range:
/// negative is backward, positive is forward.
pub struct MotorPowerRatio {
    left: i16,
    right: i16,
}

impl MotorPowerRatio {
    /// Power of the left motors.
    pub closed spec fn left(&self) -> i16 {
        self.left
    }

    /// Power of the right motors.
    pub closed spec fn right(&self) -> i16 {
        self.right
    }

    /// The ratio with the given powers.
    pub fn new(left: i16, right: i16) -> (r: MotorPowerRatio)
        ensures
            r.left() == left,
            r.right() == right,
    {
        MotorPowerRatio { left, right }
    }

    /// Payload of the command that sets this ratio: left, then right, each
    /// as two big-endian bytes of two's complement.
    pub fn payload(&self) -> (r: Vec<u8>)
        ensures
            r@ == be16(self.left() as u16 as nat) + be16(self.right() as u16 as nat),
    {
        let left = self.left as u16;
        let right = self.right as u16;
        let r = vec![(left / 256) as u8, (left % 256) as u8, (right / 256) as u8, (right % 256) as u8];
        assert(r@ =~= be16(left as nat) + be16(right as nat));
        r
    }

    /// Tells the device through `link` to set this ratio. The device's answer
    /// carries nothing of interest and is not awaited.
    pub fn send(&self, link: &Sender<Message>) -> (r: Result<(), SubmitError>)
        ensures
            !(r matches Err(SubmitError::TooLarge(_))),
    {
        match submit(link, MOTOR_POWER_COMMAND, self.payload()) {
            Ok(_) => Ok(()),
            Err(e) => Err(e),
        }
    }
}

} // verus!
