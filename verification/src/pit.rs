//! The programmable interval timer.
//!
//! The timer's channels are programmed through command and data ports; the
//! object carries the log of the port writes it performed.

use vstd::prelude::*;

use crate::rational::Rational;

verus! {

/// The data port of channel zero.
pub const CHANNEL_0: u16 = 0x40;
/// The data port of channel two.
pub const CHANNEL_2: u16 = 0x42;
/// The command port.
pub const PIT_COMMAND: u16 = 0x43;
/// Access mode: low byte then high byte.
pub const ACCESS_LOBYTE_HIBYTE: u8 = 0x30;
/// Operating mode three: square wave generator.
pub const MODE_3: u8 = 0x6;
/// The timer's base frequency in hertz.
pub const PIT_BASE_FREQUENCY: i64 = 1193182;

/// A timer driving a periodic interrupt.
pub trait Timer {
    /// The timer's current frequency.
    spec fn spec_freq(&self) -> Rational;

    /// Returns the maximum frequency the timer can run at.
    fn get_max_frequency(&self) -> (r: Rational)
        ensures
            r.well_formed(),
    ;

    /// Returns the timer's current frequency.
    fn get_curr_frequency(&self) -> (r: Rational)
        ensures
            r == self.spec_freq(),
    ;
}

/// A programmable interval timer channel.
pub struct PITTimer {
    /// The channel driven: zero or two.
    channel: u8,
    /// The current frequency.
    current_frequency: Rational,
    /// Every port write performed, in order: port and value.
    write_log: Vec<(u16, u8)>,
}

impl PITTimer {
    /// The ordered log of the port writes performed.
    pub closed spec fn spec_log(&self) -> Seq<(u16, u8)> {
        self.write_log@
    }

    /// The channel driven.
    pub closed spec fn spec_channel(&self) -> u8 {
        self.channel
    }

    /// Claims channel `channel` and programs it into square wave mode.
    ///
    /// Only channels zero and two drive interrupts; another channel, or
    /// one already in use, yields `None`.
    pub fn new(channel: u8, used: &mut Vec<bool>) -> (r: Option<PITTimer>)
        requires
            old(used)@.len() == 3,
        ensures
            final(used)@.len() == 3,
            r is Some <==> (channel == 0 || channel == 2) && !old(used)@[channel as int],
            r matches Some(t) ==> {
                &&& t.spec_channel() == channel
                &&& t.spec_freq().num() == 0
                &&& t.spec_log() == seq![
                    (PIT_COMMAND, (if channel == 0 { 0u8 } else { 0x80u8 }) | ACCESS_LOBYTE_HIBYTE
                        | MODE_3),
                ]
                &&& final(used)@ == old(used)@.update(channel as int, true)
            },
            r is None ==> final(used)@ == old(used)@,
    {
        if channel != 0 && channel != 2 {
            return None;
        }
        if used[channel as usize] {
            return None;
        }
        used.set(channel as usize, true);
        let select: u8 = if channel == 0 {
            0
        } else {
            0x80
        };
        let mut write_log: Vec<(u16, u8)> = Vec::new();
        write_log.push((PIT_COMMAND, select | ACCESS_LOBYTE_HIBYTE | MODE_3));
        let t = PITTimer { channel, current_frequency: Rational::from_integer(0), write_log };
        proof {
            assert(t.spec_log() =~= seq![
                (PIT_COMMAND, (if channel == 0 { 0u8 } else { 0x80u8 }) | ACCESS_LOBYTE_HIBYTE
                    | MODE_3),
            ]);
        }
        Some(t)
    }

    /// Writes the reload value into the channel's data port, low byte
    /// first.
    pub fn set_value(&mut self, count: u16)
        ensures
            final(self).spec_channel() == old(self).spec_channel(),
            final(self).spec_freq() == old(self).spec_freq(),
            ({
                let port = if old(self).spec_channel() == 0 {
                    CHANNEL_0
                } else {
                    CHANNEL_2
                };
                final(self).spec_log() == old(self).spec_log().push(
                    (port, (count % 256) as u8),
                ).push((port, (count / 256) as u8))
            }),
    {
        let port: u16 = if self.channel == 0 {
            CHANNEL_0
        } else {
            CHANNEL_2
        };
        self.write_log.push((port, (count % 256) as u8));
        self.write_log.push((port, (count / 256) as u8));
    }

    /// Returns the channel's write log.
    pub fn get_write_log(&self) -> (r: &Vec<(u16, u8)>)
        ensures
            r@ == self.spec_log(),
    {
        &self.write_log
    }

    /// Sets the timer's frequency: the reload value is the base frequency
    /// divided by the asked one, clipped to sixteen bits, zero stopping
    /// the channel.
    pub fn set_curr_frequency(&mut self, frequency: Rational)
        requires
            frequency.well_formed(),
            frequency.num() >= 0,
            frequency.den() > 0,
        ensures
            final(self).spec_freq() == frequency,
            final(self).spec_channel() == old(self).spec_channel(),
            final(self).spec_log().len() == old(self).spec_log().len() + 2,
    {
        let count: u16 = if frequency.is_zero() {
            0
        } else {
            let base = Rational::from_integer(PIT_BASE_FREQUENCY);
            let ratio = base.div(&frequency);
            let num = ratio.get_numerator();
            let den = ratio.get_denominator();
            proof {
                assert(den == frequency.num());
            }
            let c = num / den;
            if c < 0 || c > 0xffff {
                0
            } else {
                c as u16
            }
        };
        self.current_frequency = frequency;
        self.set_value(count);
    }
}

impl Timer for PITTimer {
    closed spec fn spec_freq(&self) -> Rational {
        self.current_frequency
    }

    fn get_max_frequency(&self) -> (r: Rational) {
        Rational::from_integer(PIT_BASE_FREQUENCY)
    }

    fn get_curr_frequency(&self) -> (r: Rational) {
        self.current_frequency
    }
}

} // verus!
