//! The parameters whose values change by themselves: two random numbers,
//! the seconds since the shell started, and the time of day. The store
//! does not look at a clock or draw a number: it holds, as ordinary
//! parameters of the global layer, the values that it was last given, and
//! whoever runs the shell gives it new ones before a command reads them.
//! The shell starts with the flag `i` on the two random numbers.

use vstd::prelude::*;
use crate::shell::database::data::{Data, DataView};
use crate::shell::database::{DataBase, DbView};
use crate::utils::number::{char_of_digit, digit_char, int_to_string, numeral_of};

verus! {

/// The six decimal digits of a number below a million, with leading zeros.
pub open spec fn six_digits(m: int) -> Seq<char> {
    seq![
        digit_char(m / 100000 % 10),
        digit_char(m / 10000 % 10),
        digit_char(m / 1000 % 10),
        digit_char(m / 100 % 10),
        digit_char(m / 10 % 10),
        digit_char(m % 10),
    ]
}

/// The time of day as seconds, a point, and the millionths of the running
/// second, for a time given in millionths of a second.
pub open spec fn real_time(micros: int) -> Seq<char> {
    numeral_of(micros / 1000000) + seq!['.'] + six_digits(micros % 1000000)
}

impl DbView {
    /// The store with new values for the five parameters that change by
    /// themselves, in the global layer: `RANDOM`, a number below 32768
    /// taken from `random`; `SRANDOM`; `SECONDS`; `EPOCHSECONDS` and
    /// `EPOCHREALTIME`, for the time `micros` in millionths of a second.
    /// The flags stay as they are.
    pub open spec fn with_dynamic(self, random: u32, srandom: u32, seconds: u64, micros: u64) -> DbView {
        self.with_data(0, "RANDOM"@, DataView::Single(numeral_of(random as int % 32768))).with_data(
            0,
            "SRANDOM"@,
            DataView::Single(numeral_of(srandom as int)),
        ).with_data(0, "SECONDS"@, DataView::Single(numeral_of(seconds as int))).with_data(
            0,
            "EPOCHSECONDS"@,
            DataView::Single(numeral_of(micros as int / 1000000)),
        ).with_data(0, "EPOCHREALTIME"@, DataView::Single(real_time(micros as int)))
    }
}

/// The time of day as a text, for a time in millionths of a second.
pub fn real_time_text(micros: u64) -> (r: String)
    ensures
        r@ == real_time(micros as int),
{
    let m: u64 = micros % 1000000;
    let mut s = int_to_string((micros / 1000000) as i128);
    let ghost head = s@;
    s.push('.');
    s.push(char_of_digit((m / 100000 % 10) as u8));
    s.push(char_of_digit((m / 10000 % 10) as u8));
    s.push(char_of_digit((m / 1000 % 10) as u8));
    s.push(char_of_digit((m / 100 % 10) as u8));
    s.push(char_of_digit((m / 10 % 10) as u8));
    s.push(char_of_digit((m % 10) as u8));
    assert(s@ =~= head + seq!['.'] + six_digits(m as int));
    s
}

impl DataBase {
    /// Gives the store new values for the parameters that change by
    /// themselves: `random` and `srandom` are two numbers drawn at random,
    /// `seconds` is the time since the shell started, and `micros` the time
    /// of day in millionths of a second since the epoch. This is no write
    /// of a command: the flags of the names are neither consulted nor
    /// changed, and nothing goes to the environment.
    pub fn set_dynamic(&mut self, random: u32, srandom: u32, seconds: u64, micros: u64)
        requires
            old(self).wf(),
        ensures
            final(self).wf(),
            final(self).params.len() == old(self).params.len(),
            final(self)@ == old(self)@.with_dynamic(random, srandom, seconds, micros),
    {
        self.put_data(0, "RANDOM", Data::Single(int_to_string((random % 32768) as i128)));
        self.put_data(0, "SRANDOM", Data::Single(int_to_string(srandom as i128)));
        self.put_data(0, "SECONDS", Data::Single(int_to_string(seconds as i128)));
        self.put_data(0, "EPOCHSECONDS", Data::Single(int_to_string((micros / 1000000) as i128)));
        self.put_data(0, "EPOCHREALTIME", Data::Single(real_time_text(micros)));
    }
}

} // verus!
