//! The pluggable character-level sign/digit encoding.
//!
//! An [`Encoding`] is a stateless three-operation capability that maps a
//! digit-and-sign pair to and from a single character. The extraction and
//! formatting engines are written against this trait alone, so any
//! implementation that satisfies the trait's laws round-trips through them.
//! [`Ebcdic`] is the standard overpunch table; [`AsciiSignLast`] is an
//! alternative table that keeps plain digits for positive values.

use vstd::prelude::*;

use crate::error::Error;

verus! {

/// A two-valued sign indicator: pure data, no identity.
#[derive(Debug, PartialEq, Eq, Structural, Clone, Copy)]
pub enum Sign {
    Positive,
    Negative,
}

/// The plain ASCII rendering of a decimal digit; meaningful for `d <= 9`.
pub open spec fn digit_char(d: u8) -> char {
    if d == 0 {
        '0'
    } else if d == 1 {
        '1'
    } else if d == 2 {
        '2'
    } else if d == 3 {
        '3'
    } else if d == 4 {
        '4'
    } else if d == 5 {
        '5'
    } else if d == 6 {
        '6'
    } else if d == 7 {
        '7'
    } else if d == 8 {
        '8'
    } else {
        '9'
    }
}

/// The digit a plain ASCII digit character stands for, if it is one.
pub open spec fn spec_plain_digit(c: char) -> Option<u8> {
    if c == '0' {
        Some(0u8)
    } else if c == '1' {
        Some(1u8)
    } else if c == '2' {
        Some(2u8)
    } else if c == '3' {
        Some(3u8)
    } else if c == '4' {
        Some(4u8)
    } else if c == '5' {
        Some(5u8)
    } else if c == '6' {
        Some(6u8)
    } else if c == '7' {
        Some(7u8)
    } else if c == '8' {
        Some(8u8)
    } else if c == '9' {
        Some(9u8)
    } else {
        None
    }
}

/// Renders a digit as its plain ASCII character.
pub fn digit_to_char(d: u8) -> (c: char)
    requires
        d <= 9,
    ensures
        c == digit_char(d),
{
    match d {
        0 => '0',
        1 => '1',
        2 => '2',
        3 => '3',
        4 => '4',
        5 => '5',
        6 => '6',
        7 => '7',
        8 => '8',
        _ => '9',
    }
}

/// Decodes a plain ASCII digit character, if it is one.
pub fn plain_digit(c: char) -> (r: Option<u8>)
    ensures
        r == spec_plain_digit(c),
{
    match c {
        '0' => Some(0),
        '1' => Some(1),
        '2' => Some(2),
        '3' => Some(3),
        '4' => Some(4),
        '5' => Some(5),
        '6' => Some(6),
        '7' => Some(7),
        '8' => Some(8),
        '9' => Some(9),
        _ => None,
    }
}

/// A stateless, immutable sign/digit encoding.
///
/// The three spec functions give the encoding's table; the three executable
/// operations are bound to them exactly. The three laws are what "satisfying
/// the three-operation contract" means, and they are all the engines need:
/// any two implementations that prove them behave identically under
/// extraction and formatting.
pub trait Encoding: Sized {
    /// The character that encodes `digit` under `sign`, if the table has one.
    spec fn spec_encode(&self, digit: u8, sign: Sign) -> Option<char>;

    /// The digit-and-sign pair a character decodes to, if the table has one.
    spec fn spec_decode(&self, c: char) -> Option<(u8, Sign)>;

    /// The digit a character decodes to as a plain, unsigned digit, if any.
    spec fn spec_decode_digit(&self, c: char) -> Option<u8>;

    /// Law: every digit `0..=9` has an encoding under both signs.
    proof fn lemma_encode_total(&self, digit: u8, sign: Sign)
        requires
            digit <= 9,
        ensures
            self.spec_encode(digit, sign) is Some,
    ;

    /// Law: decoding inverts encoding.
    proof fn lemma_decode_encode(&self, digit: u8, sign: Sign)
        requires
            digit <= 9,
            self.spec_encode(digit, sign) is Some,
        ensures
            self.spec_decode(self.spec_encode(digit, sign)->Some_0) == Some((digit, sign)),
    ;

    /// Law: the plain ASCII rendering of every digit decodes back to it.
    proof fn lemma_decode_digit_plain(&self, digit: u8)
        requires
            digit <= 9,
        ensures
            self.spec_decode_digit(digit_char(digit)) == Some(digit),
    ;

    /// Encodes `digit` under `sign`; fails with [`Error::UnsupportedCharacter`]
    /// exactly when the table has no entry (in particular when `digit > 9`).
    fn encode(&self, digit: u8, sign: Sign) -> (r: Result<char, Error>)
        ensures
            match r {
                Ok(c) => self.spec_encode(digit, sign) == Some(c),
                Err(e) => self.spec_encode(digit, sign) is None && e matches
                    Error::UnsupportedCharacter(_),
            },
    ;

    /// Decodes a character to its digit-and-sign pair; fails with
    /// [`Error::UnsupportedCharacter`] carrying that character, exactly when
    /// the table has no entry.
    fn decode(&self, c: char) -> (r: Result<(u8, Sign), Error>)
        ensures
            match r {
                Ok(p) => self.spec_decode(c) == Some(p),
                Err(e) => self.spec_decode(c) is None && e == Error::UnsupportedCharacter(c),
            },
    ;

    /// Decodes a plain, unsigned digit character; fails with
    /// [`Error::UnsupportedCharacter`] carrying that character, exactly when
    /// the table has no entry.
    fn decode_digit(&self, c: char) -> (r: Result<u8, Error>)
        ensures
            match r {
                Ok(d) => self.spec_decode_digit(c) == Some(d),
                Err(e) => self.spec_decode_digit(c) is None && e == Error::UnsupportedCharacter(
                    c,
                ),
            },
    ;
}

/// The standard overpunch table: digit 0 encodes to `{` (positive) or `}`
/// (negative); digits 1 through 9 encode to `A..I` (positive) or `J..R`
/// (negative), in that fixed consecutive order. Decoding also accepts a plain
/// ASCII digit as that digit with a positive sign (an unsigned trailing
/// digit carries no overpunch).
#[derive(Debug, Clone, Copy, Default)]
pub struct Ebcdic;

impl Encoding for Ebcdic {
    open spec fn spec_encode(&self, digit: u8, sign: Sign) -> Option<char> {
        match sign {
            Sign::Positive => if digit == 0 {
                Some('{')
            } else if digit == 1 {
                Some('A')
            } else if digit == 2 {
                Some('B')
            } else if digit == 3 {
                Some('C')
            } else if digit == 4 {
                Some('D')
            } else if digit == 5 {
                Some('E')
            } else if digit == 6 {
                Some('F')
            } else if digit == 7 {
                Some('G')
            } else if digit == 8 {
                Some('H')
            } else if digit == 9 {
                Some('I')
            } else {
                None
            },
            Sign::Negative => if digit == 0 {
                Some('}')
            } else if digit == 1 {
                Some('J')
            } else if digit == 2 {
                Some('K')
            } else if digit == 3 {
                Some('L')
            } else if digit == 4 {
                Some('M')
            } else if digit == 5 {
                Some('N')
            } else if digit == 6 {
                Some('O')
            } else if digit == 7 {
                Some('P')
            } else if digit == 8 {
                Some('Q')
            } else if digit == 9 {
                Some('R')
            } else {
                None
            },
        }
    }

    open spec fn spec_decode(&self, c: char) -> Option<(u8, Sign)> {
        if c == '{' {
            Some((0u8, Sign::Positive))
        } else if c == 'A' {
            Some((1u8, Sign::Positive))
        } else if c == 'B' {
            Some((2u8, Sign::Positive))
        } else if c == 'C' {
            Some((3u8, Sign::Positive))
        } else if c == 'D' {
            Some((4u8, Sign::Positive))
        } else if c == 'E' {
            Some((5u8, Sign::Positive))
        } else if c == 'F' {
            Some((6u8, Sign::Positive))
        } else if c == 'G' {
            Some((7u8, Sign::Positive))
        } else if c == 'H' {
            Some((8u8, Sign::Positive))
        } else if c == 'I' {
            Some((9u8, Sign::Positive))
        } else if c == '}' {
            Some((0u8, Sign::Negative))
        } else if c == 'J' {
            Some((1u8, Sign::Negative))
        } else if c == 'K' {
            Some((2u8, Sign::Negative))
        } else if c == 'L' {
            Some((3u8, Sign::Negative))
        } else if c == 'M' {
            Some((4u8, Sign::Negative))
        } else if c == 'N' {
            Some((5u8, Sign::Negative))
        } else if c == 'O' {
            Some((6u8, Sign::Negative))
        } else if c == 'P' {
            Some((7u8, Sign::Negative))
        } else if c == 'Q' {
            Some((8u8, Sign::Negative))
        } else if c == 'R' {
            Some((9u8, Sign::Negative))
        } else {
            match spec_plain_digit(c) {
                Some(d) => Some((d, Sign::Positive)),
                None => None,
            }
        }
    }

    open spec fn spec_decode_digit(&self, c: char) -> Option<u8> {
        spec_plain_digit(c)
    }

    proof fn lemma_encode_total(&self, digit: u8, sign: Sign) {
    }

    proof fn lemma_decode_encode(&self, digit: u8, sign: Sign) {
    }

    proof fn lemma_decode_digit_plain(&self, digit: u8) {
    }

    fn encode(&self, digit: u8, sign: Sign) -> (r: Result<char, Error>) {
        if digit > 9 {
            return Err(Error::UnsupportedCharacter('?'));
        }
        let c = match (digit, sign) {
            (0, Sign::Positive) => '{',
            (1, Sign::Positive) => 'A',
            (2, Sign::Positive) => 'B',
            (3, Sign::Positive) => 'C',
            (4, Sign::Positive) => 'D',
            (5, Sign::Positive) => 'E',
            (6, Sign::Positive) => 'F',
            (7, Sign::Positive) => 'G',
            (8, Sign::Positive) => 'H',
            (9, Sign::Positive) => 'I',
            (0, Sign::Negative) => '}',
            (1, Sign::Negative) => 'J',
            (2, Sign::Negative) => 'K',
            (3, Sign::Negative) => 'L',
            (4, Sign::Negative) => 'M',
            (5, Sign::Negative) => 'N',
            (6, Sign::Negative) => 'O',
            (7, Sign::Negative) => 'P',
            (8, Sign::Negative) => 'Q',
            (_, Sign::Negative) => 'R',
            (_, Sign::Positive) => 'I',
        };
        Ok(c)
    }

    fn decode(&self, c: char) -> (r: Result<(u8, Sign), Error>) {
        match c {
            '{' => Ok((0, Sign::Positive)),
            'A' => Ok((1, Sign::Positive)),
            'B' => Ok((2, Sign::Positive)),
            'C' => Ok((3, Sign::Positive)),
            'D' => Ok((4, Sign::Positive)),
            'E' => Ok((5, Sign::Positive)),
            'F' => Ok((6, Sign::Positive)),
            'G' => Ok((7, Sign::Positive)),
            'H' => Ok((8, Sign::Positive)),
            'I' => Ok((9, Sign::Positive)),
            '}' => Ok((0, Sign::Negative)),
            'J' => Ok((1, Sign::Negative)),
            'K' => Ok((2, Sign::Negative)),
            'L' => Ok((3, Sign::Negative)),
            'M' => Ok((4, Sign::Negative)),
            'N' => Ok((5, Sign::Negative)),
            'O' => Ok((6, Sign::Negative)),
            'P' => Ok((7, Sign::Negative)),
            'Q' => Ok((8, Sign::Negative)),
            'R' => Ok((9, Sign::Negative)),
            _ => match plain_digit(c) {
                Some(d) => Ok((d, Sign::Positive)),
                None => Err(Error::UnsupportedCharacter(c)),
            },
        }
    }

    fn decode_digit(&self, c: char) -> (r: Result<u8, Error>) {
        match plain_digit(c) {
            Some(d) => Ok(d),
            None => Err(Error::UnsupportedCharacter(c)),
        }
    }
}

/// An alternative encoding: positive values keep their plain ASCII digit in
/// the final position, negative values replace it with `p..y` (digit 0
/// through 9, in that order).
#[derive(Debug, Clone, Copy, Default)]
pub struct AsciiSignLast;

impl Encoding for AsciiSignLast {
    open spec fn spec_encode(&self, digit: u8, sign: Sign) -> Option<char> {
        match sign {
            Sign::Positive => if digit <= 9 {
                Some(digit_char(digit))
            } else {
                None
            },
            Sign::Negative => if digit == 0 {
                Some('p')
            } else if digit == 1 {
                Some('q')
            } else if digit == 2 {
                Some('r')
            } else if digit == 3 {
                Some('s')
            } else if digit == 4 {
                Some('t')
            } else if digit == 5 {
                Some('u')
            } else if digit == 6 {
                Some('v')
            } else if digit == 7 {
                Some('w')
            } else if digit == 8 {
                Some('x')
            } else if digit == 9 {
                Some('y')
            } else {
                None
            },
        }
    }

    open spec fn spec_decode(&self, c: char) -> Option<(u8, Sign)> {
        if c == 'p' {
            Some((0u8, Sign::Negative))
        } else if c == 'q' {
            Some((1u8, Sign::Negative))
        } else if c == 'r' {
            Some((2u8, Sign::Negative))
        } else if c == 's' {
            Some((3u8, Sign::Negative))
        } else if c == 't' {
            Some((4u8, Sign::Negative))
        } else if c == 'u' {
            Some((5u8, Sign::Negative))
        } else if c == 'v' {
            Some((6u8, Sign::Negative))
        } else if c == 'w' {
            Some((7u8, Sign::Negative))
        } else if c == 'x' {
            Some((8u8, Sign::Negative))
        } else if c == 'y' {
            Some((9u8, Sign::Negative))
        } else {
            match spec_plain_digit(c) {
                Some(d) => Some((d, Sign::Positive)),
                None => None,
            }
        }
    }

    open spec fn spec_decode_digit(&self, c: char) -> Option<u8> {
        spec_plain_digit(c)
    }

    proof fn lemma_encode_total(&self, digit: u8, sign: Sign) {
    }

    proof fn lemma_decode_encode(&self, digit: u8, sign: Sign) {
    }

    proof fn lemma_decode_digit_plain(&self, digit: u8) {
    }

    fn encode(&self, digit: u8, sign: Sign) -> (r: Result<char, Error>) {
        if digit > 9 {
            return Err(Error::UnsupportedCharacter('?'));
        }
        match sign {
            Sign::Positive => Ok(digit_to_char(digit)),
            Sign::Negative => Ok(
                match digit {
                    0 => 'p',
                    1 => 'q',
                    2 => 'r',
                    3 => 's',
                    4 => 't',
                    5 => 'u',
                    6 => 'v',
                    7 => 'w',
                    8 => 'x',
                    _ => 'y',
                },
            ),
        }
    }

    fn decode(&self, c: char) -> (r: Result<(u8, Sign), Error>) {
        match c {
            'p' => Ok((0, Sign::Negative)),
            'q' => Ok((1, Sign::Negative)),
            'r' => Ok((2, Sign::Negative)),
            's' => Ok((3, Sign::Negative)),
            't' => Ok((4, Sign::Negative)),
            'u' => Ok((5, Sign::Negative)),
            'v' => Ok((6, Sign::Negative)),
            'w' => Ok((7, Sign::Negative)),
            'x' => Ok((8, Sign::Negative)),
            'y' => Ok((9, Sign::Negative)),
            _ => match plain_digit(c) {
                Some(d) => Ok((d, Sign::Positive)),
                None => Err(Error::UnsupportedCharacter(c)),
            },
        }
    }

    fn decode_digit(&self, c: char) -> (r: Result<u8, Error>) {
        match plain_digit(c) {
            Some(d) => Ok(d),
            None => Err(Error::UnsupportedCharacter(c)),
        }
    }
}

} // verus!
