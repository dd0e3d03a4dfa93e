//! Inclusive length bounds: resolution from user-supplied options, checking,
//! and rendering as a human-readable phrase.

use vstd::prelude::*;

use crate::strutil::{push_char, spec_byte_len, str_byte_len};

verus! {

/// Something with a byte length. `spec_len` is the mathematical length;
/// `len_wf` says when the executable `len` may be asked for it (for a
/// compound value, that the total fits in `usize`).
pub trait Len {
    spec fn spec_len(&self) -> nat;

    spec fn len_wf(&self) -> bool;

    fn len(&self) -> (r: usize)
        requires
            self.len_wf(),
        ensures
            r == self.spec_len(),
    ;
}

impl Len for String {
    open spec fn spec_len(&self) -> nat {
        spec_byte_len(self@)
    }

    open spec fn len_wf(&self) -> bool {
        true
    }

    fn len(&self) -> (r: usize) {
        str_byte_len(self.as_str())
    }
}

/// An inclusive `[min, max]` range used for checking the lengths of things.
/// `usize::MAX` as `max` stands for an unbounded range.
#[derive(Debug, Clone, Copy, Eq, PartialEq, Structural, Hash)]
pub struct Bounds {
    pub min: usize,
    pub max: usize,
}

/// The way a length can miss a `Bounds` value: the field carries the bound
/// that was violated.
#[derive(Debug, Clone, Copy, Eq, PartialEq, Structural)]
pub enum BoundsError {
    TooHigh(usize),
    TooLow(usize),
}

/// A pair of requested bounds that could not form a `Bounds` value because
/// the minimum exceeded the maximum.
#[derive(Debug, Clone, Copy, Eq, PartialEq, Structural)]
pub struct InvalidBoundsError {
    pub min: usize,
    pub max: usize,
}

impl Bounds {
    /// True iff `value` lies inside the inclusive range.
    pub open spec fn spec_contains(self, value: nat) -> bool {
        self.min <= value <= self.max
    }

    /// Resolve optional user-requested bounds against defaults.
    ///
    /// Both absent: the defaults are taken verbatim. Only a minimum: the
    /// default maximum is raised to that minimum if needed. Only a maximum:
    /// the default minimum is lowered to that maximum if needed. Both
    /// present: taken verbatim, rejected when `min > max`.
    pub fn resolve(
        min: Option<usize>,
        max: Option<usize>,
        default_min: usize,
        default_max: usize,
    ) -> (r: Result<Bounds, InvalidBoundsError>)
        requires
            default_min <= default_max,
        ensures
            match (min, max) {
                (None, None) => r == Ok::<Bounds, InvalidBoundsError>(
                    Bounds { min: default_min, max: default_max },
                ),
                (Some(mn), None) => r == Ok::<Bounds, InvalidBoundsError>(
                    Bounds { min: mn, max: if mn > default_max { mn } else { default_max } },
                ),
                (None, Some(mx)) => r == Ok::<Bounds, InvalidBoundsError>(
                    Bounds { min: if default_min < mx { default_min } else { mx }, max: mx },
                ),
                (Some(mn), Some(mx)) => if mn > mx {
                    r == Err::<Bounds, InvalidBoundsError>(InvalidBoundsError { min: mn, max: mx })
                } else {
                    r == Ok::<Bounds, InvalidBoundsError>(Bounds { min: mn, max: mx })
                },
            },
            r matches Ok(b) ==> b.min <= b.max,
    {
        match (min, max) {
            (None, None) => Ok(Bounds { min: default_min, max: default_max }),
            (Some(mn), None) => Ok(
                Bounds { min: mn, max: if mn > default_max { mn } else { default_max } },
            ),
            (None, Some(mx)) => Ok(
                Bounds { min: if default_min < mx { default_min } else { mx }, max: mx },
            ),
            (Some(mn), Some(mx)) => {
                if mn > mx {
                    Err(InvalidBoundsError { min: mn, max: mx })
                } else {
                    Ok(Bounds { min: mn, max: mx })
                }
            },
        }
    }

    /// Check a length against the bounds: the error carries the violated
    /// bound, and a value inside the range is handed back unchanged.
    pub fn check(&self, value: usize) -> (r: Result<usize, BoundsError>)
        ensures
            value < self.min ==> r == Err::<usize, BoundsError>(BoundsError::TooLow(self.min)),
            value >= self.min && value > self.max ==> r == Err::<usize, BoundsError>(
                BoundsError::TooHigh(self.max),
            ),
            self.spec_contains(value as nat) ==> r == Ok::<usize, BoundsError>(value),
            r is Ok <==> self.spec_contains(value as nat),
    {
        if value < self.min {
            Err(BoundsError::TooLow(self.min))
        } else if value > self.max {
            Err(BoundsError::TooHigh(self.max))
        } else {
            Ok(value)
        }
    }

    /// Check the byte length of a thing, handing the thing back on success.
    pub fn check_len<T: Len>(&self, thing: T) -> (r: Result<T, BoundsError>)
        requires
            thing.len_wf(),
        ensures
            thing.spec_len() < self.min ==> r == Err::<T, BoundsError>(
                BoundsError::TooLow(self.min),
            ),
            thing.spec_len() >= self.min && thing.spec_len() > self.max ==> r == Err::<
                T,
                BoundsError,
            >(BoundsError::TooHigh(self.max)),
            self.spec_contains(thing.spec_len()) ==> r == Ok::<T, BoundsError>(thing),
            r is Ok <==> self.spec_contains(thing.spec_len()),
    {
        let n = thing.len();
        match self.check(n) {
            Ok(_) => Ok(thing),
            Err(e) => Err(e),
        }
    }

    /// The phrase `display` renders, as a sequence of characters. It fits
    /// the template "a length of {phrase} bytes".
    pub open spec fn display_spec(self) -> Seq<char> {
        if self.min == self.max {
            "exactly "@ + dec_digits(self.min as nat)
        } else if (self.min == 0 || self.min == 1) && self.max == usize::MAX {
            "any number of"@
        } else if self.min == 0 || self.min == 1 {
            "up to "@ + dec_digits(self.max as nat)
        } else if self.max == usize::MAX {
            "at least "@ + dec_digits(self.min as nat)
        } else {
            "between "@ + dec_digits(self.min as nat) + " and "@ + dec_digits(self.max as nat)
        }
    }

    /// Render these bounds in a format satisfying "a length of {} bytes".
    pub fn display(&self) -> (r: String)
        ensures
            r@ == self.display_spec(),
    {
        let mut out = String::new();
        if self.min == self.max {
            out.append("exactly ");
            push_decimal(&mut out, self.min);
        } else if (self.min == 0 || self.min == 1) && self.max == usize::MAX {
            out.append("any number of");
        } else if self.min == 0 || self.min == 1 {
            out.append("up to ");
            push_decimal(&mut out, self.max);
        } else if self.max == usize::MAX {
            out.append("at least ");
            push_decimal(&mut out, self.min);
        } else {
            out.append("between ");
            push_decimal(&mut out, self.min);
            out.append(" and ");
            push_decimal(&mut out, self.max);
        }
        proof {
            assert(Seq::<char>::empty() + "exactly "@ =~= "exactly "@);
            assert(Seq::<char>::empty() + "any number of"@ =~= "any number of"@);
            assert(Seq::<char>::empty() + "up to "@ =~= "up to "@);
            assert(Seq::<char>::empty() + "at least "@ =~= "at least "@);
            assert(Seq::<char>::empty() + "between "@ =~= "between "@);
        }
        out
    }
}

/// The decimal digit character for a value below ten.
pub open spec fn digit_char(d: nat) -> char {
    if d == 0 {
        '0'
    } else if d == 1 {
        '1'
    } else if d == 2 {
        '2'
    } else if d == 3 {
        '3'
    } else if d == 4 {
        '4'
    } else if d == 5 {
        '5'
    } else if d == 6 {
        '6'
    } else if d == 7 {
        '7'
    } else if d == 8 {
        '8'
    } else {
        '9'
    }
}

/// The decimal rendering of a number, most significant digit first.
pub open spec fn dec_digits(n: nat) -> Seq<char>
    decreases n,
{
    if n < 10 {
        seq![digit_char(n)]
    } else {
        dec_digits(n / 10).push(digit_char(n % 10))
    }
}

/// The decimal digit character for a value below ten, as executable code.
pub(crate) fn digit_char_exec(d: usize) -> (c: char)
    requires
        d < 10,
    ensures
        c == digit_char(d as nat),
{
    if d == 0 {
        '0'
    } else if d == 1 {
        '1'
    } else if d == 2 {
        '2'
    } else if d == 3 {
        '3'
    } else if d == 4 {
        '4'
    } else if d == 5 {
        '5'
    } else if d == 6 {
        '6'
    } else if d == 7 {
        '7'
    } else if d == 8 {
        '8'
    } else {
        '9'
    }
}

/// Append the decimal rendering of `n` to a string.
fn push_decimal(s: &mut String, n: usize)
    ensures
        final(s)@ == old(s)@ + dec_digits(n as nat),
    decreases n,
{
    if n >= 10 {
        push_decimal(s, n / 10);
    }
    let c = digit_char_exec(n % 10);
    push_char(s, c);
    proof {
        if n < 10 {
            assert(old(s)@ + dec_digits(n as nat) =~= old(s)@.push(digit_char(n as nat)));
        } else {
            assert(old(s)@ + dec_digits(n as nat) =~= (old(s)@ + dec_digits(
                (n / 10) as nat,
            )).push(digit_char((n % 10) as nat)));
        }
    }
}

} // verus!
