//! The exit-status check applied to every process this tool spawns.
//!
//! The status of a finished process is modelled by [`ExitStatus`] as the
//! two facts the check reads: whether the process succeeded, and its exit
//! code if it has one. [`ExitStatusExt::exit_ok`] turns a status into a
//! `Result`, exactly as documented on it.

use vstd::prelude::*;
use vstd::string::StringExecFns;

verus! {

/// Error returned if a process exits with a non-zero status code.
pub struct Error {
    /// The exit code of the process.
    ///
    /// Guaranteed to be non-zero.
    pub code: i32,
}

/// The decimal digit character for `d`.
pub open spec fn spec_digit(d: int) -> char {
    if d == 0 {
        '0'
    } else if d == 1 {
        '1'
    } else if d == 2 {
        '2'
    } else if d == 3 {
        '3'
    } else if d == 4 {
        '4'
    } else if d == 5 {
        '5'
    } else if d == 6 {
        '6'
    } else if d == 7 {
        '7'
    } else if d == 8 {
        '8'
    } else {
        '9'
    }
}

/// The decimal digits of a non-negative number, most significant first.
pub open spec fn spec_digits(n: int) -> Seq<char>
    decreases n when n >= 0
{
    if n < 10 {
        seq![spec_digit(n)]
    } else {
        spec_digits(n / 10).push(spec_digit(n % 10))
    }
}

/// The decimal rendering of an integer: a minus sign for a negative one,
/// then its digits.
pub open spec fn spec_int_str(n: int) -> Seq<char> {
    if n < 0 {
        seq!['-'] + spec_digits(-n)
    } else {
        spec_digits(n)
    }
}

/// One decimal digit as a string.
fn digit_str(d: u64) -> (r: &'static str)
    requires
        d < 10,
    ensures
        r@ == seq![spec_digit(d as int)],
{
    proof {
        reveal_strlit("0");
        reveal_strlit("1");
        reveal_strlit("2");
        reveal_strlit("3");
        reveal_strlit("4");
        reveal_strlit("5");
        reveal_strlit("6");
        reveal_strlit("7");
        reveal_strlit("8");
        reveal_strlit("9");
    }
    let r = if d == 0 {
        "0"
    } else if d == 1 {
        "1"
    } else if d == 2 {
        "2"
    } else if d == 3 {
        "3"
    } else if d == 4 {
        "4"
    } else if d == 5 {
        "5"
    } else if d == 6 {
        "6"
    } else if d == 7 {
        "7"
    } else if d == 8 {
        "8"
    } else {
        "9"
    };
    proof {
        assert(r@ =~= seq![spec_digit(d as int)]);
    }
    r
}

/// The decimal digits of `n`.
pub fn format_u64(n: u64) -> (r: String)
    ensures
        r@ == spec_digits(n as int),
    decreases n,
{
    if n < 10 {
        String::from_str(digit_str(n))
    } else {
        let mut s = format_u64(n / 10);
        s.append(digit_str(n % 10));
        proof {
            assert(s@ =~= spec_digits(n as int / 10).push(spec_digit(n as int % 10)));
        }
        s
    }
}

/// The decimal rendering of `n`.
pub fn format_i32(n: i32) -> (r: String)
    ensures
        r@ == spec_int_str(n as int),
{
    if n < 0 {
        let m: u64 = (-(n as i64)) as u64;
        let mut s = String::from_str("-");
        let digits = format_u64(m);
        s.append(digits.as_str());
        proof {
            reveal_strlit("-");
            assert(s@ =~= seq!['-'] + spec_digits(-(n as int)));
        }
        s
    } else {
        format_u64(n as u64)
    }
}

impl Error {
    /// The error rendered as text, naming the exit code.
    pub fn message(&self) -> (r: String)
        ensures
            r@ == "exited with status code: "@ + spec_int_str(self.code as int),
    {
        let mut s = String::from_str("exited with status code: ");
        let digits = format_i32(self.code);
        s.append(digits.as_str());
        s
    }
}

/// What this tool reads of the status of a finished process: whether it
/// succeeded, and its exit code if the platform reports one.
pub struct ExitStatus {
    /// Whether the process exited successfully.
    pub success: bool,
    /// The process's exit code, absent when it was ended by a signal.
    pub code: Option<i32>,
}

/// Extend ExitStatus with an exit_ok method.
pub trait ExitStatusExt: Sized {
    /// Require that the process exited successfully.
    /// If the process did not exit successfully, return an Error.
    fn exit_ok(self) -> Result<(), Error>;
}

impl ExitStatusExt for ExitStatus {
    /// Succeeds exactly on a successful status; a failed status yields its
    /// exit code, or 1 when the platform reports none.
    fn exit_ok(self) -> (r: Result<(), Error>)
        ensures
            r == if self.success {
                Result::<(), Error>::Ok(())
            } else {
                Result::<(), Error>::Err(
                    Error {
                        code: match self.code {
                            Option::Some(c) => c,
                            Option::None => 1,
                        },
                    },
                )
            },
    {
        if self.success {
            Ok(())
        } else {
            Err(
                Error {
                    code: match self.code {
                        Some(c) => c,
                        None => 1,
                    },
                },
            )
        }
    }
}

} // verus!
