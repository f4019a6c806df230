//! How much a command prints, and the error that asks for a silent exit.
use vstd::prelude::*;
use vstd::string::StringExecFns;
use crate::text::push_char;

verus! {

/// Controls the fetch output.
#[derive(Debug, Clone, Copy, PartialEq, Eq, Structural, PartialOrd, Ord, Hash)]
pub enum CommandOutput {
    /// Regular output
    Normal,
    /// Extra verbose output
    Verbose,
    /// No output
    Quiet,
}

impl Default for CommandOutput {
    fn default() -> (r: CommandOutput)
        ensures
            r == CommandOutput::Normal,
    {
        CommandOutput::Normal
    }
}

impl CommandOutput {
    /// Returns the preferred command output for those flags: quiet wins
    /// over verbose, and neither flag means normal output.
    pub fn from_quiet_and_verbose(quiet: bool, verbose: bool) -> (r: CommandOutput)
        ensures
            quiet ==> r == CommandOutput::Quiet,
            !quiet && verbose ==> r == CommandOutput::Verbose,
            !quiet && !verbose ==> r == CommandOutput::Normal,
    {
        if quiet {
            CommandOutput::Quiet
        } else if verbose {
            CommandOutput::Verbose
        } else {
            CommandOutput::Normal
        }
    }
}

/// The character of a decimal digit.
pub open spec fn digit(d: nat) -> char {
    if d == 0 { '0' }
    else if d == 1 { '1' }
    else if d == 2 { '2' }
    else if d == 3 { '3' }
    else if d == 4 { '4' }
    else if d == 5 { '5' }
    else if d == 6 { '6' }
    else if d == 7 { '7' }
    else if d == 8 { '8' }
    else { '9' }
}

/// The decimal digits of `n`, without leading zeros.
pub open spec fn decimal(n: nat) -> Seq<char>
    decreases n,
{
    if n < 10 {
        seq![digit(n)]
    } else {
        decimal(n / 10) + seq![digit(n % 10)]
    }
}

/// `i` in decimal, with a leading `-` where it is negative.
pub open spec fn signed_decimal(i: int) -> Seq<char> {
    if i < 0 {
        seq!['-'] + decimal((-i) as nat)
    } else {
        decimal(i as nat)
    }
}

fn digit_char(d: u32) -> (c: char)
    requires
        d < 10,
    ensures
        c == digit(d as nat),
{
    if d == 0 { '0' }
    else if d == 1 { '1' }
    else if d == 2 { '2' }
    else if d == 3 { '3' }
    else if d == 4 { '4' }
    else if d == 5 { '5' }
    else if d == 6 { '6' }
    else if d == 7 { '7' }
    else if d == 8 { '8' }
    else { '9' }
}

fn push_decimal(out: &mut String, n: u32)
    ensures
        final(out)@ == old(out)@ + decimal(n as nat),
    decreases n,
{
    if n >= 10 {
        push_decimal(out, n / 10);
    }
    push_char(out, digit_char(n % 10));
    assert(final(out)@ =~= old(out)@ + decimal(n as nat));
}

/// An error that asks for the process to exit with the given status,
/// printing nothing.
#[derive(Debug)]
pub struct QuietExit(pub i32);

impl QuietExit {
    /// The message of this error: `exit with` and the status.
    pub fn to_string(&self) -> (r: String)
        ensures
            r@ == seq!['e', 'x', 'i', 't', ' ', 'w', 'i', 't', 'h', ' '] + signed_decimal(
                self.0 as int,
            ),
    {
        let mut out = String::from_str("exit with ");
        let status = self.0 as i64;
        if status < 0 {
            push_char(&mut out, '-');
            push_decimal(&mut out, (-status) as u32);
        } else {
            push_decimal(&mut out, status as u32);
        }
        proof {
            reveal_strlit("exit with ");
        }
        assert(out@ =~= seq!['e', 'x', 'i', 't', ' ', 'w', 'i', 't', 'h', ' '] + signed_decimal(
            self.0 as int,
        ));
        out
    }
}

} // verus!
