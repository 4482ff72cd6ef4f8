//! The command line: which scan the arguments ask for.
//!
//! Whether a piece of text denotes an address is not decided here. The
//! caller says, for the two arguments that may be one, which address each
//! denotes, if any.

use crate::decimal::{decimal_u16, parse_u16};
use vstd::prelude::*;
use vstd::utf8::encode_utf8;

verus! {

/// The byte of the hyphen that begins a flag.
pub const HYPHEN: u8 = 0x2d;

/// The letter of the flag that asks for the usage text.
pub const HELP_LETTER: u8 = 0x68;

/// The letter of the flag that gives the number of workers.
pub const WORKERS_LETTER: u8 = 0x6a;

/// The number of workers where the command line names none.
pub const DEFAULT_THREADS: u16 = 4;

/// The address to scan.
#[derive(Clone, Copy, Debug, PartialEq, Eq)]
pub enum Target {
    /// An address of four bytes.
    V4 { octets: [u8; 4] },
    /// An address of eight groups of 16 bits.
    V6 { segments: [u16; 8] },
}

/// What a command line asks for: the address to scan and the number of
/// workers to scan it with.
#[derive(Clone, Copy, Debug, PartialEq, Eq)]
pub struct Arguments {
    pub ipaddr: Target,
    pub threads: u16,
}

/// Why a command line asks for no scan.
#[derive(Clone, Copy, Debug, PartialEq, Eq)]
pub enum ArgError {
    /// Nothing follows the program's name, or the flag for the number of
    /// workers is not followed by a number and an address.
    NotEnoughArguments,
    /// More than three arguments follow the program's name.
    TooManyArguments,
    /// The usage text was asked for.
    Help,
    /// The argument after the number of workers denotes no address.
    InvalidAddress,
    /// The argument after the flag for the number of workers is no number
    /// from 0 to 65535.
    InvalidThreads,
    /// The first argument is neither an address nor a flag.
    InvalidSyntax,
}

impl ArgError {
    /// The words in which the error is reported.
    pub open spec fn words(self) -> Seq<char> {
        match self {
            ArgError::NotEnoughArguments => "not enough arguments"@,
            ArgError::TooManyArguments => "too many arguments"@,
            ArgError::Help => "help"@,
            ArgError::InvalidAddress => "not a valid IPADDR; must be IPv4 or IPv6"@,
            ArgError::InvalidThreads => "failed to parse thread number"@,
            ArgError::InvalidSyntax => "invalid syntax"@,
        }
    }

    /// The words in which the error is reported.
    pub fn message(&self) -> (text: &'static str)
        ensures
            text@ == self.words(),
    {
        match self {
            ArgError::NotEnoughArguments => "not enough arguments",
            ArgError::TooManyArguments => "too many arguments",
            ArgError::Help => "help",
            ArgError::InvalidAddress => "not a valid IPADDR; must be IPv4 or IPv6",
            ArgError::InvalidThreads => "failed to parse thread number",
            ArgError::InvalidSyntax => "invalid syntax",
        }
    }
}

/// The usage text, which is shown where the command line asks for it.
pub const USAGE: &'static str =
    "Usage:\n-j to select how many threads you want\n-h or -help to show this help message";

/// Whether `text` holds the flag with the letter `letter`: somewhere in it a
/// hyphen is followed by that letter. So a text that holds `-help` holds the
/// flag `-h`.
pub open spec fn holds_flag(text: Seq<u8>, letter: u8) -> bool {
    exists|i: int|
        0 <= i && i + 1 < text.len() && #[trigger] text[i] == HYPHEN && text[i + 1] == letter
}

/// The bytes of each argument.
pub open spec fn arg_bytes(args: Seq<String>) -> Seq<Seq<u8>> {
    Seq::new(args.len(), |i: int| encode_utf8(args[i]@))
}

/// What the command line `args` asks for. `args[0]` is the program's name.
/// `first` is the address that `args[1]` denotes and `fourth` the address
/// that `args[3]` denotes, if it denotes one.
///
/// An address alone asks for a scan with the default number of workers,
/// whatever follows it. Otherwise the first argument has to hold a flag: `-h`
/// asks for the usage text, and `-j` has to be followed by the number of
/// workers and the address.
pub open spec fn requested(
    args: Seq<Seq<u8>>,
    first: Option<Target>,
    fourth: Option<Target>,
) -> Result<Arguments, ArgError> {
    if args.len() < 2 {
        Err(ArgError::NotEnoughArguments)
    } else if args.len() > 4 {
        Err(ArgError::TooManyArguments)
    } else if let Some(ipaddr) = first {
        Ok(Arguments { ipaddr, threads: DEFAULT_THREADS })
    } else if holds_flag(args[1], HELP_LETTER) {
        Err(ArgError::Help)
    } else if !holds_flag(args[1], WORKERS_LETTER) {
        Err(ArgError::InvalidSyntax)
    } else if args.len() < 4 {
        Err(ArgError::NotEnoughArguments)
    } else if fourth is None {
        Err(ArgError::InvalidAddress)
    } else if let Some(threads) = decimal_u16(args[2]) {
        Ok(Arguments { ipaddr: fourth->0, threads })
    } else {
        Err(ArgError::InvalidThreads)
    }
}

/// Looks for a flag in a text.
pub fn has_flag(text: &[u8], letter: u8) -> (found: bool)
    ensures
        found == holds_flag(text@, letter),
{
    let mut i: usize = 1;
    while i < text.len()
        invariant
            1 <= i,
            forall|k: int|
                0 <= k && k + 1 < i ==> !(#[trigger] text[k] == HYPHEN && text[k + 1] == letter),
        decreases text.len() - i,
    {
        if text[i - 1] == HYPHEN && text[i] == letter {
            return true;
        }
        i += 1;
    }
    false
}

impl Arguments {
    /// Reads the command line. `args`, `first` and `fourth` are those of
    /// `requested`.
    pub fn new(args: &[String], first: Option<Target>, fourth: Option<Target>) -> (result: Result<
        Arguments,
        ArgError,
    >)
        ensures
            result == requested(arg_bytes(args@), first, fourth),
    {
        if args.len() < 2 {
            return Err(ArgError::NotEnoughArguments);
        } else if args.len() > 4 {
            return Err(ArgError::TooManyArguments);
        }
        if let Some(ipaddr) = first {
            return Ok(Arguments { ipaddr, threads: DEFAULT_THREADS });
        }
        let flag = args[1].as_str().as_bytes();
        if has_flag(flag, HELP_LETTER) {
            Err(ArgError::Help)
        } else if !has_flag(flag, WORKERS_LETTER) {
            Err(ArgError::InvalidSyntax)
        } else if args.len() < 4 {
            Err(ArgError::NotEnoughArguments)
        } else {
            let ipaddr = match fourth {
                Some(ipaddr) => ipaddr,
                None => return Err(ArgError::InvalidAddress),
            };
            let number = args[2].as_str().as_bytes();
            match parse_u16(number) {
                Some(threads) => Ok(Arguments { ipaddr, threads }),
                None => Err(ArgError::InvalidThreads),
            }
        }
    }
}

} // verus!
