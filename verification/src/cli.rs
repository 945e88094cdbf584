//! The command line: the options of each subcommand and the checks on their
//! values.
use vstd::prelude::*;
use vstd::string::StringExecFns;

use crate::text::chars_of;

verus! {

/// The options of `run`.
#[derive(Clone, Debug)]
pub struct RunCli {
    /// Milliseconds between two instructions while the tape is shown.
    pub delay: u64,
    /// The input for the `,` instruction.
    pub input: String,
    /// Show the tape while the script runs.
    pub show_tape: bool,
    /// The width of the terminal to lay the tape out in.
    pub width: Option<usize>,
    /// Show cells as ASCII characters.
    pub ascii_values: bool,
    /// Where to write the output at the end.
    pub outfile: Option<String>,
    /// The script; standard input if absent or `-`.
    pub infile: Option<String>,
}

/// The options of `generate`.
#[derive(Clone, Debug)]
pub struct GenerateCli {
    /// Append a final line ending to the data if it has none.
    pub newline: bool,
    /// Where to write the script; standard output if absent.
    pub outfile: Option<String>,
    /// `charwise`, `linewise` or `unique-chars`.
    pub mode: String,
    /// The text to print; standard input if absent.
    pub infile: Option<String>,
}

/// The options of `live`.
#[derive(Clone, Debug)]
pub struct LiveCli {
    /// Show cells as ASCII characters.
    pub ascii_values: bool,
    /// The script to edit.
    pub infile: Option<String>,
}

/// The options of `input-debug`.
#[derive(Clone, Debug)]
pub struct InputDebugCli {
    /// Show mouse events too.
    pub enable_mouse: bool,
}

/// The value of a string of decimal digits.
pub open spec fn digits_value(d: Seq<char>) -> int
    decreases d.len(),
{
    if d.len() == 0 {
        0
    } else {
        10 * digits_value(d.drop_last()) + (d.last() as int - 48)
    }
}

/// One or more decimal digits and nothing else.
pub open spec fn all_digits(d: Seq<char>) -> bool {
    d.len() > 0 && forall|i: int| 0 <= i < d.len() ==> '0' <= #[trigger] d[i] <= '9'
}

/// The integer that `s` writes: an optional `+` or `-` sign followed by one
/// or more decimal digits, with nothing before or after.
pub open spec fn numeral(s: Seq<char>) -> Option<int> {
    if s.len() > 0 && (s[0] == '+' || s[0] == '-') && all_digits(s.drop_first()) {
        Some(if s[0] == '-' { -digits_value(s.drop_first()) } else { digits_value(s.drop_first()) })
    } else if all_digits(s) {
        Some(digits_value(s))
    } else {
        None
    }
}

/// The integer that `s` writes, if it is one and fits in an `i64`.
pub open spec fn i64_numeral(s: Seq<char>) -> Option<int> {
    match numeral(s) {
        Some(n) => if i64::MIN <= n <= i64::MAX { Some(n) } else { None },
        None => None,
    }
}

/// `str::parse::<i64>`: an optional `+` or `-` sign followed by decimal
/// digits, the value in the range of `i64`; anything else is an error,
/// whose message is handed back. What the message says is not stated.
#[verifier::external_body]
fn parse_i64(s: &str) -> (r: Result<i64, String>)
    ensures
        match r {
            Ok(n) => i64_numeral(s@) == Some(n as int),
            Err(_) => i64_numeral(s@) is None,
        },
{
    match s.parse::<i64>() {
        Ok(n) => Ok(n),
        Err(e) => Err(e.to_string()),
    }
}

/// What checking a width gives: the width for an integer greater than 5,
/// an error otherwise.
pub open spec fn width_outcome(s: Seq<char>) -> Option<u64> {
    match i64_numeral(s) {
        Some(n) => if n > 5 { Some(n as u64) } else { None },
        None => None,
    }
}

/// What checking a delay gives: the delay for an integer of at least 0, an
/// error otherwise.
pub open spec fn delay_outcome(s: Seq<char>) -> Option<u64> {
    match i64_numeral(s) {
        Some(n) => if n >= 0 { Some(n as u64) } else { None },
        None => None,
    }
}

/// Reads the width option: an integer greater than 5. For 5 and below the
/// error says so; a value that is no integer gets the parser's message.
pub fn parse_width(value: &str) -> (r: Result<u64, String>)
    ensures
        match r {
            Ok(w) => width_outcome(value@) == Some(w),
            Err(m) => width_outcome(value@) is None && (i64_numeral(value@) is Some ==> m@
                == "value must be an integer > 5"@),
        },
{
    match parse_i64(value) {
        Ok(n) => {
            if n <= 5 {
                Err(String::from_str("value must be an integer > 5"))
            } else {
                Ok(n as u64)
            }
        },
        Err(e) => Err(e),
    }
}

/// Checks the width option as `parse_width` reads it.
pub fn is_valid_width(value: String) -> (r: Result<(), String>)
    ensures
        r is Ok <==> width_outcome(value@) is Some,
        r matches Err(m) ==> (i64_numeral(value@) is Some ==> m@ == "value must be an integer > 5"@),
{
    match parse_width(value.as_str()) {
        Ok(_) => Ok(()),
        Err(e) => Err(e),
    }
}

/// Reads the delay option: an integer of at least 0. Below 0 the error
/// says so; a value that is no integer gets the parser's message.
pub fn parse_delay(value: &str) -> (r: Result<u64, String>)
    ensures
        match r {
            Ok(d) => delay_outcome(value@) == Some(d),
            Err(m) => delay_outcome(value@) is None && (i64_numeral(value@) is Some ==> m@
                == "value must be an integer >= 0"@),
        },
{
    match parse_i64(value) {
        Ok(n) => {
            if n < 0 {
                Err(String::from_str("value must be an integer >= 0"))
            } else {
                Ok(n as u64)
            }
        },
        Err(e) => Err(e),
    }
}

/// Checks the delay option as `parse_delay` reads it.
pub fn is_valid_delay(value: String) -> (r: Result<(), String>)
    ensures
        r is Ok <==> delay_outcome(value@) is Some,
        r matches Err(m) ==> (i64_numeral(value@) is Some ==> m@ == "value must be an integer >= 0"@),
{
    match parse_delay(value.as_str()) {
        Ok(_) => Ok(()),
        Err(e) => Err(e),
    }
}

/// The text `prefix` followed by `value`.
fn message(prefix: &str, value: &str) -> (m: String)
    ensures
        m@ == prefix@ + value@,
{
    let mut m = String::from_str(prefix);
    m.append(value);
    m
}

/// Checks a script path given what the file system says of it: `-` (for
/// standard input) is always accepted, and so is a path that exists and is
/// no directory.
pub fn parse_infile(value: &str, exists: bool, is_dir: bool) -> (r: Result<String, String>)
    ensures
        match r {
            Ok(p) => p@ == value@ && (value@ == "-"@ || (exists && !is_dir)),
            Err(m) => value@ != "-"@ && if !exists {
                m@ == "no such file exists: "@ + value@
            } else {
                is_dir && m@ == "file is a directory: "@ + value@
            },
        },
{
    proof {
        reveal_strlit("-");
    }
    let cs = chars_of(value);
    if cs.len() == 1 && cs[0] == '-' {
        assert(value@ =~= "-"@);
        Ok(String::from_str(value))
    } else if exists {
        if is_dir {
            Err(message("file is a directory: ", value))
        } else {
            Ok(String::from_str(value))
        }
    } else {
        Err(message("no such file exists: ", value))
    }
}

/// Checks a script path as `parse_infile` does.
pub fn is_valid_infile(value: String, exists: bool, is_dir: bool) -> (r: Result<(), String>)
    ensures
        match r {
            Ok(()) => value@ == "-"@ || (exists && !is_dir),
            Err(m) => value@ != "-"@ && if !exists {
                m@ == "no such file exists: "@ + value@
            } else {
                is_dir && m@ == "file is a directory: "@ + value@
            },
        },
{
    match parse_infile(value.as_str(), exists, is_dir) {
        Ok(_) => Ok(()),
        Err(e) => Err(e),
    }
}

/// The width and height of the terminal, in columns and rows
/// (`term_size::dimensions`), or none when they cannot be had. They depend
/// on the terminal at the time of the call, so nothing is stated of them.
#[verifier::external_body]
fn terminal_dimensions() -> (d: Option<(usize, usize)>) {
    term_size::dimensions()
}

/// The width to lay the tape out in: the one asked for; else the
/// terminal's, when it is wider than 5 columns; else 65 (room for 16
/// cells).
pub open spec fn chosen_width(width: Option<usize>, terminal: Option<usize>) -> int {
    match width {
        Some(w) => w as int,
        None => match terminal {
            Some(t) => if t > 5 { t as int } else { 65 },
            None => 65,
        },
    }
}

/// `chosen_width`, as an `i32` (truncated as `as` does).
pub fn width_for(width: Option<usize>, terminal: Option<usize>) -> (w: i32)
    ensures
        w == chosen_width(width, terminal) as i32,
{
    let chosen: usize = match width {
        Some(w) => w,
        None => match terminal {
            Some(t) => if t > 5 { t } else { 65 },
            None => 65,
        },
    };
    chosen as i32
}

/// The width to lay the tape out in, asking the terminal only when no
/// width is given.
pub fn get_width(width: Option<usize>) -> (w: i32)
    ensures
        width matches Some(x) ==> w == x as i32,
        width is None ==> exists|t: Option<usize>| w == #[trigger] chosen_width(None, t) as i32,
{
    match width {
        Some(_) => width_for(width, None),
        None => {
            let terminal = match terminal_dimensions() {
                Some((t, _)) => Some(t),
                None => None,
            };
            width_for(None, terminal)
        },
    }
}

/// The width check takes exactly the integers greater than 5, as they are
/// written, and the delay check exactly the integers of at least 0.
pub proof fn law_option_checks_take_their_range(s: Seq<char>)
    ensures
        width_outcome(s) matches Some(w) ==> w > 5 && i64_numeral(s) == Some(w as int),
        i64_numeral(s) matches Some(n) ==> (width_outcome(s) is Some <==> n > 5),
        delay_outcome(s) matches Some(d) ==> i64_numeral(s) == Some(d as int),
        i64_numeral(s) matches Some(n) ==> (delay_outcome(s) is Some <==> n >= 0),
        i64_numeral(s) is None ==> width_outcome(s) is None && delay_outcome(s) is None,
{

}

} // verus!

