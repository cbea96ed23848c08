//! The evaluator's two host operations: printed output and read input.
use vstd::prelude::*;
use std::io::Write;
use std::io::BufRead;

verus! {

/// Relies on std::io::Stdout: writes the line followed by a newline.
/// Nothing about the program state is claimed.
#[verifier::external_body]
pub fn print_line(s: &String) {
    let mut out = std::io::stdout();
    let _ = writeln!(out, "{}", s);
}

/// Relies on std::io::Stdin: prompts and blocks for one line; what
/// comes back depends on the user, so nothing is claimed of it.
#[verifier::external_body]
pub fn read_input_line() -> (r: Option<Vec<char>>)
{
    let mut out = std::io::stdout();
    let _ = write!(out, "> ");
    let _ = out.flush();
    let mut line = String::new();
    match std::io::stdin().lock().read_line(&mut line) {
        Ok(_) => Some(line.chars().collect()),
        Err(_) => None,
    }
}

} // verus!
