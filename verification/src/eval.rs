//! The decisions of a script evaluation, apart from running the script itself.
use vstd::prelude::*;

use crate::text::{join, str_lines, string_from_chars, strs, split_lines};

verus! {

/// How much fuel the script runner is given between two yields to the caller.
pub const FUEL_PER_GC: i32 = 4096;

/// What happened since the last action of an evaluation.
#[derive(Debug)]
pub enum RunEvent {
    /// The script ran out of fuel before finishing.
    Paused,
    /// The script finished.
    Finished,
    /// The caller was yielded to; `stop` when it asked to abort the evaluation.
    Resumed { stop: bool },
}

/// What an evaluation does next.
#[derive(Debug, PartialEq, Eq)]
pub enum RunAction {
    /// Run the script for another portion of fuel.
    Step,
    /// Yield to the caller.
    Yield,
    /// Take the response that the script returned.
    TakeResult,
    /// Give up, as the caller asked.
    Abort,
}

/// The evaluation loop: run the script until it finishes, yielding to the
/// caller whenever it pauses, and abort when the caller asks to.
pub fn next_run_action(event: RunEvent) -> (a: RunAction)
    ensures
        a == match event {
            RunEvent::Paused => RunAction::Yield,
            RunEvent::Finished => RunAction::TakeResult,
            RunEvent::Resumed { stop } => if stop {
                RunAction::Abort
            } else {
                RunAction::Step
            },
        },
{
    match event {
        RunEvent::Paused => RunAction::Yield,
        RunEvent::Finished => RunAction::TakeResult,
        RunEvent::Resumed { stop } => if stop {
            RunAction::Abort
        } else {
            RunAction::Step
        },
    }
}

/// The decimal digit of `d < 10`.
pub open spec fn digit(d: nat) -> char {
    (48 + d) as char
}

/// The decimal representation of `n`.
pub open spec fn decimal(n: nat) -> Seq<char>
    decreases n,
{
    if n < 10 {
        seq![digit(n)]
    } else {
        decimal(n / 10).push(digit(n % 10))
    }
}

/// `s` padded with spaces on the left to at least `width` characters.
pub open spec fn pad_left(s: Seq<char>, width: nat) -> Seq<char> {
    if s.len() < width {
        Seq::new((width - s.len()) as nat, |i: int| ' ') + s
    } else {
        s
    }
}

/// Line `line` of a script, numbered `number` right-aligned in four columns.
pub open spec fn numbered_line(number: nat, line: Seq<char>) -> Seq<char> {
    pad_left(decimal(number), 4) + seq![':', ' '] + line
}

/// The lines of a script, each numbered from 1.
pub open spec fn numbered_lines(lines: Seq<Seq<char>>) -> Seq<Seq<char>> {
    Seq::new(lines.len(), |i: int| numbered_line((i + 1) as nat, lines[i]))
}

fn push_char(v: &mut Vec<char>, c: char)
    ensures
        final(v)@ == old(v)@.push(c),
{
    v.push(c);
}

fn decimal_chars(n: usize) -> (r: Vec<char>)
    ensures
        r@ == decimal(n as nat),
    decreases n,
{
    if n < 10 {
        let mut r: Vec<char> = Vec::new();
        push_char(&mut r, ((48 + n) as u8) as char);
        assert(r@ =~= seq![digit(n as nat)]);
        r
    } else {
        let mut r = decimal_chars(n / 10);
        let d = n % 10;
        push_char(&mut r, ((48 + d) as u8) as char);
        r
    }
}

fn numbered_line_exec(number: usize, line: &str) -> (r: String)
    ensures
        r@ == numbered_line(number as nat, line@),
{
    let digits = decimal_chars(number);
    let mut chars: Vec<char> = Vec::new();
    let mut k = digits.len();
    while k < 4
        invariant
            digits.len() <= k <= 4 || (k == digits.len() && k > 4),
            chars@ == Seq::new((k - digits.len()) as nat, |i: int| ' '),
        decreases 4 - k,
    {
        push_char(&mut chars, ' ');
        k = k + 1;
        assert(chars@ =~= Seq::new((k - digits.len()) as nat, |i: int| ' '));
    }
    let ghost spaces = chars@;
    let n = digits.len();
    for i in 0..n
        invariant
            n == digits@.len(),
            chars@ == spaces + digits@.take(i as int),
    {
        push_char(&mut chars, digits[i]);
        assert(spaces + digits@.take(i + 1) =~= (spaces + digits@.take(i as int)).push(digits@[i as int]));
    }
    push_char(&mut chars, ':');
    push_char(&mut chars, ' ');
    let mut r = string_from_chars(&chars);
    r.append(line);
    proof {
        assert(digits@.take(n as int) =~= digits@);
        if digits@.len() < 4 {
            assert(spaces =~= Seq::new((4 - digits@.len()) as nat, |i: int| ' '));
        } else {
            assert(spaces =~= Seq::<char>::empty());
        }
        assert(r@ =~= numbered_line(number as nat, line@));
    }
    r
}

/// The message that reports a failed script: the script with numbered
/// lines, then the error.
pub open spec fn failure_report(script: Seq<char>, error: Seq<char>) -> Seq<char> {
    "Script:\n"@ + join(numbered_lines(str_lines(script)), seq!['\n']) + "\nError:\n"@ + error
}

/// Describes a failed script: the script with its lines numbered, then the error text.
pub fn script_error_message(script: &str, error: &str) -> (r: String)
    ensures
        r@ == failure_report(script@, error@),
{
    let lines = split_lines(script);
    let mut numbered: Vec<String> = Vec::new();
    let n = lines.len();
    for i in 0..n
        invariant
            n == lines@.len(),
            strs(numbered@) == numbered_lines(strs(lines@).take(i as int)),
    {
        let line = numbered_line_exec(i + 1, lines[i].as_str());
        let ghost prev = numbered@;
        numbered.push(line);
        assert(strs(lines@).take(i + 1)[i as int] == lines@[i as int]@);
        assert(strs(numbered@) =~= strs(prev).push(line@));
        assert(numbered_lines(strs(lines@).take(i + 1)) =~= numbered_lines(strs(lines@).take(i as int)).push(numbered_line((i + 1) as nat, lines@[i as int]@)));
        assert(strs(numbered@) =~= numbered_lines(strs(lines@).take(i + 1)));
    }
    assert(strs(lines@).take(n as int) =~= strs(lines@));
    let mut msg = String::from_str("Script:\n");
    let nl = "\n";
    proof {
        reveal_strlit("\n");
        assert(nl@ =~= seq!['\n']);
    }
    let body = crate::text::join_lines(&numbered, nl);
    msg.append(body.as_str());
    msg.append("\nError:\n");
    msg.append(error);
    msg
}

} // verus!
