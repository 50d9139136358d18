//! From a typed line to the steps of the calculator.
//!
//! A line is cut into tokens: numbers, and single characters that are
//! neither part of a number nor white space. Each token is then a command,
//! an operator or a number to be pushed.

use crate::calculator::{dropped, duplicated, swapped, Calculator, Evaluation, Op};
use crate::decimal::is_digit;
use crate::display::texts;
use vstd::prelude::*;
use vstd::string::*;

verus! {

/// The precision, in bits, of the numbers that are typed in.
pub const WORKING_PRECISION: u32 = 1024;

/// Whether `c` is white space, as `char::is_whitespace` tells.
pub uninterp spec fn white_space(c: char) -> bool;

/// `char::is_whitespace` of the standard library: whether the character has
/// the Unicode property White_Space.
#[verifier::external_body]
fn is_white_space(c: char) -> (white: bool)
    ensures
        white == white_space(c),
{
    c.is_whitespace()
}

/// What the scanner knows in the middle of a line.
pub struct Scan {
    /// The tokens that are complete.
    pub tokens: Seq<Seq<char>>,
    /// The token that is being read; empty where none is.
    pub current: Seq<char>,
    /// Whether the last character belonged to a number.
    pub in_number: bool,
    /// Whether the last character was white space. The start of the line
    /// counts as white space.
    pub after_space: bool,
}

/// Whether `c` belongs to a number: a digit, a point, or a minus sign that
/// follows white space.
pub open spec fn numeric(c: char, after_space: bool) -> bool {
    is_digit(c) || c == '.' || (c == '-' && after_space)
}

/// The tokens with `current` behind them, where it is not empty.
pub open spec fn flushed(tokens: Seq<Seq<char>>, current: Seq<char>) -> Seq<Seq<char>> {
    if current.len() > 0 {
        tokens.push(current)
    } else {
        tokens
    }
}

/// The scanner before the first character.
pub open spec fn scan_start() -> Scan {
    Scan { tokens: Seq::empty(), current: Seq::empty(), in_number: false, after_space: true }
}

/// The scanner after one more character, of which `white` says whether it
/// is white space. A character of a number goes on with the number that is
/// being read; any other character ends the token before it. White space
/// belongs to no token.
pub open spec fn scan_step(before: Scan, c: char, white: bool) -> Scan {
    let number = numeric(c, before.after_space);
    let goes_on = number && before.in_number;
    let tokens = if goes_on {
        before.tokens
    } else {
        flushed(before.tokens, before.current)
    };
    let current = if goes_on {
        before.current
    } else {
        Seq::<char>::empty()
    };
    Scan {
        tokens,
        current: if white {
            current
        } else {
            current.push(c)
        },
        in_number: number,
        after_space: white,
    }
}

/// The scanner after the characters of `line`. Line feeds are passed over.
pub open spec fn scan(line: Seq<char>) -> Scan
    decreases line.len(),
{
    if line.len() == 0 {
        scan_start()
    } else if line.last() == '\n' {
        scan(line.drop_last())
    } else {
        scan_step(scan(line.drop_last()), line.last(), white_space(line.last()))
    }
}

/// The tokens of a line, in the order in which they stand in it.
pub open spec fn tokens_of(line: Seq<char>) -> Seq<Seq<char>> {
    flushed(scan(line).tokens, scan(line).current)
}

/// `String::push` of the standard library: the character is appended to
/// the text.
#[verifier::external_body]
fn push_char(text: &mut String, c: char)
    ensures
        final(text)@ == old(text)@.push(c),
{
    text.push(c)
}

/// The scanner at work: the tokens that are complete, the token that is
/// being read, and what the last character was.
pub struct Scanner {
    pub tokens: Vec<String>,
    pub current: String,
    pub in_number: bool,
    pub after_space: bool,
}

impl View for Scanner {
    type V = Scan;

    open spec fn view(&self) -> Scan {
        Scan {
            tokens: texts(self.tokens@),
            current: self.current@,
            in_number: self.in_number,
            after_space: self.after_space,
        }
    }
}

impl Scanner {
    /// The scanner before the first character.
    pub fn new() -> (scanner: Scanner)
        ensures
            scanner@ == scan_start(),
    {
        let scanner = Scanner {
            tokens: Vec::new(),
            current: String::new(),
            in_number: false,
            after_space: true,
        };
        assert(texts(scanner.tokens@) =~= Seq::<Seq<char>>::empty());
        scanner
    }

    /// Takes one more character, of which `white` says whether it is white
    /// space.
    pub fn step(self, c: char, white: bool) -> (after: Scanner)
        ensures
            after@ == scan_step(self@, c, white),
    {
        let mut tokens = self.tokens;
        let mut current = self.current;
        let number = (c >= '0' && c <= '9') || c == '.' || (c == '-' && self.after_space);
        if !(number && self.in_number) {
            if current.unicode_len() > 0 {
                let ghost complete = texts(tokens@);
                let ghost token = current@;
                tokens.push(current);
                assert(texts(tokens@) =~= complete.push(token));
            }
            current = String::new();
        }
        if !white {
            push_char(&mut current, c);
        }
        Scanner { tokens, current, in_number: number, after_space: white }
    }

    /// The tokens at the end of the line: the complete ones and the one
    /// that was being read.
    pub fn finish(self) -> (tokens: Vec<String>)
        ensures
            texts(tokens@) == flushed(self@.tokens, self@.current),
    {
        let mut tokens = self.tokens;
        if self.current.unicode_len() > 0 {
            let ghost complete = texts(tokens@);
            let ghost token = self.current@;
            tokens.push(self.current);
            assert(texts(tokens@) =~= complete.push(token));
        }
        tokens
    }
}

/// Cuts a line into its tokens.
pub fn tokenize(line: &str) -> (tokens: Vec<String>)
    ensures
        texts(tokens@) == tokens_of(line@),
{
    let n = line.unicode_len();
    let mut scanner = Scanner::new();
    let mut i: usize = 0;
    assert(line@.take(0) =~= Seq::<char>::empty());
    while i < n
        invariant
            i <= n,
            n == line@.len(),
            scanner@ == scan(line@.take(i as int)),
        decreases n - i,
    {
        let c = line.get_char(i);
        proof {
            assert(line@.take(i + 1).drop_last() =~= line@.take(i as int));
            assert(line@.take(i + 1).last() == c);
        }
        if c != '\n' {
            let white = is_white_space(c);
            scanner = scanner.step(c, white);
        }
        i += 1;
    }
    assert(line@.take(i as int) =~= line@);
    scanner.finish()
}

/// Whether a character belongs to a token: it is neither white space nor a
/// line feed.
pub open spec fn inked(c: char) -> bool {
    c != '\n' && !white_space(c)
}

/// The test for [`inked`] characters.
pub open spec fn ink() -> spec_fn(char) -> bool {
    |c: char| inked(c)
}

/// Whether each of the texts is made of [`inked`] characters, and of one at
/// least.
pub open spec fn solid(tokens: Seq<Seq<char>>) -> bool {
    forall|i: int|
        0 <= i < tokens.len() ==> {
            &&& (#[trigger] tokens[i]).len() > 0
            &&& forall|j: int| 0 <= j < tokens[i].len() ==> inked(#[trigger] tokens[i][j])
        }
}

/// In the middle of a line the scanner holds all of its inked characters so
/// far, in their order: in the complete tokens and then in the token that
/// is being read.
proof fn lemma_scan_holds_the_line(line: Seq<char>)
    ensures
        scan(line).tokens.flatten() + scan(line).current == line.filter(ink()),
        solid(scan(line).tokens),
        forall|j: int| 0 <= j < scan(line).current.len() ==> inked(#[trigger] scan(line).current[j]),
    decreases line.len(),
{
    if line.len() == 0 {
        reveal(Seq::filter);
        assert(scan(line).tokens.flatten() + scan(line).current =~= Seq::<char>::empty());
    } else {
        let before = scan(line.drop_last());
        let c = line.last();
        lemma_scan_holds_the_line(line.drop_last());
        assert(line =~= line.drop_last().push(c));
        line.drop_last().lemma_filter_push(c, ink());
        if c != '\n' {
            let after = scan_step(before, c, white_space(c));
            let goes_on = numeric(c, before.after_space) && before.in_number;
            let kept = if goes_on {
                before.current
            } else {
                Seq::<char>::empty()
            };
            if !goes_on && before.current.len() > 0 {
                before.tokens.lemma_flatten_push(before.current);
            }
            assert(after.tokens.flatten() + kept =~= before.tokens.flatten() + before.current);
            assert(after.tokens.flatten() + after.current =~= line.filter(ink()));
        }
    }
}

/// The tokens of a line are its characters without white space and line
/// feeds, cut into pieces: put one behind the other they give those
/// characters in their order, and no token is empty.
pub proof fn lemma_tokens_hold_the_line(line: Seq<char>)
    ensures
        tokens_of(line).flatten() == line.filter(ink()),
        solid(tokens_of(line)),
{
    lemma_scan_holds_the_line(line);
    let end = scan(line);
    if end.current.len() > 0 {
        end.tokens.lemma_flatten_push(end.current);
    } else {
        assert(end.tokens.flatten() + end.current =~= end.tokens.flatten());
    }
}

/// What a token asks for.
#[derive(Debug, Clone, Copy, PartialEq, Eq)]
pub enum Command {
    /// Leave the program.
    Quit,
    /// Take the top value off the stack.
    Drop,
    /// Put a copy of the top value on the stack.
    Dup,
    /// Exchange the two top values.
    Swap,
    /// Apply an operator.
    Apply(Op),
    /// Anything else: a number to be pushed, if it is one.
    Number,
}

/// What is left to do once the calculator has taken a token.
#[derive(Debug, PartialEq, Eq)]
pub enum Step {
    /// Leave the program.
    Quit,
    /// Nothing: the stack was changed as the token asked.
    Done,
    /// Report that the stack holds too few values for the operator.
    StackEmpty,
    /// Compute the evaluation and push its result.
    Evaluate(Evaluation),
    /// Read the token as a number of [`WORKING_PRECISION`] bits with an
    /// imaginary part of zero and push it; pass over a token that is no
    /// number.
    Number,
}

/// The command that a token stands for.
pub open spec fn command_of(token: Seq<char>) -> Command {
    if token == "q"@ || token == "quit"@ {
        Command::Quit
    } else if token == "d"@ || token == "drop"@ {
        Command::Drop
    } else if token == "p"@ || token == "dup"@ {
        Command::Dup
    } else if token == "s"@ || token == "swap"@ {
        Command::Swap
    } else if token == "+"@ {
        Command::Apply(Op::ADD)
    } else if token == "-"@ {
        Command::Apply(Op::SUBTRACT)
    } else if token == "*"@ {
        Command::Apply(Op::MULTIPLY)
    } else if token == "/"@ {
        Command::Apply(Op::DIVIDE)
    } else if token == "^"@ {
        Command::Apply(Op::EXP)
    } else {
        Command::Number
    }
}

/// Whether two texts hold the same characters.
pub fn same_text(left: &str, right: &str) -> (same: bool)
    ensures
        same == (left@ == right@),
{
    let n = left.unicode_len();
    if right.unicode_len() != n {
        return false;
    }
    let mut i: usize = 0;
    while i < n
        invariant
            i <= n,
            n == left@.len(),
            n == right@.len(),
            forall|j: int| 0 <= j < i ==> left@[j] == right@[j],
        decreases n - i,
    {
        if left.get_char(i) != right.get_char(i) {
            return false;
        }
        i += 1;
    }
    assert(left@ =~= right@);
    true
}

/// Reads a token as a command.
pub fn classify(token: &str) -> (command: Command)
    ensures
        command == command_of(token@),
{
    if same_text(token, "q") || same_text(token, "quit") {
        Command::Quit
    } else if same_text(token, "d") || same_text(token, "drop") {
        Command::Drop
    } else if same_text(token, "p") || same_text(token, "dup") {
        Command::Dup
    } else if same_text(token, "s") || same_text(token, "swap") {
        Command::Swap
    } else if same_text(token, "+") {
        Command::Apply(Op::ADD)
    } else if same_text(token, "-") {
        Command::Apply(Op::SUBTRACT)
    } else if same_text(token, "*") {
        Command::Apply(Op::MULTIPLY)
    } else if same_text(token, "/") {
        Command::Apply(Op::DIVIDE)
    } else if same_text(token, "^") {
        Command::Apply(Op::EXP)
    } else {
        Command::Number
    }
}

/// Lets the calculator take one token, and says what is left to do. The
/// stack commands are carried out at once. An operator takes its operands
/// off the stack and is handed back as an evaluation, or reported where the
/// stack holds too few values. Quitting and numbers leave the stack as it
/// is.
pub fn process(calc: &mut Calculator, inp: &str) -> (step: Step)
    ensures
        match command_of(inp@) {
            Command::Quit => step is Quit && final(calc)@ == old(calc)@,
            Command::Drop => step is Done && final(calc)@ == dropped(old(calc)@),
            Command::Dup => step is Done && final(calc)@ == duplicated(old(calc)@),
            Command::Swap => step is Done && final(calc)@ == swapped(old(calc)@),
            Command::Apply(op) => if old(calc)@.len() < op.spec_arity() {
                step is StackEmpty && final(calc)@ == old(calc)@
            } else {
                &&& step matches Step::Evaluate(evaluation)
                &&& evaluation@ == op.evaluation(old(calc)@)
                &&& final(calc)@ == old(calc)@.take(old(calc)@.len() - op.spec_arity())
            },
            Command::Number => step is Number && final(calc)@ == old(calc)@,
        },
{
    match classify(inp) {
        Command::Quit => Step::Quit,
        Command::Drop => {
            calc.drop();
            Step::Done
        },
        Command::Dup => {
            calc.dup();
            Step::Done
        },
        Command::Swap => {
            calc.swap();
            Step::Done
        },
        Command::Apply(op) => match calc.op(op) {
            Ok(evaluation) => Step::Evaluate(evaluation),
            Err(_) => Step::StackEmpty,
        },
        Command::Number => Step::Number,
    }
}

} // verus!
