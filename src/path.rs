//! The path interpreter: a state machine that reads the path mini-language
//! one character at a time and emits absolute drawing instructions.

use vstd::prelude::*;
use crate::command::{Command, letter_command};
use crate::decimal::{Decimal, NumberError, chars_of, is_digit, parse_spec, parse_token};
use crate::geometry::{
    Instruction,
    Point,
    all_wf,
    dispatch,
    dispatch_spec,
    origin_spec,
};

verus! {

/// The interpreter's state in mathematical terms.
pub struct Scan {
    pub command: Command,
    /// The numbers collected since the last command letter.
    pub values: Seq<Decimal>,
    /// The characters of the number being read.
    pub pending: Seq<char>,
    /// Whether the pending number has already been flushed: set by a space,
    /// cleared when a character is added to the pending number.
    pub already_flushed: bool,
    pub cursor: Point,
    /// The instructions emitted so far.
    pub out: Seq<Instruction>,
}

/// Why a path could not be read.
pub enum PathFault {
    Number { kind: NumberError, token: Seq<char> },
    Overflow,
}

/// Why a path could not be read.
#[derive(Debug, PartialEq, Eq)]
pub enum PathError {
    /// A numeric token was refused; `token` holds its characters.
    InvalidNumber { kind: NumberError, token: Vec<char> },
    /// A coordinate, after relative offsets were added, does not fit.
    Overflow,
}

impl View for PathError {
    type V = PathFault;

    open spec fn view(&self) -> PathFault {
        match self {
            PathError::InvalidNumber { kind, token } => PathFault::Number {
                kind: *kind,
                token: token@,
            },
            PathError::Overflow => PathFault::Overflow,
        }
    }
}

/// The state before the first character of a path.
pub open spec fn initial_scan() -> Scan {
    Scan {
        command: Command::NotSet,
        values: Seq::empty(),
        pending: Seq::empty(),
        already_flushed: true,
        cursor: origin_spec(),
        out: Seq::empty(),
    }
}

/// Moves the pending number, if any, to the collected values.
pub open spec fn flush_spec(s: Scan) -> Result<Scan, PathFault> {
    if s.pending.len() == 0 {
        Ok(s)
    } else {
        match parse_spec(s.pending) {
            Ok(d) => Ok(Scan { values: s.values.push(d), pending: Seq::empty(), ..s }),
            Err(kind) => Err(PathFault::Number { kind, token: s.pending }),
        }
    }
}

/// A command letter: the current command is dispatched and `next` takes its
/// place; only the cursor and the output carry over.
pub open spec fn switch_spec(s: Scan, next: Command) -> Result<Scan, PathFault> {
    let flushed = if s.already_flushed {
        Ok(s)
    } else {
        flush_spec(s)
    };
    match flushed {
        Ok(t) => match dispatch_spec(t.command, t.cursor, t.values) {
            Some((p, emitted)) => Ok(
                Scan {
                    command: next,
                    values: Seq::empty(),
                    pending: Seq::empty(),
                    already_flushed: false,
                    cursor: p,
                    out: t.out + emitted,
                },
            ),
            None => Err(PathFault::Overflow),
        },
        Err(e) => Err(e),
    }
}

/// What one character does, before the check for a stop command.
pub open spec fn read_char_spec(s: Scan, c: char) -> Result<Scan, PathFault> {
    match letter_command(c) {
        Some(next) => switch_spec(s, next),
        None => if c == ',' {
            flush_spec(s)
        } else if c == '-' {
            match flush_spec(s) {
                Ok(t) => Ok(Scan { pending: t.pending.push('-'), already_flushed: false, ..t }),
                Err(e) => Err(e),
            }
        } else if c == ' ' {
            match flush_spec(s) {
                Ok(t) => Ok(Scan { already_flushed: true, ..t }),
                Err(e) => Err(e),
            }
        } else if is_digit(c) || c == '.' {
            Ok(Scan { pending: s.pending.push(c), already_flushed: false, ..s })
        } else {
            Ok(s)
        },
    }
}

/// What one character does: under a stop command nothing stays pending.
pub open spec fn step_spec(s: Scan, c: char) -> Result<Scan, PathFault> {
    match read_char_spec(s, c) {
        Ok(t) => if t.command.is_stop() {
            flush_spec(t)
        } else {
            Ok(t)
        },
        Err(e) => Err(e),
    }
}

/// The state after reading `text`.
pub open spec fn scan_spec(text: Seq<char>) -> Result<Scan, PathFault>
    decreases text.len(),
{
    if text.len() == 0 {
        Ok(initial_scan())
    } else {
        match scan_spec(text.drop_last()) {
            Ok(s) => step_spec(s, text.last()),
            Err(e) => Err(e),
        }
    }
}

/// The end of the text. A stop command still current is dispatched. A number
/// still pending means that the last command was never dispatched; it is,
/// and a `Close` follows.
pub open spec fn finish_spec(s: Scan) -> Result<Seq<Instruction>, PathFault> {
    if s.pending.len() == 0 {
        if s.command.is_stop() {
            Ok(s.out.push(Instruction::Close))
        } else {
            Ok(s.out)
        }
    } else {
        match flush_spec(s) {
            Ok(t) => match dispatch_spec(t.command, t.cursor, t.values) {
                Some((p, emitted)) => Ok(t.out + emitted + seq![Instruction::Close]),
                None => Err(PathFault::Overflow),
            },
            Err(e) => Err(e),
        }
    }
}

/// The instructions that the path `text` stands for.
pub open spec fn interpret_spec(text: Seq<char>) -> Result<Seq<Instruction>, PathFault> {
    match scan_spec(text) {
        Ok(s) => finish_spec(s),
        Err(e) => Err(e),
    }
}

/// A failed prefix fails the whole text, with the same fault.
proof fn lemma_scan_fault_persists(text: Seq<char>, i: int)
    requires
        0 <= i <= text.len(),
        scan_spec(text.take(i)) is Err,
    ensures
        scan_spec(text) == scan_spec(text.take(i)),
    decreases text.len() - i,
{
    if i < text.len() {
        let next = text.take(i + 1);
        assert(next.drop_last() =~= text.take(i));
        lemma_scan_fault_persists(text, i + 1);
    } else {
        assert(text.take(i) =~= text);
    }
}

/// The interpreter's state while it reads one path.
pub struct PathState {
    pub command: Command,
    pub values: Vec<Decimal>,
    pub pending: Vec<char>,
    pub already_flushed: bool,
    pub cursor: Point,
    pub out: Vec<Instruction>,
}

impl View for PathState {
    type V = Scan;

    open spec fn view(&self) -> Scan {
        Scan {
            command: self.command,
            values: self.values@,
            pending: self.pending@,
            already_flushed: self.already_flushed,
            cursor: self.cursor,
            out: self.out@,
        }
    }
}

/// The state that a command letter resets to, before the new command and
/// the cursor are put in: nothing collected, nothing flushed yet.
pub open spec fn reset_scan() -> Scan {
    Scan { already_flushed: false, ..initial_scan() }
}

impl Default for PathState {
    /// The reset state: no command, nothing collected, the flag clear, the
    /// cursor at the origin.
    fn default() -> (r: PathState)
        ensures
            r@ == reset_scan(),
            r.wf(),
    {
        let mut r = PathState::new();
        r.already_flushed = false;
        r
    }
}

/// `r` and `after` are what `expected` describes.
pub open spec fn step_matches(
    r: Result<(), PathError>,
    after: PathState,
    expected: Result<Scan, PathFault>,
) -> bool {
    match expected {
        Ok(t) => r is Ok && after@ == t && after.wf(),
        Err(e) => r matches Err(x) && x@ == e,
    }
}

impl PathState {
    /// The numbers and the cursor hold the representation invariant, and a
    /// flushed state has nothing pending.
    pub open spec fn wf(&self) -> bool {
        &&& all_wf(self.values@)
        &&& self.cursor.wf()
        &&& self.already_flushed ==> self.pending@.len() == 0
    }

    /// The state before the first character of a path: the flag is set, so
    /// the first command letter flushes nothing.
    pub fn new() -> (r: PathState)
        ensures
            r@ == initial_scan(),
            r.wf(),
    {
        PathState {
            command: Command::NotSet,
            values: Vec::new(),
            pending: Vec::new(),
            already_flushed: true,
            cursor: Point::origin(),
            out: Vec::new(),
        }
    }

    /// Moves the pending number, if any, to the collected values.
    pub fn flush(&mut self) -> (r: Result<(), PathError>)
        requires
            old(self).wf(),
        ensures
            step_matches(r, *final(self), flush_spec(old(self)@)),
            r is Err ==> final(self).command == old(self).command && final(self).values@ == old(
                self,
            ).values@ && final(self).cursor == old(self).cursor && final(self).out@ == old(
                self,
            ).out@,
    {
        if self.pending.len() == 0 {
            return Ok(());
        }
        match parse_token(&self.pending) {
            Ok(d) => {
                self.values.push(d);
                self.pending = Vec::new();
                assert(self@ == flush_spec(old(self)@)->Ok_0);
                Ok(())
            },
            Err(kind) => {
                let mut token: Vec<char> = Vec::new();
                std::mem::swap(&mut token, &mut self.pending);
                Err(PathError::InvalidNumber { kind, token })
            },
        }
    }

    /// A command letter: dispatches the current command and makes `next` current.
    pub fn switch_to(&mut self, next: Command) -> (r: Result<(), PathError>)
        requires
            old(self).wf(),
        ensures
            step_matches(r, *final(self), switch_spec(old(self)@, next)),
            // The pending number is always part of what is dispatched.
            flush_spec(old(self)@) matches Ok(t) ==> match dispatch_spec(
                t.command,
                t.cursor,
                t.values,
            ) {
                Some((p, emitted)) => r is Ok && final(self).command == next
                    && final(self).values@.len() == 0 && final(self).pending@.len() == 0
                    && !final(self).already_flushed && final(self).cursor == p
                    && final(self).out@ == old(self).out@ + emitted,
                None => r is Err,
            },
    {
        if !self.already_flushed {
            match self.flush() {
                Ok(()) => {},
                Err(e) => {
                    return Err(e);
                },
            }
        }
        match dispatch(self.command, self.cursor, &self.values, &mut self.out) {
            Some(p) => {
                self.command = next;
                self.values = Vec::new();
                self.pending = Vec::new();
                self.already_flushed = false;
                self.cursor = p;
                Ok(())
            },
            None => Err(PathError::Overflow),
        }
    }

    /// Reads one character of the path.
    pub fn step(&mut self, c: char) -> (r: Result<(), PathError>)
        requires
            old(self).wf(),
        ensures
            step_matches(r, *final(self), step_spec(old(self)@, c)),
    {
        let read = match Command::from_letter(c) {
            Some(next) => self.switch_to(next),
            None => {
                if c == ',' {
                    self.flush()
                } else if c == '-' {
                    match self.flush() {
                        Ok(()) => {
                            self.pending.push('-');
                            self.already_flushed = false;
                            Ok(())
                        },
                        Err(e) => Err(e),
                    }
                } else if c == ' ' {
                    match self.flush() {
                        Ok(()) => {
                            self.already_flushed = true;
                            Ok(())
                        },
                        Err(e) => Err(e),
                    }
                } else if ('0' <= c && c <= '9') || c == '.' {
                    self.pending.push(c);
                    self.already_flushed = false;
                    Ok(())
                } else {
                    Ok(())
                }
            },
        };
        assert(step_matches(read, *self, read_char_spec(old(self)@, c)));
        match read {
            Ok(()) => {
                if matches!(self.command, Command::StopAbsolute | Command::StopRelative) {
                    self.flush()
                } else {
                    Ok(())
                }
            },
            Err(e) => Err(e),
        }
    }

    /// The end of the text: dispatches a command left open and closes the contour.
    pub fn finish(self) -> (r: Result<Vec<Instruction>, PathError>)
        requires
            self.wf(),
        ensures
            match finish_spec(self@) {
                Ok(v) => r matches Ok(o) && o@ == v,
                Err(e) => r matches Err(x) && x@ == e,
            },
    {
        let mut st = self;
        if st.pending.len() == 0 {
            if matches!(st.command, Command::StopAbsolute | Command::StopRelative) {
                st.out.push(Instruction::Close);
            }
            return Ok(st.out);
        }
        match st.flush() {
            Ok(()) => {},
            Err(e) => {
                return Err(e);
            },
        }
        match dispatch(st.command, st.cursor, &st.values, &mut st.out) {
            Some(_) => {
                st.out.push(Instruction::Close);
                Ok(st.out)
            },
            None => Err(PathError::Overflow),
        }
    }
}

/// Reads the path `text` and returns the drawing instructions it stands for,
/// or the first fault met.
pub fn interpret(text: &str) -> (r: Result<Vec<Instruction>, PathError>)
    ensures
        match interpret_spec(text@) {
            Ok(v) => r matches Ok(o) && o@ == v,
            Err(e) => r matches Err(x) && x@ == e,
        },
{
    let chars = chars_of(text);
    interpret_chars(&chars)
}

/// Reads the path whose characters are `chars`.
pub fn interpret_chars(chars: &Vec<char>) -> (r: Result<Vec<Instruction>, PathError>)
    ensures
        match interpret_spec(chars@) {
            Ok(v) => r matches Ok(o) && o@ == v,
            Err(e) => r matches Err(x) && x@ == e,
        },
{
    let mut state = PathState::new();
    let n = chars.len();
    let mut i: usize = 0;
    assert(chars@.take(0).len() == 0);
    while i < n
        invariant
            n == chars@.len(),
            i <= n,
            state.wf(),
            scan_spec(chars@.take(i as int)) == Ok::<Scan, PathFault>(state@),
        decreases n - i,
    {
        assert(chars@.take(i + 1).drop_last() =~= chars@.take(i as int));
        match state.step(chars[i]) {
            Ok(()) => {},
            Err(e) => {
                proof {
                    lemma_scan_fault_persists(chars@, i + 1);
                }
                return Err(e);
            },
        }
        i = i + 1;
    }
    assert(chars@.take(n as int) =~= chars@);
    state.finish()
}

} // verus!
