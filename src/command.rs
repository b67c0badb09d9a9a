//! The commands of the path mini-language.

use vstd::prelude::*;

verus! {

/// The command that a path letter selects; upper case letters are absolute,
/// lower case ones relative to the cursor.
#[derive(Clone, Copy, Debug, PartialEq, Eq, Structural)]
pub enum Command {
    /// No letter has been read yet.
    NotSet,
    MoveAbsolute,
    MoveRelative,
    LineAbsolute,
    LineRelative,
    HorizontalLineAbsolute,
    HorizontalLineRelative,
    VerticalLineAbsolute,
    VerticalLineRelative,
    QuadraticBezierAbsolute,
    QuadraticBezierRelative,
    QuadraticBezierSmoothAbsolute,
    QuadraticBezierSmoothRelative,
    CubicBezierAbsolute,
    CubicBezierRelative,
    CubicBezierSmoothAbsolute,
    CubicBezierSmoothRelative,
    EllipticalArcAbsolute,
    EllipticalArcRelative,
    StopAbsolute,
    StopRelative,
}

/// The command that a letter of the mini-language selects.
pub open spec fn letter_command(c: char) -> Option<Command> {
    if c == 'M' {
        Some(Command::MoveAbsolute)
    } else if c == 'm' {
        Some(Command::MoveRelative)
    } else if c == 'L' {
        Some(Command::LineAbsolute)
    } else if c == 'l' {
        Some(Command::LineRelative)
    } else if c == 'H' {
        Some(Command::HorizontalLineAbsolute)
    } else if c == 'h' {
        Some(Command::HorizontalLineRelative)
    } else if c == 'V' {
        Some(Command::VerticalLineAbsolute)
    } else if c == 'v' {
        Some(Command::VerticalLineRelative)
    } else if c == 'C' {
        Some(Command::CubicBezierAbsolute)
    } else if c == 'c' {
        Some(Command::CubicBezierRelative)
    } else if c == 'S' {
        Some(Command::CubicBezierSmoothAbsolute)
    } else if c == 's' {
        Some(Command::CubicBezierSmoothRelative)
    } else if c == 'Q' {
        Some(Command::QuadraticBezierAbsolute)
    } else if c == 'q' {
        Some(Command::QuadraticBezierRelative)
    } else if c == 'T' {
        Some(Command::QuadraticBezierSmoothAbsolute)
    } else if c == 't' {
        Some(Command::QuadraticBezierSmoothRelative)
    } else if c == 'A' {
        Some(Command::EllipticalArcAbsolute)
    } else if c == 'a' {
        Some(Command::EllipticalArcRelative)
    } else if c == 'Z' {
        Some(Command::StopAbsolute)
    } else if c == 'z' {
        Some(Command::StopRelative)
    } else {
        None
    }
}

impl Command {
    /// How many numbers one invocation of the command takes.
    pub open spec fn arity_spec(self) -> nat {
        match self {
            Command::MoveAbsolute | Command::MoveRelative | Command::LineAbsolute
            | Command::LineRelative | Command::QuadraticBezierSmoothAbsolute
            | Command::QuadraticBezierSmoothRelative => 2,
            Command::HorizontalLineAbsolute | Command::HorizontalLineRelative
            | Command::VerticalLineAbsolute | Command::VerticalLineRelative => 1,
            Command::QuadraticBezierAbsolute | Command::QuadraticBezierRelative
            | Command::CubicBezierSmoothAbsolute | Command::CubicBezierSmoothRelative => 4,
            Command::CubicBezierAbsolute | Command::CubicBezierRelative => 6,
            Command::EllipticalArcAbsolute | Command::EllipticalArcRelative => 7,
            Command::NotSet | Command::StopAbsolute | Command::StopRelative => 0,
        }
    }

    /// Whether the command's numbers are offsets from the cursor.
    pub open spec fn is_relative_spec(self) -> bool {
        match self {
            Command::MoveRelative | Command::LineRelative | Command::HorizontalLineRelative
            | Command::VerticalLineRelative | Command::QuadraticBezierRelative
            | Command::QuadraticBezierSmoothRelative | Command::CubicBezierRelative
            | Command::CubicBezierSmoothRelative | Command::EllipticalArcRelative
            | Command::StopRelative => true,
            _ => false,
        }
    }

    pub open spec fn is_stop(self) -> bool {
        self is StopAbsolute || self is StopRelative
    }

    /// The command that `c` selects, if `c` is a command letter.
    pub fn from_letter(c: char) -> (r: Option<Command>)
        ensures
            r == letter_command(c),
    {
        match c {
            'M' => Some(Command::MoveAbsolute),
            'm' => Some(Command::MoveRelative),
            'L' => Some(Command::LineAbsolute),
            'l' => Some(Command::LineRelative),
            'H' => Some(Command::HorizontalLineAbsolute),
            'h' => Some(Command::HorizontalLineRelative),
            'V' => Some(Command::VerticalLineAbsolute),
            'v' => Some(Command::VerticalLineRelative),
            'C' => Some(Command::CubicBezierAbsolute),
            'c' => Some(Command::CubicBezierRelative),
            'S' => Some(Command::CubicBezierSmoothAbsolute),
            's' => Some(Command::CubicBezierSmoothRelative),
            'Q' => Some(Command::QuadraticBezierAbsolute),
            'q' => Some(Command::QuadraticBezierRelative),
            'T' => Some(Command::QuadraticBezierSmoothAbsolute),
            't' => Some(Command::QuadraticBezierSmoothRelative),
            'A' => Some(Command::EllipticalArcAbsolute),
            'a' => Some(Command::EllipticalArcRelative),
            'Z' => Some(Command::StopAbsolute),
            'z' => Some(Command::StopRelative),
            _ => None,
        }
    }

    /// How many numbers one invocation of the command takes.
    pub fn arity(self) -> (r: usize)
        ensures
            r == self.arity_spec(),
    {
        match self {
            Command::MoveAbsolute | Command::MoveRelative | Command::LineAbsolute
            | Command::LineRelative | Command::QuadraticBezierSmoothAbsolute
            | Command::QuadraticBezierSmoothRelative => 2,
            Command::HorizontalLineAbsolute | Command::HorizontalLineRelative
            | Command::VerticalLineAbsolute | Command::VerticalLineRelative => 1,
            Command::QuadraticBezierAbsolute | Command::QuadraticBezierRelative
            | Command::CubicBezierSmoothAbsolute | Command::CubicBezierSmoothRelative => 4,
            Command::CubicBezierAbsolute | Command::CubicBezierRelative => 6,
            Command::EllipticalArcAbsolute | Command::EllipticalArcRelative => 7,
            Command::NotSet | Command::StopAbsolute | Command::StopRelative => 0,
        }
    }

    /// Whether the command's numbers are offsets from the cursor.
    pub fn is_relative(self) -> (r: bool)
        ensures
            r == self.is_relative_spec(),
    {
        match self {
            Command::MoveRelative | Command::LineRelative | Command::HorizontalLineRelative
            | Command::VerticalLineRelative | Command::QuadraticBezierRelative
            | Command::QuadraticBezierSmoothRelative | Command::CubicBezierRelative
            | Command::CubicBezierSmoothRelative | Command::EllipticalArcRelative
            | Command::StopRelative => true,
            _ => false,
        }
    }
}

} // verus!
