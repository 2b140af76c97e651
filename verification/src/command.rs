//! The commands that are issued to the robot, and their text.

use crate::numerals::{int_text, push_int};
use vstd::prelude::*;

verus! {

/// Enum representing the direction of movement.
#[derive(Debug, Clone, Copy, PartialEq, Eq)]
pub enum Direction {
    Left,
    Right,
}

/// Enum representing various types of commands.
#[derive(Debug, Clone, Copy, PartialEq, Eq)]
pub enum Command {
    Turn(i16),
    /// radius, angle
    TurnRadius(i16, i16),
    DriveDist(i16),
    DriveLine(i16),
    AlignDist(i16),
    AlignLine(i16),
    TurnOneWheel(i16, Direction),
}

impl Direction {
    /// The name of the direction.
    pub open spec fn text(self) -> Seq<char> {
        match self {
            Direction::Left => "Left"@,
            Direction::Right => "Right"@,
        }
    }

    /// The name of the direction.
    pub fn to_string(&self) -> (s: String)
        ensures
            s@ == self.text(),
    {
        match self {
            Direction::Left => String::from_str("Left"),
            Direction::Right => String::from_str("Right"),
        }
    }
}

impl Command {
    /// The name of the kind of command.
    pub open spec fn name(self) -> Seq<char> {
        match self {
            Command::Turn(_) => "Turn"@,
            Command::TurnRadius(_, _) => "TurnRadius"@,
            Command::DriveDist(_) => "DriveDist"@,
            Command::DriveLine(_) => "DriveLine"@,
            Command::AlignDist(_) => "AlignDist"@,
            Command::AlignLine(_) => "AlignLine"@,
            Command::TurnOneWheel(_, _) => "TurnOneWheel"@,
        }
    }

    /// The arguments of the command: each as text, with a comma and a space
    /// between two.
    pub open spec fn arguments(self) -> Seq<char> {
        match self {
            Command::Turn(a) | Command::DriveDist(a) | Command::DriveLine(a) | Command::AlignDist(
                a,
            ) | Command::AlignLine(a) => int_text(a as int),
            Command::TurnRadius(r, a) => int_text(r as int) + ", "@ + int_text(a as int),
            Command::TurnOneWheel(a, d) => int_text(a as int) + ", "@ + d.text(),
        }
    }

    /// The text of the command: its name, then its arguments in round brackets.
    pub open spec fn text(self) -> Seq<char> {
        self.name() + "("@ + self.arguments() + ")"@
    }

    /// The text of the command: its name, then its arguments in round brackets.
    pub fn to_string(&self) -> (s: String)
        ensures
            s@ == self.text(),
    {
        let mut out = match self {
            Command::Turn(_) => String::from_str("Turn"),
            Command::TurnRadius(_, _) => String::from_str("TurnRadius"),
            Command::DriveDist(_) => String::from_str("DriveDist"),
            Command::DriveLine(_) => String::from_str("DriveLine"),
            Command::AlignDist(_) => String::from_str("AlignDist"),
            Command::AlignLine(_) => String::from_str("AlignLine"),
            Command::TurnOneWheel(_, _) => String::from_str("TurnOneWheel"),
        };
        out.append("(");
        let ghost head = out@;
        match self {
            Command::Turn(a) | Command::DriveDist(a) | Command::DriveLine(a) | Command::AlignDist(
                a,
            ) | Command::AlignLine(a) => {
                push_int(&mut out, *a);
            },
            Command::TurnRadius(r, a) => {
                push_int(&mut out, *r);
                out.append(", ");
                push_int(&mut out, *a);
            },
            Command::TurnOneWheel(a, d) => {
                push_int(&mut out, *a);
                out.append(", ");
                let side = d.to_string();
                out.append(side.as_str());
            },
        }
        assert(out@ =~= head + self.arguments());
        out.append(")");
        assert(out@ =~= self.text());
        out
    }
}

} // verus!
