//! The two-word command language: what to do, and in which direction.

use vstd::prelude::*;

verus! {

/// One of the four directions of the ring topology.
#[derive(Copy, Clone, Debug, PartialEq, Eq, Structural)]
pub enum Direction {
    Left,
    Right,
    Up,
    Down,
}

/// Either move the focus, or carry the focused window along.
#[derive(Copy, Clone, Debug, PartialEq, Eq, Structural)]
pub enum Command {
    Switch(Direction),
    Move(Direction),
}

/// The direction that a word names, if it names one.
pub open spec fn direction_named(word: Seq<char>) -> Option<Direction> {
    if word == "left"@ {
        Some(Direction::Left)
    } else if word == "right"@ {
        Some(Direction::Right)
    } else if word == "up"@ {
        Some(Direction::Up)
    } else if word == "down"@ {
        Some(Direction::Down)
    } else {
        None
    }
}

/// The command that an argument list spells: the program name, then `move`
/// or `switch`, then a direction. Anything else spells nothing.
pub open spec fn command_spelled(args: Seq<Seq<char>>) -> Result<Command, ()> {
    if args.len() != 3 {
        Err(())
    } else {
        match direction_named(args[2]) {
            Some(dir) => if args[1] == "move"@ {
                Ok(Command::Move(dir))
            } else if args[1] == "switch"@ {
                Ok(Command::Switch(dir))
            } else {
                Err(())
            },
            None => Err(()),
        }
    }
}

/// Whether a string reads exactly as the given word.
fn reads(text: &String, word: &str) -> (same: bool)
    ensures
        same == (text@ == word@),
{
    let other = String::from_str(word);
    *text == other
}

/// Reads a direction word.
pub fn parse_direction(word: &String) -> (dir: Option<Direction>)
    ensures
        dir == direction_named(word@),
{
    if reads(word, "left") {
        Some(Direction::Left)
    } else if reads(word, "right") {
        Some(Direction::Right)
    } else if reads(word, "up") {
        Some(Direction::Up)
    } else if reads(word, "down") {
        Some(Direction::Down)
    } else {
        None
    }
}

/// Reads a full argument list, the program name included.
pub fn parse_command(args: &Vec<String>) -> (parsed: Result<Command, ()>)
    ensures
        parsed == command_spelled(args.deep_view()),
{
    if args.len() != 3 {
        return Err(());
    }
    assert(args.deep_view()[1] == args[1]@);
    assert(args.deep_view()[2] == args[2]@);
    match parse_direction(&args[2]) {
        Some(dir) => {
            if reads(&args[1], "move") {
                Ok(Command::Move(dir))
            } else if reads(&args[1], "switch") {
                Ok(Command::Switch(dir))
            } else {
                Err(())
            }
        },
        None => Err(()),
    }
}

} // verus!
