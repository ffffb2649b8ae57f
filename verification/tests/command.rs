use workspace_rings::command::{parse_command, parse_direction, Command, Direction};

fn args(words: &[&str]) -> Vec<String> {
    words.iter().map(|w| String::from(*w)).collect()
}

#[test]
fn parses_every_command() {
    let directions = [
        ("left", Direction::Left),
        ("right", Direction::Right),
        ("up", Direction::Up),
        ("down", Direction::Down),
    ];
    for (word, direction) in directions.iter() {
        assert_eq!(parse_command(&args(&["prog", "switch", word])), Ok(Command::Switch(*direction)));
        assert_eq!(parse_command(&args(&["prog", "move", word])), Ok(Command::Move(*direction)));
    }
}

#[test]
fn the_program_name_does_not_matter() {
    assert_eq!(parse_command(&args(&["", "move", "up"])), Ok(Command::Move(Direction::Up)));
    assert_eq!(
        parse_command(&args(&["switch", "switch", "down"])),
        Ok(Command::Switch(Direction::Down))
    );
}

#[test]
fn rejects_any_other_number_of_arguments() {
    assert_eq!(parse_command(&args(&[])), Err(()));
    assert_eq!(parse_command(&args(&["prog"])), Err(()));
    assert_eq!(parse_command(&args(&["prog", "switch"])), Err(()));
    assert_eq!(parse_command(&args(&["switch", "left"])), Err(()));
    assert_eq!(parse_command(&args(&["prog", "switch", "left", "left"])), Err(()));
}

#[test]
fn rejects_unknown_words() {
    assert_eq!(parse_command(&args(&["prog", "jump", "left"])), Err(()));
    assert_eq!(parse_command(&args(&["prog", "switch", "north"])), Err(()));
    assert_eq!(parse_command(&args(&["prog", "left", "switch"])), Err(()));
    assert_eq!(parse_command(&args(&["prog", "Switch", "left"])), Err(()));
    assert_eq!(parse_command(&args(&["prog", "move", "LEFT"])), Err(()));
    assert_eq!(parse_command(&args(&["prog", "move", "left "])), Err(()));
    assert_eq!(parse_command(&args(&["prog", "", ""])), Err(()));
}

#[test]
fn parses_direction_words() {
    assert_eq!(parse_direction(&String::from("left")), Some(Direction::Left));
    assert_eq!(parse_direction(&String::from("right")), Some(Direction::Right));
    assert_eq!(parse_direction(&String::from("up")), Some(Direction::Up));
    assert_eq!(parse_direction(&String::from("down")), Some(Direction::Down));
    assert_eq!(parse_direction(&String::from("lef")), None);
    assert_eq!(parse_direction(&String::from("")), None);
}
