use hangman::input::map_key;
use hangman::input::Command;

#[test]
fn uppercase_commands() {
    assert_eq!(map_key('Q'), Some(Command::Quit));
    assert_eq!(map_key('N'), Some(Command::NewRound));
    assert_eq!(map_key('S'), Some(Command::ToggleStats));
}

#[test]
fn lowercase_letters_are_guesses() {
    assert_eq!(map_key('a'), Some(Command::Guess(b'a')));
    assert_eq!(map_key('z'), Some(Command::Guess(b'z')));
    // the command letters are commands only in uppercase
    assert_eq!(map_key('q'), Some(Command::Guess(b'q')));
    assert_eq!(map_key('n'), Some(Command::Guess(b'n')));
    assert_eq!(map_key('s'), Some(Command::Guess(b's')));
}

#[test]
fn other_uppercase_letters_guess_their_lowercase() {
    assert_eq!(map_key('A'), Some(Command::Guess(b'a')));
    assert_eq!(map_key('B'), Some(Command::Guess(b'b')));
    assert_eq!(map_key('Z'), Some(Command::Guess(b'z')));
}

#[test]
fn everything_else_is_a_no_op() {
    assert_eq!(map_key('5'), None);
    assert_eq!(map_key(' '), None);
    assert_eq!(map_key('?'), None);
    assert_eq!(map_key('\n'), None);
    assert_eq!(map_key('é'), None);
}
