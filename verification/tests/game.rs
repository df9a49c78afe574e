use hangman::app::App;
use hangman::app::PopupState;
use hangman::input::Command;
use hangman::round::GuessOutcome;
use hangman::round::Round;
use hangman::stats::StatsRecord;

fn round_on(word: &[u8]) -> Round {
    Round::start(word.to_vec())
}

fn app_on(word: &[u8]) -> App {
    App::new(word.to_vec(), StatsRecord::new(0, 0))
}

#[test]
fn scenario_cat_won_in_order() {
    let mut r = round_on(b"cat");
    assert_eq!(r.revealed, b"___".to_vec());
    assert_eq!(r.lives, 10);

    let o1 = r.guess(b'c');
    assert_eq!(o1, GuessOutcome::InProgress);
    assert_eq!(r.revealed, b"c__".to_vec());

    let o2 = r.guess(b'a');
    assert_eq!(o2, GuessOutcome::InProgress);
    assert_eq!(r.revealed, b"ca_".to_vec());

    let o3 = r.guess(b't');
    assert_eq!(o3, GuessOutcome::Won);
    assert_eq!(r.revealed, b"cat".to_vec());
    assert!(r.won);
    assert_eq!(r.lives, 10);
}

#[test]
fn scenario_ten_wrong_guesses_lose() {
    let mut app = app_on(b"cat");
    let wrong = b"bdefghijkl";
    for (n, &b) in wrong.iter().enumerate() {
        assert!(!app.round.won);
        app.apply_command(Command::Guess(b));
        assert_eq!(app.round.lives, 10 - (n as u32 + 1));
    }
    assert_eq!(app.round.lives, 0);
    assert!(!app.round.won);
    // the result popup is up, and the word it reveals is still "cat"
    assert_eq!(app.popup, PopupState::RoundEnd);
    assert_eq!(app.round.word, b"cat".to_vec());
    assert_eq!(app.stats.lost, 1);
    assert_eq!(app.stats.won, 0);
}

#[test]
fn scenario_new_round_mid_round_resets() {
    let mut app = app_on(b"cat");
    app.apply_command(Command::Guess(b'c'));
    app.apply_command(Command::Guess(b'z'));
    app.apply_command(Command::Guess(b'q'));
    assert_eq!(app.round.guessed, b"zq".to_vec());
    assert_eq!(app.round.lives, 8);

    app.apply_command(Command::NewRound);
    assert_eq!(app.round.guessed, Vec::<u8>::new());
    assert_eq!(app.round.lives, 10);
    assert!(!app.round.won);
    assert_eq!(app.popup, PopupState::Closed);
    assert!(app.round.revealed.iter().all(|&b| b == b'_'));
    assert_eq!(app.round.revealed.len(), app.round.word.len());
    // stats survive the reset
    assert_eq!(app.stats, StatsRecord::new(0, 0));
}

#[test]
fn correct_letter_reveals_every_occurrence() {
    let mut r = round_on(b"banana");
    let o = r.guess(b'a');
    assert_eq!(o, GuessOutcome::InProgress);
    assert_eq!(r.revealed, b"_a_a_a".to_vec());
    assert_eq!(r.lives, 10);
    assert_eq!(r.guessed, Vec::<u8>::new());
}

#[test]
fn revealed_holds_only_word_letters_in_place() {
    let mut r = round_on(b"banana");
    for &b in b"abcdefgh" {
        r.guess(b);
    }
    for (i, &b) in r.revealed.iter().enumerate() {
        assert!(b == b'_' || b == r.word[i]);
    }
}

#[test]
fn wrong_letter_costs_a_life_and_is_recorded() {
    let mut r = round_on(b"cat");
    let o = r.guess(b'z');
    assert_eq!(o, GuessOutcome::InProgress);
    assert_eq!(r.lives, 9);
    assert_eq!(r.guessed, b"z".to_vec());
    assert_eq!(r.revealed, b"___".to_vec());
    // a repeated wrong guess costs again
    let o2 = r.guess(b'z');
    assert_eq!(o2, GuessOutcome::InProgress);
    assert_eq!(r.lives, 8);
    assert_eq!(r.guessed, b"zz".to_vec());
}

#[test]
fn win_counts_and_opens_popup() {
    let mut app = app_on(b"ox");
    app.apply_command(Command::Guess(b'o'));
    assert_eq!(app.popup, PopupState::Closed);
    app.apply_command(Command::Guess(b'x'));
    assert!(app.round.won);
    assert_eq!(app.popup, PopupState::RoundEnd);
    assert_eq!(app.stats.won, 1);
    assert_eq!(app.stats.lost, 0);
    assert_eq!(app.stats.rate_centi, 10000);
}

#[test]
fn finished_round_ignores_further_guesses() {
    let mut app = app_on(b"ox");
    app.apply_command(Command::Guess(b'o'));
    app.apply_command(Command::Guess(b'x'));
    assert!(app.round.won);
    let before_lives = app.round.lives;
    let before_stats = app.stats;
    app.apply_command(Command::Guess(b'z'));
    assert_eq!(app.round.lives, before_lives);
    assert_eq!(app.stats, before_stats);
    assert!(app.round.won);
}

#[test]
fn lost_round_ignores_further_guesses() {
    let mut app = app_on(b"ox");
    for &b in b"abcdefghij" {
        app.apply_command(Command::Guess(b));
    }
    assert_eq!(app.round.lives, 0);
    assert_eq!(app.stats.lost, 1);
    app.apply_command(Command::Guess(b'k'));
    app.apply_command(Command::Guess(b'o'));
    assert_eq!(app.round.lives, 0);
    assert_eq!(app.stats.lost, 1);
    assert_eq!(app.round.revealed, b"__".to_vec());
}

#[test]
fn quit_sets_exit_and_changes_nothing_else() {
    let mut app = app_on(b"cat");
    app.apply_command(Command::Guess(b'c'));
    let round_before = app.round.revealed.clone();
    app.apply_command(Command::Quit);
    assert!(app.exit);
    assert_eq!(app.round.revealed, round_before);
    assert_eq!(app.stats, StatsRecord::new(0, 0));
}

#[test]
fn stats_toggle_flips_the_view() {
    let mut app = app_on(b"cat");
    assert_eq!(app.popup, PopupState::Closed);
    app.apply_command(Command::ToggleStats);
    assert_eq!(app.popup, PopupState::StatsView);
    app.apply_command(Command::ToggleStats);
    assert_eq!(app.popup, PopupState::Closed);
}

#[test]
fn new_game_draws_a_well_formed_word() {
    let mut app = app_on(b"cat");
    app.apply_command(Command::NewRound);
    assert!(!app.round.word.is_empty());
    assert!(app.round.word.iter().all(|&b| (b'a'..=b'z').contains(&b)));
}

#[test]
fn fresh_word_is_well_formed() {
    for _ in 0..20 {
        let w = hangman::app::fresh_word();
        assert!(!w.is_empty());
        assert!(w.iter().all(|&b| (b'a'..=b'z').contains(&b)));
    }
}

#[test]
fn check_word_accepts_and_rejects() {
    assert!(hangman::app::check_word(&b"cat".to_vec()));
    assert!(!hangman::app::check_word(&b"".to_vec()));
    assert!(!hangman::app::check_word(&b"Cat".to_vec()));
    assert!(!hangman::app::check_word(&b"c-t".to_vec()));
}
