use bowling::frames::Frame;
use bowling::games::{BowlError, Bowler, Game};

fn play(b: &mut Bowler, throws: &[u8]) {
    for &p in throws {
        assert!(b.bowl(p).is_ok(), "throw {} refused", p);
    }
}

fn frame(first: Option<u8>, second: Option<u8>, third: Option<u8>, last: bool) -> Frame {
    Frame { first, second, third, bonus1: None, bonus2: None, last }
}

#[test]
fn perfect_game() {
    let mut b = Bowler::new();
    for k in 0..12usize {
        let expected = if k < 9 { k } else { 9 };
        assert_eq!(b.bowl(10), Ok(expected));
    }
    for i in 0..10 {
        let f = b.frame(i);
        assert!(f.is_strike());
        assert!(f.is_complete());
        assert_eq!(f.get_points(), 30);
    }
    assert_eq!(b.total(), 300);
    assert_eq!(b.bowl(10), Err(BowlError::GameAlreadyComplete));
    assert_eq!(b.bowl(0), Err(BowlError::GameAlreadyComplete));
}

#[test]
fn gutter_game() {
    let mut b = Bowler::new();
    play(&mut b, &[0; 20]);
    for i in 0..10 {
        let f = b.frame(i);
        assert!(f.is_open());
        assert!(f.is_complete());
        assert_eq!(f.get_points(), 0);
    }
    assert_eq!(b.total(), 0);
    assert_eq!(b.bowl(0), Err(BowlError::GameAlreadyComplete));
}

#[test]
fn spare_then_four() {
    let mut b = Bowler::new();
    play(&mut b, &[6, 4]);
    assert!(b.frame(0).is_spare());
    assert!(!b.frame(0).is_complete());
    assert!(!b.frame(0).display_points());
    assert_eq!(b.total(), 0);
    assert_eq!(b.bowl(4), Ok(1));
    let f = b.frame(0);
    assert!(f.is_complete());
    assert_eq!(f.get_points(), 14);
    assert_eq!(b.total(), 14);
}

#[test]
fn strike_in_ninth_then_tenth_strike_and_five() {
    let mut b = Bowler::new();
    play(&mut b, &[0; 16]);
    assert_eq!(b.bowl(10), Ok(8));
    assert!(!b.frame(8).is_complete());
    assert_eq!(b.bowl(10), Ok(9));
    assert!(!b.frame(8).is_complete());
    assert_eq!(b.bowl(5), Ok(9));
    let f = b.frame(8);
    assert!(f.is_complete());
    assert_eq!(f.get_points(), 25);
    assert!(!b.frame(9).is_bowled());
}

#[test]
fn refused_second_throw_changes_nothing() {
    let mut b = Bowler::new();
    play(&mut b, &[6]);
    let before: Vec<Option<u8>> = (0..21).map(|k| b.throw_at(k)).collect();
    let frame_before = b.frame(0);
    assert_eq!(b.bowl(5), Err(BowlError::InvalidPinCount));
    let after: Vec<Option<u8>> = (0..21).map(|k| b.throw_at(k)).collect();
    assert_eq!(before, after);
    assert_eq!(b.frame(0), frame_before);
    assert_eq!(b.bowl(4), Ok(0));
    assert!(b.frame(0).is_spare());
}

#[test]
fn more_than_ten_pins_refused() {
    let mut b = Bowler::new();
    assert_eq!(b.bowl(11), Err(BowlError::InvalidPinCount));
    assert_eq!(b.throw_at(0), None);
    assert_eq!(b.next_frame(), 0);
}

#[test]
fn queries_repeat_the_same_answer() {
    let mut b = Bowler::new();
    play(&mut b, &[10, 3]);
    let f = b.frame(0);
    assert_eq!(f.is_complete(), f.is_complete());
    assert_eq!(f.get_points(), f.get_points());
    assert_eq!(b.frame(0), b.frame(0));
    assert_eq!(b.total(), b.total());
    assert!(!f.is_complete());
    assert_eq!(f.get_points(), 13);
}

#[test]
fn strike_bonus_follows_a_second_strike() {
    let mut b = Bowler::new();
    play(&mut b, &[10, 10, 7, 2]);
    assert_eq!(b.frame(0).get_points(), 27);
    assert_eq!(b.frame(1).get_points(), 19);
    assert_eq!(b.frame(2).get_points(), 9);
    assert_eq!(b.total(), 55);
}

#[test]
fn open_tenth_frame_takes_two_throws() {
    let mut b = Bowler::new();
    play(&mut b, &[0; 18]);
    play(&mut b, &[3, 4]);
    assert!(b.frame(9).is_bowled());
    assert!(b.frame(9).is_complete());
    assert_eq!(b.frame(9).get_points(), 7);
    assert_eq!(b.bowl(1), Err(BowlError::GameAlreadyComplete));
    assert_eq!(b.throw_at(20), None);
}

#[test]
fn spare_in_tenth_frame_takes_a_third_throw() {
    let mut b = Bowler::new();
    play(&mut b, &[0; 18]);
    play(&mut b, &[3, 7]);
    assert!(b.frame(9).is_spare());
    assert!(!b.frame(9).is_bowled());
    assert_eq!(b.bowl(10), Ok(9));
    assert!(b.frame(9).is_complete());
    assert_eq!(b.frame(9).get_points(), 20);
    assert_eq!(b.total(), 20);
}

#[test]
fn tenth_frame_pins_reset_after_strike() {
    let mut b = Bowler::new();
    play(&mut b, &[0; 18]);
    play(&mut b, &[10, 3]);
    assert_eq!(b.bowl(8), Err(BowlError::InvalidPinCount));
    assert_eq!(b.bowl(7), Ok(9));
    assert_eq!(b.frame(9).get_points(), 20);
}

#[test]
fn tenth_frame_second_throw_limited_without_strike() {
    let mut b = Bowler::new();
    play(&mut b, &[0; 18]);
    play(&mut b, &[4]);
    assert_eq!(b.bowl(7), Err(BowlError::InvalidPinCount));
    assert_eq!(b.bowl(6), Ok(9));
}

#[test]
fn eleven_strikes_then_nine_score_299() {
    let mut b = Bowler::new();
    play(&mut b, &[10; 11]);
    play(&mut b, &[9]);
    assert_eq!(b.total(), 299);
}

#[test]
fn all_spares_with_five_score_150() {
    let mut b = Bowler::new();
    play(&mut b, &[5; 21]);
    assert_eq!(b.total(), 150);
    let sum: u32 = (0..10).map(|i| b.frame(i).get_points() as u32).sum();
    assert_eq!(sum, 150);
    assert_eq!(b.bowl(5), Err(BowlError::GameAlreadyComplete));
}

#[test]
fn init_clears_the_card() {
    let mut b = Bowler::new();
    play(&mut b, &[10, 4, 5]);
    b.init();
    for k in 0..21 {
        assert_eq!(b.throw_at(k), None);
    }
    assert_eq!(b.next_frame(), 0);
    assert_eq!(b.total(), 0);
}

#[test]
fn edit_sets_a_frame() {
    let mut b = Bowler::new();
    assert_eq!(b.edit(0, [Some(3), Some(4)]), Ok(()));
    assert_eq!(b.throw_at(0), Some(3));
    assert_eq!(b.throw_at(1), Some(4));
    assert_eq!(b.next_frame(), 1);
    assert_eq!(b.total(), 7);
}

#[test]
fn edit_refuses_an_impossible_frame() {
    let mut b = Bowler::new();
    assert_eq!(b.edit(0, [Some(7), Some(5)]), Err(BowlError::InvalidPinCount));
    assert_eq!(b.edit(0, [Some(10), Some(0)]), Err(BowlError::InvalidPinCount));
    assert_eq!(b.edit(0, [None, Some(3)]), Err(BowlError::InvalidPinCount));
    assert_eq!(b.edit(2, [Some(3), None]), Err(BowlError::InvalidPinCount));
    assert_eq!(b.throw_at(0), None);
    assert_eq!(b.throw_at(4), None);
}

#[test]
fn frame_predicates() {
    let open = frame(Some(3), Some(4), None, false);
    assert!(open.is_open() && !open.is_spare() && !open.is_strike() && open.is_bowled());
    let spare = frame(Some(0), Some(10), None, false);
    assert!(spare.is_spare() && !spare.is_open() && !spare.is_strike());
    let strike = frame(Some(10), None, None, false);
    assert!(strike.is_strike() && strike.is_bowled() && !strike.is_complete());
    let started = frame(Some(4), None, None, false);
    assert!(!started.is_bowled() && !started.is_open() && !started.is_spare());
    let empty = frame(None, None, None, false);
    assert!(!empty.is_bowled() && !empty.is_strike());
}

#[test]
fn strike_then_zero_is_no_spare() {
    let last = frame(Some(10), Some(0), None, true);
    assert!(last.is_strike());
    assert!(!last.is_spare());
    assert!(!last.is_open());
    assert!(!last.is_bowled());
}

#[test]
fn frame_points_add_bonus_throws() {
    let f = Frame {
        first: Some(10),
        second: None,
        third: None,
        bonus1: Some(10),
        bonus2: Some(4),
        last: false,
    };
    assert!(f.is_complete());
    assert!(f.display_points());
    assert_eq!(f.get_points(), 24);
    let partial = Frame { bonus2: None, ..f };
    assert!(!partial.is_complete());
    assert_eq!(partial.get_points(), 20);
}

#[test]
fn game_turns_pass_after_each_frame() {
    let mut g = Game::new(2);
    assert_eq!(g.bowler_count(), 2);
    assert_eq!(g.turn(), 0);
    assert_eq!(g.bowl(10), Ok(0));
    assert_eq!(g.turn(), 1);
    assert_eq!(g.bowl(3), Ok(0));
    assert_eq!(g.turn(), 1);
    assert_eq!(g.bowl(9), Err(BowlError::InvalidPinCount));
    assert_eq!(g.turn(), 1);
    assert_eq!(g.bowl(4), Ok(0));
    assert_eq!(g.turn(), 0);
    assert_eq!(g.bowl(2), Ok(1));
    assert_eq!(g.bowler(0).throw_at(2), Some(2));
    assert_eq!(g.bowler(1).throw_at(0), Some(3));
    assert_eq!(g.bowler(1).throw_at(1), Some(4));
}

#[test]
fn game_ends_after_ten_frames_each() {
    let mut g = Game::new(2);
    for _ in 0..40 {
        assert!(g.bowl(1).is_ok());
    }
    assert_eq!(g.bowl(1), Err(BowlError::GameOver));
    assert_eq!(g.bowler(0).total(), 20);
    assert_eq!(g.bowler(1).total(), 20);
}

#[test]
fn game_tenth_frame_bonus_stays_with_bowler() {
    let mut g = Game::new(1);
    for _ in 0..9 {
        assert!(g.bowl(10).is_ok());
    }
    assert_eq!(g.bowl(10), Ok(9));
    assert_eq!(g.bowl(10), Ok(9));
    assert_eq!(g.bowl(10), Ok(9));
    assert_eq!(g.bowler(0).total(), 300);
    assert_eq!(g.bowl(10), Err(BowlError::GameOver));
}

#[test]
fn game_without_bowlers_is_over() {
    let mut g = Game::new(0);
    assert_eq!(g.bowl(5), Err(BowlError::GameOver));
}
