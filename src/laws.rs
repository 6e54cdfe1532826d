use vstd::prelude::*;
use crate::games::{
    bowled_at, complete_at, frame_at, frame_ok, lemma_frame_points_bounded,
    lemma_record_well_formed, record, score, score_upto, well_formed,
};

verus! {

/// The card of a perfect game: a strike in each of the first nine frames and
/// three in the last.
pub open spec fn perfect_card() -> Seq<Option<u8>> {
    Seq::new(
        21,
        |k: int|
            if k < 18 && k % 2 == 1 {
                None::<u8>
            } else {
                Some(10u8)
            },
    )
}

/// The points of the first `n` frames, complete or not.
pub open spec fn points_upto(s: Seq<Option<u8>>, n: int) -> int
    decreases n,
{
    if n <= 0 {
        0
    } else {
        points_upto(s, n - 1) + frame_at(s, n - 1).points()
    }
}

proof fn lemma_score_upto_bounded(s: Seq<Option<u8>>, n: int)
    requires
        well_formed(s),
        0 <= n <= 10,
    ensures
        score_upto(s, n) <= 30 * n,
        score_upto(s, n) == 30 * n ==> forall|j: int|
            0 <= j < n ==> #[trigger] complete_at(s, j) && frame_at(s, j).points() == 30,
    decreases n,
{
    if n > 0 {
        lemma_score_upto_bounded(s, n - 1);
        lemma_frame_points_bounded(s, n - 1);
    }
}

proof fn lemma_score_is_points_when_complete(s: Seq<Option<u8>>, n: int)
    requires
        0 <= n <= 10,
        forall|j: int| 0 <= j < n ==> #[trigger] complete_at(s, j),
    ensures
        score_upto(s, n) == points_upto(s, n),
    decreases n,
{
    if n > 0 {
        lemma_score_is_points_when_complete(s, n - 1);
    }
}

/// No card that legal throws produce scores more than 300, and one that
/// scores 300 is the perfect game: twelve strikes in a row.
pub proof fn lemma_score_at_most_300(s: Seq<Option<u8>>)
    requires
        well_formed(s),
    ensures
        score(s) <= 300,
        score(s) == 300 ==> s == perfect_card(),
{
    lemma_score_upto_bounded(s, 10);
    if score(s) == 300 {
        assert forall|k: int| 0 <= k < 21 implies s[k] == #[trigger] perfect_card()[k] by {
            if k < 18 {
                let i = k / 2;
                assert(complete_at(s, i));
                lemma_frame_points_bounded(s, i);
                assert(frame_ok(s, i));
            } else {
                assert(complete_at(s, 9));
                lemma_frame_points_bounded(s, 9);
            }
        }
        assert(s =~= perfect_card());
    }
}

/// The perfect game is a card that legal throws produce, and it scores 300.
pub proof fn lemma_perfect_game_scores_300()
    ensures
        well_formed(perfect_card()),
        score(perfect_card()) == 300,
{
    let s = perfect_card();
    assert forall|i: int| 0 <= i < 10 implies #[trigger] frame_ok(s, i) by {
        assert forall|j: int| 0 <= j < i implies #[trigger] bowled_at(s, j) by {
            if j < 9 {
                assert(s[2 * j] == Some(10u8));
            }
        }
        if i < 9 {
            assert(s[2 * i] == Some(10u8));
            assert(s[2 * i + 1] is None);
        }
    }
    assert forall|i: int| 0 <= i < 10 implies #[trigger] complete_at(s, i) && frame_at(s, i).points() == 30 by {
        if i < 9 {
            assert(s[2 * i] == Some(10u8));
            assert(s[2 * i + 2] == Some(10u8));
            if i < 8 {
                assert(s[2 * i + 4] == Some(10u8));
            }
        }
    }
    reveal_with_fuel(score_upto, 11);
}

/// Once every frame is complete, the running total is the sum of the
/// frames' points, and it is at most 300.
pub proof fn lemma_complete_card_total(s: Seq<Option<u8>>)
    requires
        well_formed(s),
        forall|j: int| 0 <= j < 10 ==> #[trigger] complete_at(s, j),
    ensures
        score(s) == points_upto(s, 10),
        points_upto(s, 10) <= 300,
{
    lemma_score_is_points_when_complete(s, 10);
    lemma_score_at_most_300(s);
}

/// A refused throw leaves the card as it was; an accepted one keeps it well
/// formed.
pub proof fn lemma_refused_throw_keeps_card(s: Seq<Option<u8>>, pins: u8)
    requires
        well_formed(s),
    ensures
        record(s, pins).1 is Err ==> record(s, pins).0 == s,
        well_formed(record(s, pins).0),
{
    lemma_record_well_formed(s, pins);
}

} // verus!
