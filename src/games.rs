use vstd::prelude::*;
use crate::frames::{pin_value, Frame};

verus! {

/// Number of throw slots on one bowler's card: two for each of the first
/// nine frames and three for the last.
pub const SLOTS: usize = 21;

/// The reasons a throw is refused.
#[derive(Clone, Copy, Debug, PartialEq, Eq)]
pub enum BowlError {
    /// More pins than are standing, or more than ten.
    InvalidPinCount,
    /// The bowler has bowled all ten frames.
    GameAlreadyComplete,
    /// The bowler whose turn it is has no frame left, or there is no bowler.
    GameOver,
}

/// A card on which no throw has been recorded.
pub open spec fn empty_card() -> Seq<Option<u8>> {
    Seq::new(21, |k: int| None::<u8>)
}

/// The two throws that follow frame `i` (`i < 9`), wherever they lie: a
/// strike in the next frame sends the second one a frame further on, except
/// in the last frame, which holds its own throws.
pub open spec fn next_two(s: Seq<Option<u8>>, i: int) -> (Option<u8>, Option<u8>) {
    let j = i + 1;
    if j == 9 {
        (s[18], s[19])
    } else if s[2 * j] == Some(10u8) {
        (s[2 * j], s[2 * j + 2])
    } else {
        (s[2 * j], s[2 * j + 1])
    }
}

/// Frame `i` (`0 <= i < 10`) of a card: its own slots, and the bonus throws
/// that a strike or a spare refers to.
pub open spec fn frame_at(s: Seq<Option<u8>>, i: int) -> Frame {
    if i == 9 {
        Frame { first: s[18], second: s[19], third: s[20], bonus1: None, bonus2: None, last: true }
    } else {
        let f = Frame {
            first: s[2 * i],
            second: s[2 * i + 1],
            third: None,
            bonus1: None,
            bonus2: None,
            last: false,
        };
        if f.strike() {
            Frame { bonus1: next_two(s, i).0, bonus2: next_two(s, i).1, ..f }
        } else if f.spare() {
            Frame { bonus1: s[2 * i + 2], ..f }
        } else {
            f
        }
    }
}

pub open spec fn bowled_at(s: Seq<Option<u8>>, i: int) -> bool {
    frame_at(s, i).bowled()
}

pub open spec fn complete_at(s: Seq<Option<u8>>, i: int) -> bool {
    frame_at(s, i).complete()
}

/// All frames before `f` are bowled.
pub open spec fn earlier_bowled(s: Seq<Option<u8>>, f: int) -> bool {
    forall|j: int| 0 <= j < f ==> #[trigger] bowled_at(s, j)
}

/// The slots of frame `i` hold throws in order, each no more than the pins
/// standing, and only once every earlier frame is bowled.
pub open spec fn frame_ok(s: Seq<Option<u8>>, i: int) -> bool {
    if i < 9 {
        &&& s[2 * i] is Some ==> earlier_bowled(s, i) && pin_value(s[2 * i]) <= 10
        &&& s[2 * i + 1] is Some ==> {
            &&& s[2 * i] is Some
            &&& s[2 * i] != Some(10u8)
            &&& pin_value(s[2 * i]) + pin_value(s[2 * i + 1]) <= 10
        }
    } else {
        &&& s[18] is Some ==> earlier_bowled(s, 9) && pin_value(s[18]) <= 10
        &&& s[19] is Some ==> s[18] is Some && pin_value(s[19]) <= standing_second(s)
        &&& s[20] is Some ==> {
            &&& s[19] is Some
            &&& !frame_at(s, 9).open()
            &&& pin_value(s[20]) <= standing_third(s)
        }
    }
}

/// Pins standing for the second throw of the last frame.
pub open spec fn standing_second(s: Seq<Option<u8>>) -> int {
    if s[18] == Some(10u8) { 10 } else { 10 - pin_value(s[18]) }
}

/// Pins standing for the third throw of the last frame.
pub open spec fn standing_third(s: Seq<Option<u8>>) -> int {
    if s[18] == Some(10u8) && s[19] != Some(10u8) { 10 - pin_value(s[19]) } else { 10 }
}

/// A card that a sequence of legal throws can produce.
pub open spec fn well_formed(s: Seq<Option<u8>>) -> bool {
    &&& s.len() == 21
    &&& forall|i: int| 0 <= i < 10 ==> #[trigger] frame_ok(s, i)
}

/// The first frame from `i` on that is not bowled, or 10 if there is none.
pub open spec fn first_unbowled_from(s: Seq<Option<u8>>, i: int) -> int
    decreases 10 - i,
{
    if i >= 10 {
        10
    } else if !bowled_at(s, i) {
        i
    } else {
        first_unbowled_from(s, i + 1)
    }
}

/// The frame that the next throw belongs to; 10 once all are bowled.
pub open spec fn current_frame(s: Seq<Option<u8>>) -> int {
    first_unbowled_from(s, 0)
}

/// The slot that the next throw in frame `i` fills.
pub open spec fn next_slot(s: Seq<Option<u8>>, i: int) -> int {
    if i < 9 {
        if s[2 * i] is None { 2 * i } else { 2 * i + 1 }
    } else if s[18] is None {
        18
    } else if s[19] is None {
        19
    } else {
        20
    }
}

/// The pins standing for the next throw in frame `i`.
pub open spec fn pins_standing(s: Seq<Option<u8>>, i: int) -> int {
    if i < 9 {
        if s[2 * i] is None { 10 } else { 10 - pin_value(s[2 * i]) }
    } else if s[18] is None {
        10
    } else if s[19] is None {
        standing_second(s)
    } else {
        standing_third(s)
    }
}

/// What recording a throw of `pins` on card `s` gives: the new card and the
/// result.
pub open spec fn record(s: Seq<Option<u8>>, pins: u8) -> (Seq<Option<u8>>, Result<usize, BowlError>) {
    let i = current_frame(s);
    if i >= 10 {
        (s, Err(BowlError::GameAlreadyComplete))
    } else if pins > pins_standing(s, i) {
        (s, Err(BowlError::InvalidPinCount))
    } else {
        (s.update(next_slot(s, i), Some(pins)), Ok(i as usize))
    }
}

/// The points of the complete frames among the first `n`.
pub open spec fn score_upto(s: Seq<Option<u8>>, n: int) -> int
    decreases n,
{
    if n <= 0 {
        0
    } else {
        score_upto(s, n - 1) + if complete_at(s, n - 1) { frame_at(s, n - 1).points() } else { 0 }
    }
}

/// The bowler's running total: the points of every complete frame.
pub open spec fn score(s: Seq<Option<u8>>) -> int {
    score_upto(s, 10)
}

/// Searching from a point up to which every frame is bowled finds the first
/// frame that is not.
pub proof fn lemma_first_unbowled(s: Seq<Option<u8>>, i: int)
    requires
        0 <= i <= 10,
        earlier_bowled(s, i),
    ensures
        i <= first_unbowled_from(s, i) <= 10,
        earlier_bowled(s, first_unbowled_from(s, i)),
        first_unbowled_from(s, i) < 10 ==> !bowled_at(s, first_unbowled_from(s, i)),
    decreases 10 - i,
{
    if i < 10 && bowled_at(s, i) {
        assert(earlier_bowled(s, i + 1));
        lemma_first_unbowled(s, i + 1);
    }
}

/// Frames after the current one hold no throw.
pub proof fn lemma_later_frames_empty(s: Seq<Option<u8>>, i: int, j: int)
    requires
        well_formed(s),
        0 <= i < j < 10,
        !bowled_at(s, i),
    ensures
        j < 9 ==> s[2 * j] is None && s[2 * j + 1] is None,
        j == 9 ==> s[18] is None && s[19] is None && s[20] is None,
{
    assert(frame_ok(s, j));
    if j < 9 && s[2 * j] is Some {
        assert(bowled_at(s, i));
    }
    if j == 9 && s[18] is Some {
        assert(bowled_at(s, i));
    }
}

/// Recording a throw keeps a card well formed.
pub proof fn lemma_record_well_formed(s: Seq<Option<u8>>, pins: u8)
    requires
        well_formed(s),
    ensures
        well_formed(record(s, pins).0),
{
    let i = current_frame(s);
    assert(earlier_bowled(s, 0));
    lemma_first_unbowled(s, 0);
    if i < 10 && pins <= pins_standing(s, i) {
        let k = next_slot(s, i);
        let t = s.update(k, Some(pins));
        assert(frame_ok(s, i));
        assert forall|m: int| 0 <= m < i implies bowled_at(t, m) == bowled_at(s, m) by {
            assert(t[2 * m] == s[2 * m]);
            assert(t[2 * m + 1] == s[2 * m + 1]);
        }
        assert forall|j: int| 0 <= j < 10 implies #[trigger] frame_ok(t, j) by {
            if j < i {
                assert(frame_ok(s, j));
                assert(t[2 * j] == s[2 * j]);
                assert(t[2 * j + 1] == s[2 * j + 1]);
                if s[2 * j] is Some {
                    assert forall|m: int| 0 <= m < j implies #[trigger] bowled_at(t, m) by {
                        assert(bowled_at(s, m));
                    }
                }
            } else if j == i {
                assert forall|m: int| 0 <= m < j implies #[trigger] bowled_at(t, m) by {
                    assert(bowled_at(s, m));
                }
            } else {
                lemma_later_frames_empty(s, i, j);
            }
        }
    }
}

/// Under a well-formed card every frame holds pin counts of at most 10 and
/// scores at most 30; it scores 30 only as a strike followed by two more.
pub proof fn lemma_frame_points_bounded(s: Seq<Option<u8>>, i: int)
    requires
        well_formed(s),
        0 <= i < 10,
    ensures
        frame_at(s, i).in_range(),
        0 <= frame_at(s, i).points() <= 30,
        frame_at(s, i).points() == 30 && i < 9 ==> s[2 * i] == Some(10u8),
        frame_at(s, i).points() == 30 && i == 9 ==> {
            &&& s[18] == Some(10u8)
            &&& s[19] == Some(10u8)
            &&& s[20] == Some(10u8)
        },
{
    assert(frame_ok(s, i));
    if i < 9 {
        assert(frame_ok(s, i + 1));
        if i + 2 < 10 {
            assert(frame_ok(s, i + 2));
        }
    }
}

/// Frame `i` of a card held in `bowls`.
fn frame_in(bowls: &Vec<Option<u8>>, i: usize) -> (r: Frame)
    requires
        bowls@.len() == 21,
        i < 10,
    ensures
        r == frame_at(bowls@, i as int),
{
    if i == 9 {
        return Frame {
            first: bowls[18],
            second: bowls[19],
            third: bowls[20],
            bonus1: None,
            bonus2: None,
            last: true,
        };
    }
    let mut f = Frame {
        first: bowls[2 * i],
        second: bowls[2 * i + 1],
        third: None,
        bonus1: None,
        bonus2: None,
        last: false,
    };
    if f.is_strike() {
        let j = i + 1;
        f.bonus1 = bowls[2 * j];
        if j == 9 {
            f.bonus2 = bowls[19];
        } else {
            let next_is_strike = match bowls[2 * j] {
                Some(v) => v == 10,
                None => false,
            };
            if next_is_strike {
                f.bonus2 = bowls[2 * j + 2];
            } else {
                f.bonus2 = bowls[2 * j + 1];
            }
        }
    } else if f.is_spare() {
        f.bonus1 = bowls[2 * i + 2];
    }
    f
}

/// Whether the card held in `bowls` is one that legal throws could produce.
fn card_ok(bowls: &Vec<Option<u8>>) -> (r: bool)
    requires
        bowls@.len() == 21,
    ensures
        r == well_formed(bowls@),
{
    let ghost s = bowls@;
    let mut prior: bool = true;
    let mut i: usize = 0;
    while i < 9
        invariant
            i <= 9,
            s == bowls@,
            s.len() == 21,
            prior == earlier_bowled(s, i as int),
            forall|j: int| 0 <= j < i ==> #[trigger] frame_ok(s, j),
        decreases 9 - i,
    {
        let ok = match (bowls[2 * i], bowls[2 * i + 1]) {
            (None, None) => true,
            (Some(a), None) => prior && a <= 10,
            (None, Some(_)) => false,
            (Some(a), Some(b)) => prior && a < 10 && b <= 10 - a,
        };
        if !ok {
            assert(!frame_ok(s, i as int));
            return false;
        }
        let f = frame_in(bowls, i);
        proof {
            if prior && !f.bowled() {
                assert(!bowled_at(s, i as int));
                assert(!earlier_bowled(s, i + 1));
            }
            if !prior {
                let m = choose|m: int| 0 <= m < i && !#[trigger] bowled_at(s, m);
                assert(!bowled_at(s, m));
            }
        }
        prior = prior && f.is_bowled();
        i = i + 1;
    }
    let ok = match (bowls[18], bowls[19], bowls[20]) {
        (None, None, None) => true,
        (Some(a), None, None) => prior && a <= 10,
        (Some(a), Some(b), None) => prior && a <= 10 && b <= (if a == 10 { 10 } else { 10 - a }),
        (Some(a), Some(b), Some(c)) => prior && a <= 10 && b <= (if a == 10 { 10 } else { 10 - a })
            && (a == 10 || a + b == 10) && c <= (if a == 10 && b != 10 { 10 - b } else { 10 }),
        _ => false,
    };
    proof {
        if ok {
            assert forall|j: int| 0 <= j < 10 implies #[trigger] frame_ok(s, j) by {}
        } else {
            assert(!frame_ok(s, 9));
        }
    }
    ok
}

/// One bowler's card: the throws of a whole game, in 21 slots.
pub struct Bowler {
    bowls: Vec<Option<u8>>,
}

impl View for Bowler {
    type V = Seq<Option<u8>>;

    closed spec fn view(&self) -> Seq<Option<u8>> {
        self.bowls@
    }
}

impl Bowler {
    pub open spec fn wf(&self) -> bool {
        well_formed(self@)
    }

    /// A bowler with an empty card.
    pub fn new() -> (r: Bowler)
        ensures
            r@ == empty_card(),
            r.wf(),
    {
        let mut bowls: Vec<Option<u8>> = Vec::new();
        let mut k: usize = 0;
        while k < SLOTS
            invariant
                k <= SLOTS,
                bowls@ == Seq::new(k as nat, |j: int| None::<u8>),
            decreases SLOTS - k,
        {
            bowls.push(None);
            k = k + 1;
        }
        let r = Bowler { bowls };
        assert(r@ =~= empty_card());
        r
    }

    /// Clears the card.
    pub fn init(&mut self)
        ensures
            final(self)@ == empty_card(),
            final(self).wf(),
    {
        *self = Bowler::new();
    }

    /// The throw in slot `k`, if it has been thrown.
    pub fn throw_at(&self, k: usize) -> (r: Option<u8>)
        requires
            self.wf(),
            k < SLOTS,
        ensures
            r == self@[k as int],
    {
        self.bowls[k]
    }

    /// Frame `i` of the card, with its bonus throws resolved.
    pub fn frame(&self, i: usize) -> (r: Frame)
        requires
            self.wf(),
            i < 10,
        ensures
            r == frame_at(self@, i as int),
            r.in_range(),
    {
        proof {
            lemma_frame_points_bounded(self@, i as int);
        }
        frame_in(&self.bowls, i)
    }

    /// The points of every complete frame: the bowler's running total.
    pub fn total(&self) -> (r: u16)
        requires
            self.wf(),
        ensures
            r as int == score(self@),
    {
        let mut sum: u16 = 0;
        let mut i: usize = 0;
        while i < 10
            invariant
                i <= 10,
                self.wf(),
                sum as int == score_upto(self@, i as int),
                sum <= 30 * i,
            decreases 10 - i,
        {
            let f = self.frame(i);
            proof {
                lemma_frame_points_bounded(self@, i as int);
            }
            if f.is_complete() {
                sum = sum + f.get_points() as u16;
            }
            i = i + 1;
        }
        sum
    }

    /// Sets the two first slots of frame `frame_index` to `pins`.
    ///
    /// The edit is made when the card that results is one that legal throws
    /// could produce; otherwise it is refused and the card left as it was.
    pub fn edit(&mut self, frame_index: usize, pins: [Option<u8>; 2]) -> (r: Result<(), BowlError>)
        requires
            old(self).wf(),
            frame_index < 10,
        ensures
            final(self).wf(),
            ({
                let t = old(self)@.update(2 * frame_index as int, pins@[0]).update(
                    2 * frame_index as int + 1,
                    pins@[1],
                );
                &&& well_formed(t) ==> r is Ok && final(self)@ == t
                &&& !well_formed(t) ==> r == Err::<(), BowlError>(BowlError::InvalidPinCount)
                    && final(self)@ == old(self)@
            }),
    {
        let mut bowls = self.bowls.clone();
        bowls.set(2 * frame_index, pins[0]);
        bowls.set(2 * frame_index + 1, pins[1]);
        if card_ok(&bowls) {
            self.bowls = bowls;
            Ok(())
        } else {
            Err(BowlError::InvalidPinCount)
        }
    }

    /// Records the bowler's next throw.
    ///
    /// The throw goes to the first frame that is not bowled. It is refused,
    /// and the card left as it was, when every frame is bowled or when it
    /// knocks down more pins than are standing. Otherwise it fills the next
    /// slot of that frame, and the frame's index is returned.
    pub fn bowl(&mut self, score: u8) -> (r: Result<usize, BowlError>)
        requires
            old(self).wf(),
        ensures
            final(self).wf(),
            final(self)@ == record(old(self)@, score).0,
            r == record(old(self)@, score).1,
    {
        proof {
            lemma_record_well_formed(self@, score);
        }
        let i = self.next_frame();
        if i == 10 {
            return Err(BowlError::GameAlreadyComplete);
        }
        proof {
            assert(frame_ok(self@, i as int));
        }
        let (k, standing) = if i < 9 {
            match self.bowls[2 * i] {
                None => (2 * i, 10u8),
                Some(a) => (2 * i + 1, 10 - a),
            }
        } else {
            match (self.bowls[18], self.bowls[19]) {
                (None, _) => (18, 10u8),
                (Some(a), None) => (19, if a == 10 { 10 } else { 10 - a }),
                (Some(a), Some(b)) => (20, if a == 10 && b != 10 { 10 - b } else { 10 }),
            }
        };
        if score > standing {
            return Err(BowlError::InvalidPinCount);
        }
        self.bowls.set(k, Some(score));
        Ok(i)
    }

    /// The frame that the next throw belongs to; 10 once every frame is bowled.
    pub fn next_frame(&self) -> (r: usize)
        requires
            self.wf(),
        ensures
            r as int == current_frame(self@),
            r <= 10,
            earlier_bowled(self@, r as int),
            r < 10 ==> !bowled_at(self@, r as int),
    {
        let mut i: usize = 0;
        while i < 10
            invariant
                i <= 10,
                self.wf(),
                earlier_bowled(self@, i as int),
                first_unbowled_from(self@, 0) == first_unbowled_from(self@, i as int),
            decreases 10 - i,
        {
            if !self.frame(i).is_bowled() {
                return i;
            }
            i = i + 1;
        }
        i
    }
}

/// Several bowlers taking turns, a frame at a time.
pub struct Game {
    turn: usize,
    bowlers: Vec<Bowler>,
}

impl Game {
    /// The index of the bowler whose turn it is.
    pub closed spec fn turn_of(&self) -> int {
        self.turn as int
    }

    /// The bowlers, in turn order.
    pub closed spec fn players(&self) -> Seq<Bowler> {
        self.bowlers@
    }

    pub open spec fn wf(&self) -> bool {
        &&& forall|b: int| 0 <= b < self.players().len() ==> (#[trigger] self.players()[b]).wf()
        &&& self.players().len() == 0 || 0 <= self.turn_of() < self.players().len()
        &&& self.turn_of() >= 0
    }

    /// A game of `n` bowlers with empty cards; the first bowler is up.
    pub fn new(n: usize) -> (r: Game)
        ensures
            r.wf(),
            r.turn_of() == 0,
            r.players().len() == n,
            forall|b: int| 0 <= b < n ==> (#[trigger] r.players()[b])@ == empty_card(),
    {
        let mut bowlers: Vec<Bowler> = Vec::new();
        let mut k: usize = 0;
        while k < n
            invariant
                k <= n,
                bowlers@.len() == k,
                forall|b: int| 0 <= b < k ==> (#[trigger] bowlers@[b])@ == empty_card(),
                forall|b: int| 0 <= b < k ==> (#[trigger] bowlers@[b]).wf(),
            decreases n - k,
        {
            bowlers.push(Bowler::new());
            k = k + 1;
        }
        Game { turn: 0, bowlers }
    }

    /// The index of the bowler whose turn it is.
    pub fn turn(&self) -> (r: usize)
        ensures
            r as int == self.turn_of(),
    {
        self.turn
    }

    /// The number of bowlers.
    pub fn bowler_count(&self) -> (r: usize)
        ensures
            r as int == self.players().len(),
    {
        self.bowlers.len()
    }

    /// Bowler `b`.
    pub fn bowler(&self, b: usize) -> (r: &Bowler)
        requires
            b < self.players().len(),
        ensures
            *r == self.players()[b as int],
    {
        &self.bowlers[b]
    }

    /// Records a throw for the bowler whose turn it is.
    ///
    /// Fails with `GameOver` when there is no bowler or the bowler up has
    /// bowled every frame. Otherwise the throw is recorded as `Bowler::bowl`
    /// does; when that fills the frame, the turn passes to the next bowler,
    /// round-robin.
    pub fn bowl(&mut self, score: u8) -> (r: Result<usize, BowlError>)
        requires
            old(self).wf(),
        ensures
            final(self).wf(),
            ({
                let ps = old(self).players();
                let t = old(self).turn_of();
                if ps.len() == 0 || current_frame(ps[t]@) >= 10 {
                    &&& r == Err::<usize, BowlError>(BowlError::GameOver)
                    &&& final(self).players() == ps
                    &&& final(self).turn_of() == t
                } else {
                    let (card, res) = record(ps[t]@, score);
                    &&& r == res
                    &&& final(self).players().len() == ps.len()
                    &&& final(self).players()[t]@ == card
                    &&& forall|b: int| 0 <= b < ps.len() && b != t
                        ==> #[trigger] final(self).players()[b] == ps[b]
                    &&& final(self).turn_of() == if r is Ok && bowled_at(card, current_frame(ps[t]@)) {
                        (t + 1) % (ps.len() as int)
                    } else {
                        t
                    }
                }
            }),
    {
        let n = self.bowlers.len();
        if n == 0 {
            return Err(BowlError::GameOver);
        }
        let t = self.turn;
        if self.bowlers[t].next_frame() == 10 {
            return Err(BowlError::GameOver);
        }
        let ghost before = self.bowlers@;
        let ghost i0 = current_frame(before[t as int]@);
        let r = self.bowlers[t].bowl(score);
        proof {
            assert(r is Ok ==> r == Ok::<usize, BowlError>(i0 as usize));
            assert(self.bowlers@.len() == before.len());
            assert forall|b: int| 0 <= b < n implies (#[trigger] self.bowlers@[b]).wf() by {
                if b != t {
                    assert(self.bowlers@[b] == before[b]);
                }
            }
        }
        if let Ok(i) = r {
            if self.bowlers[t].frame(i).is_bowled() {
                self.turn = if t + 1 == n { 0 } else { t + 1 };
                assert(self.turn as int == (t + 1) as int % (n as int)) by (nonlinear_arith)
                    requires
                        self.turn as int == if t + 1 == n { 0 } else { t + 1 },
                        t < n,
                ;
            }
        }
        r
    }
}

} // verus!
