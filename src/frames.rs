use vstd::prelude::*;

verus! {

/// The number of pins knocked down by a throw, or 0 when it has not been thrown.
pub open spec fn pin_value(p: Option<u8>) -> int {
    match p {
        Some(v) => v as int,
        None => 0,
    }
}

/// One frame on a scorecard: its own throws and the bonus throws it borrows
/// from later frames.
///
/// `first` and `second` are the frame's regular throws. `third` is a real
/// throw of the last frame only; the other frames never fill it. `bonus1` and
/// `bonus2` hold the later throws that a strike (two) or a spare (one) adds to
/// the frame's score; the last frame has none.
#[derive(Clone, Copy, Debug, PartialEq, Eq)]
pub struct Frame {
    pub first: Option<u8>,
    pub second: Option<u8>,
    pub third: Option<u8>,
    pub bonus1: Option<u8>,
    pub bonus2: Option<u8>,
    pub last: bool,
}

impl Frame {
    /// Every throw that the frame holds is a pin count of at most 10.
    pub open spec fn in_range(self) -> bool {
        &&& pin_value(self.first) <= 10
        &&& pin_value(self.second) <= 10
        &&& pin_value(self.third) <= 10
        &&& pin_value(self.bonus1) <= 10
        &&& pin_value(self.bonus2) <= 10
    }

    pub open spec fn strike(self) -> bool {
        self.first == Some(10u8)
    }

    pub open spec fn spare(self) -> bool {
        match (self.first, self.second) {
            (Some(a), Some(b)) => a != 10 && a + b == 10,
            _ => false,
        }
    }

    pub open spec fn open(self) -> bool {
        match (self.first, self.second) {
            (Some(a), Some(b)) => a != 10 && a + b != 10,
            _ => false,
        }
    }

    /// The frame's own throws are all in: for the last frame, a strike or a
    /// spare asks for a third throw.
    pub open spec fn bowled(self) -> bool {
        if self.last {
            ||| (self.first is Some && self.second is Some && self.third is Some)
            ||| self.open()
        } else {
            ||| self.strike()
            ||| (self.first is Some && self.second is Some)
        }
    }

    /// The frame's score is settled: it is bowled, and the bonus throws that
    /// a strike or a spare needs have been thrown.
    pub open spec fn complete(self) -> bool {
        &&& self.bowled()
        &&& (!self.last && self.strike()) ==> (self.bonus1 is Some && self.bonus2 is Some)
        &&& (!self.last && self.spare()) ==> self.bonus1 is Some
    }

    pub open spec fn points(self) -> int {
        pin_value(self.first) + pin_value(self.second) + pin_value(self.third)
            + pin_value(self.bonus1) + pin_value(self.bonus2)
    }

    /// Both regular throws are in and they leave pins standing.
    pub fn is_open(&self) -> (r: bool)
        ensures
            r == self.open(),
    {
        match (self.first, self.second) {
            (Some(a), Some(b)) => a != 10 && a as u16 + b as u16 != 10,
            _ => false,
        }
    }

    /// The first throw knocked down all ten pins.
    pub fn is_strike(&self) -> (r: bool)
        ensures
            r == self.strike(),
    {
        match self.first {
            Some(a) => a == 10,
            None => false,
        }
    }

    /// The first throw left pins standing and the second knocked them all down.
    pub fn is_spare(&self) -> (r: bool)
        ensures
            r == self.spare(),
    {
        match (self.first, self.second) {
            (Some(a), Some(b)) => a != 10 && a as u16 + b as u16 == 10,
            _ => false,
        }
    }

    /// The frame's own throws are all in (its bonus throws may still be due).
    pub fn is_bowled(&self) -> (r: bool)
        ensures
            r == self.bowled(),
    {
        if self.last {
            (self.first.is_some() && self.second.is_some() && self.third.is_some())
                || self.is_open()
        } else {
            self.is_strike() || (self.first.is_some() && self.second.is_some())
        }
    }

    /// The frame's score is final.
    pub fn is_complete(&self) -> (r: bool)
        ensures
            r == self.complete(),
    {
        if !self.is_bowled() {
            false
        } else if self.last {
            true
        } else if self.is_strike() {
            self.bonus1.is_some() && self.bonus2.is_some()
        } else if self.is_spare() {
            self.bonus1.is_some()
        } else {
            true
        }
    }

    /// Whether the frame's points may be shown on a scorecard: the same as
    /// `is_complete`.
    pub fn display_points(&self) -> (r: bool)
        ensures
            r == self.complete(),
    {
        self.is_complete()
    }

    /// The points the frame has scored so far: its throws and its bonus
    /// throws, with those not yet thrown counted as 0. Final once
    /// `is_complete` holds.
    pub fn get_points(&self) -> (r: u8)
        requires
            self.in_range(),
        ensures
            r as int == self.points(),
    {
        let a = match self.first { Some(v) => v, None => 0 };
        let b = match self.second { Some(v) => v, None => 0 };
        let c = match self.third { Some(v) => v, None => 0 };
        let d = match self.bonus1 { Some(v) => v, None => 0 };
        let e = match self.bonus2 { Some(v) => v, None => 0 };
        a + b + c + d + e
    }
}

} // verus!
