use vstd::prelude::*;

verus! {

/// One edge of a triangle being scan-converted: a DDA that walks the edge one
/// scanline at a time, keeping `x` exact with an error term.
#[derive(Debug, Clone, Copy)]
pub struct FXEdge {
    pub x: i64,
    pub x_step: i64,
    pub numerator: i64,
    pub denominator: i64,
    pub error_term: i64,
    /// Current scanline.
    pub y: i64,
    /// Scanlines left.
    pub height: i64,
}

/// `e` after one scanline: `x` advances by `x_step`, plus one when the error
/// term reaches the denominator, which then wraps it back.
pub open spec fn stepped(e: FXEdge) -> FXEdge {
    let err = e.error_term + e.numerator;
    let carry = err >= e.denominator;
    FXEdge {
        x: (e.x + e.x_step + if carry {
            1int
        } else {
            0int
        }) as i64,
        error_term: (if carry {
            err - e.denominator
        } else {
            err
        }) as i64,
        y: (e.y + 1) as i64,
        height: (e.height - 1) as i64,
        ..e
    }
}

/// Whether stepping `e` stays within the range of `i64`.
pub open spec fn can_step(e: FXEdge) -> bool {
    let err = e.error_term + e.numerator;
    &&& i64::MIN <= e.x + e.x_step && e.x + e.x_step + 1 <= i64::MAX
    &&& e.y + 1 <= i64::MAX
    &&& i64::MIN <= e.height - 1
    &&& i64::MIN <= err <= i64::MAX
    &&& i64::MIN <= err - e.denominator <= i64::MAX
}

impl FXEdge {
    pub fn new() -> (e: Self)
        ensures
            e == (FXEdge {
                x: 0,
                x_step: 0,
                numerator: 0,
                denominator: 0,
                error_term: 0,
                y: 0,
                height: 0,
            }),
    {
        Self { x: 0, x_step: 0, numerator: 0, denominator: 0, error_term: 0, y: 0, height: 0 }
    }

    /// Moves to the next scanline.
    pub fn step(&mut self)
        requires
            can_step(*old(self)),
        ensures
            *final(self) == stepped(*old(self)),
    {
        self.x = self.x + self.x_step;
        self.y = self.y + 1;
        self.height = self.height - 1;
        self.error_term = self.error_term + self.numerator;
        if self.error_term >= self.denominator {
            self.x = self.x + 1;
            self.error_term = self.error_term - self.denominator;
        }
    }
}

} // verus!
