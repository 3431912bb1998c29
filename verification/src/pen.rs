use vstd::prelude::*;

verus! {

/// The thinnest pen, in pixels.
pub const MIN_WIDTH: u32 = 1;

/// The thickest pen, in pixels.
pub const MAX_WIDTH: u32 = 60;

/// The pen width that a new overlay starts with.
pub const START_WIDTH: u32 = 4;

/// `w` brought into `[MIN_WIDTH, MAX_WIDTH]`.
pub open spec fn clamped(w: int) -> int {
    if w < MIN_WIDTH {
        MIN_WIDTH as int
    } else if w > MAX_WIDTH {
        MAX_WIDTH as int
    } else {
        w
    }
}

/// Brings a requested pen width into the range the overlay allows.
pub fn clamp_width(w: i64) -> (r: u32)
    ensures
        r == clamped(w as int),
{
    if w < MIN_WIDTH as i64 {
        MIN_WIDTH
    } else if w > MAX_WIDTH as i64 {
        MAX_WIDTH
    } else {
        w as u32
    }
}

/// The width of the pen that new strokes are drawn with.
pub struct Pen {
    width: u32,
}

impl View for Pen {
    type V = int;

    closed spec fn view(&self) -> int {
        self.width as int
    }
}

impl Pen {
    /// The pen of a new overlay.
    pub fn new() -> (p: Self)
        ensures
            p@ == START_WIDTH,
    {
        Pen { width: START_WIDTH }
    }

    /// The width, in pixels.
    pub fn width(&self) -> (w: u32)
        ensures
            w == self@,
    {
        self.width
    }

    /// One pixel thicker, up to `MAX_WIDTH`.
    pub fn thicker(&mut self)
        ensures
            final(self)@ == clamped(old(self)@ + 1),
    {
        self.width = clamp_width(self.width as i64 + 1);
    }

    /// One pixel thinner, down to `MIN_WIDTH`.
    pub fn thinner(&mut self)
        ensures
            final(self)@ == clamped(old(self)@ - 1),
    {
        self.width = clamp_width(self.width as i64 - 1);
    }
}

/// Every width the pen can take lies in `[MIN_WIDTH, MAX_WIDTH]`: the first
/// one does, and each change is clamped into the range.
pub proof fn lemma_width_in_range(w: int)
    ensures
        MIN_WIDTH <= clamped(w) <= MAX_WIDTH,
        MIN_WIDTH <= START_WIDTH <= MAX_WIDTH,
        MIN_WIDTH <= w <= MAX_WIDTH ==> clamped(w) == w,
{
}

/// A step thicker and a step thinner undo each other away from the ends of
/// the range; at the ends the pen stays where it is.
pub proof fn lemma_width_steps(w: int)
    requires
        MIN_WIDTH <= w <= MAX_WIDTH,
    ensures
        w < MAX_WIDTH ==> clamped(clamped(w + 1) - 1) == w,
        w > MIN_WIDTH ==> clamped(clamped(w - 1) + 1) == w,
        w == MAX_WIDTH ==> clamped(w + 1) == w,
        w == MIN_WIDTH ==> clamped(w - 1) == w,
{
}

} // verus!
