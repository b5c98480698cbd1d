use vstd::prelude::*;

verus! {

/// The largest extent that fits from `origin` to the end of the `u16` range.
pub open spec fn clamp_extent(origin: u16, extent: u16) -> u16 {
    if extent > u16::MAX - origin {
        (u16::MAX - origin) as u16
    } else {
        extent
    }
}

/// `ratatui::layout::Rect::new`: keeps `x` and `y`, and clamps the width and
/// height so that the rectangle ends at `u16::MAX` at the latest.
#[verifier::external_body]
fn ratatui_rect(x: u16, y: u16, width: u16, height: u16) -> (r: (u16, u16, u16, u16))
    ensures
        r == (x, y, clamp_extent(x, width), clamp_extent(y, height)),
{
    let r = ratatui::layout::Rect::new(x, y, width, height);
    (r.x, r.y, r.width, r.height)
}

/// A screen rectangle: left column, top row, width and height. It never
/// extends past the end of the `u16` range.
#[derive(Clone, Copy, Debug, PartialEq, Eq)]
pub struct Rect {
    x: u16,
    y: u16,
    width: u16,
    height: u16,
}

impl View for Rect {
    type V = (u16, u16, u16, u16);

    closed spec fn view(&self) -> (u16, u16, u16, u16) {
        (self.x, self.y, self.width, self.height)
    }
}

impl Rect {
    #[verifier::type_invariant]
    pub closed spec fn fits(self) -> bool {
        &&& self.x + self.width <= u16::MAX
        &&& self.y + self.height <= u16::MAX
    }

    /// The rectangle at (`x`, `y`) of the given size, clamped as ratatui
    /// clamps it.
    pub fn new(x: u16, y: u16, width: u16, height: u16) -> (r: Self)
        ensures
            r@ == (x, y, clamp_extent(x, width), clamp_extent(y, height)),
    {
        let (rx, ry, rw, rh) = ratatui_rect(x, y, width, height);
        Rect { x: rx, y: ry, width: rw, height: rh }
    }

    pub fn x(&self) -> (v: u16)
        ensures
            v == self@.0,
    {
        self.x
    }

    pub fn y(&self) -> (v: u16)
        ensures
            v == self@.1,
    {
        self.y
    }

    pub fn width(&self) -> (v: u16)
        ensures
            v == self@.2,
    {
        self.width
    }

    pub fn height(&self) -> (v: u16)
        ensures
            v == self@.3,
    {
        self.height
    }

    /// The first column right of the rectangle.
    pub fn right(&self) -> (v: u16)
        ensures
            v == self@.0 + self@.2,
    {
        proof {
            use_type_invariant(self);
        }
        self.x + self.width
    }

    /// The first row below the rectangle.
    pub fn bottom(&self) -> (v: u16)
        ensures
            v == self@.1 + self@.3,
    {
        proof {
            use_type_invariant(self);
        }
        self.y + self.height
    }

}

/// The point (`x`, `y`) lies in `r`: the left and top edges count, the right
/// and bottom edges do not.
pub open spec fn rect_contains(r: (u16, u16, u16, u16), x: u16, y: u16) -> bool {
    &&& x >= r.0
    &&& x < r.0 + r.2
    &&& y >= r.1
    &&& y < r.1 + r.3
}

/// Identifies a clickable element.
#[derive(Debug, PartialEq, Eq)]
pub enum HitTarget {
    NoTarget,
    File(String),
    ViewTab(usize),
    SeismicCell(usize),
}

impl Default for HitTarget {
    fn default() -> (t: Self)
        ensures
            t == HitTarget::NoTarget,
    {
        HitTarget::NoTarget
    }
}

impl Clone for HitTarget {
    fn clone(&self) -> (t: Self)
        ensures
            t == *self,
    {
        match self {
            HitTarget::NoTarget => HitTarget::NoTarget,
            HitTarget::File(p) => HitTarget::File(p.clone()),
            HitTarget::ViewTab(i) => HitTarget::ViewTab(*i),
            HitTarget::SeismicCell(i) => HitTarget::SeismicCell(*i),
        }
    }
}

/// A rectangular region that can be clicked.
#[derive(Debug)]
pub struct HitBox {
    pub rect: Rect,
    pub target: HitTarget,
}

impl Clone for HitBox {
    fn clone(&self) -> (b: Self)
        ensures
            b == *self,
    {
        HitBox { rect: self.rect, target: self.target.clone() }
    }
}

impl HitBox {
    pub fn new(rect: Rect, target: HitTarget) -> (b: Self)
        ensures
            b.rect == rect,
            b.target == target,
    {
        HitBox { rect, target }
    }

    pub fn contains(&self, x: u16, y: u16) -> (r: bool)
        ensures
            r == rect_contains(self.rect@, x, y),
    {
        proof {
            use_type_invariant(&self.rect);
        }
        x >= self.rect.x() && x < self.rect.x() + self.rect.width() && y >= self.rect.y() && y
            < self.rect.y() + self.rect.height()
    }
}

/// Current mouse state.
#[derive(Debug)]
pub struct MouseState {
    pub x: u16,
    pub y: u16,
    pub hover: HitTarget,
}

impl Default for MouseState {
    fn default() -> (m: Self)
        ensures
            m.x == 0,
            m.y == 0,
            m.hover == HitTarget::NoTarget,
    {
        MouseState { x: 0, y: 0, hover: HitTarget::NoTarget }
    }
}

impl MouseState {
    pub fn update_position(&mut self, x: u16, y: u16)
        ensures
            final(self).x == x,
            final(self).y == y,
            final(self).hover == old(self).hover,
    {
        self.x = x;
        self.y = y;
    }

    pub fn update_hover(&mut self, target: HitTarget)
        ensures
            final(self).x == old(self).x,
            final(self).y == old(self).y,
            final(self).hover == target,
    {
        self.hover = target;
    }
}

/// Target of the first box in `boxes` that contains (`x`, `y`), or
/// `HitTarget::NoTarget` when no box does.
pub open spec fn first_hit(boxes: Seq<HitBox>, x: u16, y: u16) -> HitTarget
    decreases boxes.len(),
{
    if boxes.len() == 0 {
        HitTarget::NoTarget
    } else if rect_contains(boxes[0].rect@, x, y) {
        boxes[0].target
    } else {
        first_hit(boxes.drop_first(), x, y)
    }
}

/// Find which hit box (if any) contains the given coordinates.
pub fn hit_test(x: u16, y: u16, boxes: &[HitBox]) -> (t: HitTarget)
    ensures
        t == first_hit(boxes@, x, y),
{
    let mut i: usize = 0;
    assert(boxes@.skip(0) =~= boxes@);
    while i < boxes.len()
        invariant
            i <= boxes@.len(),
            first_hit(boxes@, x, y) == first_hit(boxes@.skip(i as int), x, y),
        decreases boxes@.len() - i,
    {
        assert(boxes@.skip(i as int)[0] == boxes@[i as int]);
        if boxes[i].contains(x, y) {
            return boxes[i].target.clone();
        }
        assert(boxes@.skip(i as int).drop_first() =~= boxes@.skip(i + 1));
        i = i + 1;
    }
    HitTarget::NoTarget
}

} // verus!
