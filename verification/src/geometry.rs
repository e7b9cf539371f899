//! Screen geometry and input primitives shared by the application logic and
//! its hosts: colors, two-component vectors, rectangles, and the plain input
//! classifications.

use vstd::prelude::*;

use core::cmp::Ordering;

use vstd::std_specs::cmp::PartialOrdSpec;
use vstd::std_specs::ops::AddSpec;
use vstd::std_specs::ops::SubSpec;

verus! {

/// A color: red, green, blue, alpha.
#[derive(Debug, PartialEq, Eq, Clone, Copy, Structural)]
pub struct Rgba(pub u8, pub u8, pub u8, pub u8);

impl Default for Rgba {
    /// Transparent black.
    fn default() -> (r: Rgba)
        ensures
            r == Rgba(0, 0, 0, 0),
    {
        Rgba(0, 0, 0, 0)
    }
}

impl From<u32> for Rgba {
    /// The four big-endian bytes of the word: `0xrrggbbaa`.
    fn from(value: u32) -> (r: Rgba) {
        proof {
            assert((value >> 24) & 0xff < 256 && (value >> 16) & 0xff < 256 && (value >> 8) & 0xff
                < 256 && value & 0xff < 256) by (bit_vector);
        }
        Rgba(
            ((value >> 24) & 0xff) as u8,
            ((value >> 16) & 0xff) as u8,
            ((value >> 8) & 0xff) as u8,
            (value & 0xff) as u8,
        )
    }
}

impl vstd::std_specs::convert::FromSpecImpl<u32> for Rgba {
    open spec fn obeys_from_spec() -> bool {
        true
    }

    open spec fn from_spec(value: u32) -> Rgba {
        Rgba(
            (((value >> 24) & 0xff) as u8),
            (((value >> 16) & 0xff) as u8),
            (((value >> 8) & 0xff) as u8),
            ((value & 0xff) as u8),
        )
    }
}

/// A two-component vector.
#[derive(Debug, PartialEq, Eq, Clone, Copy)]
pub struct Vec2d<T>(pub T, pub T);

/// `r` holds the two input pairs sorted componentwise: each component pair
/// is a permutation of the inputs, and wherever `T`'s ordering obeys its
/// specification, the greater value of a pair moved to the second place.
pub open spec fn sorted_components<T: PartialOrd>(
    a: Vec2d<T>,
    b: Vec2d<T>,
    r: (Vec2d<T>, Vec2d<T>),
) -> bool {
    &&& ((r.0.0 == a.0 && r.1.0 == b.0) || (r.0.0 == b.0 && r.1.0 == a.0))
    &&& ((r.0.1 == a.1 && r.1.1 == b.1) || (r.0.1 == b.1 && r.1.1 == a.1))
    &&& (T::obeys_partial_cmp_spec() ==> {
        &&& if a.0.partial_cmp_spec(&b.0) == Some(Ordering::Greater) {
            r.0.0 == b.0 && r.1.0 == a.0
        } else {
            r.0.0 == a.0 && r.1.0 == b.0
        }
        &&& if a.1.partial_cmp_spec(&b.1) == Some(Ordering::Greater) {
            r.0.1 == b.1 && r.1.1 == a.1
        } else {
            r.0.1 == a.1 && r.1.1 == b.1
        }
    })
}

impl<T: PartialOrd> Vec2d<T> {
    /// Orders two vectors componentwise: within each component pair, a value
    /// strictly greater than its partner trades places with it.
    pub fn sort(self, other: Vec2d<T>) -> (r: (Vec2d<T>, Vec2d<T>))
        ensures
            sorted_components(self, other, r),
    {
        let Vec2d(a0, a1) = self;
        let Vec2d(b0, b1) = other;
        let (x0, y0) = match a0.partial_cmp(&b0) {
            Some(Ordering::Greater) => (b0, a0),
            _ => (a0, b0),
        };
        let (x1, y1) = match a1.partial_cmp(&b1) {
            Some(Ordering::Greater) => (b1, a1),
            _ => (a1, b1),
        };
        (Vec2d(x0, x1), Vec2d(y0, y1))
    }
}

impl<T: core::ops::Add<Output = T>> core::ops::Add for Vec2d<T> {
    type Output = Vec2d<T>;

    fn add(self, rhs: Vec2d<T>) -> (r: Vec2d<T>) {
        Vec2d(self.0 + rhs.0, self.1 + rhs.1)
    }
}

impl<T: core::ops::Add<Output = T>> vstd::std_specs::ops::AddSpecImpl for Vec2d<T> {
    open spec fn obeys_add_spec() -> bool {
        T::obeys_add_spec()
    }

    open spec fn add_req(self, rhs: Vec2d<T>) -> bool {
        self.0.add_req(rhs.0) && self.1.add_req(rhs.1)
    }

    open spec fn add_spec(self, rhs: Vec2d<T>) -> Vec2d<T> {
        Vec2d(self.0.add_spec(rhs.0), self.1.add_spec(rhs.1))
    }
}

impl<T: core::ops::Sub<Output = T>> core::ops::Sub for Vec2d<T> {
    type Output = Vec2d<T>;

    fn sub(self, rhs: Vec2d<T>) -> (r: Vec2d<T>) {
        Vec2d(self.0 - rhs.0, self.1 - rhs.1)
    }
}

impl<T: core::ops::Sub<Output = T>> vstd::std_specs::ops::SubSpecImpl for Vec2d<T> {
    open spec fn obeys_sub_spec() -> bool {
        T::obeys_sub_spec()
    }

    open spec fn sub_req(self, rhs: Vec2d<T>) -> bool {
        self.0.sub_req(rhs.0) && self.1.sub_req(rhs.1)
    }

    open spec fn sub_spec(self, rhs: Vec2d<T>) -> Vec2d<T> {
        Vec2d(self.0.sub_spec(rhs.0), self.1.sub_spec(rhs.1))
    }
}

impl<T> From<(T, T)> for Vec2d<T> {
    fn from(value: (T, T)) -> (r: Vec2d<T>) {
        Vec2d(value.0, value.1)
    }
}

impl<T> vstd::std_specs::convert::FromSpecImpl<(T, T)> for Vec2d<T> {
    open spec fn obeys_from_spec() -> bool {
        true
    }

    open spec fn from_spec(value: (T, T)) -> Vec2d<T> {
        Vec2d(value.0, value.1)
    }
}

/// A screen position, in pixels from the top left corner.
pub type ScreenPos = Vec2d<i32>;

/// A screen size, in pixels.
pub type ScreenSize = Vec2d<u32>;

/// A rectangle given by its center position and its extent.
#[derive(Debug, PartialEq, Eq, Clone, Copy)]
pub struct CenterRect<T, Y>(Vec2d<T>, Vec2d<Y>);

impl<T, Y> CenterRect<T, Y> {
    /// The center position.
    pub closed spec fn spec_center(self) -> Vec2d<T> {
        self.0
    }

    /// The extent.
    pub closed spec fn spec_extent(self) -> Vec2d<Y> {
        self.1
    }

    pub fn new(a: Vec2d<T>, b: Vec2d<Y>) -> (r: Self)
        ensures
            r.spec_center() == a,
            r.spec_extent() == b,
    {
        Self(a, b)
    }
}

/// A rectangle given by two corners, kept sorted so that the first corner
/// is never past the second in either component.
#[derive(Debug, PartialEq, Eq, Clone, Copy)]
pub struct Rect<T: PartialOrd>(Vec2d<T>, Vec2d<T>);

impl<T: PartialOrd> Rect<T> {
    /// The first corner.
    pub closed spec fn spec_first(self) -> Vec2d<T> {
        self.0
    }

    /// The second corner.
    pub closed spec fn spec_second(self) -> Vec2d<T> {
        self.1
    }

    /// Builds a rectangle from two arbitrary corners, sorting them
    /// componentwise.
    pub fn new(a: Vec2d<T>, b: Vec2d<T>) -> (r: Self)
        ensures
            sorted_components(a, b, (r.spec_first(), r.spec_second())),
    {
        let (a, b) = a.sort(b);
        Self(a, b)
    }

    /// The first corner's horizontal component.
    pub fn x1(&self) -> (r: &T)
        ensures
            *r == self.spec_first().0,
    {
        &self.0.0
    }

    /// The second corner's horizontal component.
    pub fn x2(&self) -> (r: &T)
        ensures
            *r == self.spec_second().0,
    {
        &self.1.0
    }

    /// The first corner's vertical component.
    pub fn y1(&self) -> (r: &T)
        ensures
            *r == self.spec_first().1,
    {
        &self.0.1
    }

    /// The second corner's vertical component.
    pub fn y2(&self) -> (r: &T)
        ensures
            *r == self.spec_second().1,
    {
        &self.1.1
    }
}

/// Both extent components fit the signed coordinate type: the conversion
/// the spanned rectangle starts from.
pub open spec fn extent_convertible(c: CenterRect<i32, u32>) -> bool {
    &&& c.spec_extent().0 <= i32::MAX
    &&& c.spec_extent().1 <= i32::MAX
}

/// The far corner of a position-and-extent rectangle stays inside the
/// coordinate space.
pub open spec fn extent_fits(c: CenterRect<i32, u32>) -> bool {
    &&& c.spec_center().0 + c.spec_extent().0 <= i32::MAX
    &&& c.spec_center().1 + c.spec_extent().1 <= i32::MAX
}

impl Rect<i32> {
    /// The rectangle spanned from a position-and-extent rectangle's anchor
    /// by its extent: the normalized rectangle over the anchor and
    /// anchor-plus-extent corners. Nothing when an extent component does not
    /// fit the signed coordinate type, or when the far corner would leave
    /// the coordinate space.
    pub fn from_extent(c: CenterRect<i32, u32>) -> (r: Option<Rect<i32>>)
        ensures
            match r {
                Some(rect) => {
                    &&& extent_convertible(c)
                    &&& extent_fits(c)
                    &&& sorted_components(
                        c.spec_center(),
                        Vec2d(
                            (c.spec_center().0 + c.spec_extent().0) as i32,
                            (c.spec_center().1 + c.spec_extent().1) as i32,
                        ),
                        (rect.spec_first(), rect.spec_second()),
                    )
                },
                None => !(extent_convertible(c) && extent_fits(c)),
            },
    {
        let CenterRect(center, extent) = c;
        if extent.0 > i32::MAX as u32 || extent.1 > i32::MAX as u32 {
            return None;
        }
        let x2 = center.0 as i64 + extent.0 as i64;
        let y2 = center.1 as i64 + extent.1 as i64;
        if x2 > i32::MAX as i64 || y2 > i32::MAX as i64 {
            return None;
        }
        Some(Rect::new(center, Vec2d(x2 as i32, y2 as i32)))
    }
}

/// A screen rectangle by corners.
pub type ScreenRect = Rect<i32>;

/// A screen rectangle by center and extent.
pub type ScreenCenterRect = CenterRect<i32, u32>;

/// An axis of scrolling.
#[derive(Debug, PartialEq, Eq, Clone, Copy, Structural)]
pub enum Direction {
    Horizonal,
    Vertical,
}

/// Whether a key went down or came up.
#[derive(Debug, PartialEq, Eq, Clone, Copy, Structural)]
pub enum KeyState {
    Pressed,
    Released,
}

/// Generic keypress input, independent of the host's key map.
#[derive(Debug, PartialEq, Eq, Hash, Clone)]
pub enum GenericKey {
    /// Usually the enter key.
    Send,
    /// Backspace key.
    Backspace,
    /// Escape key or back button.
    Esc,
    /// Arbitrary text.
    Text(String),
}

} // verus!
