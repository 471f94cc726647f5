use vstd::prelude::*;

verus! {

/// A two-dimensional integer vector identifying a grid cell.
///
/// No bounds are attached to a coordinate: it may be negative or lie outside
/// any particular grid.
#[derive(Clone, Copy, Debug, PartialEq, Eq, Structural)]
pub struct Coord {
    pub x: i32,
    pub y: i32,
}

impl View for Coord {
    type V = (int, int);

    open spec fn view(&self) -> (int, int) {
        (self.x as int, self.y as int)
    }
}

/// The views of a sequence of coordinates, as integer pairs.
pub open spec fn coords_view(s: Seq<Coord>) -> Seq<(int, int)> {
    s.map_values(|c: Coord| c@)
}

/// Whether an integer pair fits the component type of `Coord`.
pub open spec fn in_i32(p: (int, int)) -> bool {
    i32::MIN <= p.0 <= i32::MAX && i32::MIN <= p.1 <= i32::MAX
}

impl Coord {
    pub fn new(x: i32, y: i32) -> (r: Coord)
        ensures
            r@ == (x as int, y as int),
    {
        Coord { x, y }
    }
}

/// Component-wise sum. The caller keeps both components within `i32`.
impl std::ops::Add for Coord {
    type Output = Coord;

    fn add(self, rhs: Coord) -> (r: Coord) {
        Coord { x: self.x + rhs.x, y: self.y + rhs.y }
    }
}

impl vstd::std_specs::ops::AddSpecImpl for Coord {
    open spec fn obeys_add_spec() -> bool {
        true
    }

    open spec fn add_req(self, rhs: Coord) -> bool {
        in_i32((self.x + rhs.x, self.y + rhs.y))
    }

    open spec fn add_spec(self, rhs: Coord) -> Coord {
        Coord { x: (self.x + rhs.x) as i32, y: (self.y + rhs.y) as i32 }
    }
}

/// Component-wise difference. The caller keeps both components within `i32`.
impl std::ops::Sub for Coord {
    type Output = Coord;

    fn sub(self, rhs: Coord) -> (r: Coord) {
        Coord { x: self.x - rhs.x, y: self.y - rhs.y }
    }
}

impl vstd::std_specs::ops::SubSpecImpl for Coord {
    open spec fn obeys_sub_spec() -> bool {
        true
    }

    open spec fn sub_req(self, rhs: Coord) -> bool {
        in_i32((self.x - rhs.x, self.y - rhs.y))
    }

    open spec fn sub_spec(self, rhs: Coord) -> Coord {
        Coord { x: (self.x - rhs.x) as i32, y: (self.y - rhs.y) as i32 }
    }
}

impl From<(i32, i32)> for Coord {
    fn from(t: (i32, i32)) -> (r: Coord)
        ensures
            r@ == (t.0 as int, t.1 as int),
    {
        Coord { x: t.0, y: t.1 }
    }
}

impl vstd::std_specs::convert::FromSpecImpl<(i32, i32)> for Coord {
    open spec fn obeys_from_spec() -> bool {
        true
    }

    open spec fn from_spec(t: (i32, i32)) -> Coord {
        Coord { x: t.0, y: t.1 }
    }
}

} // verus!
