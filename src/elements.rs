use vstd::prelude::*;

verus! {

/// What a grid cell is made of; fixed once the level is loaded.
#[derive(Clone, Copy, Debug, PartialEq, Eq, Structural)]
pub enum BackgroundElementType {
    Nothing,
    Wall,
    Goal,
}

/// What a movable entity is.
#[derive(Clone, Copy, Debug, PartialEq, Eq, Structural)]
pub enum ForegroundElementType {
    Player,
    Crate,
}

/// A movable entity and the cell it stands on.
#[derive(Clone, Copy, Debug, PartialEq, Eq, Structural)]
pub struct ForegroundElement {
    pub x: i32,
    pub y: i32,
    pub element_type: ForegroundElementType,
}

impl ForegroundElement {
    pub fn element_type(&self) -> (r: ForegroundElementType)
        ensures
            r == self.element_type,
    {
        self.element_type
    }

    pub fn x(&self) -> (r: i32)
        ensures
            r == self.x,
    {
        self.x
    }

    pub fn y(&self) -> (r: i32)
        ensures
            r == self.y,
    {
        self.y
    }
}

} // verus!
