use vstd::prelude::*;

use crate::algebra::{Vec2, LIMIT};
use crate::error::{MathError, Quantity};

verus! {

/// Position (and orientation, in thousandths of a radian) of an entity.
#[derive(Clone, Copy, Debug, PartialEq, Eq, Structural)]
pub struct Transform {
    pub pos: Vec2,
    pub rot: i64,
}

impl Transform {
    pub fn new(pos: Vec2, rot: i64) -> (r: Self)
        ensures
            r == (Transform { pos, rot }),
    {
        Transform { pos, rot }
    }

    pub fn pos(&self) -> (r: Vec2)
        ensures
            r == self.pos,
    {
        self.pos
    }

    pub fn rot(&self) -> (r: i64)
        ensures
            r == self.rot,
    {
        self.rot
    }

    pub fn set_pos(&mut self, pos: Vec2)
        ensures
            *final(self) == (Transform { pos, ..*old(self) }),
    {
        self.pos = pos;
    }

    pub fn set_rot(&mut self, rot: i64)
        ensures
            *final(self) == (Transform { rot, ..*old(self) }),
    {
        self.rot = rot;
    }
}

/// Motion state of a dynamic entity: linear velocity, accumulated force, mass
/// and the resting flag.
#[derive(Clone, Copy, Debug, PartialEq, Eq, Structural)]
pub struct Translation {
    pub lin_vel: Vec2,
    pub force: Vec2,
    pub mass: u16,
    pub rest: bool,
}

impl Translation {
    /// Mass is positive and velocity within the component bound.
    pub open spec fn wf(&self) -> bool {
        self.mass > 0 && self.lin_vel.bounded(LIMIT as int) && self.force.bounded(0x20_0000_0000)
    }

    pub fn new(lin_vel: Vec2, force: Vec2, mass: u16) -> (r: Result<Self, MathError>)
        ensures
            mass == 0 ==> r == Err::<Translation, MathError>(MathError::NonPositive(Quantity::Mass)),
            mass > 0 ==> r == Ok::<Translation, MathError>(Translation { lin_vel, force, mass, rest: false }),
    {
        if mass == 0 {
            return Err(MathError::NonPositive(Quantity::Mass));
        }
        Ok(Translation { lin_vel, force, mass, rest: false })
    }

    pub fn lin_vel(&self) -> (r: Vec2)
        ensures
            r == self.lin_vel,
    {
        self.lin_vel
    }

    pub fn force(&self) -> (r: Vec2)
        ensures
            r == self.force,
    {
        self.force
    }

    pub fn mass(&self) -> (r: u16)
        ensures
            r == self.mass,
    {
        self.mass
    }

    pub fn rest(&self) -> (r: bool)
        ensures
            r == self.rest,
    {
        self.rest
    }

    pub fn set_lin_vel(&mut self, lin_vel: Vec2)
        ensures
            *final(self) == (Translation { lin_vel, ..*old(self) }),
    {
        self.lin_vel = lin_vel;
    }

    pub fn set_force(&mut self, force: Vec2)
        ensures
            *final(self) == (Translation { force, ..*old(self) }),
    {
        self.force = force;
    }

    /// Changes the mass; a zero mass is refused and leaves the state unchanged.
    pub fn set_mass(&mut self, mass: u16) -> (r: Result<(), MathError>)
        ensures
            mass == 0 ==> r == Err::<(), MathError>(MathError::NonPositive(Quantity::Mass))
                && *final(self) == *old(self),
            mass > 0 ==> r is Ok && *final(self) == (Translation { mass, ..*old(self) }),
    {
        if mass == 0 {
            return Err(MathError::NonPositive(Quantity::Mass));
        }
        self.mass = mass;
        Ok(())
    }

    pub fn set_rest(&mut self, rest: bool)
        ensures
            *final(self) == (Translation { rest, ..*old(self) }),
    {
        self.rest = rest;
    }
}

/// Surface coefficients, in thousandths: restitution, static friction and
/// kinetic friction.
#[derive(Clone, Copy, Debug, PartialEq, Eq, Structural)]
pub struct Surface {
    pub elast: u16,
    pub static_friction: u16,
    pub kinetic_friction: u16,
}

impl Surface {
    pub fn new(elast: u16, static_friction: u16, kinetic_friction: u16) -> (r: Self)
        ensures
            r == (Surface { elast, static_friction, kinetic_friction }),
    {
        Surface { elast, static_friction, kinetic_friction }
    }

    pub fn elast(&self) -> (r: u16)
        ensures
            r == self.elast,
    {
        self.elast
    }

    pub fn static_friction(&self) -> (r: u16)
        ensures
            r == self.static_friction,
    {
        self.static_friction
    }

    pub fn kinetic_friction(&self) -> (r: u16)
        ensures
            r == self.kinetic_friction,
    {
        self.kinetic_friction
    }

    pub fn set_elast(&mut self, v: u16)
        ensures
            *final(self) == (Surface { elast: v, ..*old(self) }),
    {
        self.elast = v;
    }

    pub fn set_static_friction(&mut self, v: u16)
        ensures
            *final(self) == (Surface { static_friction: v, ..*old(self) }),
    {
        self.static_friction = v;
    }

    pub fn set_kinetic_friction(&mut self, v: u16)
        ensures
            *final(self) == (Surface { kinetic_friction: v, ..*old(self) }),
    {
        self.kinetic_friction = v;
    }
}

/// An RGBA color.
#[derive(Clone, Copy, Debug, PartialEq, Eq, Structural)]
pub struct Color {
    pub r: u8,
    pub g: u8,
    pub b: u8,
    pub a: u8,
}

impl Color {
    pub fn new(r: u8, g: u8, b: u8, a: u8) -> (c: Self)
        ensures
            c == (Color { r, g, b, a }),
    {
        Color { r, g, b, a }
    }
}

/// How an entity is drawn: color, drawing layer and visibility.
#[derive(Clone, Copy, Debug, PartialEq, Eq, Structural)]
pub struct Material {
    pub color: Color,
    pub layer: usize,
    pub show: bool,
}

impl Material {
    pub fn new(color: Color, layer: usize, show: bool) -> (r: Self)
        ensures
            r == (Material { color, layer, show }),
    {
        Material { color, layer, show }
    }

    pub fn color(&self) -> (r: Color)
        ensures
            r == self.color,
    {
        self.color
    }

    pub fn layer(&self) -> (r: usize)
        ensures
            r == self.layer,
    {
        self.layer
    }

    pub fn show(&self) -> (r: bool)
        ensures
            r == self.show,
    {
        self.show
    }

    pub fn set_color(&mut self, color: Color)
        ensures
            *final(self) == (Material { color, ..*old(self) }),
    {
        self.color = color;
    }

    pub fn set_layer(&mut self, layer: usize)
        ensures
            *final(self) == (Material { layer, ..*old(self) }),
    {
        self.layer = layer;
    }

    pub fn set_show(&mut self, show: bool)
        ensures
            *final(self) == (Material { show, ..*old(self) }),
    {
        self.show = show;
    }
}

} // verus!
