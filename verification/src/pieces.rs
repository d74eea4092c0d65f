//! What the level is made of: each piece is a sprite of one tile at a
//! position, with the gameplay roles it takes on.
use vstd::prelude::*;

use crate::geometry::Pos;

verus! {

/// The images the pieces are drawn with.
#[derive(Clone, Copy, Debug, PartialEq, Eq, Structural)]
pub enum Texture {
    Bomb,
    BombFalling,
    Dirt,
    Empty,
    Enemy,
    Explosion,
    Gate,
    PlagueL,
    PlagueM,
    PlagueR,
    Player,
    Rock,
    SolidWall,
    Wall,
}

impl Texture {
    /// Asset path of the image.
    pub fn path(&self) -> (r: &'static str)
        ensures
            r@ == self.spec_path(),
    {
        match self {
            Texture::Bomb => "textures/bomb.png",
            Texture::BombFalling => "textures/bomb_falling.png",
            Texture::Dirt => "textures/dirt.png",
            Texture::Empty => "textures/empty.png",
            Texture::Enemy => "textures/mumionek.png",
            Texture::Explosion => "textures/explosion.png",
            Texture::Gate => "textures/gate.png",
            Texture::PlagueL => "textures/plagueL.png",
            Texture::PlagueM => "textures/plagueM.png",
            Texture::PlagueR => "textures/plagueR.png",
            Texture::Player => "textures/kretes.png",
            Texture::Rock => "textures/rock.png",
            Texture::SolidWall => "textures/solid_wall.png",
            Texture::Wall => "textures/wall.png",
        }
    }

    /// Asset path of the image.
    pub open spec fn spec_path(self) -> Seq<char> {
        match self {
            Texture::Bomb => "textures/bomb.png"@,
            Texture::BombFalling => "textures/bomb_falling.png"@,
            Texture::Dirt => "textures/dirt.png"@,
            Texture::Empty => "textures/empty.png"@,
            Texture::Enemy => "textures/mumionek.png"@,
            Texture::Explosion => "textures/explosion.png"@,
            Texture::Gate => "textures/gate.png"@,
            Texture::PlagueL => "textures/plagueL.png"@,
            Texture::PlagueM => "textures/plagueM.png"@,
            Texture::PlagueR => "textures/plagueR.png"@,
            Texture::Player => "textures/kretes.png"@,
            Texture::Rock => "textures/rock.png"@,
            Texture::SolidWall => "textures/solid_wall.png"@,
            Texture::Wall => "textures/wall.png"@,
        }
    }
}

/// The two kinds of elements that fall and can be pushed.
#[derive(Clone, Copy, Debug, PartialEq, Eq, Structural)]
pub enum MovableElement {
    FallingBomb,
    Rock,
}

/// The three falling plague pieces.
#[derive(Clone, Copy, Debug, PartialEq, Eq, Structural)]
pub enum Plague {
    L,
    M,
    R,
}

/// The four directions an enemy walks in.
#[derive(Clone, Copy, Debug, PartialEq, Eq, Structural)]
pub enum Direction {
    Right,
    Up,
    Left,
    Down,
}

impl Direction {
    /// Horizontal component of the unit step.
    pub open spec fn dx(self) -> int {
        match self {
            Direction::Right => 1,
            Direction::Left => -1,
            _ => 0,
        }
    }

    /// Vertical component of the unit step.
    pub open spec fn dy(self) -> int {
        match self {
            Direction::Up => 1,
            Direction::Down => -1,
            _ => 0,
        }
    }

    /// Horizontal component of the unit step.
    pub fn step_x(&self) -> (r: i64)
        ensures
            r == self.dx(),
    {
        match self {
            Direction::Right => 1,
            Direction::Left => -1,
            _ => 0,
        }
    }

    /// Vertical component of the unit step.
    pub fn step_y(&self) -> (r: i64)
        ensures
            r == self.dy(),
    {
        match self {
            Direction::Up => 1,
            Direction::Down => -1,
            _ => 0,
        }
    }
}

/// The gameplay role a piece carries besides its markers.
#[derive(Clone, Copy, Debug, PartialEq, Eq, Structural)]
pub enum PieceKind {
    /// Scenery only.
    Plain,
    Player,
    Dirt,
    /// A bomb lying on the map, to be collected.
    Bomb,
    Movable(MovableElement),
    /// An enemy walking in the given direction.
    Enemy(Direction),
    Plague(Plague),
    Rock,
}

/// A piece to be put into the world: a tile-sized sprite at a position.
#[derive(Clone, Copy, Debug, PartialEq, Eq, Structural)]
pub struct Piece {
    pub texture: Texture,
    pub position: Pos,
    pub kind: PieceKind,
    /// An explosion in range destroys it.
    pub explodable: bool,
    /// It hurts the player.
    pub explosive: bool,
    /// Enemies and falling elements cannot pass it.
    pub blocks_enemies: bool,
    /// The player cannot pass it.
    pub blocks_player: bool,
}

} // verus!
