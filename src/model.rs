use vstd::prelude::*;

verus! {

/// A cell of the grid.
#[derive(Debug, Clone, Copy, PartialEq, Eq, Structural, Hash)]
pub struct Position {
    pub x: i32,
    pub y: i32,
}

impl Position {
    pub fn new(x: i32, y: i32) -> (r: Position)
        ensures
            r.x == x && r.y == y,
    {
        Position { x, y }
    }
}

/// The dimensions of a level's grid.
#[derive(Debug, Clone, Copy, PartialEq, Eq, Structural, Hash)]
pub struct GridSize {
    pub width: i32,
    pub height: i32,
}

impl GridSize {
    pub fn new(width: i32, height: i32) -> (r: GridSize)
        ensures
            r.width == width && r.height == height,
    {
        GridSize { width, height }
    }
}

/// A move of the snake.
#[derive(Debug, Clone, Copy, PartialEq, Eq, Structural, Hash)]
pub enum Direction {
    North,
    South,
    East,
    West,
}

/// The state of a game as the engine reports it.
#[derive(Debug, Clone, Copy, PartialEq, Eq, Structural, Hash)]
pub enum GameStatus {
    Playing,
    GameOver,
    LevelComplete,
    AllComplete,
}

/// A level definition, as stored in a level's JSON file.
#[derive(Debug)]
pub struct Level {
    pub id: u32,
    pub name: String,
    pub difficulty: Option<String>,
    pub grid_size: GridSize,
    pub snake: Vec<Position>,
    pub obstacles: Vec<Position>,
    pub food: Vec<Position>,
    pub exit: Position,
    pub snake_direction: Direction,
    pub floating_food: Vec<Position>,
    pub falling_food: Vec<Position>,
    pub stones: Vec<Position>,
    pub spikes: Vec<Position>,
    pub exit_is_solid: Option<bool>,
    pub total_food: Option<u32>,
}

} // verus!
