use vstd::prelude::*;
use crate::model::{Level, Position};

verus! {

/// Which special mechanics a level uses.
#[derive(Debug, Clone, Copy, PartialEq, Eq, Structural)]
pub struct LevelMechanics {
    pub has_floating_food: bool,
    pub has_falling_food: bool,
    pub has_stones: bool,
    pub has_spikes: bool,
}

/// The coarse layout of a level's obstacles.
#[derive(Debug, Clone, Copy, PartialEq, Eq, Structural)]
pub enum ObstaclePattern {
    VerticalWall,
    HorizontalWall,
    Scattered,
    Empty,
}

/// Size and density figures of a level. The obstacle density is the exact ratio
/// `obstacle_count / grid_area` (zero when the area is not positive).
#[derive(Debug, Clone, Copy, PartialEq, Eq, Structural)]
pub struct ComplexityMetrics {
    pub obstacle_count: usize,
    pub food_count: usize,
    pub grid_area: i64,
}

/// Everything the name generator needs to know about a level.
#[derive(Debug, Clone, Copy, PartialEq, Eq, Structural)]
pub struct LevelAnalysis {
    pub mechanics: LevelMechanics,
    pub pattern: ObstaclePattern,
    pub complexity: ComplexityMetrics,
}

/// Whether the obstacle density exceeds `num / den`.
pub open spec fn density_exceeds(c: ComplexityMetrics, num: int, den: int) -> bool {
    c.grid_area > 0 && c.obstacle_count * den > num * c.grid_area
}

/// How many of the positions lie in column `x`.
pub open spec fn count_in_column(s: Seq<Position>, x: i32) -> nat
    decreases s.len(),
{
    if s.len() == 0 {
        0
    } else {
        count_in_column(s.drop_last(), x) + if s.last().x == x {
            1nat
        } else {
            0nat
        }
    }
}

/// How many of the positions lie in row `y`.
pub open spec fn count_in_row(s: Seq<Position>, y: i32) -> nat
    decreases s.len(),
{
    if s.len() == 0 {
        0
    } else {
        count_in_row(s.drop_last(), y) + if s.last().y == y {
            1nat
        } else {
            0nat
        }
    }
}

/// The alignment an obstacle count must reach to be called a wall: 40%, rounded down.
pub open spec fn wall_threshold(n: nat) -> int {
    ((n * 4) / 10) as int
}

/// Whether some column holds at least the wall threshold of the obstacles.
pub open spec fn has_vertical_wall(s: Seq<Position>) -> bool {
    exists|i: int| 0 <= i < s.len() && count_in_column(s, #[trigger] s[i].x) >= wall_threshold(s.len())
}

/// Whether some row holds at least the wall threshold of the obstacles.
pub open spec fn has_horizontal_wall(s: Seq<Position>) -> bool {
    exists|i: int| 0 <= i < s.len() && count_in_row(s, #[trigger] s[i].y) >= wall_threshold(s.len())
}

pub open spec fn obstacle_pattern(s: Seq<Position>) -> ObstaclePattern {
    if s.len() == 0 {
        ObstaclePattern::Empty
    } else if has_vertical_wall(s) {
        ObstaclePattern::VerticalWall
    } else if has_horizontal_wall(s) {
        ObstaclePattern::HorizontalWall
    } else {
        ObstaclePattern::Scattered
    }
}

pub open spec fn mechanics_of(level: Level) -> LevelMechanics {
    LevelMechanics {
        has_floating_food: level.floating_food.len() > 0,
        has_falling_food: level.falling_food.len() > 0,
        has_stones: level.stones.len() > 0,
        has_spikes: level.spikes.len() > 0,
    }
}

pub open spec fn complexity_of(level: Level) -> ComplexityMetrics {
    ComplexityMetrics {
        obstacle_count: level.obstacles.len(),
        food_count: (level.food.len() + level.floating_food.len() + level.falling_food.len()) as usize,
        grid_area: (level.grid_size.width * level.grid_size.height) as i64,
    }
}

/// Which special mechanics the level uses: a mechanic is present when its list is non-empty.
pub fn detect_mechanics(level: &Level) -> (r: LevelMechanics)
    ensures
        r == mechanics_of(*level),
{
    LevelMechanics {
        has_floating_food: level.floating_food.len() > 0,
        has_falling_food: level.falling_food.len() > 0,
        has_stones: level.stones.len() > 0,
        has_spikes: level.spikes.len() > 0,
    }
}

fn column_count(obstacles: &Vec<Position>, x: i32) -> (r: usize)
    ensures
        r == count_in_column(obstacles@, x),
{
    let n = obstacles.len();
    let mut c: usize = 0;
    let mut i: usize = 0;
    while i < n
        invariant
            n == obstacles.len(),
            i <= n,
            c == count_in_column(obstacles@.subrange(0, i as int), x),
            c <= i,
        decreases n - i,
    {
        proof {
            assert(obstacles@.subrange(0, i as int + 1).drop_last() =~= obstacles@.subrange(0, i as int));
        }
        if obstacles[i].x == x {
            c = c + 1;
        }
        i = i + 1;
    }
    assert(obstacles@.subrange(0, n as int) =~= obstacles@);
    c
}

fn row_count(obstacles: &Vec<Position>, y: i32) -> (r: usize)
    ensures
        r == count_in_row(obstacles@, y),
{
    let n = obstacles.len();
    let mut c: usize = 0;
    let mut i: usize = 0;
    while i < n
        invariant
            n == obstacles.len(),
            i <= n,
            c == count_in_row(obstacles@.subrange(0, i as int), y),
            c <= i,
        decreases n - i,
    {
        proof {
            assert(obstacles@.subrange(0, i as int + 1).drop_last() =~= obstacles@.subrange(0, i as int));
        }
        if obstacles[i].y == y {
            c = c + 1;
        }
        i = i + 1;
    }
    assert(obstacles@.subrange(0, n as int) =~= obstacles@);
    c
}

/// Classifies the obstacle layout: no obstacles gives `Empty`; a column holding at least 40%
/// (rounded down) of them gives `VerticalWall`; else such a row gives `HorizontalWall`;
/// else `Scattered`.
pub fn detect_obstacle_pattern(obstacles: &Vec<Position>) -> (r: ObstaclePattern)
    ensures
        r == obstacle_pattern(obstacles@),
{
    let n = obstacles.len();
    if n == 0 {
        return ObstaclePattern::Empty;
    }
    let threshold: u128 = (n as u128) * 4 / 10;
    let mut i: usize = 0;
    while i < n
        invariant
            n == obstacles.len(),
            threshold == wall_threshold(n as nat),
            i <= n,
            forall|k: int| 0 <= k < i ==> count_in_column(obstacles@, #[trigger] obstacles@[k].x) < threshold,
        decreases n - i,
    {
        let c = column_count(obstacles, obstacles[i].x);
        if c as u128 >= threshold {
            assert(count_in_column(obstacles@, obstacles@[i as int].x) >= wall_threshold(obstacles@.len()));
            return ObstaclePattern::VerticalWall;
        }
        i = i + 1;
    }
    let mut j: usize = 0;
    while j < n
        invariant
            n == obstacles.len(),
            threshold == wall_threshold(n as nat),
            j <= n,
            !has_vertical_wall(obstacles@),
            forall|k: int| 0 <= k < j ==> count_in_row(obstacles@, #[trigger] obstacles@[k].y) < threshold,
        decreases n - j,
    {
        let c = row_count(obstacles, obstacles[j].y);
        if c as u128 >= threshold {
            assert(count_in_row(obstacles@, obstacles@[j as int].y) >= wall_threshold(obstacles@.len()));
            return ObstaclePattern::HorizontalWall;
        }
        j = j + 1;
    }
    ObstaclePattern::Scattered
}

/// Grid area, obstacle count and the number of food items of every kind.
pub fn calculate_complexity(level: &Level) -> (r: ComplexityMetrics)
    requires
        level.food.len() + level.floating_food.len() + level.falling_food.len() <= usize::MAX,
    ensures
        r == complexity_of(*level),
{
    let w = level.grid_size.width as i64;
    let h = level.grid_size.height as i64;
    assert(-0x8000_0000 <= w <= 0x7fff_ffff && -0x8000_0000 <= h <= 0x7fff_ffff ==> -0x4000_0000_0000_0000
        <= w * h <= 0x4000_0000_0000_0000) by (nonlinear_arith);
    let grid_area = w * h;
    let food_count = level.food.len() + level.floating_food.len() + level.falling_food.len();
    ComplexityMetrics { obstacle_count: level.obstacles.len(), food_count, grid_area }
}

/// The analysis of a level: its mechanics, obstacle pattern and complexity figures.
pub fn analyze_level(level: &Level) -> (r: LevelAnalysis)
    requires
        level.food.len() + level.floating_food.len() + level.falling_food.len() <= usize::MAX,
    ensures
        r.mechanics == mechanics_of(*level),
        r.pattern == obstacle_pattern(level.obstacles@),
        r.complexity == complexity_of(*level),
{
    let mechanics = detect_mechanics(level);
    let pattern = detect_obstacle_pattern(&level.obstacles);
    let complexity = calculate_complexity(level);
    LevelAnalysis { mechanics, pattern, complexity }
}

} // verus!
