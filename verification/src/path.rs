//! Points, the cursor and the walk along a decoded path.

use crate::direction::{
    delta_x, delta_y, dir_bit, dir_index, has_dir, is_single_dir, is_single_direction,
    lemma_rotate_left_single_dir, lemma_single_dir_index, rotate_mask_left, rotate_mask_right,
    rotate_right,
};
use crate::utility::{Bounds, Pos};
use vstd::prelude::*;

verus! {

/// A point of the path graph and the octants in which edges leave it.
#[derive(Debug, Copy, Clone, Eq, PartialEq, Structural)]
pub struct Point {
    pub x: Pos,
    pub y: Pos,
    /// Bit `i` is set when an edge leaves toward octant `i`.
    pub dirs: u8,
}

impl Default for Point {
    /// The origin, with no edges.
    fn default() -> (p: Self)
        ensures
            p == (Point { x: 0, y: 0, dirs: 0 }),
    {
        Point { x: 0, y: 0, dirs: 0 }
    }
}

/// A position on the grid and the octant faced there.
#[derive(Debug, Copy, Clone, Eq, PartialEq, Structural)]
pub struct Cursor {
    pub x: Pos,
    pub y: Pos,
    /// The heading: the octant that the cursor faces, 0 to 7.
    pub dir: u32,
}

impl Default for Cursor {
    /// The origin, facing octant 0.
    fn default() -> (c: Self)
        ensures
            c == (Cursor { x: 0, y: 0, dir: 0 }),
    {
        Cursor { x: 0, y: 0, dir: 0 }
    }
}

impl Cursor {
    /// True when the heading is one of the eight octants.
    pub open spec fn wf(self) -> bool {
        self.dir < 8
    }

    /// The heading after taking the relative direction `move_dir`: the old
    /// heading turned by as many octants as `move_dir` lies from forward.
    pub open spec fn heading_after(self, move_dir: u8) -> int {
        (self.dir + dir_index(move_dir)) % 8
    }

    /// True when one step in the relative direction `move_dir` stays within
    /// the range of coordinates.
    pub open spec fn can_move(self, move_dir: u8) -> bool {
        let h = self.heading_after(move_dir);
        &&& i64::MIN <= self.x + delta_x(h) <= i64::MAX
        &&& i64::MIN <= self.y + delta_y(h) <= i64::MAX
    }

    /// The cursor after one step in the relative direction `move_dir`: it
    /// faces the new heading and has moved one unit step toward it.
    pub open spec fn moved(self, move_dir: u8) -> Cursor {
        let h = self.heading_after(move_dir);
        Cursor { x: (self.x + delta_x(h)) as i64, y: (self.y + delta_y(h)) as i64, dir: h as u32 }
    }

    /// The edges of `p` as seen from this cursor: octant 0 of the result is
    /// the octant that the cursor faces.
    pub fn normalize(&self, p: &Point) -> (rel: u8)
        ensures
            rel == rotate_right(p.dirs, self.dir as int),
    {
        rotate_mask_right(p.dirs, self.dir)
    }

    /// Tests whether one step in the relative direction `move_dir` stays
    /// within the range of coordinates.
    pub fn can_move_in_dir(&self, move_dir: u8) -> (fits: bool)
        ensures
            fits == self.can_move(move_dir),
    {
        let turn: u32 = if is_single_direction(move_dir) {
            proof {
                lemma_single_dir_index(move_dir);
            }
            move_dir.trailing_zeros()
        } else {
            proof {
                assert(move_dir != dir_bit(0) && move_dir != dir_bit(1) && move_dir != dir_bit(2)
                    && move_dir != dir_bit(3) && move_dir != dir_bit(4) && move_dir != dir_bit(5)
                    && move_dir != dir_bit(6) && move_dir != dir_bit(7));
            }
            8
        };
        let heading = (self.dir % 8 + turn) % 8;
        let right = heading == 0 || heading == 1 || heading == 7;
        let left = heading == 3 || heading == 4 || heading == 5;
        let up = heading == 1 || heading == 2 || heading == 3;
        let down = heading == 5 || heading == 6 || heading == 7;
        !(right && self.x == Pos::MAX) && !(left && self.x == Pos::MIN) && !(up && self.y
            == Pos::MAX) && !(down && self.y == Pos::MIN)
    }

    /// Takes one step in the relative direction `move_dir`, a mask with a
    /// single octant set, and turns to face the way it went.
    pub fn move_in_dir(&mut self, move_dir: u8)
        requires
            is_single_dir(move_dir),
            old(self).can_move(move_dir),
        ensures
            *final(self) == old(self).moved(move_dir),
            final(self).wf(),
    {
        let world_dir = rotate_mask_left(move_dir, self.dir);
        proof {
            lemma_single_dir_index(move_dir);
            lemma_rotate_left_single_dir(dir_index(move_dir), self.dir as int);
        }
        let dx: i64 = match world_dir {
            0x01 | 0x02 | 0x80 => 1,
            0x10 | 0x20 | 0x08 => -1,
            _ => 0,
        };
        let dy: i64 = match world_dir {
            0x02 | 0x04 | 0x08 => 1,
            0x20 | 0x40 | 0x80 => -1,
            _ => 0,
        };
        let new_dir = (self.dir % 8 + move_dir.trailing_zeros()) % 8;
        self.x = self.x + dx;
        self.y = self.y + dy;
        self.dir = new_dir;
    }
}

/// Why a junction of edges is not a legal part of a path.
#[derive(Debug, Copy, Clone, Eq, PartialEq, Structural)]
pub enum WalkError {
    /// No point lies at the cursor's position.
    PointNotFound,
    /// Edges leave toward both forward diagonals.
    IllegalForwardDiagonalBranch,
    /// Edges leave toward both backward diagonals.
    IllegalBackwardDiagonalBranch,
}

impl WalkError {
    /// A short description of the error.
    pub fn message(&self) -> (text: &'static str)
        ensures
            text@ == match *self {
                WalkError::PointNotFound => "No point at the cursor position"@,
                WalkError::IllegalForwardDiagonalBranch => "Illegal branch of forward diagonal paths"@,
                WalkError::IllegalBackwardDiagonalBranch => "Illegal branch of backwards diagonal paths"@,
            },
    {
        match self {
            WalkError::PointNotFound => "No point at the cursor position",
            WalkError::IllegalForwardDiagonalBranch => "Illegal branch of forward diagonal paths",
            WalkError::IllegalBackwardDiagonalBranch => "Illegal branch of backwards diagonal paths",
        }
    }
}

/// Why a walk cannot take another step.
#[derive(Debug, Copy, Clone, Eq, PartialEq, Structural)]
pub enum PathStop {
    /// Edges leave to the left and to the right, and neither has priority.
    Branch,
    /// No edge leaves but the one that leads back.
    Halted,
    /// The path is not a legal one here.
    Error(WalkError),
}

/// The backward octant as seen from the cursor.
pub const BACKWARD: u8 = 0x10;

/// The relative mask without its backward edge.
pub open spec fn strip_backward(rel: u8) -> u8 {
    if has_dir(rel, 4) {
        (rel - BACKWARD) as u8
    } else {
        rel
    }
}

/// The direction to take from a point whose edges, seen from the cursor,
/// are `rel`. Forward comes first, then the forward diagonals, the two
/// sides and the backward diagonals; the edge that leads back is never
/// taken. Two edges of equal rank stop the walk.
pub open spec fn pick_move(rel: u8) -> Result<u8, PathStop> {
    if has_dir(rel, 0) {
        Ok(0x01u8)
    } else if has_dir(rel, 1) && has_dir(rel, 7) {
        Err(PathStop::Error(WalkError::IllegalForwardDiagonalBranch))
    } else if has_dir(rel, 1) {
        Ok(0x02u8)
    } else if has_dir(rel, 7) {
        Ok(0x80u8)
    } else if has_dir(rel, 2) && has_dir(rel, 6) {
        Err(PathStop::Branch)
    } else if has_dir(rel, 2) {
        Ok(0x04u8)
    } else if has_dir(rel, 6) {
        Ok(0x40u8)
    } else if has_dir(rel, 3) && has_dir(rel, 5) {
        Err(PathStop::Error(WalkError::IllegalBackwardDiagonalBranch))
    } else if has_dir(rel, 3) {
        Ok(0x08u8)
    } else if has_dir(rel, 5) {
        Ok(0x20u8)
    } else {
        Err(PathStop::Halted)
    }
}

/// The first point of `points` at `(x, y)`, if there is one.
pub open spec fn point_at(points: Seq<Point>, x: Pos, y: Pos) -> Option<Point>
    decreases points.len(),
{
    if points.len() == 0 {
        None
    } else if points[0].x == x && points[0].y == y {
        Some(points[0])
    } else {
        point_at(points.skip(1), x, y)
    }
}

/// The smallest rectangle that contains every point of `points`; the
/// all-zero rectangle when there is none.
pub open spec fn bounds_of(points: Seq<Point>) -> Bounds
    decreases points.len(),
{
    if points.len() == 0 {
        Bounds::zero()
    } else if points.len() == 1 {
        Bounds::inverted().with_point(points[0].x, points[0].y)
    } else {
        bounds_of(points.drop_last()).with_point(points.last().x, points.last().y)
    }
}

/// The rectangle of a point set contains each of its points.
pub proof fn lemma_bounds_contain_points(points: Seq<Point>, i: int)
    requires
        0 <= i < points.len(),
    ensures
        bounds_of(points).contains(points[i].x as int, points[i].y as int),
    decreases points.len(),
{
    if points.len() > 1 && i < points.len() - 1 {
        lemma_bounds_contain_points(points.drop_last(), i);
    }
}

/// Each edge of the rectangle of a point set that is not empty passes
/// through one of its points, so no smaller rectangle contains them all.
pub proof fn lemma_bounds_are_tight(points: Seq<Point>)
    requires
        points.len() > 0,
    ensures
        exists|i: int| 0 <= i < points.len() && #[trigger] points[i].x == bounds_of(points).x1,
        exists|i: int| 0 <= i < points.len() && #[trigger] points[i].y == bounds_of(points).y1,
        exists|i: int| 0 <= i < points.len() && #[trigger] points[i].x == bounds_of(points).x2,
        exists|i: int| 0 <= i < points.len() && #[trigger] points[i].y == bounds_of(points).y2,
    decreases points.len(),
{
    let b = bounds_of(points);
    let n = points.len() - 1;
    if points.len() == 1 {
        assert(points[0].x == b.x1 && points[0].y == b.y1);
        assert(points[0].x == b.x2 && points[0].y == b.y2);
    } else {
        let init = points.drop_last();
        let a = bounds_of(init);
        lemma_bounds_are_tight(init);
        let i1 = choose|i: int| 0 <= i < init.len() && #[trigger] init[i].x == a.x1;
        let i2 = choose|i: int| 0 <= i < init.len() && #[trigger] init[i].y == a.y1;
        let i3 = choose|i: int| 0 <= i < init.len() && #[trigger] init[i].x == a.x2;
        let i4 = choose|i: int| 0 <= i < init.len() && #[trigger] init[i].y == a.y2;
        assert(points[i1].x == b.x1 || points[n].x == b.x1);
        assert(points[i2].y == b.y1 || points[n].y == b.y1);
        assert(points[i3].x == b.x2 || points[n].x == b.x2);
        assert(points[i4].y == b.y2 || points[n].y == b.y2);
    }
}

/// A decoded path and the cursor that walks it.
#[derive(Debug, Eq, PartialEq)]
pub struct Path {
    pub points: Vec<Point>,
    pub cursor: Cursor,
}

impl Clone for Path {
    /// A second walk over the same points, with the cursor where this one
    /// has it.
    fn clone(&self) -> (copy: Self)
        ensures
            copy.points@ == self.points@,
            copy.cursor == self.cursor,
    {
        Path { points: self.points.clone(), cursor: self.cursor }
    }
}

/// The relative direction that `pick_move` chooses is a single octant,
/// one of the edges of the mask, and never the way back.
pub proof fn lemma_pick_move_takes_an_edge(rel: u8)
    ensures
        pick_move(rel) matches Ok(d) ==> {
            &&& is_single_dir(d)
            &&& d != BACKWARD
            &&& has_dir(rel, dir_index(d))
        },
{
    lemma_single_dirs();
}

/// The edge that leads back plays no part in the choice of a direction.
pub proof fn lemma_backward_is_ignored(rel: u8)
    ensures
        pick_move(strip_backward(rel)) == pick_move(rel),
{
    lemma_mask_tests(rel);
    lemma_mask_tests(strip_backward(rel));
}

/// The bit tests of `check_step` on a mask without its backward bit are
/// the tests of the mask's octants.
proof fn lemma_mask_tests(raw: u8)
    by (bit_vector)
    ensures
        ((raw & 0xEF) & 0x01 != 0) == (raw % 2 == 1),
        ((raw & 0xEF) & 0x02 != 0) == ((raw / 2) % 2 == 1),
        ((raw & 0xEF) & 0x04 != 0) == ((raw / 4) % 2 == 1),
        ((raw & 0xEF) & 0x08 != 0) == ((raw / 8) % 2 == 1),
        ((raw & 0xEF) & 0x20 != 0) == ((raw / 32) % 2 == 1),
        ((raw & 0xEF) & 0x40 != 0) == ((raw / 64) % 2 == 1),
        ((raw & 0xEF) & 0x80 != 0) == ((raw / 128) % 2 == 1),
        (raw & 0xEF) == if (raw / 16) % 2 == 1 { (raw - 16) as u8 } else { raw },
{
}

/// Each of the eight single-bit masks is a single direction.
proof fn lemma_single_dirs()
    ensures
        is_single_dir(0x01),
        is_single_dir(0x02),
        is_single_dir(0x04),
        is_single_dir(0x08),
        is_single_dir(0x10),
        is_single_dir(0x20),
        is_single_dir(0x40),
        is_single_dir(0x80),
{
    assert(dir_bit(0) == 0x01 && dir_bit(1) == 0x02 && dir_bit(2) == 0x04 && dir_bit(3) == 0x08);
    assert(dir_bit(4) == 0x10 && dir_bit(5) == 0x20 && dir_bit(6) == 0x40 && dir_bit(7) == 0x80);
}

impl Path {
    /// What `check_step` decides: the relative direction to take, or why
    /// the walk stops.
    pub open spec fn next_move(self) -> Result<u8, PathStop> {
        match point_at(self.points@, self.cursor.x, self.cursor.y) {
            None => Err(PathStop::Error(WalkError::PointNotFound)),
            Some(p) => pick_move(rotate_right(p.dirs, self.cursor.dir as int)),
        }
    }

    /// True when the step that `next_move` decides on, if any, stays within
    /// the range of coordinates.
    pub open spec fn can_step(self) -> bool {
        self.next_move() matches Ok(d) ==> self.cursor.can_move(d)
    }

    /// The path after one call of `step`: the cursor has moved when a
    /// direction was chosen and is where it was otherwise.
    pub open spec fn after_step(self) -> Path {
        match self.next_move() {
            Ok(d) => Path { points: self.points, cursor: self.cursor.moved(d) },
            Err(_) => self,
        }
    }

    /// What `step` reports: success when a direction was chosen, or why
    /// the walk stops.
    pub open spec fn step_outcome(self) -> Result<(), PathStop> {
        match self.next_move() {
            Ok(_) => Ok(()),
            Err(stop) => Err(stop),
        }
    }

    /// The path after `n` calls of `step`.
    pub open spec fn after_steps(self, n: nat) -> Path
        decreases n,
    {
        if n == 0 {
            self
        } else {
            self.after_step().after_steps((n - 1) as nat)
        }
    }

    /// Moves the cursor one step along the path, or reports why the walk
    /// stops and leaves the cursor where it is.
    pub fn step(&mut self) -> (outcome: Result<(), PathStop>)
        requires
            old(self).can_step(),
        ensures
            *final(self) == old(self).after_step(),
            outcome == old(self).step_outcome(),
            outcome is Ok ==> final(self).cursor.wf(),
    {
        match self.check_step() {
            Ok(dir) => {
                self.move_cursor(dir);
                Ok(())
            },
            Err(e) => Err(e),
        }
    }

    /// Takes the step that `step` takes wherever the move stays within the
    /// range of coordinates, and reports `None` and leaves the path as it
    /// is where it does not.
    pub fn try_step(&mut self) -> (outcome: Option<Result<(), PathStop>>)
        ensures
            old(self).can_step() ==> outcome == Some(old(self).step_outcome()) && *final(self)
                == old(self).after_step(),
            !old(self).can_step() ==> outcome.is_none() && *final(self) == *old(self),
    {
        match self.check_step() {
            Ok(dir) => {
                if self.cursor.can_move_in_dir(dir) {
                    self.move_cursor(dir);
                    Some(Ok(()))
                } else {
                    None
                }
            },
            Err(e) => Some(Err(e)),
        }
    }

    /// Decides the next step without taking it: the relative direction to
    /// move in, or why the walk stops here.
    pub fn check_step(&self) -> (decision: Result<u8, PathStop>)
        ensures
            decision == self.next_move(),
            decision matches Ok(d) ==> is_single_dir(d) && d != BACKWARD,
    {
        let cur_point = match self.get_point_at_cursor() {
            Some(p) => p,
            None => {
                return Err(PathStop::Error(WalkError::PointNotFound));
            },
        };
        let raw = self.cursor.normalize(cur_point);
        // The way back is never taken.
        let dirs = raw & 0xEF;
        proof {
            lemma_mask_tests(raw);
            lemma_single_dirs();
        }
        if dirs & 0x01 != 0 {
            Ok(0x01)
        } else if dirs & 0x02 != 0 {
            if dirs & 0x80 != 0 {
                Err(PathStop::Error(WalkError::IllegalForwardDiagonalBranch))
            } else {
                Ok(0x02)
            }
        } else if dirs & 0x80 != 0 {
            Ok(0x80)
        } else if dirs & 0x04 != 0 {
            if dirs & 0x40 != 0 {
                Err(PathStop::Branch)
            } else {
                Ok(0x04)
            }
        } else if dirs & 0x40 != 0 {
            Ok(0x40)
        } else if dirs & 0x08 != 0 {
            if dirs & 0x20 != 0 {
                Err(PathStop::Error(WalkError::IllegalBackwardDiagonalBranch))
            } else {
                Ok(0x08)
            }
        } else if dirs & 0x20 != 0 {
            Ok(0x20)
        } else {
            // Only the way back is left.
            Err(PathStop::Halted)
        }
    }

    /// Moves the cursor one step in the relative direction `move_dir`.
    pub fn move_cursor(&mut self, move_dir: u8)
        requires
            is_single_dir(move_dir),
            old(self).cursor.can_move(move_dir),
        ensures
            final(self).cursor == old(self).cursor.moved(move_dir),
            final(self).points == old(self).points,
            final(self).cursor.wf(),
    {
        self.cursor.move_in_dir(move_dir);
    }

    /// The smallest rectangle that contains every point of the path, or
    /// the all-zero rectangle for a path without points.
    pub fn get_bounds(&self) -> (b: Bounds)
        ensures
            b == bounds_of(self.points@),
            self.points@.len() == 0 ==> b == Bounds::zero(),
            forall|i: int|
                0 <= i < self.points@.len() ==> b.contains(
                    (#[trigger] self.points@[i]).x as int,
                    self.points@[i].y as int,
                ),
            self.points@.len() > 0 ==> b.x1 <= b.x2 && b.y1 <= b.y2,
    {
        if self.points.len() == 0 {
            return Bounds::zeros();
        }
        let mut bound = Bounds::initial();
        let mut i: usize = 0;
        while i < self.points.len()
            invariant
                i <= self.points.len(),
                i == 0 ==> bound == Bounds::inverted(),
                i > 0 ==> bound == bounds_of(self.points@.take(i as int)),
            decreases self.points.len() - i,
        {
            let p = &self.points[i];
            bound.add_point(p.x, p.y);
            assert(self.points@.take(i + 1).drop_last() == self.points@.take(i as int));
            i += 1;
        }
        assert(self.points@.take(i as int) == self.points@);
        assert forall|i: int| 0 <= i < self.points@.len() implies bound.contains(
            (#[trigger] self.points@[i]).x as int,
            self.points@[i].y as int,
        ) by {
            lemma_bounds_contain_points(self.points@, i);
        }
        proof {
            lemma_bounds_contain_points(self.points@, 0);
        }
        bound
    }

    /// The first point that lies at the cursor's position, if there is one.
    pub fn get_point_at_cursor(&self) -> (found: Option<&Point>)
        ensures
            match found {
                Some(p) => point_at(self.points@, self.cursor.x, self.cursor.y) == Some(*p),
                None => point_at(self.points@, self.cursor.x, self.cursor.y).is_none(),
            },
    {
        let mut i: usize = 0;
        assert(self.points@.skip(0) == self.points@);
        while i < self.points.len()
            invariant
                i <= self.points.len(),
                point_at(self.points@, self.cursor.x, self.cursor.y) == point_at(
                    self.points@.skip(i as int),
                    self.cursor.x,
                    self.cursor.y,
                ),
            decreases self.points.len() - i,
        {
            let p = &self.points[i];
            if p.x == self.cursor.x && p.y == self.cursor.y {
                return Some(p);
            }
            assert(self.points@.skip(i as int).skip(1) == self.points@.skip(i + 1));
            i += 1;
        }
        None
    }
}

/// A walk is determined by its points and its cursor: two walks that
/// start with the same points and the same cursor have, after any number
/// of steps, the same cursor and the same report from the next step, and
/// the next step of the one stays within the range of coordinates exactly
/// when that of the other does.
pub proof fn lemma_walk_is_deterministic(a: Path, b: Path, n: nat)
    requires
        a.points@ == b.points@,
        a.cursor == b.cursor,
    ensures
        a.after_steps(n).points@ == b.after_steps(n).points@,
        a.after_steps(n).cursor == b.after_steps(n).cursor,
        a.after_steps(n).next_move() == b.after_steps(n).next_move(),
        a.after_steps(n).step_outcome() == b.after_steps(n).step_outcome(),
        a.after_steps(n).can_step() == b.after_steps(n).can_step(),
    decreases n,
{
    if n > 0 {
        lemma_walk_is_deterministic(a.after_step(), b.after_step(), (n - 1) as nat);
    }
}

/// A walk that has stopped stays where it is: further steps leave the path
/// unchanged and report the same stop.
pub proof fn lemma_stopped_walk_stays_stopped(path: Path, n: nat)
    requires
        path.next_move() is Err,
    ensures
        path.after_steps(n) == path,
        path.after_steps(n).step_outcome() == path.step_outcome(),
    decreases n,
{
    if n > 0 {
        lemma_stopped_walk_stays_stopped(path, (n - 1) as nat);
    }
}

/// A step leaves the points as they are and, when it moves, moves the
/// cursor by one unit along each axis at most and leaves it facing one of
/// the eight octants.
pub proof fn lemma_step_is_a_unit_move(path: Path)
    ensures
        path.after_step().points == path.points,
        path.next_move() is Ok ==> {
            let from = path.cursor;
            let to = path.after_step().cursor;
            &&& to.wf()
            &&& path.cursor.can_move(path.next_move()->Ok_0) ==> {
                &&& -1 <= to.x - from.x <= 1
                &&& -1 <= to.y - from.y <= 1
                &&& (to.x != from.x || to.y != from.y)
            }
        },
{
}

} // verus!
