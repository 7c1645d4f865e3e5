//! Line segments and the pixels that Bresenham's algorithm gives them,
//! handed out one at a time from the start of the segment to its end.

use crate::bresenham::{
    abs, error_term, lemma_minor_steps_bounds, lemma_minor_steps_end, lemma_minor_steps_monotonic,
    lemma_minor_steps_next, lemma_minor_steps_start, lemma_minor_steps_unique, minor_steps,
    signum,
};
use crate::point::Point;
use vstd::prelude::*;

verus! {

/// A pair of values, one for the major axis of a segment and one for its
/// minor axis.
#[derive(Copy, Clone, Debug)]
pub struct MajorMinor<T> {
    pub major: T,
    pub minor: T,
}

impl<T> MajorMinor<T> {
    pub fn new(major: T, minor: T) -> (pair: Self)
        ensures
            pair.major == major,
            pair.minor == minor,
    {
        MajorMinor { major, minor }
    }
}

/// What the stepping loop needs to know of a segment.
#[derive(Copy, Clone, Debug)]
pub struct SlopeParameters {
    /// Whether the segment is longer along y than along x.
    pub is_steep: bool,
    /// The error above which a minor step is due.
    pub error_threshold: i64,
    /// What a step adds to the error (major) or takes from it (minor).
    pub derror_step: MajorMinor<i64>,
    /// The move that a step makes.
    pub position_step: MajorMinor<Point>,
    /// The number of major steps from the start to the end.
    pub length: u32,
}

impl SlopeParameters {
    pub fn new(
        is_steep: bool,
        error_threshold: i64,
        derror_step: MajorMinor<i64>,
        position_step: MajorMinor<Point>,
        length: u32,
    ) -> (parameters: SlopeParameters)
        ensures
            parameters == (SlopeParameters {
                is_steep,
                error_threshold,
                derror_step,
                position_step,
                length,
            }),
    {
        SlopeParameters { is_steep, error_threshold, derror_step, position_step, length }
    }
}

impl From<&Line> for SlopeParameters {
    fn from(line: &Line) -> (parameters: SlopeParameters) {
        let dx: i64 = line.end.x as i64 - line.start.x as i64;
        let dy: i64 = line.end.y as i64 - line.start.y as i64;
        let dx_abs: i64 = if dx < 0 {
            -dx
        } else {
            dx
        };
        let dy_abs: i64 = if dy < 0 {
            -dy
        } else {
            dy
        };
        let sx: i32 = if dx < 0 {
            -1
        } else if dx > 0 {
            1
        } else {
            0
        };
        let sy: i32 = if dy < 0 {
            -1
        } else if dy > 0 {
            1
        } else {
            0
        };
        let (delta, step, is_steep, length) = if dx_abs < dy_abs {
            (
                MajorMinor::new(dy_abs, dx_abs),
                MajorMinor::new(Point::new(0, sy), Point::new(sx, 0)),
                true,
                dy_abs as u32,
            )
        } else {
            (
                MajorMinor::new(dx_abs, dy_abs),
                MajorMinor::new(Point::new(sx, 0), Point::new(0, sy)),
                false,
                dx_abs as u32,
            )
        };
        SlopeParameters::new(
            is_steep,
            delta.major,
            MajorMinor::new(2 * delta.minor, 2 * delta.major),
            step,
            length,
        )
    }
}

impl vstd::std_specs::convert::FromSpecImpl<&Line> for SlopeParameters {
    open spec fn obeys_from_spec() -> bool {
        true
    }

    open spec fn from_spec(line: &Line) -> SlopeParameters {
        line.parameters()
    }
}

/// The state of the stepping loop: where the next pixel lies, before the
/// minor step that may still be due, and the error carried so far.
#[derive(Copy, Clone, Debug)]
pub struct BresenhamWrapper {
    pub x: i64,
    pub y: i64,
    pub error: i64,
}

impl BresenhamWrapper {
    /// The state in which `i` pixels of `line` have been handed out.
    pub open spec fn at(self, line: Line, i: int) -> bool {
        let k = line.steps_before(i);
        &&& self.error == error_term(line.major_len(), line.minor_len(), i, k)
        &&& (self.x as int, self.y as int) == line.position(i, k)
    }

    pub fn new(start_point: Point) -> (state: BresenhamWrapper)
        ensures
            state == (BresenhamWrapper { x: start_point.x as i64, y: start_point.y as i64, error: 0 }),
            forall|line: Line| line.start == start_point ==> #[trigger] state.at(line, 0),
    {
        let state = BresenhamWrapper { x: start_point.x as i64, y: start_point.y as i64, error: 0 };
        assert forall|line: Line| line.start == start_point implies #[trigger] state.at(line, 0) by {
            assert(error_term(line.major_len(), line.minor_len(), 0, 0) == 0) by (nonlinear_arith);
            assert(signum(line.dx()) * 0 == 0 && signum(line.dy()) * 0 == 0) by (nonlinear_arith);
        }
        state
    }

    /// Hands out the next pixel of the segment that `parameters` describe,
    /// and steps on.
    pub(crate) fn next(
        &mut self,
        parameters: &SlopeParameters,
        Ghost(line): Ghost<Line>,
        Ghost(i): Ghost<int>,
    ) -> (pixel: Point)
        requires
            *parameters == line.parameters(),
            0 <= i <= line.major_len(),
            old(self).at(line, i),
        ensures
            (pixel.x as int, pixel.y as int) == line.spec_point(i),
            final(self).at(line, i + 1),
    {
        let ghost major = line.major_len();
        let ghost minor = line.minor_len();
        let ghost before = line.steps_before(i);
        let ghost now = minor_steps(major, minor, i);
        proof {
            line.lemma_lengths();
            lemma_minor_steps_start(major, minor);
            lemma_minor_steps_bounds(major, minor, i);
            if i > 0 {
                lemma_minor_steps_bounds(major, minor, i - 1);
                lemma_minor_steps_unique(major, minor, i - 1, before);
                assert(error_term(major, minor, i, before) == error_term(
                    major,
                    minor,
                    i - 1,
                    before,
                ) + 2 * minor) by (nonlinear_arith);
                assert(error_term(major, minor, i, before + 1) == error_term(
                    major,
                    minor,
                    i,
                    before,
                ) - 2 * major) by (nonlinear_arith);
                if self.error > parameters.error_threshold {
                    lemma_minor_steps_unique(major, minor, i, before + 1);
                } else {
                    lemma_minor_steps_unique(major, minor, i, before);
                }
            } else {
                assert(error_term(major, minor, 0, 0) == 0) by (nonlinear_arith);
            }
            line.lemma_position_bounds(i, before);
            line.lemma_position_bounds(i, now);
            line.lemma_position_bounds(i + 1, now);
            line.lemma_position_step(i, before);
            line.lemma_position_step(i, now);
            assert(error_term(major, minor, i + 1, now) == error_term(major, minor, i, now) + 2
                * minor) by (nonlinear_arith);
        }
        if self.error > parameters.error_threshold {
            self.x = self.x + parameters.position_step.minor.x as i64;
            self.y = self.y + parameters.position_step.minor.y as i64;
            self.error = self.error - parameters.derror_step.minor;
        }
        assert((self.x as int, self.y as int) == line.position(i, now));
        let ret = Point::new(self.x as i32, self.y as i32);
        self.x = self.x + parameters.position_step.major.x as i64;
        self.y = self.y + parameters.position_step.major.y as i64;
        self.error = self.error + parameters.derror_step.major;
        ret
    }
}

/// The pixels of a segment that are still to come, first to last.
#[derive(Copy, Clone)]
pub struct Points {
    parameters: SlopeParameters,
    bresenham: BresenhamWrapper,
    points_remaining: u64,
    line: Ghost<Line>,
}

impl View for Points {
    type V = Seq<(int, int)>;

    /// The pixels that are still to come.
    closed spec fn view(&self) -> Seq<(int, int)> {
        self.line@.spec_points().skip(self.line@.major_len() + 1 - self.points_remaining)
    }
}

impl Points {
    /// The parameters are those of the segment, and the stepping loop
    /// stands where the pixels that are still to come begin.
    #[verifier::type_invariant]
    spec fn inv(self) -> bool {
        &&& self.parameters == self.line@.parameters()
        &&& self.points_remaining <= self.line@.major_len() + 1
        &&& self.bresenham.at(self.line@, self.line@.major_len() + 1 - self.points_remaining)
    }

    /// All the pixels of `line`, its start first.
    pub fn new(line: &Line) -> (points: Points)
        ensures
            points@ == line.spec_points(),
    {
        let parameters = SlopeParameters::from(line);
        let bresenham = BresenhamWrapper::new(line.start);
        let points_remaining = parameters.length as u64 + 1;
        proof {
            line.lemma_lengths();
        }
        let points = Points { parameters, bresenham, points_remaining, line: Ghost(*line) };
        assert(points@ =~= line.spec_points());
        points
    }

    /// Hands out the next pixel, or `None` when the end of the segment is
    /// behind.
    pub fn next(&mut self) -> (pixel: Option<Point>)
        ensures
            old(self)@.len() == 0 ==> pixel is None && final(self)@ == old(self)@,
            old(self)@.len() > 0 ==> pixel is Some && (pixel->0.x as int, pixel->0.y as int) == old(
                self,
            )@[0] && final(self)@ == old(self)@.skip(1),
    {
        proof {
            use_type_invariant(&*self);
            self.line@.lemma_lengths();
        }
        if self.points_remaining > 0 {
            let ghost line = self.line@;
            let ghost i = line.major_len() + 1 - self.points_remaining;
            let mut bresenham = self.bresenham;
            let pixel = bresenham.next(&self.parameters, Ghost(line), Ghost(i));
            let ghost before = self@;
            *self = Points {
                parameters: self.parameters,
                bresenham,
                points_remaining: self.points_remaining - 1,
                line: self.line,
            };
            assert(self@ =~= before.skip(1));
            Some(pixel)
        } else {
            None
        }
    }
}

/// A line segment between two points of the integer grid.
#[derive(Copy, Clone, Debug, PartialEq, Eq, Structural)]
pub struct Line {
    pub start: Point,
    pub end: Point,
}

impl Default for Line {
    fn default() -> (line: Line)
        ensures
            line == (Line { start: Point { x: 0, y: 0 }, end: Point { x: 0, y: 0 } }),
    {
        Line { start: Point { x: 0, y: 0 }, end: Point { x: 0, y: 0 } }
    }
}

impl Line {
    /// Extent along x, signed: from the start to the end.
    pub open spec fn dx(self) -> int {
        self.end.x - self.start.x
    }

    /// Extent along y, signed: from the start to the end.
    pub open spec fn dy(self) -> int {
        self.end.y - self.start.y
    }

    /// Whether the segment is longer along y than along x, so that y is its
    /// major axis.
    pub open spec fn is_steep(self) -> bool {
        abs(self.dx()) < abs(self.dy())
    }

    /// Number of steps along the major axis.
    pub open spec fn major_len(self) -> int {
        if self.is_steep() {
            abs(self.dy())
        } else {
            abs(self.dx())
        }
    }

    /// Number of steps along the minor axis.
    pub open spec fn minor_len(self) -> int {
        if self.is_steep() {
            abs(self.dx())
        } else {
            abs(self.dy())
        }
    }

    /// The position `i` major steps and `k` minor steps away from the start,
    /// towards the end.
    pub open spec fn position(self, i: int, k: int) -> (int, int) {
        if self.is_steep() {
            (self.start.x + signum(self.dx()) * k, self.start.y + signum(self.dy()) * i)
        } else {
            (self.start.x + signum(self.dx()) * i, self.start.y + signum(self.dy()) * k)
        }
    }

    /// The `i`-th pixel of the segment, counted from 0 at the start.
    pub open spec fn spec_point(self, i: int) -> (int, int) {
        self.position(i, minor_steps(self.major_len(), self.minor_len(), i))
    }

    /// The pixels of the segment from its start to its end: one for each
    /// position along the major axis.
    pub open spec fn spec_points(self) -> Seq<(int, int)> {
        Seq::new((self.major_len() + 1) as nat, |i: int| self.spec_point(i))
    }

    /// Whether the segment has a pixel at `p`.
    pub open spec fn covers(self, p: (int, int)) -> bool {
        exists|i: int| 0 <= i <= self.major_len() && p == #[trigger] self.spec_point(i)
    }

    /// The set of the segment's pixels.
    pub open spec fn pixels(self) -> Set<(int, int)> {
        Set::new(|p: (int, int)| self.covers(p))
    }

    /// The same segment, from its end to its start.
    pub open spec fn reversed(self) -> Line {
        Line { start: self.end, end: self.start }
    }

    /// The segment turned so that its major coordinate grows from the start
    /// to the end.
    pub open spec fn ascending(self) -> Line {
        if (self.is_steep() && self.start.y > self.end.y) || (!self.is_steep() && self.start.x
            > self.end.x) {
            self.reversed()
        } else {
            self
        }
    }

    /// Minor steps that lie behind when the `i`-th pixel is next.
    pub open spec fn steps_before(self, i: int) -> int {
        if i <= 0 {
            0
        } else {
            minor_steps(self.major_len(), self.minor_len(), i - 1)
        }
    }

    /// What the stepping loop is told of the segment.
    pub open spec fn parameters(self) -> SlopeParameters {
        SlopeParameters {
            is_steep: self.is_steep(),
            error_threshold: self.major_len() as i64,
            derror_step: MajorMinor {
                major: (2 * self.minor_len()) as i64,
                minor: (2 * self.major_len()) as i64,
            },
            position_step: if self.is_steep() {
                MajorMinor {
                    major: Point { x: 0, y: signum(self.dy()) as i32 },
                    minor: Point { x: signum(self.dx()) as i32, y: 0 },
                }
            } else {
                MajorMinor {
                    major: Point { x: signum(self.dx()) as i32, y: 0 },
                    minor: Point { x: 0, y: signum(self.dy()) as i32 },
                }
            },
            length: self.major_len() as u32,
        }
    }

    /// The lengths of a segment between two points fit in 32 bits.
    pub proof fn lemma_lengths(self)
        ensures
            0 <= self.minor_len() <= self.major_len() <= u32::MAX,
    {
    }

    /// A position within the segment's extent lies between its end points,
    /// on each axis.
    pub proof fn lemma_position_bounds(self, i: int, k: int)
        requires
            0 <= i <= self.major_len() + 1,
            0 <= k <= self.minor_len(),
        ensures
            i32::MIN - 1 <= self.position(i, k).0 <= i32::MAX + 1,
            i32::MIN - 1 <= self.position(i, k).1 <= i32::MAX + 1,
            i <= self.major_len() ==> Point::representable(
                self.position(i, k).0,
                self.position(i, k).1,
            ),
    {
        let sx = signum(self.dx());
        let sy = signum(self.dy());
        assert(sx * i == if sx == 0 {
            0
        } else if sx == 1 {
            i
        } else {
            -i
        }) by (nonlinear_arith)
            requires
                sx == 0 || sx == 1 || sx == -1,
        ;
        assert(sx * k == if sx == 0 {
            0
        } else if sx == 1 {
            k
        } else {
            -k
        }) by (nonlinear_arith)
            requires
                sx == 0 || sx == 1 || sx == -1,
        ;
        assert(sy * i == if sy == 0 {
            0
        } else if sy == 1 {
            i
        } else {
            -i
        }) by (nonlinear_arith)
            requires
                sy == 0 || sy == 1 || sy == -1,
        ;
        assert(sy * k == if sy == 0 {
            0
        } else if sy == 1 {
            k
        } else {
            -k
        }) by (nonlinear_arith)
            requires
                sy == 0 || sy == 1 || sy == -1,
        ;
    }

    /// A major step moves the position one unit along the major axis, a
    /// minor step one unit along the minor axis.
    pub proof fn lemma_position_step(self, i: int, k: int)
        ensures
            self.position(i + 1, k) == if self.is_steep() {
                (self.position(i, k).0, self.position(i, k).1 + signum(self.dy()))
            } else {
                (self.position(i, k).0 + signum(self.dx()), self.position(i, k).1)
            },
            self.position(i, k + 1) == if self.is_steep() {
                (self.position(i, k).0 + signum(self.dx()), self.position(i, k).1)
            } else {
                (self.position(i, k).0, self.position(i, k).1 + signum(self.dy()))
            },
    {
        let sx = signum(self.dx());
        let sy = signum(self.dy());
        assert(sx * (i + 1) == sx * i + sx) by (nonlinear_arith);
        assert(sx * (k + 1) == sx * k + sx) by (nonlinear_arith);
        assert(sy * (i + 1) == sy * i + sy) by (nonlinear_arith);
        assert(sy * (k + 1) == sy * k + sy) by (nonlinear_arith);
    }

    /// The first pixel of a segment is its start and the last is its end.
    pub proof fn lemma_end_points(self)
        ensures
            self.spec_point(0) == (self.start.x as int, self.start.y as int),
            self.spec_point(self.major_len()) == (self.end.x as int, self.end.y as int),
            self.covers((self.start.x as int, self.start.y as int)),
            self.covers((self.end.x as int, self.end.y as int)),
    {
        let major = self.major_len();
        let minor = self.minor_len();
        lemma_minor_steps_start(major, minor);
        lemma_minor_steps_end(major, minor);
        let sx = signum(self.dx());
        let sy = signum(self.dy());
        assert(sx * 0 == 0 && sy * 0 == 0) by (nonlinear_arith);
        assert(sx * abs(self.dx()) == self.dx()) by (nonlinear_arith)
            requires
                sx == signum(self.dx()),
        ;
        assert(sy * abs(self.dy()) == self.dy()) by (nonlinear_arith)
            requires
                sy == signum(self.dy()),
        ;
    }

    /// Each pixel of a segment touches the next: they differ by one step
    /// along the major axis and by at most one along the minor axis, so
    /// that the segment has no gap.
    pub proof fn lemma_neighbours(self, i: int)
        requires
            0 <= i < self.major_len(),
        ensures
            abs(self.spec_point(i + 1).0 - self.spec_point(i).0) <= 1,
            abs(self.spec_point(i + 1).1 - self.spec_point(i).1) <= 1,
            self.is_steep() ==> abs(self.spec_point(i + 1).1 - self.spec_point(i).1) == 1,
            !self.is_steep() ==> abs(self.spec_point(i + 1).0 - self.spec_point(i).0) == 1,
    {
        let major = self.major_len();
        let minor = self.minor_len();
        let k = minor_steps(major, minor, i);
        lemma_minor_steps_next(major, minor, i);
        self.lemma_position_step(i, k);
        self.lemma_position_step(i + 1, k);
    }

    /// A segment from a point to itself is that one pixel.
    pub proof fn lemma_single_point(self)
        requires
            self.start == self.end,
        ensures
            self.spec_points() == seq![(self.start.x as int, self.start.y as int)],
    {
        self.lemma_end_points();
        assert(self.spec_points() =~= seq![(self.start.x as int, self.start.y as int)]);
    }

    /// Along a segment the rows never turn back: the pixels go up, or stay
    /// level, or go down, as the segment does.
    pub proof fn lemma_rows_monotonic(self, i: int, j: int)
        requires
            0 <= i <= j <= self.major_len(),
        ensures
            self.dy() >= 0 ==> self.spec_point(i).1 <= self.spec_point(j).1,
            self.dy() <= 0 ==> self.spec_point(i).1 >= self.spec_point(j).1,
    {
        let major = self.major_len();
        let minor = self.minor_len();
        let sy = signum(self.dy());
        lemma_minor_steps_monotonic(major, minor, i, j);
        let ki = minor_steps(major, minor, i);
        let kj = minor_steps(major, minor, j);
        assert(sy * i == if sy == 0 {
            0
        } else if sy == 1 {
            i
        } else {
            -i
        }) by (nonlinear_arith)
            requires
                sy == 0 || sy == 1 || sy == -1,
        ;
        assert(sy * j == if sy == 0 {
            0
        } else if sy == 1 {
            j
        } else {
            -j
        }) by (nonlinear_arith)
            requires
                sy == 0 || sy == 1 || sy == -1,
        ;
        assert(sy * ki == if sy == 0 {
            0
        } else if sy == 1 {
            ki
        } else {
            -ki
        }) by (nonlinear_arith)
            requires
                sy == 0 || sy == 1 || sy == -1,
        ;
        assert(sy * kj == if sy == 0 {
            0
        } else if sy == 1 {
            kj
        } else {
            -kj
        }) by (nonlinear_arith)
            requires
                sy == 0 || sy == 1 || sy == -1,
        ;
    }

    /// The pixels of a segment that lie in one row follow one another: a
    /// pixel between two of them lies in that row too.
    pub proof fn lemma_row_is_a_run(self, i: int, k: int, j: int)
        requires
            0 <= i <= k <= j <= self.major_len(),
            self.spec_point(i).1 == self.spec_point(j).1,
        ensures
            self.spec_point(k).1 == self.spec_point(i).1,
    {
        self.lemma_rows_monotonic(i, k);
        self.lemma_rows_monotonic(k, j);
    }

    pub fn new(start: Point, end: Point) -> (line: Line)
        ensures
            line == (Line { start, end }),
    {
        Line { start, end }
    }

    /// The pixels of the segment, from its start to its end.
    pub fn points(&self) -> (points: Points)
        ensures
            points@ == self.spec_points(),
    {
        Points::new(self)
    }
}

} // verus!
