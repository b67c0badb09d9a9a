//! Points, drawing instructions, and what one command does to the cursor.

use vstd::prelude::*;
use crate::command::Command;
use crate::decimal::{Decimal, sum_spec};

verus! {

/// A position; in the source convention `y` grows downwards.
#[derive(Clone, Copy, Debug, PartialEq, Eq, Structural)]
pub struct Point {
    pub x: Decimal,
    pub y: Decimal,
}

/// One drawing operation. Every coordinate is absolute and already in the
/// target convention, where `y` grows upwards.
#[derive(Clone, Copy, Debug, PartialEq, Eq, Structural)]
pub enum Instruction {
    MoveTo(Point),
    LineTo(Point),
    /// A horizontal line to the given `x`.
    HorizontalTo(Decimal),
    /// A vertical line to the given `y`.
    VerticalTo(Decimal),
    QuadraticTo { control: Point, end: Point },
    CubicTo { control1: Point, control2: Point, end: Point },
    /// Closes the current contour.
    Close,
}

impl Point {
    pub open spec fn wf(self) -> bool {
        self.x.wf() && self.y.wf()
    }

    /// The point `(0, 0)`.
    pub fn origin() -> (r: Point)
        ensures
            r.wf(),
            r == origin_spec(),
    {
        Point { x: Decimal::integer(0), y: Decimal::integer(0) }
    }

    /// The same point with `y` negated: from one vertical convention to the other.
    pub fn flipped(self) -> (r: Point)
        requires
            self.wf(),
        ensures
            r.wf(),
            r == flip(self),
    {
        Point { x: self.x, y: self.y.negate() }
    }
}

impl Default for Point {
    /// The origin.
    fn default() -> (r: Point)
        ensures
            r == origin_spec(),
    {
        Point::origin()
    }
}

pub open spec fn origin_spec() -> Point {
    Point { x: Decimal { mantissa: 0, scale: 0 }, y: Decimal { mantissa: 0, scale: 0 } }
}

pub open spec fn negated(d: Decimal) -> Decimal {
    Decimal { mantissa: (-d.mantissa) as i64, scale: d.scale }
}

pub open spec fn flip(p: Point) -> Point {
    Point { x: p.x, y: negated(p.y) }
}

/// Every number holds the representation invariant.
pub open spec fn all_wf(s: Seq<Decimal>) -> bool {
    forall|i: int| 0 <= i < s.len() ==> (#[trigger] s[i]).wf()
}

/// The point `(x, y)`, taken as an offset from `c` where `relative` holds;
/// `None` where a sum does not fit.
pub open spec fn target_spec(relative: bool, c: Point, x: Decimal, y: Decimal) -> Option<Point> {
    if relative {
        match (sum_spec(c.x, x), sum_spec(c.y, y)) {
            (Some(sx), Some(sy)) => Some(Point { x: sx, y: sy }),
            _ => None,
        }
    } else {
        Some(Point { x, y })
    }
}

/// The cursor after a horizontal line to `x` (an offset where `relative` holds).
pub open spec fn horizontal_spec(relative: bool, c: Point, x: Decimal) -> Option<Point> {
    if relative {
        match sum_spec(c.x, x) {
            Some(sx) => Some(Point { x: sx, y: c.y }),
            None => None,
        }
    } else {
        Some(Point { x, y: c.y })
    }
}

/// The cursor after a vertical line to `y` (an offset where `relative` holds).
pub open spec fn vertical_spec(relative: bool, c: Point, y: Decimal) -> Option<Point> {
    if relative {
        match sum_spec(c.y, y) {
            Some(sy) => Some(Point { x: c.x, y: sy }),
            None => None,
        }
    } else {
        Some(Point { x: c.x, y })
    }
}

/// One invocation of `cmd` on the numbers `a` (as many as its arity) from
/// the cursor `c`: the new cursor and the instruction emitted, if any.
/// `None` where a coordinate does not fit.
pub open spec fn tuple_spec(cmd: Command, c: Point, a: Seq<Decimal>) -> Option<(Point, Option<Instruction>)> {
    let rel = cmd.is_relative_spec();
    match cmd {
        Command::MoveAbsolute | Command::MoveRelative => match target_spec(rel, c, a[0], a[1]) {
            Some(p) => Some((p, Some(Instruction::MoveTo(flip(p))))),
            None => None,
        },
        Command::LineAbsolute | Command::LineRelative => match target_spec(rel, c, a[0], a[1]) {
            Some(p) => Some((p, Some(Instruction::LineTo(flip(p))))),
            None => None,
        },
        Command::HorizontalLineAbsolute | Command::HorizontalLineRelative => match horizontal_spec(
            rel,
            c,
            a[0],
        ) {
            Some(p) => Some((p, Some(Instruction::HorizontalTo(p.x)))),
            None => None,
        },
        Command::VerticalLineAbsolute | Command::VerticalLineRelative => match vertical_spec(
            rel,
            c,
            a[0],
        ) {
            Some(p) => Some((p, Some(Instruction::VerticalTo(negated(p.y))))),
            None => None,
        },
        Command::QuadraticBezierAbsolute | Command::QuadraticBezierRelative => match (
            target_spec(rel, c, a[0], a[1]),
            target_spec(rel, c, a[2], a[3]),
        ) {
            (Some(k), Some(p)) => Some(
                (p, Some(Instruction::QuadraticTo { control: flip(k), end: flip(p) })),
            ),
            _ => None,
        },
        Command::CubicBezierAbsolute | Command::CubicBezierRelative => match (
            target_spec(rel, c, a[0], a[1]),
            target_spec(rel, c, a[2], a[3]),
            target_spec(rel, c, a[4], a[5]),
        ) {
            (Some(k1), Some(k2), Some(p)) => Some(
                (
                    p,
                    Some(
                        Instruction::CubicTo {
                            control1: flip(k1),
                            control2: flip(k2),
                            end: flip(p),
                        },
                    ),
                ),
            ),
            _ => None,
        },
        Command::QuadraticBezierSmoothAbsolute | Command::QuadraticBezierSmoothRelative => match target_spec(
            rel,
            c,
            a[0],
            a[1],
        ) {
            Some(p) => Some((p, None)),
            None => None,
        },
        Command::CubicBezierSmoothAbsolute | Command::CubicBezierSmoothRelative => match target_spec(
            rel,
            c,
            a[2],
            a[3],
        ) {
            Some(p) => Some((p, None)),
            None => None,
        },
        Command::EllipticalArcAbsolute | Command::EllipticalArcRelative => match target_spec(
            rel,
            c,
            a[5],
            a[6],
        ) {
            Some(p) => Some((p, None)),
            None => None,
        },
        Command::NotSet | Command::StopAbsolute | Command::StopRelative => Some((c, None)),
    }
}

pub open spec fn optional_seq(e: Option<Instruction>) -> Seq<Instruction> {
    match e {
        Some(i) => seq![i],
        None => Seq::empty(),
    }
}

/// `r` with `emitted` put before its instructions.
pub open spec fn prepend(
    emitted: Seq<Instruction>,
    r: Option<(Point, Seq<Instruction>)>,
) -> Option<(Point, Seq<Instruction>)> {
    match r {
        Some((p, rest)) => Some((p, emitted + rest)),
        None => None,
    }
}

/// The invocations of `cmd` on `args`, one per whole tuple in order, from the
/// cursor `c`: the final cursor and the instructions emitted. A trailing
/// tuple that is too short is dropped.
pub open spec fn tuples_spec(cmd: Command, c: Point, args: Seq<Decimal>) -> Option<
    (Point, Seq<Instruction>),
>
    decreases args.len(),
{
    let n = cmd.arity_spec();
    if n == 0 || args.len() < n {
        Some((c, Seq::empty()))
    } else {
        match tuple_spec(cmd, c, args.take(n as int)) {
            Some((p, e)) => prepend(optional_seq(e), tuples_spec(cmd, p, args.skip(n as int))),
            None => None,
        }
    }
}

/// What dispatching `cmd` with the collected `args` does: a stop emits one
/// `Close`, every other command runs its tuples.
pub open spec fn dispatch_spec(cmd: Command, c: Point, args: Seq<Decimal>) -> Option<
    (Point, Seq<Instruction>),
> {
    if cmd.is_stop() {
        Some((c, seq![Instruction::Close]))
    } else {
        tuples_spec(cmd, c, args)
    }
}

fn target(relative: bool, c: Point, x: Decimal, y: Decimal) -> (r: Option<Point>)
    requires
        c.wf(),
        x.wf(),
        y.wf(),
    ensures
        r == target_spec(relative, c, x, y),
        r matches Some(p) ==> p.wf(),
{
    if relative {
        match (c.x.checked_add(x), c.y.checked_add(y)) {
            (Some(sx), Some(sy)) => Some(Point { x: sx, y: sy }),
            _ => None,
        }
    } else {
        Some(Point { x, y })
    }
}

fn horizontal(relative: bool, c: Point, x: Decimal) -> (r: Option<Point>)
    requires
        c.wf(),
        x.wf(),
    ensures
        r == horizontal_spec(relative, c, x),
        r matches Some(p) ==> p.wf(),
{
    if relative {
        match c.x.checked_add(x) {
            Some(sx) => Some(Point { x: sx, y: c.y }),
            None => None,
        }
    } else {
        Some(Point { x, y: c.y })
    }
}

fn vertical(relative: bool, c: Point, y: Decimal) -> (r: Option<Point>)
    requires
        c.wf(),
        y.wf(),
    ensures
        r == vertical_spec(relative, c, y),
        r matches Some(p) ==> p.wf(),
{
    if relative {
        match c.y.checked_add(y) {
            Some(sy) => Some(Point { x: c.x, y: sy }),
            None => None,
        }
    } else {
        Some(Point { x: c.x, y })
    }
}

/// One invocation of `cmd` on `args[at..at + arity]` from the cursor `c`.
pub fn apply_tuple(cmd: Command, c: Point, args: &Vec<Decimal>, at: usize) -> (r: Option<
    (Point, Option<Instruction>),
>)
    requires
        c.wf(),
        all_wf(args@),
        at + cmd.arity_spec() <= args@.len(),
    ensures
        r == tuple_spec(cmd, c, args@.subrange(at as int, at + cmd.arity_spec())),
        r matches Some((p, _)) ==> p.wf(),
{
    let ghost a = args@.subrange(at as int, at + cmd.arity_spec());
    let rel = cmd.is_relative();
    let n = cmd.arity();
    let len = args.len();
    assert(at + n <= len);
    assert forall|i: int| 0 <= i < n implies (#[trigger] a[i]).wf() && a[i] == args@[at + i] by {
        assert(args@[at + i].wf());
    }
    match cmd {
        Command::MoveAbsolute | Command::MoveRelative => {
            match target(rel, c, args[at], args[at + 1]) {
                Some(p) => Some((p, Some(Instruction::MoveTo(p.flipped())))),
                None => None,
            }
        },
        Command::LineAbsolute | Command::LineRelative => {
            match target(rel, c, args[at], args[at + 1]) {
                Some(p) => Some((p, Some(Instruction::LineTo(p.flipped())))),
                None => None,
            }
        },
        Command::HorizontalLineAbsolute | Command::HorizontalLineRelative => match horizontal(
            rel,
            c,
            args[at],
        ) {
            Some(p) => Some((p, Some(Instruction::HorizontalTo(p.x)))),
            None => None,
        },
        Command::VerticalLineAbsolute | Command::VerticalLineRelative => match vertical(
            rel,
            c,
            args[at],
        ) {
            Some(p) => Some((p, Some(Instruction::VerticalTo(p.y.negate())))),
            None => None,
        },
        Command::QuadraticBezierAbsolute | Command::QuadraticBezierRelative => match (
            target(rel, c, args[at], args[at + 1]),
            target(rel, c, args[at + 2], args[at + 3]),
        ) {
            (Some(k), Some(p)) => Some(
                (p, Some(Instruction::QuadraticTo { control: k.flipped(), end: p.flipped() })),
            ),
            _ => None,
        },
        Command::CubicBezierAbsolute | Command::CubicBezierRelative => match (
            target(rel, c, args[at], args[at + 1]),
            target(rel, c, args[at + 2], args[at + 3]),
            target(rel, c, args[at + 4], args[at + 5]),
        ) {
            (Some(k1), Some(k2), Some(p)) => Some(
                (
                    p,
                    Some(
                        Instruction::CubicTo {
                            control1: k1.flipped(),
                            control2: k2.flipped(),
                            end: p.flipped(),
                        },
                    ),
                ),
            ),
            _ => None,
        },
        Command::QuadraticBezierSmoothAbsolute | Command::QuadraticBezierSmoothRelative => match target(
            rel,
            c,
            args[at],
            args[at + 1],
        ) {
            Some(p) => Some((p, None)),
            None => None,
        },
        Command::CubicBezierSmoothAbsolute | Command::CubicBezierSmoothRelative => match target(
            rel,
            c,
            args[at + 2],
            args[at + 3],
        ) {
            Some(p) => Some((p, None)),
            None => None,
        },
        Command::EllipticalArcAbsolute | Command::EllipticalArcRelative => match target(
            rel,
            c,
            args[at + 5],
            args[at + 6],
        ) {
            Some(p) => Some((p, None)),
            None => None,
        },
        Command::NotSet | Command::StopAbsolute | Command::StopRelative => Some((c, None)),
    }
}

/// Runs `cmd` on the numbers collected for it, from the cursor `c`, and
/// appends what it emits to `out`. `None` where a coordinate does not fit;
/// `out` then holds no promise.
pub fn dispatch(cmd: Command, c: Point, args: &Vec<Decimal>, out: &mut Vec<Instruction>) -> (r:
    Option<Point>)
    requires
        c.wf(),
        all_wf(args@),
    ensures
        match dispatch_spec(cmd, c, args@) {
            Some((p, emitted)) => r == Some(p) && final(out)@ == old(out)@ + emitted,
            None => r is None,
        },
        r matches Some(p) ==> p.wf(),
{
    if matches!(cmd, Command::StopAbsolute | Command::StopRelative) {
        out.push(Instruction::Close);
        return Some(c);
    }
    let n = cmd.arity();
    if n == 0 {
        return Some(c);
    }
    let ghost start = out@;
    let len = args.len();
    let mut cursor = c;
    let mut i: usize = 0;
    assert(args@.subrange(0, len as int) =~= args@);
    while len - i >= n
        invariant
            n == cmd.arity_spec() > 0,
            !cmd.is_stop(),
            len == args@.len(),
            i <= len,
            cursor.wf(),
            all_wf(args@),
            out@.len() >= start.len(),
            out@.subrange(0, start.len() as int) == start,
            tuples_spec(cmd, c, args@) == prepend(
                out@.subrange(start.len() as int, out@.len() as int),
                tuples_spec(cmd, cursor, args@.subrange(i as int, len as int)),
            ),
        decreases len - i,
    {
        let ghost rest = args@.subrange(i as int, len as int);
        let ghost emitted = out@.subrange(start.len() as int, out@.len() as int);
        assert(rest.take(n as int) =~= args@.subrange(i as int, i + n));
        assert(rest.skip(n as int) =~= args@.subrange(i + n, len as int));
        match apply_tuple(cmd, cursor, args, i) {
            Some((p, e)) => {
                match e {
                    Some(ins) => {
                        out.push(ins);
                    },
                    None => {},
                }
                proof {
                    let emitted2 = out@.subrange(start.len() as int, out@.len() as int);
                    assert(emitted2 =~= emitted + optional_seq(e));
                    let tail = tuples_spec(cmd, p, args@.subrange(i + n, len as int));
                    match tail {
                        Some((q, t)) => {
                            assert(emitted + (optional_seq(e) + t) =~= emitted2 + t);
                        },
                        None => {},
                    }
                    assert(out@.subrange(0, start.len() as int) =~= start);
                }
                cursor = p;
            },
            None => {
                return None;
            },
        }
        i = i + n;
    }
    proof {
        let emitted = out@.subrange(start.len() as int, out@.len() as int);
        assert(out@ =~= start + emitted);
    }
    Some(cursor)
}

} // verus!
