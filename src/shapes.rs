//! Circles and ellipses, read from their attributes.

use vstd::prelude::*;
use vstd::string::StrSliceExecFns;
use crate::decimal::{Decimal, NumberError, parse_number, parse_spec};
use crate::geometry::{Point, origin_spec};

verus! {

/// The attribute names that the conversion reads.
#[derive(Clone, Copy, Debug, PartialEq, Eq, Structural)]
pub enum AttributeKey {
    /// `cx`
    CenterX,
    /// `cy`
    CenterY,
    /// `r`
    Radius,
    /// `rx`
    RadiusX,
    /// `ry`
    RadiusY,
    /// `d`, a path's outline
    PathData,
    /// Any other name.
    Other,
}

/// What the attribute called `name` is.
pub open spec fn attribute_key(name: Seq<char>) -> AttributeKey {
    if name == seq!['c', 'x'] {
        AttributeKey::CenterX
    } else if name == seq!['c', 'y'] {
        AttributeKey::CenterY
    } else if name == seq!['r'] {
        AttributeKey::Radius
    } else if name == seq!['r', 'x'] {
        AttributeKey::RadiusX
    } else if name == seq!['r', 'y'] {
        AttributeKey::RadiusY
    } else if name == seq!['d'] {
        AttributeKey::PathData
    } else {
        AttributeKey::Other
    }
}

/// Names the attribute `name`.
pub fn classify_attribute(name: &str) -> (r: AttributeKey)
    ensures
        r == attribute_key(name@),
{
    let n = name.unicode_len();
    if n == 1 {
        let c = name.get_char(0);
        assert(name@ =~= seq![c]);
        if c == 'r' {
            AttributeKey::Radius
        } else if c == 'd' {
            AttributeKey::PathData
        } else {
            AttributeKey::Other
        }
    } else if n == 2 {
        let c0 = name.get_char(0);
        let c1 = name.get_char(1);
        assert(name@ =~= seq![c0, c1]);
        if c0 == 'c' && c1 == 'x' {
            AttributeKey::CenterX
        } else if c0 == 'c' && c1 == 'y' {
            AttributeKey::CenterY
        } else if c0 == 'r' && c1 == 'x' {
            AttributeKey::RadiusX
        } else if c0 == 'r' && c1 == 'y' {
            AttributeKey::RadiusY
        } else {
            AttributeKey::Other
        }
    } else {
        AttributeKey::Other
    }
}

/// A recognised attribute whose value is not a number.
#[derive(Clone, Copy, Debug, PartialEq, Eq, Structural)]
pub struct AttributeError {
    pub key: AttributeKey,
    pub kind: NumberError,
}

/// A circle: its centre (source convention) and radius.
#[derive(Clone, Copy, Debug, PartialEq, Eq, Structural)]
pub struct Circle {
    pub center: Point,
    pub radius: Decimal,
}

/// An ellipse: its centre (source convention) and two radii.
#[derive(Clone, Copy, Debug, PartialEq, Eq, Structural)]
pub struct Ellipse {
    pub center: Point,
    pub radius_x: Decimal,
    pub radius_y: Decimal,
}

pub open spec fn zero() -> Decimal {
    Decimal { mantissa: 0, scale: 0 }
}

/// The circle with every field zero.
pub open spec fn default_circle() -> Circle {
    Circle { center: origin_spec(), radius: zero() }
}

/// The ellipse with every field zero.
pub open spec fn default_ellipse() -> Ellipse {
    Ellipse { center: origin_spec(), radius_x: zero(), radius_y: zero() }
}

/// `c` with the attribute `(name, value)` applied.
pub open spec fn circle_attribute(c: Circle, name: Seq<char>, value: Seq<char>) -> Result<
    Circle,
    AttributeError,
> {
    let key = attribute_key(name);
    if key is CenterX || key is CenterY || key is Radius {
        match parse_spec(value) {
            Ok(d) => Ok(
                if key is CenterX {
                    Circle { center: Point { x: d, y: c.center.y }, ..c }
                } else if key is CenterY {
                    Circle { center: Point { x: c.center.x, y: d }, ..c }
                } else {
                    Circle { radius: d, ..c }
                },
            ),
            Err(kind) => Err(AttributeError { key, kind }),
        }
    } else {
        Ok(c)
    }
}

/// `e` with the attribute `(name, value)` applied.
pub open spec fn ellipse_attribute(e: Ellipse, name: Seq<char>, value: Seq<char>) -> Result<
    Ellipse,
    AttributeError,
> {
    let key = attribute_key(name);
    if key is CenterX || key is CenterY || key is RadiusX || key is RadiusY {
        match parse_spec(value) {
            Ok(d) => Ok(
                if key is CenterX {
                    Ellipse { center: Point { x: d, y: e.center.y }, ..e }
                } else if key is CenterY {
                    Ellipse { center: Point { x: e.center.x, y: d }, ..e }
                } else if key is RadiusX {
                    Ellipse { radius_x: d, ..e }
                } else {
                    Ellipse { radius_y: d, ..e }
                },
            ),
            Err(kind) => Err(AttributeError { key, kind }),
        }
    } else {
        Ok(e)
    }
}

/// The circle that the attributes describe, in order; a later attribute
/// overrides an earlier one of the same name.
pub open spec fn circle_spec(attrs: Seq<(String, String)>) -> Result<Circle, AttributeError>
    decreases attrs.len(),
{
    if attrs.len() == 0 {
        Ok(default_circle())
    } else {
        match circle_spec(attrs.drop_last()) {
            Ok(c) => circle_attribute(c, attrs.last().0@, attrs.last().1@),
            Err(e) => Err(e),
        }
    }
}

/// The ellipse that the attributes describe, in order.
pub open spec fn ellipse_spec(attrs: Seq<(String, String)>) -> Result<Ellipse, AttributeError>
    decreases attrs.len(),
{
    if attrs.len() == 0 {
        Ok(default_ellipse())
    } else {
        match ellipse_spec(attrs.drop_last()) {
            Ok(e) => ellipse_attribute(e, attrs.last().0@, attrs.last().1@),
            Err(err) => Err(err),
        }
    }
}

impl Default for Circle {
    /// The circle with every field zero.
    fn default() -> (r: Circle)
        ensures
            r == default_circle(),
    {
        Circle { center: Point::origin(), radius: Decimal::integer(0) }
    }
}

impl Default for Ellipse {
    /// The ellipse with every field zero.
    fn default() -> (r: Ellipse)
        ensures
            r == default_ellipse(),
    {
        Ellipse { center: Point::origin(), radius_x: Decimal::integer(0), radius_y: Decimal::integer(0) }
    }
}

impl Circle {
    /// Reads a circle from its attributes (`cx`, `cy`, `r`; others are ignored).
    pub fn from_attributes(attrs: &Vec<(String, String)>) -> (r: Result<Circle, AttributeError>)
        ensures
            r == circle_spec(attrs@),
    {
        let mut c = Circle::default();
        let mut i: usize = 0;
        assert(attrs@.take(0).len() == 0);
        while i < attrs.len()
            invariant
                i <= attrs@.len(),
                circle_spec(attrs@.take(i as int)) == Ok::<Circle, AttributeError>(c),
            decreases attrs@.len() - i,
        {
            assert(attrs@.take(i + 1).drop_last() =~= attrs@.take(i as int));
            let key = classify_attribute(attrs[i].0.as_str());
            match key {
                AttributeKey::CenterX | AttributeKey::CenterY | AttributeKey::Radius => {
                    match parse_number(attrs[i].1.as_str()) {
                        Ok(d) => {
                            match key {
                                AttributeKey::CenterX => {
                                    c.center.x = d;
                                },
                                AttributeKey::CenterY => {
                                    c.center.y = d;
                                },
                                _ => {
                                    c.radius = d;
                                },
                            }
                        },
                        Err(kind) => {
                            proof {
                                lemma_circle_fault_persists(attrs@, i + 1);
                            }
                            return Err(AttributeError { key, kind });
                        },
                    }
                },
                _ => {},
            }
            i = i + 1;
        }
        assert(attrs@.take(attrs@.len() as int) =~= attrs@);
        Ok(c)
    }
}

impl Ellipse {
    /// Reads an ellipse from its attributes (`cx`, `cy`, `rx`, `ry`; others are ignored).
    pub fn from_attributes(attrs: &Vec<(String, String)>) -> (r: Result<Ellipse, AttributeError>)
        ensures
            r == ellipse_spec(attrs@),
    {
        let mut e = Ellipse::default();
        let mut i: usize = 0;
        assert(attrs@.take(0).len() == 0);
        while i < attrs.len()
            invariant
                i <= attrs@.len(),
                ellipse_spec(attrs@.take(i as int)) == Ok::<Ellipse, AttributeError>(e),
            decreases attrs@.len() - i,
        {
            assert(attrs@.take(i + 1).drop_last() =~= attrs@.take(i as int));
            let key = classify_attribute(attrs[i].0.as_str());
            match key {
                AttributeKey::CenterX | AttributeKey::CenterY | AttributeKey::RadiusX
                | AttributeKey::RadiusY => {
                    match parse_number(attrs[i].1.as_str()) {
                        Ok(d) => {
                            match key {
                                AttributeKey::CenterX => {
                                    e.center.x = d;
                                },
                                AttributeKey::CenterY => {
                                    e.center.y = d;
                                },
                                AttributeKey::RadiusX => {
                                    e.radius_x = d;
                                },
                                _ => {
                                    e.radius_y = d;
                                },
                            }
                        },
                        Err(kind) => {
                            proof {
                                lemma_ellipse_fault_persists(attrs@, i + 1);
                            }
                            return Err(AttributeError { key, kind });
                        },
                    }
                },
                _ => {},
            }
            i = i + 1;
        }
        assert(attrs@.take(attrs@.len() as int) =~= attrs@);
        Ok(e)
    }
}

proof fn lemma_circle_fault_persists(attrs: Seq<(String, String)>, i: int)
    requires
        0 <= i <= attrs.len(),
        circle_spec(attrs.take(i)) is Err,
    ensures
        circle_spec(attrs) == circle_spec(attrs.take(i)),
    decreases attrs.len() - i,
{
    if i < attrs.len() {
        assert(attrs.take(i + 1).drop_last() =~= attrs.take(i));
        lemma_circle_fault_persists(attrs, i + 1);
    } else {
        assert(attrs.take(i) =~= attrs);
    }
}

proof fn lemma_ellipse_fault_persists(attrs: Seq<(String, String)>, i: int)
    requires
        0 <= i <= attrs.len(),
        ellipse_spec(attrs.take(i)) is Err,
    ensures
        ellipse_spec(attrs) == ellipse_spec(attrs.take(i)),
    decreases attrs.len() - i,
{
    if i < attrs.len() {
        assert(attrs.take(i + 1).drop_last() =~= attrs.take(i));
        lemma_ellipse_fault_persists(attrs, i + 1);
    } else {
        assert(attrs.take(i) =~= attrs);
    }
}

} // verus!
