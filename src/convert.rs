//! The conversion of a document's shape elements, in document order.

use vstd::prelude::*;
use vstd::string::StrSliceExecFns;
use crate::geometry::Instruction;
use crate::path::{PathError, PathFault, interpret, interpret_spec};
use crate::shapes::{
    AttributeError,
    AttributeKey,
    Circle,
    Ellipse,
    attribute_key,
    circle_spec,
    classify_attribute,
    ellipse_spec,
};

verus! {

/// The element names that the conversion reads.
#[derive(Clone, Copy, Debug, PartialEq, Eq, Structural)]
pub enum ElementKind {
    Circle,
    Ellipse,
    Path,
    Other,
}

pub open spec fn element_kind(name: Seq<char>) -> ElementKind {
    if name == seq!['c', 'i', 'r', 'c', 'l', 'e'] {
        ElementKind::Circle
    } else if name == seq!['e', 'l', 'l', 'i', 'p', 's', 'e'] {
        ElementKind::Ellipse
    } else if name == seq!['p', 'a', 't', 'h'] {
        ElementKind::Path
    } else {
        ElementKind::Other
    }
}

/// Whether `name` spells `word`.
fn spells(name: &str, word: &Vec<char>) -> (r: bool)
    ensures
        r == (name@ == word@),
{
    let n = name.unicode_len();
    if n != word.len() {
        return false;
    }
    let mut i: usize = 0;
    while i < n
        invariant
            n == name@.len() == word@.len(),
            i <= n,
            forall|k: int| 0 <= k < i ==> name@[k] == word@[k],
        decreases n - i,
    {
        if name.get_char(i) != word[i] {
            return false;
        }
        i = i + 1;
    }
    assert(name@ =~= word@);
    true
}

/// Names the element `name`.
pub fn classify_element(name: &str) -> (r: ElementKind)
    ensures
        r == element_kind(name@),
{
    let circle = vec!['c', 'i', 'r', 'c', 'l', 'e'];
    let ellipse = vec!['e', 'l', 'l', 'i', 'p', 's', 'e'];
    let path = vec!['p', 'a', 't', 'h'];
    assert(circle@ == seq!['c', 'i', 'r', 'c', 'l', 'e']);
    assert(ellipse@ == seq!['e', 'l', 'l', 'i', 'p', 's', 'e']);
    assert(path@ == seq!['p', 'a', 't', 'h']);
    if spells(name, &circle) {
        ElementKind::Circle
    } else if spells(name, &ellipse) {
        ElementKind::Ellipse
    } else if spells(name, &path) {
        ElementKind::Path
    } else {
        ElementKind::Other
    }
}

/// One converted shape; each is fused into the sketch in turn.
#[derive(Debug, PartialEq, Eq)]
pub enum Shape {
    /// Drawn at the origin, then moved to its centre with `y` negated.
    Circle(Circle),
    /// Drawn at the origin, then moved to its centre with `y` negated.
    Ellipse(Ellipse),
    /// An outline, as the path interpreter emitted it.
    Path(Vec<Instruction>),
}

pub enum ShapeModel {
    Circle(Circle),
    Ellipse(Ellipse),
    Path(Seq<Instruction>),
}

impl View for Shape {
    type V = ShapeModel;

    open spec fn view(&self) -> ShapeModel {
        match self {
            Shape::Circle(c) => ShapeModel::Circle(*c),
            Shape::Ellipse(e) => ShapeModel::Ellipse(*e),
            Shape::Path(v) => ShapeModel::Path(v@),
        }
    }
}

/// Why a document could not be converted.
#[derive(Debug, PartialEq, Eq)]
pub enum ConversionError {
    Attribute(AttributeError),
    Path(PathError),
}

pub enum ConversionFault {
    Attribute(AttributeError),
    Path(PathFault),
}

impl View for ConversionError {
    type V = ConversionFault;

    open spec fn view(&self) -> ConversionFault {
        match self {
            ConversionError::Attribute(a) => ConversionFault::Attribute(*a),
            ConversionError::Path(p) => ConversionFault::Path(p@),
        }
    }
}

/// The outline of a path element: the instructions of each `d` attribute, in order.
pub open spec fn path_element_spec(attrs: Seq<(String, String)>) -> Result<Seq<Instruction>, PathFault>
    decreases attrs.len(),
{
    if attrs.len() == 0 {
        Ok(Seq::empty())
    } else {
        match path_element_spec(attrs.drop_last()) {
            Ok(before) => if attribute_key(attrs.last().0@) is PathData {
                match interpret_spec(attrs.last().1@) {
                    Ok(more) => Ok(before + more),
                    Err(e) => Err(e),
                }
            } else {
                Ok(before)
            },
            Err(e) => Err(e),
        }
    }
}

/// The shape that one element stands for, if any.
pub open spec fn element_spec(name: Seq<char>, attrs: Seq<(String, String)>) -> Result<
    Option<ShapeModel>,
    ConversionFault,
> {
    match element_kind(name) {
        ElementKind::Circle => match circle_spec(attrs) {
            Ok(c) => Ok(Some(ShapeModel::Circle(c))),
            Err(e) => Err(ConversionFault::Attribute(e)),
        },
        ElementKind::Ellipse => match ellipse_spec(attrs) {
            Ok(e) => Ok(Some(ShapeModel::Ellipse(e))),
            Err(err) => Err(ConversionFault::Attribute(err)),
        },
        ElementKind::Path => match path_element_spec(attrs) {
            Ok(v) => Ok(Some(ShapeModel::Path(v))),
            Err(e) => Err(ConversionFault::Path(e)),
        },
        ElementKind::Other => Ok(None),
    }
}

/// The shapes of a document's elements, in document order.
pub open spec fn convert_spec(elements: Seq<(String, Vec<(String, String)>)>) -> Result<
    Seq<ShapeModel>,
    ConversionFault,
>
    decreases elements.len(),
{
    if elements.len() == 0 {
        Ok(Seq::empty())
    } else {
        match convert_spec(elements.drop_last()) {
            Ok(before) => match element_spec(elements.last().0@, elements.last().1@) {
                Ok(Some(s)) => Ok(before.push(s)),
                Ok(None) => Ok(before),
                Err(e) => Err(e),
            },
            Err(e) => Err(e),
        }
    }
}

proof fn lemma_path_fault_persists(attrs: Seq<(String, String)>, i: int)
    requires
        0 <= i <= attrs.len(),
        path_element_spec(attrs.take(i)) is Err,
    ensures
        path_element_spec(attrs) == path_element_spec(attrs.take(i)),
    decreases attrs.len() - i,
{
    if i < attrs.len() {
        assert(attrs.take(i + 1).drop_last() =~= attrs.take(i));
        lemma_path_fault_persists(attrs, i + 1);
    } else {
        assert(attrs.take(i) =~= attrs);
    }
}

proof fn lemma_convert_fault_persists(elements: Seq<(String, Vec<(String, String)>)>, i: int)
    requires
        0 <= i <= elements.len(),
        convert_spec(elements.take(i)) is Err,
    ensures
        convert_spec(elements) == convert_spec(elements.take(i)),
    decreases elements.len() - i,
{
    if i < elements.len() {
        assert(elements.take(i + 1).drop_last() =~= elements.take(i));
        lemma_convert_fault_persists(elements, i + 1);
    } else {
        assert(elements.take(i) =~= elements);
    }
}

/// The outline of a path element: every `d` attribute interpreted, in order.
pub fn path_element(attrs: &Vec<(String, String)>) -> (r: Result<Vec<Instruction>, PathError>)
    ensures
        match path_element_spec(attrs@) {
            Ok(v) => r matches Ok(o) && o@ == v,
            Err(e) => r matches Err(x) && x@ == e,
        },
{
    let mut out: Vec<Instruction> = Vec::new();
    let mut i: usize = 0;
    assert(attrs@.take(0).len() == 0);
    while i < attrs.len()
        invariant
            i <= attrs@.len(),
            path_element_spec(attrs@.take(i as int)) == Ok::<Seq<Instruction>, PathFault>(out@),
        decreases attrs@.len() - i,
    {
        assert(attrs@.take(i + 1).drop_last() =~= attrs@.take(i as int));
        match classify_attribute(attrs[i].0.as_str()) {
            AttributeKey::PathData => {
                match interpret(attrs[i].1.as_str()) {
                    Ok(more) => {
                        let mut more = more;
                        out.append(&mut more);
                    },
                    Err(e) => {
                        proof {
                            lemma_path_fault_persists(attrs@, i + 1);
                        }
                        return Err(e);
                    },
                }
            },
            _ => {},
        }
        i = i + 1;
    }
    assert(attrs@.take(attrs@.len() as int) =~= attrs@);
    Ok(out)
}

/// The shape that the element `name` with attributes `attrs` stands for;
/// `None` for an element that is not a shape.
pub fn convert_element(name: &str, attrs: &Vec<(String, String)>) -> (r: Result<
    Option<Shape>,
    ConversionError,
>)
    ensures
        match element_spec(name@, attrs@) {
            Ok(Some(s)) => r matches Ok(Some(o)) && o@ == s,
            Ok(None) => r matches Ok(None),
            Err(e) => r matches Err(x) && x@ == e,
        },
{
    match classify_element(name) {
        ElementKind::Circle => match Circle::from_attributes(attrs) {
            Ok(c) => Ok(Some(Shape::Circle(c))),
            Err(e) => Err(ConversionError::Attribute(e)),
        },
        ElementKind::Ellipse => match Ellipse::from_attributes(attrs) {
            Ok(e) => Ok(Some(Shape::Ellipse(e))),
            Err(err) => Err(ConversionError::Attribute(err)),
        },
        ElementKind::Path => match path_element(attrs) {
            Ok(v) => Ok(Some(Shape::Path(v))),
            Err(e) => Err(ConversionError::Path(e)),
        },
        ElementKind::Other => Ok(None),
    }
}

/// Converts a document's elements, each a name with its attributes, into
/// shapes in document order; elements that are not shapes are skipped.
pub fn convert(elements: &Vec<(String, Vec<(String, String)>)>) -> (r: Result<
    Vec<Shape>,
    ConversionError,
>)
    ensures
        match convert_spec(elements@) {
            Ok(v) => r matches Ok(o) && o@.map_values(|s: Shape| s@) == v,
            Err(e) => r matches Err(x) && x@ == e,
        },
{
    let mut out: Vec<Shape> = Vec::new();
    let mut i: usize = 0;
    assert(elements@.take(0).len() == 0);
    assert(out@.map_values(|s: Shape| s@) =~= Seq::<ShapeModel>::empty());
    while i < elements.len()
        invariant
            i <= elements@.len(),
            convert_spec(elements@.take(i as int)) == Ok::<Seq<ShapeModel>, ConversionFault>(
                out@.map_values(|s: Shape| s@),
            ),
        decreases elements@.len() - i,
    {
        assert(elements@.take(i + 1).drop_last() =~= elements@.take(i as int));
        match convert_element(elements[i].0.as_str(), &elements[i].1) {
            Ok(Some(s)) => {
                let ghost before = out@;
                out.push(s);
                assert(out@.map_values(|s: Shape| s@) =~= before.map_values(|s: Shape| s@).push(
                    s@,
                ));
            },
            Ok(None) => {},
            Err(e) => {
                proof {
                    lemma_convert_fault_persists(elements@, i + 1);
                }
                return Err(e);
            },
        }
        i = i + 1;
    }
    assert(elements@.take(elements@.len() as int) =~= elements@);
    Ok(out)
}

} // verus!
