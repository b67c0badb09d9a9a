use svg_sketch::convert::{classify_element, convert, ConversionError, ElementKind, Shape};
use svg_sketch::decimal::{Decimal, NumberError};
use svg_sketch::geometry::{Instruction, Point};
use svg_sketch::path::PathError;
use svg_sketch::shapes::{classify_attribute, AttributeError, AttributeKey, Circle, Ellipse};

fn attrs(pairs: &[(&str, &str)]) -> Vec<(String, String)> {
    pairs.iter().map(|(k, v)| (k.to_string(), v.to_string())).collect()
}

fn pt(x: i32, y: i32) -> Point {
    Point { x: Decimal::integer(x), y: Decimal::integer(y) }
}

#[test]
fn names_attributes() {
    assert_eq!(classify_attribute("cx"), AttributeKey::CenterX);
    assert_eq!(classify_attribute("cy"), AttributeKey::CenterY);
    assert_eq!(classify_attribute("r"), AttributeKey::Radius);
    assert_eq!(classify_attribute("rx"), AttributeKey::RadiusX);
    assert_eq!(classify_attribute("ry"), AttributeKey::RadiusY);
    assert_eq!(classify_attribute("d"), AttributeKey::PathData);
    assert_eq!(classify_attribute("fill"), AttributeKey::Other);
    assert_eq!(classify_attribute("x"), AttributeKey::Other);
}

#[test]
fn names_elements() {
    assert_eq!(classify_element("circle"), ElementKind::Circle);
    assert_eq!(classify_element("ellipse"), ElementKind::Ellipse);
    assert_eq!(classify_element("path"), ElementKind::Path);
    assert_eq!(classify_element("rect"), ElementKind::Other);
    assert_eq!(classify_element("circles"), ElementKind::Other);
}

#[test]
fn reads_a_circle() {
    let c = Circle::from_attributes(&attrs(&[("cx", "10"), ("fill", "red"), ("cy", "20"), ("r", "5")]));
    assert_eq!(c, Ok(Circle { center: pt(10, 20), radius: Decimal::integer(5) }));
}

#[test]
fn circle_without_attributes_is_zero() {
    assert_eq!(
        Circle::from_attributes(&vec![]),
        Ok(Circle { center: pt(0, 0), radius: Decimal::integer(0) })
    );
}

#[test]
fn later_attribute_wins() {
    let c = Circle::from_attributes(&attrs(&[("r", "1"), ("r", "2")]));
    assert_eq!(c, Ok(Circle { center: pt(0, 0), radius: Decimal::integer(2) }));
}

#[test]
fn reads_an_ellipse() {
    let e = Ellipse::from_attributes(&attrs(&[("cx", "1"), ("cy", "2"), ("rx", "3"), ("ry", "4"), ("r", "x")]));
    assert_eq!(
        e,
        Ok(Ellipse { center: pt(1, 2), radius_x: Decimal::integer(3), radius_y: Decimal::integer(4) })
    );
}

#[test]
fn bad_attribute_value_is_an_error() {
    let c = Circle::from_attributes(&attrs(&[("r", "abc")]));
    assert_eq!(c, Err(AttributeError { key: AttributeKey::Radius, kind: NumberError::Malformed }));
}

#[test]
fn converts_elements_in_document_order() {
    let elements = vec![
        ("circle".to_string(), attrs(&[("cx", "1"), ("cy", "2"), ("r", "3")])),
        ("rect".to_string(), attrs(&[("width", "4")])),
        ("path".to_string(), attrs(&[("id", "p"), ("d", "M0,0L1,1")])),
        ("ellipse".to_string(), attrs(&[("rx", "1"), ("ry", "2")])),
    ];
    let shapes = convert(&elements).expect("converts");
    assert_eq!(
        shapes,
        vec![
            Shape::Circle(Circle { center: pt(1, 2), radius: Decimal::integer(3) }),
            Shape::Path(vec![Instruction::MoveTo(pt(0, 0)), Instruction::LineTo(pt(1, -1)), Instruction::Close]),
            Shape::Ellipse(Ellipse {
                center: pt(0, 0),
                radius_x: Decimal::integer(1),
                radius_y: Decimal::integer(2),
            }),
        ]
    );
}

#[test]
fn path_without_outline_is_empty() {
    let elements = vec![("path".to_string(), attrs(&[("fill", "none")]))];
    assert_eq!(convert(&elements), Ok(vec![Shape::Path(vec![])]));
}

#[test]
fn conversion_stops_at_the_first_error() {
    let elements = vec![
        ("path".to_string(), attrs(&[("d", "M1..2")])),
        ("circle".to_string(), attrs(&[("r", "q")])),
    ];
    assert_eq!(
        convert(&elements),
        Err(ConversionError::Path(PathError::InvalidNumber {
            kind: NumberError::Malformed,
            token: vec!['1', '.', '.', '2'],
        }))
    );
    let elements = vec![("circle".to_string(), attrs(&[("cy", "1,5")]))];
    assert_eq!(
        convert(&elements),
        Err(ConversionError::Attribute(AttributeError {
            key: AttributeKey::CenterY,
            kind: NumberError::Malformed,
        }))
    );
}

#[test]
fn defaults_are_zero() {
    assert_eq!(Point::default(), pt(0, 0));
    assert_eq!(Circle::default(), Circle { center: pt(0, 0), radius: Decimal::integer(0) });
    assert_eq!(
        Ellipse::default(),
        Ellipse { center: pt(0, 0), radius_x: Decimal::integer(0), radius_y: Decimal::integer(0) }
    );
}
