use svg_sketch::decimal::{Decimal, NumberError};
use svg_sketch::geometry::{Instruction, Point};
use svg_sketch::command::Command;
use svg_sketch::path::{interpret, PathError, PathState};

fn d(v: i32) -> Decimal {
    Decimal::integer(v)
}

fn pt(x: i32, y: i32) -> Point {
    Point { x: d(x), y: d(y) }
}

fn run(text: &str) -> Vec<Instruction> {
    interpret(text).expect("the path reads")
}

#[test]
fn move_then_line() {
    assert_eq!(
        run("M 0,0 L 10,10"),
        vec![Instruction::MoveTo(pt(0, 0)), Instruction::LineTo(pt(10, -10)), Instruction::Close]
    );
}

#[test]
fn implicit_repeat_of_move_emits_moves() {
    assert_eq!(
        run("M 0 0 10 10"),
        vec![Instruction::MoveTo(pt(0, 0)), Instruction::MoveTo(pt(10, -10)), Instruction::Close]
    );
}

#[test]
fn relative_move_and_lines_follow_cursor() {
    assert_eq!(
        run("m 5,5 l 1,1 2,2"),
        vec![
            Instruction::MoveTo(pt(5, -5)),
            Instruction::LineTo(pt(6, -6)),
            Instruction::LineTo(pt(8, -8)),
            Instruction::Close,
        ]
    );
}

#[test]
fn letters_without_separators() {
    assert_eq!(
        run("M0,0L10,0L10,10Z"),
        vec![
            Instruction::MoveTo(pt(0, 0)),
            Instruction::LineTo(pt(10, 0)),
            Instruction::LineTo(pt(10, -10)),
            Instruction::Close,
        ]
    );
}

#[test]
fn missing_close_still_emits_last_line_and_close() {
    assert_eq!(
        run("M0,0L5,5"),
        vec![Instruction::MoveTo(pt(0, 0)), Instruction::LineTo(pt(5, -5)), Instruction::Close]
    );
}

#[test]
fn short_cubic_tuple_is_dropped() {
    assert_eq!(run("M0,0C1,1,2,2"), vec![Instruction::MoveTo(pt(0, 0)), Instruction::Close]);
}

#[test]
fn short_move_tuple_is_dropped_after_whole_ones() {
    assert_eq!(
        run("M1,2,3Z"),
        vec![Instruction::MoveTo(pt(1, -2)), Instruction::Close]
    );
}

#[test]
fn empty_path_emits_nothing() {
    assert_eq!(run(""), vec![]);
}

#[test]
fn minus_sign_starts_a_number() {
    assert_eq!(
        run("M1-2L-3-4"),
        vec![Instruction::MoveTo(pt(1, 2)), Instruction::LineTo(pt(-3, 4)), Instruction::Close]
    );
}

#[test]
fn horizontal_and_vertical_lines() {
    assert_eq!(
        run("M1,2H5V7"),
        vec![
            Instruction::MoveTo(pt(1, -2)),
            Instruction::HorizontalTo(d(5)),
            Instruction::VerticalTo(d(-7)),
            Instruction::Close,
        ]
    );
}

#[test]
fn relative_horizontal_and_vertical_lines_repeat() {
    assert_eq!(
        run("M1,2h3,4v5Z"),
        vec![
            Instruction::MoveTo(pt(1, -2)),
            Instruction::HorizontalTo(d(4)),
            Instruction::HorizontalTo(d(8)),
            Instruction::VerticalTo(d(-7)),
            Instruction::Close,
        ]
    );
}

#[test]
fn quadratic_absolute_and_relative() {
    assert_eq!(
        run("M1,1Q2,2,3,3q1,1,2,2Z"),
        vec![
            Instruction::MoveTo(pt(1, -1)),
            Instruction::QuadraticTo { control: pt(2, -2), end: pt(3, -3) },
            Instruction::QuadraticTo { control: pt(4, -4), end: pt(5, -5) },
            Instruction::Close,
        ]
    );
}

#[test]
fn relative_cubic_uses_cursor_at_tuple_start() {
    assert_eq!(
        run("M1,1c1,1,2,2,3,3,1,0,1,0,1,0Z"),
        vec![
            Instruction::MoveTo(pt(1, -1)),
            Instruction::CubicTo { control1: pt(2, -2), control2: pt(3, -3), end: pt(4, -4) },
            Instruction::CubicTo { control1: pt(5, -4), control2: pt(5, -4), end: pt(5, -4) },
            Instruction::Close,
        ]
    );
}

#[test]
fn absolute_cubic() {
    assert_eq!(
        run("M0,0C1,2,3,4,5,6Z"),
        vec![
            Instruction::MoveTo(pt(0, 0)),
            Instruction::CubicTo { control1: pt(1, -2), control2: pt(3, -4), end: pt(5, -6) },
            Instruction::Close,
        ]
    );
}

#[test]
fn smooth_curves_and_arcs_move_the_cursor_silently() {
    assert_eq!(
        run("M1,1t2,2s0,0,1,1a5,5,0,0,1,2,2l1,1Z"),
        vec![Instruction::MoveTo(pt(1, -1)), Instruction::LineTo(pt(7, -7)), Instruction::Close]
    );
}

#[test]
fn close_in_the_middle_of_a_path() {
    assert_eq!(
        run("M0,0L1,1Z M5,5"),
        vec![
            Instruction::MoveTo(pt(0, 0)),
            Instruction::LineTo(pt(1, -1)),
            Instruction::Close,
            Instruction::MoveTo(pt(5, -5)),
            Instruction::Close,
        ]
    );
}

#[test]
fn number_after_a_space_is_flushed_at_the_next_letter() {
    assert_eq!(
        run("M 0 0 10 10L5,5"),
        vec![
            Instruction::MoveTo(pt(0, 0)),
            Instruction::MoveTo(pt(10, -10)),
            Instruction::LineTo(pt(5, -5)),
            Instruction::Close,
        ]
    );
    assert_eq!(
        run("M 0,0L1,1"),
        vec![Instruction::MoveTo(pt(0, 0)), Instruction::LineTo(pt(1, -1)), Instruction::Close]
    );
    assert_eq!(
        run("M1,2h3 4v5Z"),
        vec![
            Instruction::MoveTo(pt(1, -2)),
            Instruction::HorizontalTo(d(4)),
            Instruction::HorizontalTo(d(8)),
            Instruction::VerticalTo(d(-7)),
            Instruction::Close,
        ]
    );
}

#[test]
fn space_right_before_a_letter_flushes_once() {
    assert_eq!(
        run("M 1 -2 L 3 4 Z"),
        vec![Instruction::MoveTo(pt(1, 2)), Instruction::LineTo(pt(3, -4)), Instruction::Close]
    );
}

#[test]
fn numbers_before_the_first_letter_are_dropped() {
    assert_eq!(run("5,5M1,1"), vec![Instruction::MoveTo(pt(1, -1)), Instruction::Close]);
    assert_eq!(run("5 5M1,1"), vec![Instruction::MoveTo(pt(1, -1)), Instruction::Close]);
}

#[test]
fn other_characters_are_ignored() {
    assert_eq!(
        run("M0,0\tL2;2,3"),
        vec![Instruction::MoveTo(pt(0, 0)), Instruction::LineTo(pt(22, -3)), Instruction::Close]
    );
}

#[test]
fn fractional_coordinates_are_exact() {
    assert_eq!(
        run("m0.5,1.25l.5,-.25"),
        vec![
            Instruction::MoveTo(Point {
                x: Decimal { mantissa: 5, scale: 1 },
                y: Decimal { mantissa: -125, scale: 2 },
            }),
            Instruction::LineTo(Point {
                x: Decimal { mantissa: 10, scale: 1 },
                y: Decimal { mantissa: -100, scale: 2 },
            }),
            Instruction::Close,
        ]
    );
}

#[test]
fn malformed_number_is_reported_with_its_token() {
    assert_eq!(
        interpret("M1.2.3,4"),
        Err(PathError::InvalidNumber {
            kind: NumberError::Malformed,
            token: vec!['1', '.', '2', '.', '3'],
        })
    );
}

#[test]
fn lone_minus_sign_is_malformed() {
    assert_eq!(
        interpret("M- 1"),
        Err(PathError::InvalidNumber { kind: NumberError::Malformed, token: vec!['-'] })
    );
}

#[test]
fn too_many_digits_are_out_of_range() {
    assert_eq!(
        interpret("M99999999999999999999,0"),
        Err(PathError::InvalidNumber {
            kind: NumberError::OutOfRange,
            token: "99999999999999999999".chars().collect(),
        })
    );
}

#[test]
fn relative_sum_that_does_not_fit_is_an_overflow() {
    assert_eq!(interpret("m9223372036854775807,0m1,0Z"), Err(PathError::Overflow));
}

#[test]
fn cursor_follows_absolute_and_relative_rules() {
    // (2,3) absolute, then +(1,1), then x to 10, then y by -4: cursor (10,0).
    assert_eq!(
        run("M2,3l1,1H10v-4Z"),
        vec![
            Instruction::MoveTo(pt(2, -3)),
            Instruction::LineTo(pt(3, -4)),
            Instruction::HorizontalTo(d(10)),
            Instruction::VerticalTo(d(0)),
            Instruction::Close,
        ]
    );
}

#[test]
fn emitted_coordinates_read_back_to_cursor() {
    let out = run("m1,2l3,4 5,6");
    let mut cursor = (0i64, 0i64);
    let mut expected = vec![(1i64, 2i64), (4, 6), (9, 12)].into_iter();
    for ins in out {
        match ins {
            Instruction::MoveTo(p) | Instruction::LineTo(p) => {
                cursor = (p.x.mantissa, -p.y.mantissa);
                assert_eq!(Some(cursor), expected.next());
            }
            Instruction::Close => {}
            other => panic!("unexpected {:?}", other),
        }
    }
    assert_eq!(expected.next(), None);
    assert_eq!(cursor, (9, 12));
}

#[test]
fn a_lone_close_emits_close() {
    assert_eq!(run("Z"), vec![Instruction::Close]);
}

#[test]
fn default_state_is_the_reset_state() {
    let state = PathState::default();
    assert_eq!(state.command, Command::NotSet);
    assert!(state.values.is_empty() && state.pending.is_empty() && state.out.is_empty());
    assert!(!state.already_flushed);
    assert_eq!(state.cursor, pt(0, 0));
    assert!(PathState::new().already_flushed);
}

#[test]
fn flush_failure_keeps_the_collected_state() {
    let mut state = PathState::new();
    for c in "M1,2".chars() {
        assert_eq!(state.step(c), Ok(()));
    }
    state.pending = vec!['.'];
    assert_eq!(
        state.flush(),
        Err(PathError::InvalidNumber { kind: NumberError::Malformed, token: vec!['.'] })
    );
    assert_eq!(state.values, vec![d(1)]);
    assert_eq!(state.command, Command::MoveAbsolute);
}

#[test]
fn state_machine_steps_by_hand() {
    let mut state = PathState::new();
    for c in "M1,2L3".chars() {
        assert_eq!(state.step(c), Ok(()));
    }
    assert_eq!(state.command, Command::LineAbsolute);
    assert_eq!(state.pending, vec!['3']);
    assert_eq!(state.cursor, pt(1, 2));
    assert_eq!(state.finish(), Ok(vec![Instruction::MoveTo(pt(1, -2)), Instruction::Close]));
}

#[test]
fn letters_select_commands() {
    assert_eq!(Command::from_letter('q'), Some(Command::QuadraticBezierRelative));
    assert_eq!(Command::from_letter('A'), Some(Command::EllipticalArcAbsolute));
    assert_eq!(Command::from_letter('x'), None);
    assert_eq!(Command::CubicBezierAbsolute.arity(), 6);
    assert_eq!(Command::EllipticalArcRelative.arity(), 7);
    assert_eq!(Command::StopRelative.arity(), 0);
    assert!(Command::HorizontalLineRelative.is_relative());
    assert!(!Command::HorizontalLineAbsolute.is_relative());
}

#[test]
fn comma_terminated_numbers_follow_the_rules() {
    // (1,2) absolute, +(3,4), x to -5, y by 1.5: cursor (-5, 7.5).
    assert_eq!(
        run("M1,2,l3,4,H-5,v1.5,Z"),
        vec![
            Instruction::MoveTo(pt(1, -2)),
            Instruction::LineTo(pt(4, -6)),
            Instruction::HorizontalTo(d(-5)),
            Instruction::VerticalTo(Decimal { mantissa: -75, scale: 1 }),
            Instruction::Close,
        ]
    );
}

#[test]
fn short_trailing_tuple_changes_nothing() {
    assert_eq!(run("M1,1l2,2,3Z"), run("M1,1l2,2Z"));
    assert_eq!(run("M0,0q1,1,2,2,3,3,4Z"), run("M0,0q1,1,2,2Z"));
}
