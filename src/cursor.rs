//! Laws about the cursor: it follows each command's rule, and the emitted
//! instructions, read back, give it again.

use vstd::prelude::*;
use crate::command::{Command, letter_command};
use crate::decimal::{Decimal, decimal_text, is_digit, law_text_round_trip, lemma_parse_wf, parse_spec, sum_spec};
use crate::path::{PathFault, Scan, flush_spec, initial_scan, read_char_spec, scan_spec, step_spec, switch_spec};
use crate::geometry::{
    Instruction,
    Point,
    all_wf,
    dispatch_spec,
    flip,
    negated,
    prepend,
    optional_seq,
    origin_spec,
    tuple_spec,
    tuples_spec,
};

verus! {

/// A coordinate moved to `v`, or by `v` where `relative` holds.
pub open spec fn moved(relative: bool, from: Decimal, v: Decimal) -> Option<Decimal> {
    if relative {
        sum_spec(from, v)
    } else {
        Some(v)
    }
}

/// The cursor after one invocation, by the command's rule: an absolute command
/// puts it at the tuple's last point, a relative one moves it by that point;
/// `H` and `V` change one coordinate, and a stop leaves it.
pub open spec fn cursor_rule(cmd: Command, c: Point, a: Seq<Decimal>) -> Option<Point> {
    let rel = cmd.is_relative_spec();
    let n = cmd.arity_spec();
    if cmd is HorizontalLineAbsolute || cmd is HorizontalLineRelative {
        match moved(rel, c.x, a[0]) {
            Some(x) => Some(Point { x, y: c.y }),
            None => None,
        }
    } else if cmd is VerticalLineAbsolute || cmd is VerticalLineRelative {
        match moved(rel, c.y, a[0]) {
            Some(y) => Some(Point { x: c.x, y }),
            None => None,
        }
    } else if n == 0 {
        Some(c)
    } else {
        let (i, j) = if cmd is EllipticalArcAbsolute || cmd is EllipticalArcRelative {
            (5int, 6int)
        } else {
            (n - 2, n - 1)
        };
        match (moved(rel, c.x, a[i]), moved(rel, c.y, a[j])) {
            (Some(x), Some(y)) => Some(Point { x, y }),
            _ => None,
        }
    }
}

/// The rule applied to each whole tuple of `args` in turn.
pub open spec fn tuples_rule(cmd: Command, c: Point, args: Seq<Decimal>) -> Option<Point>
    decreases args.len(),
{
    let n = cmd.arity_spec();
    if n == 0 || args.len() < n {
        Some(c)
    } else {
        match cursor_rule(cmd, c, args.take(n as int)) {
            Some(p) => tuples_rule(cmd, p, args.skip(n as int)),
            None => None,
        }
    }
}

/// The rule applied to each command with its numbers in turn.
pub open spec fn commands_rule(cmds: Seq<(Command, Seq<Decimal>)>, c: Point) -> Option<Point>
    decreases cmds.len(),
{
    if cmds.len() == 0 {
        Some(c)
    } else {
        match tuples_rule(cmds[0].0, c, cmds[0].1) {
            Some(p) => commands_rule(cmds.drop_first(), p),
            None => None,
        }
    }
}

/// Dispatching each command with its numbers in turn: the final cursor and
/// everything emitted.
pub open spec fn run_commands(cmds: Seq<(Command, Seq<Decimal>)>, c: Point) -> Option<
    (Point, Seq<Instruction>),
>
    decreases cmds.len(),
{
    if cmds.len() == 0 {
        Some((c, Seq::empty()))
    } else {
        match dispatch_spec(cmds[0].0, c, cmds[0].1) {
            Some((p, emitted)) => prepend(emitted, run_commands(cmds.drop_first(), p)),
            None => None,
        }
    }
}

/// The cursor that an instruction leads to when its coordinates are read
/// back and `y` is negated again.
pub open spec fn read_back_one(ins: Instruction, c: Point) -> Point {
    match ins {
        Instruction::MoveTo(q) => flip(q),
        Instruction::LineTo(q) => flip(q),
        Instruction::HorizontalTo(x) => Point { x, y: c.y },
        Instruction::VerticalTo(y) => Point { x: c.x, y: negated(y) },
        Instruction::QuadraticTo { control, end } => flip(end),
        Instruction::CubicTo { control1, control2, end } => flip(end),
        Instruction::Close => c,
    }
}

/// The cursor after reading back every instruction, from `c`.
pub open spec fn read_back(ins: Seq<Instruction>, c: Point) -> Point
    decreases ins.len(),
{
    if ins.len() == 0 {
        c
    } else {
        read_back(ins.drop_first(), read_back_one(ins[0], c))
    }
}

/// The commands that emit an instruction for every tuple.
pub open spec fn emits_geometry(cmd: Command) -> bool {
    !(cmd is QuadraticBezierSmoothAbsolute || cmd is QuadraticBezierSmoothRelative
        || cmd is CubicBezierSmoothAbsolute || cmd is CubicBezierSmoothRelative
        || cmd is EllipticalArcAbsolute || cmd is EllipticalArcRelative)
}

proof fn lemma_sum_wf(a: Decimal, b: Decimal)
    ensures
        a.wf() && b.wf() ==> (sum_spec(a, b) matches Some(d) ==> d.wf()),
{
}

proof fn lemma_tuple_follows_rule(cmd: Command, c: Point, a: Seq<Decimal>)
    requires
        a.len() == cmd.arity_spec(),
        c.wf(),
        all_wf(a),
    ensures
        tuple_spec(cmd, c, a) matches Some((p, _)) ==> cursor_rule(cmd, c, a) == Some(p) && p.wf(),
        tuple_spec(cmd, c, a) matches Some((p, Some(ins))) ==> read_back_one(ins, c) == p,
{
    let n = cmd.arity_spec();
    if n > 0 {
        assert(a[0].wf());
    }
    if n > 1 {
        assert(a[1].wf());
    }
    if n > 2 {
        assert(a[2].wf() && a[3].wf());
    }
    if n > 4 {
        assert(a[4].wf() && a[5].wf());
    }
    if n > 6 {
        assert(a[6].wf());
    }
    lemma_sum_wf(c.x, a[0]);
    lemma_sum_wf(c.y, a[0]);
    lemma_sum_wf(c.y, a[1]);
    if n > 2 {
        lemma_sum_wf(c.x, a[2]);
        lemma_sum_wf(c.y, a[3]);
    }
    if n > 4 {
        lemma_sum_wf(c.x, a[4]);
        lemma_sum_wf(c.y, a[5]);
    }
    if n > 6 {
        lemma_sum_wf(c.x, a[5]);
        lemma_sum_wf(c.y, a[6]);
    }
}

proof fn lemma_read_back_append(x: Seq<Instruction>, y: Seq<Instruction>, c: Point)
    ensures
        read_back(x + y, c) == read_back(y, read_back(x, c)),
    decreases x.len(),
{
    if x.len() > 0 {
        assert((x + y).drop_first() =~= x.drop_first() + y);
        lemma_read_back_append(x.drop_first(), y, read_back_one(x[0], c));
    } else {
        assert(x + y =~= y);
    }
}

proof fn lemma_tuples_follow_rule(cmd: Command, c: Point, args: Seq<Decimal>)
    requires
        c.wf(),
        all_wf(args),
    ensures
        tuples_spec(cmd, c, args) matches Some((p, emitted)) ==> tuples_rule(cmd, c, args) == Some(p)
            && p.wf() && (emits_geometry(cmd) ==> read_back(emitted, c) == p),
    decreases args.len(),
{
    let n = cmd.arity_spec();
    if n > 0 && args.len() >= n {
        let a = args.take(n as int);
        let rest = args.skip(n as int);
        assert(all_wf(a)) by {
            assert forall|i: int| 0 <= i < a.len() implies (#[trigger] a[i]).wf() by {
                assert(a[i] == args[i]);
            }
        }
        assert(all_wf(rest)) by {
            assert forall|i: int| 0 <= i < rest.len() implies (#[trigger] rest[i]).wf() by {
                assert(rest[i] == args[i + n]);
            }
        }
        lemma_tuple_follows_rule(cmd, c, a);
        match tuple_spec(cmd, c, a) {
            Some((p, e)) => {
                lemma_tuples_follow_rule(cmd, p, rest);
                match tuples_spec(cmd, p, rest) {
                    Some((q, t)) => {
                        lemma_read_back_append(optional_seq(e), t, c);
                        if emits_geometry(cmd) {
                            assert(e is Some);
                            assert(optional_seq(e).drop_first() =~= Seq::<Instruction>::empty());
                            assert(read_back(optional_seq(e), c) == read_back(
                                Seq::<Instruction>::empty(),
                                p,
                            ));
                        }
                    },
                    None => {},
                }
            },
            None => {},
        }
    }
}

/// Whatever commands are dispatched, in whatever order, the cursor that
/// results is the one that their absolute and relative rules give when they
/// are applied by hand, tuple by tuple.
pub proof fn law_cursor_follows_rules(cmds: Seq<(Command, Seq<Decimal>)>, c: Point)
    requires
        c.wf(),
        forall|i: int| 0 <= i < cmds.len() ==> all_wf(#[trigger] cmds[i].1),
    ensures
        run_commands(cmds, c) matches Some((p, _)) ==> commands_rule(cmds, c) == Some(p),
    decreases cmds.len(),
{
    law_round_trip(cmds, c);
}

/// Reading back the coordinates of every emitted instruction and negating
/// `y` again recovers the cursor after each command, for commands that emit
/// geometry (smooth curves and arcs emit none).
pub proof fn law_round_trip(cmds: Seq<(Command, Seq<Decimal>)>, c: Point)
    requires
        c.wf(),
        forall|i: int| 0 <= i < cmds.len() ==> all_wf(#[trigger] cmds[i].1),
    ensures
        run_commands(cmds, c) matches Some((p, emitted)) ==> commands_rule(cmds, c) == Some(p) && (
        (forall|i: int| 0 <= i < cmds.len() ==> emits_geometry(#[trigger] cmds[i].0))
            ==> read_back(emitted, c) == p),
    decreases cmds.len(),
{
    if cmds.len() > 0 {
        let (cmd, args) = cmds[0];
        assert(all_wf(cmds[0].1));
        lemma_tuples_follow_rule(cmd, c, args);
        match dispatch_spec(cmd, c, args) {
            Some((p, e)) => {
                if cmd.is_stop() {
                    assert(tuples_spec(cmd, c, args) == Some((c, Seq::<Instruction>::empty())));
                    assert(seq![Instruction::Close].drop_first() =~= Seq::<Instruction>::empty());
                }
                let rest = cmds.drop_first();
                assert forall|i: int| 0 <= i < rest.len() implies all_wf(#[trigger] rest[i].1) by {
                    assert(rest[i] == cmds[i + 1]);
                }
                law_round_trip(rest, p);
                match run_commands(rest, p) {
                    Some((q, t)) => {
                        lemma_read_back_append(e, t, c);
                        if forall|i: int| 0 <= i < cmds.len() ==> emits_geometry(#[trigger] cmds[i].0) {
                            assert(emits_geometry(cmds[0].0));
                            assert forall|i: int| 0 <= i < rest.len() implies emits_geometry(
                                #[trigger] rest[i].0,
                            ) by {
                                assert(rest[i] == cmds[i + 1]);
                            }
                        }
                    },
                    None => {},
                }
            },
            None => {},
        }
    }
}

/// What holds of the interpreter's state while it reads a path that draws
/// only geometry: reading back the output gives the cursor.
pub open spec fn scan_invariant(s: Scan) -> bool {
    &&& s.cursor.wf()
    &&& all_wf(s.values)
    &&& emits_geometry(s.command)
    &&& read_back(s.out, origin_spec()) == s.cursor
}

/// Every command letter of `text` selects a command that emits geometry.
pub open spec fn draws_only_geometry(text: Seq<char>) -> bool {
    forall|i: int|
        0 <= i < text.len() ==> (#[trigger] letter_command(text[i]) matches Some(cmd)
            ==> emits_geometry(cmd))
}

proof fn lemma_flush_keeps_invariant(s: Scan)
    requires
        scan_invariant(s),
    ensures
        flush_spec(s) matches Ok(t) ==> scan_invariant(t) && t.command == s.command,
{
    lemma_parse_wf(s.pending);
    if s.pending.len() > 0 {
        if let Ok(d) = parse_spec(s.pending) {
            assert(all_wf(s.values.push(d))) by {
                assert forall|i: int| 0 <= i < s.values.len() + 1 implies (#[trigger] s.values.push(
                    d,
                )[i]).wf() by {
                    if i < s.values.len() {
                        assert(s.values.push(d)[i] == s.values[i]);
                    }
                }
            }
        }
    }
}

proof fn lemma_switch_keeps_invariant(s: Scan, next: Command)
    requires
        scan_invariant(s),
        emits_geometry(next),
    ensures
        switch_spec(s, next) matches Ok(t) ==> scan_invariant(t),
{
    lemma_flush_keeps_invariant(s);
    let flushed = if s.already_flushed {
        Ok(s)
    } else {
        flush_spec(s)
    };
    if let Ok(t) = flushed {
        lemma_tuples_follow_rule(t.command, t.cursor, t.values);
        if let Some((p, emitted)) = dispatch_spec(t.command, t.cursor, t.values) {
            lemma_read_back_append(t.out, emitted, origin_spec());
            if t.command.is_stop() {
                assert(emitted.drop_first() =~= Seq::<Instruction>::empty());
            }
            assert(all_wf(Seq::<Decimal>::empty()));
        }
    }
}

proof fn lemma_step_keeps_invariant(s: Scan, c: char)
    requires
        scan_invariant(s),
        letter_command(c) matches Some(cmd) ==> emits_geometry(cmd),
    ensures
        step_spec(s, c) matches Ok(t) ==> scan_invariant(t),
{
    lemma_flush_keeps_invariant(s);
    if let Some(next) = letter_command(c) {
        lemma_switch_keeps_invariant(s, next);
    }
    if let Ok(t) = read_char_spec(s, c) {
        lemma_flush_keeps_invariant(t);
    }
}

/// While the interpreter reads a path whose letters all draw geometry,
/// reading back the coordinates of the instructions emitted so far, with `y`
/// negated again, recovers its cursor at every step.
pub proof fn law_interpreter_round_trip(text: Seq<char>)
    requires
        draws_only_geometry(text),
    ensures
        scan_spec(text) matches Ok(s) ==> scan_invariant(s),
    decreases text.len(),
{
    if text.len() > 0 {
        let prefix = text.drop_last();
        assert(draws_only_geometry(prefix)) by {
            assert forall|i: int| 0 <= i < prefix.len() implies (#[trigger] letter_command(
                prefix[i],
            ) matches Some(cmd) ==> emits_geometry(cmd)) by {
                assert(prefix[i] == text[i]);
                assert(letter_command(text[i]) matches Some(cmd) ==> emits_geometry(cmd));
            }
        }
        law_interpreter_round_trip(prefix);
        assert(letter_command(text[text.len() - 1]) matches Some(cmd) ==> emits_geometry(cmd));
        if let Ok(s) = scan_spec(prefix) {
            lemma_step_keeps_invariant(s, text.last());
        }
    } else {
        assert(all_wf(Seq::<Decimal>::empty()));
    }
}

/// A trailing tuple shorter than the command's arity changes nothing: running
/// the command on `k` whole tuples followed by a short one is the same as
/// running it on the whole tuples alone.
pub proof fn law_short_tuple_dropped(
    cmd: Command,
    c: Point,
    whole: Seq<Decimal>,
    short: Seq<Decimal>,
    k: nat,
)
    requires
        cmd.arity_spec() > 0,
        whole.len() == k * cmd.arity_spec(),
        short.len() < cmd.arity_spec(),
    ensures
        tuples_spec(cmd, c, whole + short) == tuples_spec(cmd, c, whole),
    decreases k,
{
    let n = cmd.arity_spec();
    if k == 0 {
        assert(whole + short =~= short);
    } else {
        assert(whole.len() >= n) by (nonlinear_arith)
            requires
                whole.len() == k * n,
                k >= 1,
        ;
        assert((k - 1) * n == k * n - n) by (nonlinear_arith);
        let args = whole + short;
        assert(args.take(n as int) =~= whole.take(n as int));
        assert(args.skip(n as int) =~= whole.skip(n as int) + short);
        match tuple_spec(cmd, c, whole.take(n as int)) {
            Some((p, e)) => {
                law_short_tuple_dropped(cmd, p, whole.skip(n as int), short, (k - 1) as nat);
            },
            None => {},
        }
    }
}

/// For a command that emits geometry, each tuple emits one instruction, and
/// reading back the instructions up to the `k`-th gives the cursor that the
/// rule gives after the first `k + 1` tuples.
pub proof fn law_round_trip_per_instruction(cmd: Command, c: Point, args: Seq<Decimal>)
    requires
        c.wf(),
        all_wf(args),
        emits_geometry(cmd),
        cmd.arity_spec() > 0,
    ensures
        tuples_spec(cmd, c, args) matches Some((p, emitted)) ==> {
            &&& emitted.len() * cmd.arity_spec() <= args.len() < (emitted.len() + 1) * cmd.arity_spec()
            &&& forall|k: int|
                #![trigger emitted[k]]
                0 <= k < emitted.len() ==> Some(read_back(emitted.take(k + 1), c)) == tuples_rule(
                    cmd,
                    c,
                    args.take((k + 1) * cmd.arity_spec()),
                )
        },
    decreases args.len(),
{
    let n = cmd.arity_spec();
    if args.len() >= n {
        let a = args.take(n as int);
        let rest = args.skip(n as int);
        assert(all_wf(a)) by {
            assert forall|i: int| 0 <= i < a.len() implies (#[trigger] a[i]).wf() by {
                assert(a[i] == args[i]);
            }
        }
        assert(all_wf(rest)) by {
            assert forall|i: int| 0 <= i < rest.len() implies (#[trigger] rest[i]).wf() by {
                assert(rest[i] == args[i + n]);
            }
        }
        lemma_tuple_follows_rule(cmd, c, a);
        if let Some((p1, e)) = tuple_spec(cmd, c, a) {
            law_round_trip_per_instruction(cmd, p1, rest);
            if let Some((p, t)) = tuples_spec(cmd, p1, rest) {
                let e0 = e->Some_0;
                let emitted = seq![e0] + t;
                assert(tuples_spec(cmd, c, args) == Some((p, emitted)));
                assert((t.len() + 1) * n == t.len() * n + n) by (nonlinear_arith);
                assert((t.len() + 2) * n == (t.len() + 1) * n + n) by (nonlinear_arith);
                assert forall|k: int| 0 <= k < emitted.len() implies Some(
                    read_back(#[trigger] emitted.take(k + 1), c),
                ) == tuples_rule(cmd, c, args.take((k + 1) * n)) by {
                    let taken = args.take((k + 1) * n);
                    assert((k + 1) * n == k * n + n) by (nonlinear_arith);
                    assert(k * n >= 0) by (nonlinear_arith)
                        requires
                            k >= 0,
                    ;
                    assert((k + 1) * n <= args.len()) by (nonlinear_arith)
                        requires
                            k < t.len() + 1,
                            t.len() * n <= rest.len(),
                            rest.len() == args.len() - n,
                            n > 0,
                    ;
                    assert(taken.take(n as int) =~= a);
                    assert(taken.skip(n as int) =~= rest.take(k * n));
                    assert(emitted.take(k + 1)[0] == e0);
                    assert(emitted.take(k + 1).drop_first() =~= t.take(k));
                    assert(read_back_one(e0, c) == p1);
                    assert(read_back(emitted.take(k + 1), c) == read_back(t.take(k), p1));
                    assert(taken.len() == (k + 1) * n);
                    assert(cursor_rule(cmd, c, a) == Some(p1));
                    assert(tuples_rule(cmd, c, taken) == tuples_rule(cmd, p1, rest.take(k * n)));
                    if k == 0 {
                        assert(rest.take(0) =~= Seq::<Decimal>::empty());
                        assert(t.take(0) =~= Seq::<Instruction>::empty());
                        assert(read_back(Seq::<Instruction>::empty(), p1) == p1);
                        assert(tuples_rule(cmd, p1, Seq::<Decimal>::empty()) == Some(p1));
                    } else {
                        assert(t[k - 1] == emitted[k]);
                        assert(t.take(k) == t.take((k - 1) + 1));
                        assert(rest.take(k * n) == rest.take(((k - 1) + 1) * n));
                        assert(Some(read_back(t.take((k - 1) + 1), p1)) == tuples_rule(
                            cmd,
                            p1,
                            rest.take(((k - 1) + 1) * n),
                        ));
                    }
                }
            }
        }
    }
}

/// The state after reading `y` from the state `s`.
pub open spec fn scan_from(s: Scan, y: Seq<char>) -> Result<Scan, PathFault>
    decreases y.len(),
{
    if y.len() == 0 {
        Ok(s)
    } else {
        match scan_from(s, y.drop_last()) {
            Ok(t) => step_spec(t, y.last()),
            Err(e) => Err(e),
        }
    }
}

proof fn lemma_scan_from_concat(s: Scan, y: Seq<char>, z: Seq<char>)
    ensures
        scan_from(s, y + z) == match scan_from(s, y) {
            Ok(t) => scan_from(t, z),
            Err(e) => Err(e),
        },
    decreases z.len(),
{
    if z.len() == 0 {
        assert(y + z =~= y);
    } else {
        assert((y + z).drop_last() =~= y + z.drop_last());
        assert((y + z).last() == z.last());
        lemma_scan_from_concat(s, y, z.drop_last());
    }
}

proof fn lemma_scan_is_scan_from(y: Seq<char>)
    ensures
        scan_spec(y) == scan_from(initial_scan(), y),
    decreases y.len(),
{
    if y.len() > 0 {
        lemma_scan_is_scan_from(y.drop_last());
    }
}

/// Characters that only add to the pending number.
pub open spec fn numeral_chars(w: Seq<char>) -> bool {
    forall|i: int| 0 <= i < w.len() ==> is_digit(#[trigger] w[i]) || w[i] == '.'
}

proof fn lemma_scan_numeral(s: Scan, w: Seq<char>)
    requires
        numeral_chars(w),
        w.len() > 0,
        !s.command.is_stop(),
    ensures
        scan_from(s, w) == Ok::<Scan, PathFault>(
            Scan { pending: s.pending + w, already_flushed: false, ..s },
        ),
    decreases w.len(),
{
    let c = w.last();
    assert(is_digit(c) || c == '.');
    if w.len() == 1 {
        assert(w.drop_last() =~= Seq::<char>::empty());
        assert(s.pending + w =~= s.pending.push(c));
    } else {
        let v = w.drop_last();
        assert(numeral_chars(v)) by {
            assert forall|i: int| 0 <= i < v.len() implies is_digit(#[trigger] v[i]) || v[i] == '.' by {
                assert(v[i] == w[i]);
            }
        }
        lemma_scan_numeral(s, v);
        assert(s.pending + v + seq![c] =~= s.pending + w);
        assert((s.pending + v).push(c) =~= s.pending + w);
    }
}

/// The text of the numbers `args`, each followed by a comma.
pub open spec fn numbers_text(args: Seq<Decimal>) -> Seq<char>
    decreases args.len(),
{
    if args.len() == 0 {
        Seq::empty()
    } else {
        numbers_text(args.drop_last()) + decimal_text(args.last()) + seq![',']
    }
}

proof fn lemma_scan_number(s: Scan, d: Decimal)
    requires
        d.wf(),
        !s.command.is_stop(),
        s.pending.len() == 0,
    ensures
        scan_from(s, decimal_text(d) + seq![',']) == Ok::<Scan, PathFault>(
            Scan { values: s.values.push(d), already_flushed: false, ..s },
        ),
{
    law_text_round_trip(d);
    crate::decimal::lemma_text_shape(d);
    let t = decimal_text(d);
    let u = if d.mantissa < 0 { t.drop_first() } else { t };
    if d.mantissa < 0 {
        assert(t =~= seq!['-'] + u);
        assert(seq!['-'].drop_last() =~= Seq::<char>::empty());
        let s1 = Scan { pending: seq!['-'], already_flushed: false, ..s };
        assert(seq!['-'].last() == '-');
        assert(s.pending.push('-') =~= seq!['-']);
        assert(flush_spec(s) == Ok::<Scan, PathFault>(s));
        assert(read_char_spec(s, '-') == Ok::<Scan, PathFault>(s1));
        assert(scan_from(s, Seq::<char>::empty()) == Ok::<Scan, PathFault>(s));
        assert(step_spec(s, '-') == Ok::<Scan, PathFault>(s1));
        assert(scan_from(s, seq!['-']) == Ok::<Scan, PathFault>(s1));
        lemma_scan_numeral(s1, u);
        lemma_scan_from_concat(s, seq!['-'], u);
        assert(seq!['-'] + u =~= t);
        assert(s1.pending + u =~= t);
    } else {
        lemma_scan_numeral(s, u);
        assert(s.pending + u =~= t);
    }
    lemma_scan_from_concat(s, t, seq![',']);
    let st = Scan { pending: t, already_flushed: false, ..s };
    assert(scan_from(s, t) == Ok::<Scan, PathFault>(st));
    assert(s.pending =~= Seq::<char>::empty());
    assert(seq![','].drop_last() =~= Seq::<char>::empty());
    assert(seq![','].last() == ',');
    assert(scan_from(st, Seq::<char>::empty()) == Ok::<Scan, PathFault>(st));
    assert(scan_from(st, seq![',']) == step_spec(st, ','));
    assert(flush_spec(st) == Ok::<Scan, PathFault>(
        Scan { values: s.values.push(d), pending: Seq::empty(), already_flushed: false, ..s },
    ));
    assert(step_spec(st, ',') == Ok::<Scan, PathFault>(
        Scan { values: s.values.push(d), already_flushed: false, ..s },
    ));
}

proof fn lemma_scan_numbers(s: Scan, args: Seq<Decimal>)
    requires
        all_wf(args),
        !s.command.is_stop(),
        s.pending.len() == 0,
        !s.already_flushed,
    ensures
        scan_from(s, numbers_text(args)) == Ok::<Scan, PathFault>(
            Scan { values: s.values + args, ..s },
        ),
    decreases args.len(),
{
    if args.len() == 0 {
        assert(s.values + args =~= s.values);
    } else {
        let front = args.drop_last();
        assert(all_wf(front)) by {
            assert forall|i: int| 0 <= i < front.len() implies (#[trigger] front[i]).wf() by {
                assert(front[i] == args[i]);
            }
        }
        assert(args.last().wf());
        lemma_scan_numbers(s, front);
        lemma_scan_from_concat(s, numbers_text(front), decimal_text(args.last()) + seq![',']);
        assert(numbers_text(args) =~= numbers_text(front) + (decimal_text(args.last()) + seq![',']));
        lemma_scan_number(Scan { values: s.values + front, ..s }, args.last());
        assert((s.values + front).push(args.last()) =~= s.values + args);
    }
}

/// The letter of a command (`M` for an absolute move).
pub open spec fn letter_of(cmd: Command) -> char {
    match cmd {
        Command::MoveAbsolute => 'M',
        Command::MoveRelative => 'm',
        Command::LineAbsolute => 'L',
        Command::LineRelative => 'l',
        Command::HorizontalLineAbsolute => 'H',
        Command::HorizontalLineRelative => 'h',
        Command::VerticalLineAbsolute => 'V',
        Command::VerticalLineRelative => 'v',
        Command::CubicBezierAbsolute => 'C',
        Command::CubicBezierRelative => 'c',
        Command::CubicBezierSmoothAbsolute => 'S',
        Command::CubicBezierSmoothRelative => 's',
        Command::QuadraticBezierAbsolute => 'Q',
        Command::QuadraticBezierRelative => 'q',
        Command::QuadraticBezierSmoothAbsolute => 'T',
        Command::QuadraticBezierSmoothRelative => 't',
        Command::EllipticalArcAbsolute => 'A',
        Command::EllipticalArcRelative => 'a',
        Command::StopAbsolute => 'Z',
        Command::StopRelative => 'z',
        Command::NotSet => ' ',
    }
}

/// A command that takes numbers: neither the start state nor a stop.
pub open spec fn takes_numbers(cmd: Command) -> bool {
    !(cmd is NotSet) && !cmd.is_stop()
}

/// The path text of `cmds`: each command's letter, then its numbers, each
/// followed by a comma.
pub open spec fn commands_text(cmds: Seq<(Command, Seq<Decimal>)>) -> Seq<char>
    decreases cmds.len(),
{
    if cmds.len() == 0 {
        Seq::empty()
    } else {
        commands_text(cmds.drop_last()) + seq![letter_of(cmds.last().0)] + numbers_text(
            cmds.last().1,
        )
    }
}

proof fn lemma_letter_of(cmd: Command)
    requires
        !(cmd is NotSet),
    ensures
        letter_command(letter_of(cmd)) == Some(cmd),
{
}

proof fn lemma_commands_rule_push(
    cmds: Seq<(Command, Seq<Decimal>)>,
    x: (Command, Seq<Decimal>),
    c: Point,
)
    ensures
        commands_rule(cmds.push(x), c) == match commands_rule(cmds, c) {
            Some(q) => tuples_rule(x.0, q, x.1),
            None => None,
        },
    decreases cmds.len(),
{
    if cmds.len() == 0 {
        assert(cmds.push(x).drop_first() =~= Seq::<(Command, Seq<Decimal>)>::empty());
        assert(cmds.push(x)[0] == x);
        assert(commands_rule(cmds, c) == Some(c));
        if let Some(q) = tuples_rule(x.0, c, x.1) {
            assert(commands_rule(Seq::<(Command, Seq<Decimal>)>::empty(), q) == Some(q));
        }
    } else {
        assert(cmds.push(x).drop_first() =~= cmds.drop_first().push(x));
        assert(cmds.push(x)[0] == cmds[0]);
        if let Some(p) = tuples_rule(cmds[0].0, c, cmds[0].1) {
            lemma_commands_rule_push(cmds.drop_first(), x, p);
        }
    }
}

/// A letter read in a state with nothing pending.
proof fn lemma_scan_letter(s: Scan, next: Command)
    requires
        !(next is NotSet),
        s.pending.len() == 0,
        s.cursor.wf(),
        all_wf(s.values),
        !s.command.is_stop(),
    ensures
        scan_from(s, seq![letter_of(next)]) matches Ok(t) ==> {
            &&& t.command == next
            &&& t.values == Seq::<Decimal>::empty()
            &&& t.pending.len() == 0
            &&& !t.already_flushed
            &&& tuples_rule(s.command, s.cursor, s.values) == Some(t.cursor)
            &&& t.cursor.wf()
        },
{
    lemma_letter_of(next);
    let c = letter_of(next);
    assert(seq![c].drop_last() =~= Seq::<char>::empty());
    assert(seq![c].last() == c);
    assert(scan_from(s, Seq::<char>::empty()) == Ok::<Scan, PathFault>(s));
    assert(flush_spec(s) == Ok::<Scan, PathFault>(s));
    lemma_tuples_follow_rule(s.command, s.cursor, s.values);
    if let Ok(t) = scan_from(s, seq![c]) {
        assert(step_spec(s, c) == Ok::<Scan, PathFault>(t));
        if next.is_stop() {
            assert(switch_spec(s, next) matches Ok(t1) && t1.pending.len() == 0);
        }
    }
}

proof fn lemma_scan_commands(cmds: Seq<(Command, Seq<Decimal>)>)
    requires
        cmds.len() > 0,
        forall|i: int|
            0 <= i < cmds.len() ==> takes_numbers(#[trigger] cmds[i].0) && all_wf(cmds[i].1),
    ensures
        scan_spec(commands_text(cmds)) matches Ok(s) ==> {
            &&& s.command == cmds.last().0
            &&& s.values == cmds.last().1
            &&& s.pending.len() == 0
            &&& !s.already_flushed
            &&& s.cursor.wf()
            &&& commands_rule(cmds.drop_last(), origin_spec()) == Some(s.cursor)
        },
    decreases cmds.len(),
{
    let front = cmds.drop_last();
    let x = cmds.last();
    assert(takes_numbers(cmds[cmds.len() - 1].0) && all_wf(cmds[cmds.len() - 1].1));
    let prefix = commands_text(front);
    lemma_scan_is_scan_from(commands_text(cmds));
    lemma_scan_is_scan_from(prefix);
    lemma_scan_from_concat(initial_scan(), prefix + seq![letter_of(x.0)], numbers_text(x.1));
    lemma_scan_from_concat(initial_scan(), prefix, seq![letter_of(x.0)]);
    if front.len() > 0 {
        assert forall|i: int| 0 <= i < front.len() implies takes_numbers(
            #[trigger] front[i].0,
        ) && all_wf(front[i].1) by {
            assert(front[i] == cmds[i]);
        }
        lemma_scan_commands(front);
        if let Ok(s) = scan_spec(prefix) {
            lemma_scan_letter(s, x.0);
            if let Ok(t) = scan_from(s, seq![letter_of(x.0)]) {
                lemma_scan_numbers(t, x.1);
                assert(Seq::<Decimal>::empty() + x.1 =~= x.1);
                assert(front.drop_last().push(front.last()) =~= front);
                lemma_commands_rule_push(front.drop_last(), front.last(), origin_spec());
            }
        }
    } else {
        assert(prefix =~= Seq::<char>::empty());
        assert(scan_spec(prefix) == Ok::<Scan, PathFault>(initial_scan()));
        assert(all_wf(Seq::<Decimal>::empty()));
        lemma_scan_letter(initial_scan(), x.0);
        if let Ok(t) = scan_from(initial_scan(), seq![letter_of(x.0)]) {
            lemma_scan_numbers(t, x.1);
            assert(Seq::<Decimal>::empty() + x.1 =~= x.1);
        }
    }
}

/// For a path written as command letters, each followed by its numbers with
/// a comma after each, and ended by `Z`, the interpreter's cursor after the
/// last command is the one that the commands' absolute and relative rules
/// give when applied by hand, tuple by tuple, from the origin.
pub proof fn law_cursor_follows_rules_in_text(cmds: Seq<(Command, Seq<Decimal>)>)
    requires
        forall|i: int|
            0 <= i < cmds.len() ==> takes_numbers(#[trigger] cmds[i].0) && all_wf(cmds[i].1),
    ensures
        scan_spec(commands_text(cmds).push('Z')) matches Ok(s) ==> commands_rule(
            cmds,
            origin_spec(),
        ) == Some(s.cursor),
{
    let text = commands_text(cmds);
    lemma_scan_is_scan_from(text.push('Z'));
    lemma_scan_is_scan_from(text);
    assert(text.push('Z') =~= text + seq![letter_of(Command::StopAbsolute)]);
    lemma_scan_from_concat(initial_scan(), text, seq![letter_of(Command::StopAbsolute)]);
    if cmds.len() > 0 {
        lemma_scan_commands(cmds);
        if let Ok(s) = scan_spec(text) {
            lemma_scan_letter(s, Command::StopAbsolute);
            assert(cmds.drop_last().push(cmds.last()) =~= cmds);
            lemma_commands_rule_push(cmds.drop_last(), cmds.last(), origin_spec());
        }
    } else {
        assert(text =~= Seq::<char>::empty());
        assert(all_wf(Seq::<Decimal>::empty()));
        lemma_scan_letter(initial_scan(), Command::StopAbsolute);
    }
}

} // verus!
