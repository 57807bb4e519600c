//! The motion interpreter: a state machine that folds a command stream into a
//! sequence of 3-D line segments.
//!
//! State is the current position, the cumulative deposited-material quantity,
//! and the positioning mode. A linear or rapid motion command (`G0`, `G1`)
//! resolves each axis — a given argument replaces the value in absolute mode
//! and offsets it in relative mode; an absent argument carries the previous
//! value forward — and emits a segment exactly when the resolved position
//! differs from the prior one. `G90` and `G91` switch the positioning mode.
//! Every other command leaves the state untouched.
use vstd::prelude::*;

use crate::geometry::clamp_coord;
use crate::geometry::clamp_coord_i128;
use crate::geometry::coord_in_range;
use crate::geometry::LineSegment;
use crate::geometry::Point3D;
use crate::parser::line_commands;
use crate::parser::line_commands_exec;
use crate::parser::split_lines;
use crate::parser::Command;

verus! {

/// The interpreter's transient state.
#[derive(Clone, Copy, PartialEq, Eq, Structural, Debug)]
pub struct InterpreterState {
    pub pos: Point3D,
    pub deposited: i64,
    pub relative: bool,
}

impl InterpreterState {
    pub open spec fn wf(self) -> bool {
        self.pos.wf() && coord_in_range(self.deposited as int)
    }
}

/// Position at the origin, nothing deposited, absolute positioning.
pub open spec fn initial_state() -> InterpreterState {
    InterpreterState { pos: Point3D { x: 0, y: 0, z: 0 }, deposited: 0, relative: false }
}

/// Resolves one axis: a given argument replaces the old value in absolute
/// mode and offsets it in relative mode; an absent argument carries the old
/// value forward. Results clamp to the representable coordinate range.
pub open spec fn resolve_axis(old_v: i64, arg: Option<i64>, relative: bool) -> int {
    match arg {
        None => old_v as int,
        Some(v) => if relative {
            clamp_coord(old_v + v)
        } else {
            clamp_coord(v as int)
        },
    }
}

/// Fixed-point command codes of the interpreted commands.
pub const CODE_RAPID: i64 = 0;

pub const CODE_LINEAR: i64 = 1000;

pub const CODE_ABSOLUTE: i64 = 90_000;

pub const CODE_RELATIVE: i64 = 91_000;

/// Whether a command is a linear or rapid motion command.
pub open spec fn is_motion(c: Command) -> bool {
    c.letter == 71 && (c.code == CODE_RAPID || c.code == CODE_LINEAR)
}

/// The state after one motion command.
pub open spec fn motion_state(st: InterpreterState, c: Command) -> InterpreterState {
    let np = Point3D {
        x: resolve_axis(st.pos.x, c.args.x, st.relative) as i64,
        y: resolve_axis(st.pos.y, c.args.y, st.relative) as i64,
        z: resolve_axis(st.pos.z, c.args.z, st.relative) as i64,
    };
    let ne = resolve_axis(st.deposited, c.args.e, st.relative) as i64;
    InterpreterState { pos: np, deposited: ne, relative: st.relative }
}

/// One step of the interpreter: the next state and the segment emitted, if
/// any. A segment is emitted exactly when a motion command resolves to a
/// position that differs from the prior one; its `is_depositing` flag is true
/// exactly when the resolved deposited quantity strictly exceeds the prior
/// one, and its `layer_z` is the resolved z-coordinate. State updates even
/// when no segment is emitted.
pub open spec fn step(st: InterpreterState, c: Command) -> (InterpreterState, Option<LineSegment>) {
    if is_motion(c) {
        let next = motion_state(st, c);
        if next.pos != st.pos {
            let seg = LineSegment {
                start: st.pos,
                end: next.pos,
                is_depositing: next.deposited > st.deposited,
                layer_z: next.pos.z,
            };
            (next, Some(seg))
        } else {
            (next, None)
        }
    } else if c.letter == 71 && c.code == CODE_ABSOLUTE {
        (InterpreterState { relative: false, ..st }, None)
    } else if c.letter == 71 && c.code == CODE_RELATIVE {
        (InterpreterState { relative: true, ..st }, None)
    } else {
        (st, None)
    }
}

/// Runs the interpreter over the commands from index `i` on.
pub open spec fn run_commands(st: InterpreterState, cmds: Seq<Command>, i: int) -> (
    InterpreterState,
    Seq<LineSegment>,
)
    decreases cmds.len() - i,
{
    if i < 0 || i >= cmds.len() {
        (st, Seq::empty())
    } else {
        let (st1, emitted) = step(st, cmds[i]);
        let (st2, rest) = run_commands(st1, cmds, i + 1);
        match emitted {
            None => (st2, rest),
            Some(seg) => (st2, seq![seg].add(rest)),
        }
    }
}

/// Runs the interpreter over a sequence of lines, each line contributing the
/// commands its text scans to.
pub open spec fn run_lines(st: InterpreterState, lines: Seq<Seq<u8>>) -> (
    InterpreterState,
    Seq<LineSegment>,
)
    decreases lines.len(),
{
    if lines.len() == 0 {
        (st, Seq::empty())
    } else {
        let (st1, segs1) = run_commands(st, line_commands(lines[0]), 0);
        let (st2, segs2) = run_lines(st1, lines.skip(1));
        (st2, segs1.add(segs2))
    }
}

/// The segment sequence the whole text interprets to.
pub open spec fn spec_parse_gcode(t: Seq<u8>) -> Seq<LineSegment> {
    run_lines(initial_state(), split_lines(t, 0)).1
}

/// Applies one command to the state, returning the next state and the emitted
/// segment, if any.
pub fn apply_command(st: &InterpreterState, c: &Command) -> (r: (
    InterpreterState,
    Option<LineSegment>,
))
    ensures
        r == step(*st, *c),
        st.wf() ==> r.0.wf(),
{
    if c.letter == 71 && (c.code == CODE_RAPID || c.code == CODE_LINEAR) {
        let nx = resolve_axis_exec(st.pos.x, c.args.x, st.relative);
        let ny = resolve_axis_exec(st.pos.y, c.args.y, st.relative);
        let nz = resolve_axis_exec(st.pos.z, c.args.z, st.relative);
        let ne = resolve_axis_exec(st.deposited, c.args.e, st.relative);
        let np = Point3D { x: nx, y: ny, z: nz };
        let next = InterpreterState { pos: np, deposited: ne, relative: st.relative };
        if np.x != st.pos.x || np.y != st.pos.y || np.z != st.pos.z {
            let seg = LineSegment {
                start: st.pos,
                end: np,
                is_depositing: ne > st.deposited,
                layer_z: nz,
            };
            (next, Some(seg))
        } else {
            (next, None)
        }
    } else if c.letter == 71 && c.code == CODE_ABSOLUTE {
        (InterpreterState { relative: false, ..*st }, None)
    } else if c.letter == 71 && c.code == CODE_RELATIVE {
        (InterpreterState { relative: true, ..*st }, None)
    } else {
        (*st, None)
    }
}

fn resolve_axis_exec(old_v: i64, arg: Option<i64>, relative: bool) -> (r: i64)
    ensures
        r as int == resolve_axis(old_v, arg, relative),
{
    match arg {
        None => old_v,
        Some(v) => {
            if relative {
                clamp_coord_i128((old_v as i128) + (v as i128))
            } else {
                clamp_coord_i128(v as i128)
            }
        },
    }
}

/// Runs all commands of one line, appending the emitted segments.
fn run_commands_exec(st: &mut InterpreterState, cmds: &Vec<Command>, segments: &mut Vec<
    LineSegment,
>)
    ensures
        *final(st) == run_commands(*old(st), cmds@, 0).0,
        final(segments)@ == old(segments)@.add(run_commands(*old(st), cmds@, 0).1),
        old(st).wf() ==> final(st).wf(),
{
    let ghost st0 = *st;
    let mut i: usize = 0;
    while i < cmds.len()
        invariant
            i <= cmds@.len(),
            run_commands(st0, cmds@, 0).0 == run_commands(*st, cmds@, i as int).0,
            run_commands(st0, cmds@, 0).1 == segments@.subrange(
                old(segments)@.len() as int,
                segments@.len() as int,
            ).add(run_commands(*st, cmds@, i as int).1),
            segments@.subrange(0, old(segments)@.len() as int) == old(segments)@,
            old(segments)@.len() <= segments@.len(),
            st0.wf() ==> st.wf(),
        decreases cmds@.len() - i,
    {
        let (next, emitted) = apply_command(st, &cmds[i]);
        *st = next;
        match emitted {
            None => {},
            Some(seg) => {
                segments.push(seg);
            },
        }
        proof {
            let base = old(segments)@.len() as int;
            assert(segments@.subrange(0, base) =~= old(segments)@);
            let emitted_now = segments@.subrange(base, segments@.len() as int);
            assert(run_commands(st0, cmds@, 0).1 =~= emitted_now.add(
                run_commands(*st, cmds@, i as int + 1).1,
            ));
        }
        i = i + 1;
    }
    proof {
        assert(segments@.subrange(old(segments)@.len() as int, segments@.len() as int).add(
            Seq::empty(),
        ) =~= segments@.subrange(old(segments)@.len() as int, segments@.len() as int));
        assert(old(segments)@.add(
            segments@.subrange(old(segments)@.len() as int, segments@.len() as int),
        ) =~= segments@);
    }
}

/// Interprets the full text of a motion-instruction file into the ordered
/// sequence of line segments it describes.
pub fn parse_gcode(text: &[u8]) -> (segments: Vec<LineSegment>)
    ensures
        segments@ == spec_parse_gcode(text@),
        forall|k: int|
            0 <= k < segments@.len() ==> #[trigger] segments@[k].start != segments@[k].end,
        forall|k: int| 0 <= k < segments@.len() ==> #[trigger] segments@[k].wf(),
{
    let ghost t = text@;
    let mut segments: Vec<LineSegment> = Vec::new();
    let mut st = InterpreterState {
        pos: Point3D { x: 0, y: 0, z: 0 },
        deposited: 0,
        relative: false,
    };
    let mut i: usize = 0;
    while i < text.len()
        invariant
            i <= t.len(),
            st.wf(),
            run_lines(initial_state(), split_lines(t, 0)).0 == run_lines(
                st,
                split_lines(t, i as int),
            ).0,
            run_lines(initial_state(), split_lines(t, 0)).1 == segments@.add(
                run_lines(st, split_lines(t, i as int)).1,
            ),
        decreases t.len() - i,
    {
        // find the end of the current line
        let mut j: usize = i;
        while j < text.len() && text[j] != 10
            invariant
                i <= j <= t.len(),
                crate::parser::line_end(t, i as int) == crate::parser::line_end(t, j as int),
            decreases t.len() - j,
        {
            j = j + 1;
        }
        assert(crate::parser::line_end(t, i as int) == j as int);
        // copy the line
        let mut line: Vec<u8> = Vec::new();
        let mut k: usize = i;
        while k < j
            invariant
                i <= k <= j <= t.len(),
                line@ == t.subrange(i as int, k as int),
            decreases j - k,
        {
            let b = text[k];
            line.push(b);
            proof {
                assert(t.subrange(i as int, k as int).push(t[k as int]) =~= t.subrange(
                    i as int,
                    k as int + 1,
                ));
            }
            k = k + 1;
        }
        assert(line@ == t.subrange(i as int, j as int));
        let cmds = line_commands_exec(&line);
        let ghost st_before = st;
        run_commands_exec(&mut st, &cmds, &mut segments);
        proof {
            let lines_here = split_lines(t, i as int);
            assert(lines_here[0] == t.subrange(i as int, j as int));
            assert(lines_here.skip(1) =~= split_lines(t, j as int + 1));
            let (st1, segs1) = run_commands(st_before, cmds@, 0);
            assert(run_lines(st_before, lines_here).0 == run_lines(
                st1,
                split_lines(t, j as int + 1),
            ).0);
            assert(run_lines(st_before, lines_here).1 =~= segs1.add(
                run_lines(st1, split_lines(t, j as int + 1)).1,
            ));
        }
        if j < text.len() {
            i = j + 1;
        } else {
            // the last line ends without a line break
            proof {
                assert(split_lines(t, j as int) =~= Seq::<Seq<u8>>::empty());
                assert(split_lines(t, j as int + 1) =~= Seq::<Seq<u8>>::empty());
            }
            i = j;
        }
        proof {
            assert(run_lines(initial_state(), split_lines(t, 0)).1 =~= segments@.add(
                run_lines(st, split_lines(t, i as int)).1,
            ));
        }
    }
    proof {
        assert(split_lines(t, i as int) =~= Seq::<Seq<u8>>::empty());
        assert(segments@.add(Seq::<LineSegment>::empty()) =~= segments@);
        lemma_run_lines_segments(initial_state(), split_lines(t, 0));
    }
    segments
}

/// Every segment a run of the interpreter emits joins two distinct points,
/// and — from a well-formed state — is itself well-formed.
pub proof fn lemma_run_commands_segments(st: InterpreterState, cmds: Seq<Command>, i: int)
    ensures
        st.wf() ==> run_commands(st, cmds, i).0.wf(),
        forall|k: int|
            0 <= k < run_commands(st, cmds, i).1.len() ==> #[trigger] run_commands(
                st,
                cmds,
                i,
            ).1[k].start != run_commands(st, cmds, i).1[k].end,
        st.wf() ==> forall|k: int|
            0 <= k < run_commands(st, cmds, i).1.len() ==> #[trigger] run_commands(
                st,
                cmds,
                i,
            ).1[k].wf(),
    decreases cmds.len() - i,
{
    if 0 <= i < cmds.len() {
        let (st1, emitted) = step(st, cmds[i]);
        lemma_run_commands_segments(st1, cmds, i + 1);
        let rest = run_commands(st1, cmds, i + 1).1;
        let whole = run_commands(st, cmds, i).1;
        match emitted {
            None => {
                assert(whole =~= rest);
            },
            Some(seg) => {
                assert(whole =~= seq![seg].add(rest));
                assert forall|k: int|
                    0 <= k < whole.len() implies #[trigger] whole[k].start != whole[k].end by {
                    if k == 0 {
                        assert(whole[0] == seg);
                    } else {
                        assert(whole[k] == rest[k - 1]);
                    }
                }
                if st.wf() {
                    assert forall|k: int| 0 <= k < whole.len() implies #[trigger] whole[k].wf() by {
                        if k == 0 {
                            assert(whole[0] == seg);
                        } else {
                            assert(whole[k] == rest[k - 1]);
                        }
                    }
                }
            },
        }
    }
}

/// The same, over whole lines of text.
pub proof fn lemma_run_lines_segments(st: InterpreterState, lines: Seq<Seq<u8>>)
    ensures
        st.wf() ==> run_lines(st, lines).0.wf(),
        forall|k: int|
            0 <= k < run_lines(st, lines).1.len() ==> #[trigger] run_lines(st, lines).1[k].start
                != run_lines(st, lines).1[k].end,
        st.wf() ==> forall|k: int|
            0 <= k < run_lines(st, lines).1.len() ==> #[trigger] run_lines(st, lines).1[k].wf(),
    decreases lines.len(),
{
    if lines.len() > 0 {
        lemma_run_commands_segments(st, line_commands(lines[0]), 0);
        let st1 = run_commands(st, line_commands(lines[0]), 0).0;
        lemma_run_lines_segments(st1, lines.skip(1));
        let segs1 = run_commands(st, line_commands(lines[0]), 0).1;
        let segs2 = run_lines(st1, lines.skip(1)).1;
        let whole = run_lines(st, lines).1;
        assert(whole =~= segs1.add(segs2));
        assert forall|k: int|
            0 <= k < whole.len() implies #[trigger] whole[k].start != whole[k].end by {
            if k < segs1.len() {
                assert(whole[k] == segs1[k]);
            } else {
                assert(whole[k] == segs2[k - segs1.len()]);
            }
        }
        if st.wf() {
            assert forall|k: int| 0 <= k < whole.len() implies #[trigger] whole[k].wf() by {
                if k < segs1.len() {
                    assert(whole[k] == segs1[k]);
                } else {
                    assert(whole[k] == segs2[k - segs1.len()]);
                }
            }
        }
    }
}

/// No emitted segment is zero-length: its start and end differ in at least
/// one coordinate, whatever the input text.
pub proof fn lemma_no_zero_length_segments(t: Seq<u8>)
    ensures
        forall|k: int|
            0 <= k < spec_parse_gcode(t).len() ==> #[trigger] spec_parse_gcode(t)[k].start
                != spec_parse_gcode(t)[k].end,
{
    lemma_run_lines_segments(initial_state(), split_lines(t, 0));
}

/// Carry-forward: an axis the command does not mention keeps its prior value,
/// and an unmentioned deposited-material argument keeps the prior quantity.
pub proof fn lemma_carry_forward(st: InterpreterState, c: Command)
    requires
        is_motion(c),
    ensures
        c.args.x is None ==> step(st, c).0.pos.x == st.pos.x,
        c.args.y is None ==> step(st, c).0.pos.y == st.pos.y,
        c.args.z is None ==> step(st, c).0.pos.z == st.pos.z,
        c.args.e is None ==> step(st, c).0.deposited == st.deposited,
{
}

/// Relative-mode correctness: under relative positioning, a given axis
/// argument resolves to the prior value plus the argument (clamped to the
/// representable range).
pub proof fn lemma_relative_mode(st: InterpreterState, c: Command)
    requires
        is_motion(c),
        st.relative,
    ensures
        forall|v: i64|
            c.args.x == Some(v) ==> step(st, c).0.pos.x as int == clamp_coord(st.pos.x + v),
        forall|v: i64|
            c.args.y == Some(v) ==> step(st, c).0.pos.y as int == clamp_coord(st.pos.y + v),
        forall|v: i64|
            c.args.z == Some(v) ==> step(st, c).0.pos.z as int == clamp_coord(st.pos.z + v),
        forall|v: i64|
            c.args.e == Some(v) ==> step(st, c).0.deposited as int == clamp_coord(
                st.deposited + v,
            ),
{
}

/// Depositing detection: an emitted segment is marked depositing exactly when
/// the resolved deposited-material quantity strictly exceeds the prior one.
pub proof fn lemma_depositing_iff(st: InterpreterState, c: Command)
    ensures
        forall|seg: LineSegment|
            step(st, c).1 == Some(seg) ==> (seg.is_depositing <==> step(st, c).0.deposited
                > st.deposited),
{
}

} // verus!
