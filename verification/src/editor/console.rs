//! The script console: its log, its input line, history and completion.

use vstd::prelude::*;
use vstd::string::*;

use crate::text::{chars_of, join, lines_of, longest_common_prefix, same, starts_with, trim};

verus! {

/// The most lines that the log keeps after a script has run.
pub const LOG_LIMIT: usize = 1000;

/// How many completions stand in one row.
pub const ROW: usize = 6;

/// The help text, line by line.
pub const HELP: [&'static str; 120] = [
    "──────────── Articara Script Console ────────────",
    "",
    "  Model:",
    "    load(path)              Load URDF/SDF/MJCF/USD",
    "    model_name()            Model name",
    "    has_model()             Whether a model is loaded",
    "",
    "  Links:",
    "    link_names()            All link names",
    "    num_links()             Link count",
    "    link_pos(name)          Link world position [x,y,z]",
    "    link_rpy(name)          Link orientation [r,p,y]",
    "",
    "  Joints:",
    "    joint_names()           All joint names",
    "    num_joints()            Joint count",
    "    joint_pos(name)         Get position by name",
    "    joint_pos_idx(i)        Get position by index",
    "    set_joint(name, val)    Set position by name",
    "    set_joint_idx(i, val)   Set position by index",
    "    joint_positions()       All positions as array",
    "    set_joints(array)       Set all from array",
    "    joint_limits(name)      [lower, upper]",
    "    joint_type(name)        Type string",
    "",
    "  Kinematics:",
    "    fk()                    FK map {name: [x,y,z]}",
    "    ik(link, x, y, z)       10 IK steps",
    "    ik_steps(link, x,y,z,n) n IK steps → error",
    "",
    "  Constraints:",
    "    add_loop_closure(name, linkA, ox,oy,oz, linkB, ox,oy,oz)",
    "    loop_closure_error()    Current constraint error",
    "    num_loop_closures()     Constraint count",
    "",
    "  Export:",
    "    export_urdf(path)       Export URDF",
    "    export_sdf(path)        Export SDF",
    "    export_mjcf(path)       Export MJCF",
    "",
    "  Mesh Reduction (method: \"qem\"|\"edge\"|\"cluster\"):",
    "    reduce_mesh(link, vi, ratio)        QEM (default)",
    "    reduce_mesh(link, vi, ratio, method) With algorithm",
    "    reduce_collision_mesh(link,ci,r,[m]) Collision mesh",
    "    reduce_all_meshes(ratio, [method])   All meshes",
    "",
    "  Mesh Decomposition:",
    "    decompose_vhacd(link, ci)            V-HACD (default)",
    "    decompose_vhacd(link, ci, max_hulls) V-HACD with limit",
    "    decompose_spheres(link, ci)          Sphere tree",
    "    decompose_spheres(link, ci, max_n)   Sphere tree with limit",
    "",
    "  MuJoCo Sim:",
    "    mj_start()                  Construct sim (default options)",
    "    mj_stop()                   Destroy sim, restore pose",
    "    mj_active()                 Whether a sim is running",
    "    mj_step(n)                  Advance n physics frames",
    "    mj_step_back(n)             Replay n frames backwards",
    "    mj_timestep()               Native physics dt (s)",
    "    mj_history_len()            Frames available for step_back",
    "    mj_trace_len()              Samples in (q,q̇,τ) trace ring",
    "    mj_set_trace_max(n)         Resize trace ring (returns n)",
    "    mj_gravity_compensation(on) Toggle τ_grav feedforward",
    "    save_peaks_csv(path)        Write trace to CSV; rows or -1",
    "",
    "  Quadruped gait (CHAMP-equivalent):",
    "    gait_setup()                 Auto-detect from default foot links (FL/FR/RL/RR_foot)",
    "    gait_setup_with_feet(fl,fr,rl,rr)  Same but custom names",
    "    gait_set_velocity(vx,vy,wz)  Body-frame velocity command",
    "    gait_start() / gait_stop()   Drive joint targets while sim runs",
    "    gait_running() / gait_active()  Bool — currently driving / built",
    "    gait_set_cycle_period(s) / gait_set_swing_height(m)",
    "    gait_set_duty(0..1) / gait_set_max_step(m)",
    "    gait_set_knee_pattern(\"<<|<>|><|>>\")  Front/rear knee bend",
    "    gait_knee_pattern()          Read back as shorthand string",
    "",
    "  Async timeline (UI animates the queue, viewport reflects it):",
    "    mj_async_step_seconds(s)    Queue advancing the sim by s seconds",
    "    mj_async_step_frames(n)     Queue advancing by n physics frames",
    "    mj_async_set_position_target(joint, q)   Queue setting target",
    "    mj_async_print(msg)         Queue a console message",
    "    mj_async_save_csv(path)     Queue a CSV save",
    "    mj_async_pending()          Ops still queued",
    "    mj_async_clear()            Drop all queued ops; returns count",
    "",
    "  Pose / Force:",
    "    play_pose(name)             Smooth transition (saved dur)",
    "    play_pose(name, dur)        Transition with explicit duration",
    "    transition_in_progress()    Bool",
    "    transition_progress()       0..1 (-1 if idle)",
    "    play_sequence(name)         Chained pose sequence playback",
    "    sequence_in_progress()      Bool",
    "    sequence_progress()         0..1 (-1 if idle)",
    "    apply_force(link,fx,fy,fz,tx,ty,tz,dur)  World-frame pulse",
    "    cancel_force(link)          Stop active pulse on link",
    "",
    "  Joint peaks (max |τ| / |q̇| since last reset):",
    "    reset_peaks()               Clear all peaks",
    "    peak_torque(joint)          N·m or N",
    "    peak_velocity(joint)        rad/s or m/s",
    "    peaks()                     Map: name → [tau_abs, qvel_abs]",
    "",
    "  Actuator / motor properties (per joint):",
    "    set_actuator_mode(joint, \"Position|Velocity|Torque|ComputedTorque\")",
    "    set_actuator_mode_all(mode)    Bulk variant; returns n joints",
    "    set_kp(joint, kp)           Position/CT-mode P gain",
    "    set_kv(joint, kv)           Position/Velocity/CT-mode D gain",
    "    set_armature(joint, I)      Reflected rotor inertia (kg·m²)",
    "    set_joint_damping(joint, b) Passive damping (N·m·s/rad)",
    "    set_kp_all(kp) … set_joint_damping_all(b)  → returns n joints",
    "    set_position_target(joint, q)",
    "    set_velocity_target(joint, qd)",
    "    set_torque_target(joint, tau)",
    "",
    "  Math:  sin cos sqrt abs atan2 clamp to_deg to_rad PI()",
    "         min_f max_f dist(ax,ay,az,bx,by,bz)",
    "",
    "  Console:  clear  help  ↑/↓ history  Tab completion",
    "  Run a file: 📂 button at top-right (or set up your own .rhai)",
    "──────────────────────────────────────────────────",
];

/// One line of the log.
pub enum ScriptLine {
    Input(String),
    Output(String),
    Error(String),
    System(String),
}

/// A line of the log as a value of contracts.
pub enum LineView {
    Input(Seq<char>),
    Output(Seq<char>),
    Error(Seq<char>),
    System(Seq<char>),
}

impl View for ScriptLine {
    type V = LineView;

    open spec fn view(&self) -> LineView {
        match *self {
            ScriptLine::Input(s) => LineView::Input(s@),
            ScriptLine::Output(s) => LineView::Output(s@),
            ScriptLine::Error(s) => LineView::Error(s@),
            ScriptLine::System(s) => LineView::System(s@),
        }
    }
}

/// A log as a value of contracts.
pub open spec fn log(lines: Seq<ScriptLine>) -> Seq<LineView> {
    lines.map_values(|l: ScriptLine| l@)
}

/// What became of a submitted line.
pub enum Submission {
    /// There was none.
    Nothing,
    /// It was a command of the console.
    Handled,
    /// It is to be evaluated.
    Evaluate(String),
}

pub struct ScriptConsole {
    pub output: Vec<ScriptLine>,
    pub input: String,
    pub history: Vec<String>,
    /// How far back in the history the input line is; zero is not at all.
    pub history_idx: usize,
    pub tab_candidates: Vec<String>,
    pub scroll_to_bottom: bool,
    /// Whether the script engine has been started.
    pub started: bool,
}

/// The welcome line.
pub open spec fn welcome() -> Seq<char> {
    "Articara Script Console (Rhai)  \u{2014} type help() for commands"@
}

/// The lines of the help text.
pub open spec fn help_lines() -> Seq<LineView> {
    Seq::new(120, |i: int| LineView::System(HELP@[i]@))
}

/// The last `n` lines.
pub open spec fn last_lines(s: Seq<LineView>, n: int) -> Seq<LineView> {
    if s.len() > n {
        s.skip(s.len() - n)
    } else {
        s
    }
}

/// The history after `src` has been submitted: a repetition of the last line is
/// not remembered twice.
pub open spec fn remembered(history: Seq<Seq<char>>, src: Seq<char>) -> Seq<Seq<char>> {
    if history.len() > 0 && history.last() == src {
        history
    } else {
        history.push(src)
    }
}

pub open spec fn is_clear(src: Seq<char>) -> bool {
    crate::text::trimmed(src) == "clear"@ || crate::text::trimmed(src) == "clear()"@
}

pub open spec fn is_help(src: Seq<char>) -> bool {
    crate::text::trimmed(src) == "help"@ || crate::text::trimmed(src) == "help()"@
}

/// One entry further back in a history of `n`.
pub open spec fn older(idx: int, n: int) -> int {
    if idx < n {
        idx + 1
    } else {
        n
    }
}

/// One entry further on.
pub open spec fn newer(idx: int) -> int {
    if idx > 1 {
        idx - 1
    } else {
        0
    }
}

/// What an evaluation adds to the log.
pub open spec fn result_lines(result: Result<Seq<Seq<char>>, Seq<char>>) -> Seq<LineView> {
    match result {
        Ok(lines) => lines.map_values(|l: Seq<char>| LineView::Output(l)),
        Err(e) => seq![LineView::Error(e)],
    }
}

/// An evaluation's result as a value of contracts.
pub open spec fn result_view(result: Result<Vec<String>, String>) -> Result<
    Seq<Seq<char>>,
    Seq<char>,
> {
    match result {
        Ok(lines) => Ok(crate::text::views(lines@)),
        Err(e) => Err(e@),
    }
}

/// A character of an identifier.
pub open spec fn word_char(c: char) -> bool {
    crate::text::alphanumeric(c) || c == '_'
}

/// The identifier being typed: the word characters at the end.
pub open spec fn token(s: Seq<char>) -> Seq<char>
    decreases s.len(),
{
    if s.len() == 0 || !word_char(s.last()) {
        Seq::empty()
    } else {
        token(s.drop_last()).push(s.last())
    }
}

/// `c` continues `prefix` by at least one character.
pub open spec fn continues(c: Seq<char>, prefix: Seq<char>) -> bool {
    c.len() > prefix.len() && c.take(prefix.len() as int) == prefix
}

/// The candidates among the first `n` that continue `prefix`, in order.
pub open spec fn completions(candidates: Seq<Seq<char>>, prefix: Seq<char>, n: nat) -> Seq<
    Seq<char>,
>
    decreases n,
{
    if n == 0 || n > candidates.len() {
        Seq::empty()
    } else {
        let before = completions(candidates, prefix, (n - 1) as nat);
        if continues(candidates[n - 1], prefix) {
            before.push(candidates[n - 1])
        } else {
            before
        }
    }
}

/// The completions in rows, the entries of a row two spaces apart.
pub open spec fn rows(all: Seq<Seq<char>>) -> Seq<Seq<char>>
    decreases all.len(),
{
    if all.len() == 0 {
        Seq::empty()
    } else if all.len() <= ROW {
        seq![crate::text::joined(all, "  "@)]
    } else {
        seq![crate::text::joined(all.take(ROW as int), "  "@)] + rows(all.skip(ROW as int))
    }
}

/// The text that shows the completions, one row per line.
pub open spec fn listing(all: Seq<Seq<char>>) -> Seq<char> {
    crate::text::joined(rows(all), "\n"@)
}

/// Appends lines of output.
fn push_all(output: &mut Vec<ScriptLine>, lines: &Vec<String>)
    ensures
        log(final(output)@) == log(old(output)@) + crate::text::views(lines@).map_values(
            |l: Seq<char>| LineView::Output(l),
        ),
{
    let ghost start = log(output@);
    let ghost all = crate::text::views(lines@).map_values(|l: Seq<char>| LineView::Output(l));
    proof {
        assert(start + all.take(0) =~= start);
    }
    let mut i: usize = 0;
    while i < lines.len()
        invariant
            i <= lines.len(),
            all == crate::text::views(lines@).map_values(|l: Seq<char>| LineView::Output(l)),
            log(output@) == start + all.take(i as int),
        decreases lines.len() - i,
    {
        let ghost before = output@;
        output.push(ScriptLine::Output(lines[i].clone()));
        proof {
            assert(log(output@) =~= log(before).push(all[i as int]));
            assert((start + all.take(i as int)).push(all[i as int]) =~= start + all.take(i + 1));
        }
        i += 1;
    }
    proof {
        assert(all.take(all.len() as int) =~= all);
    }
}

/// Appends what an evaluation gave.
fn push_result(output: &mut Vec<ScriptLine>, result: Result<Vec<String>, String>)
    ensures
        log(final(output)@) == log(old(output)@) + result_lines(result_view(result)),
{
    match result {
        Ok(lines) => push_all(output, &lines),
        Err(e) => {
            let ghost before = output@;
            output.push(ScriptLine::Error(e));
            proof {
                assert(log(output@) =~= log(before) + seq![LineView::Error(e@)]);
            }
        },
    }
}

/// The token at the end of the input line.
fn last_token<'a>(input: &'a str) -> (r: &'a str)
    ensures
        r@ == token(input@),
{
    let chars: Vec<char> = chars_of(input);
    let n: usize = chars.len();
    let mut at: usize = n;
    proof {
        assert(input@.subrange(n as int, n as int) =~= Seq::empty());
        assert(input@.take(n as int) =~= input@);
        assert(token(input@) + Seq::<char>::empty() =~= token(input@));
    }
    while at > 0 && (chars[at - 1].is_alphanumeric() || chars[at - 1] == '_')
        invariant
            chars@ == input@,
            n == chars.len(),
            at <= n,
            token(input@) == token(input@.take(at as int)) + input@.subrange(at as int, n as int),
        decreases at,
    {
        proof {
            let s = input@.take(at as int);
            assert(s.drop_last() =~= input@.take(at - 1));
            assert(s.last() == input@[at - 1]);
            assert(token(s.drop_last()).push(s.last()) + input@.subrange(at as int, n as int)
                =~= token(s.drop_last()) + input@.subrange(at - 1, n as int));
        }
        at -= 1;
    }
    proof {
        assert(token(input@.take(at as int)) =~= Seq::empty());
        assert(Seq::<char>::empty() + input@.subrange(at as int, n as int) =~= input@.subrange(
            at as int,
            n as int,
        ));
    }
    input.substring_char(at, n)
}

/// The candidates that continue `prefix`.
fn matching(candidates: &Vec<String>, prefix: &str) -> (r: Vec<String>)
    ensures
        crate::text::views(r@) == completions(
            crate::text::views(candidates@),
            prefix@,
            candidates@.len(),
        ),
{
    let mut out: Vec<String> = Vec::new();
    let n: usize = prefix.unicode_len();
    let mut i: usize = 0;
    proof {
        assert(crate::text::views(out@) =~= Seq::empty());
    }
    while i < candidates.len()
        invariant
            i <= candidates.len(),
            n == prefix@.len(),
            crate::text::views(out@) == completions(
                crate::text::views(candidates@),
                prefix@,
                i as nat,
            ),
        decreases candidates.len() - i,
    {
        let c: &str = candidates[i].as_str();
        if starts_with(c, prefix) && c.unicode_len() > n {
            let ghost before = out@;
            out.push(candidates[i].clone());
            proof {
                assert(crate::text::views(out@) =~= crate::text::views(before).push(c@));
            }
        }
        i += 1;
    }
    out
}

/// The text that shows the completions.
fn list_completions(all: &Vec<String>) -> (r: String)
    ensures
        r@ == listing(crate::text::views(all@)),
{
    let ghost v = crate::text::views(all@);
    let mut out: Vec<String> = Vec::new();
    let mut at: usize = 0;
    proof {
        assert(v.skip(0) =~= v);
        assert(crate::text::views(out@) =~= Seq::empty());
        assert(Seq::<Seq<char>>::empty() + rows(v) =~= rows(v));
    }
    while at < all.len()
        invariant
            at <= all.len(),
            v == crate::text::views(all@),
            rows(v) == crate::text::views(out@) + rows(v.skip(at as int)),
        decreases all.len() - at,
    {
        let end: usize = if all.len() - at > ROW {
            at + ROW
        } else {
            all.len()
        };
        let mut row: Vec<String> = Vec::new();
        let mut i: usize = at;
        proof {
            assert(crate::text::views(row@) =~= v.subrange(at as int, at as int));
        }
        while i < end
            invariant
                at <= i <= end <= all.len(),
                v == crate::text::views(all@),
                crate::text::views(row@) == v.subrange(at as int, i as int),
            decreases end - i,
        {
            let ghost before = row@;
            row.push(all[i].clone());
            proof {
                assert(crate::text::views(row@) =~= crate::text::views(before).push(v[i as int]));
                assert(v.subrange(at as int, i + 1) =~= v.subrange(at as int, i as int).push(
                    v[i as int],
                ));
            }
            i += 1;
        }
        let text: String = join(&row, "  ");
        let ghost before = out@;
        out.push(text);
        proof {
            let rest = v.skip(at as int);
            assert(crate::text::views(out@) =~= crate::text::views(before).push(text@));
            if rest.len() <= ROW {
                assert(v.subrange(at as int, end as int) =~= rest);
                assert(rows(rest) =~= seq![text@]);
                assert(v.skip(end as int) =~= Seq::empty());
                assert(rows(v.skip(end as int)) =~= Seq::empty());
            } else {
                assert(v.subrange(at as int, end as int) =~= rest.take(ROW as int));
                assert(rest.skip(ROW as int) =~= v.skip(end as int));
            }
            assert(crate::text::views(before) + (seq![text@] + rows(v.skip(end as int)))
                =~= crate::text::views(out@) + rows(v.skip(end as int)));
        }
        at = end;
    }
    proof {
        assert(v.skip(at as int) =~= Seq::empty());
        assert(crate::text::views(out@) + Seq::<Seq<char>>::empty() =~= crate::text::views(out@));
    }
    join(&out, "\n")
}

impl ScriptConsole {
    /// The position in the history is one that the history has.
    pub open spec fn valid(&self) -> bool {
        self.history_idx <= self.history@.len()
    }

    pub fn new() -> (r: ScriptConsole)
        ensures
            r.valid(),
            r.output@.len() == 0,
            r.input@.len() == 0,
            r.history@.len() == 0,
            r.history_idx == 0,
            r.tab_candidates@.len() == 0,
            !r.scroll_to_bottom,
            !r.started,
    {
        ScriptConsole {
            output: Vec::new(),
            input: String::new(),
            history: Vec::new(),
            history_idx: 0,
            tab_candidates: Vec::new(),
            scroll_to_bottom: false,
            started: false,
        }
    }

    /// Called whenever the console is shown: the first time it greets, and says
    /// that the engine is to be made.
    pub fn start(&mut self) -> (fresh: bool)
        ensures
            fresh == !old(self).started,
            !fresh ==> *final(self) == *old(self),
            fresh ==> log(final(self).output@) == log(old(self).output@).push(
                LineView::System(welcome()),
            ),
            fresh ==> *final(self) == (ScriptConsole {
                output: final(self).output,
                scroll_to_bottom: true,
                started: true,
                ..*old(self)
            }),
    {
        if self.started {
            return false;
        }
        let ghost before = self.output@;
        self.output.push(
            ScriptLine::System(
                String::from_str(
                    "Articara Script Console (Rhai)  \u{2014} type help() for commands",
                ),
            ),
        );
        proof {
            assert(log(self.output@) =~= log(before).push(LineView::System(welcome())));
        }
        self.scroll_to_bottom = true;
        self.started = true;
        true
    }

    /// Empties the log.
    pub fn clear(&mut self)
        ensures
            final(self).output@.len() == 0,
            *final(self) == (ScriptConsole { output: final(self).output, ..*old(self) }),
    {
        self.output = Vec::new();
    }

    /// Appends the help text.
    pub fn emit_help(&mut self)
        ensures
            log(final(self).output@) == log(old(self).output@) + help_lines(),
            *final(self) == (ScriptConsole { output: final(self).output, ..*old(self) }),
    {
        let ghost start = log(self.output@);
        proof {
            assert(start + help_lines().take(0) =~= start);
        }
        let mut i: usize = 0;
        while i < 120
            invariant
                i <= 120,
                log(self.output@) == start + help_lines().take(i as int),
                *self == (ScriptConsole { output: self.output, ..*old(self) }),
            decreases 120 - i,
        {
            let ghost before = self.output@;
            self.output.push(ScriptLine::System(String::from_str(HELP[i])));
            proof {
                assert(log(self.output@) =~= log(before).push(help_lines()[i as int]));
                assert((start + help_lines().take(i as int)).push(help_lines()[i as int]) =~= start
                    + help_lines().take(i + 1));
            }
            i += 1;
        }
        proof {
            assert(help_lines().take(120) =~= help_lines());
        }
    }

    /// The up key: one entry further back, if there is one.
    pub fn key_up(&mut self)
        requires
            old(self).valid(),
        ensures
            final(self).valid(),
            old(self).history@.len() == 0 ==> *final(self) == *old(self),
            old(self).history@.len() > 0 ==> {
                let n = old(self).history@.len();
                let idx = older(old(self).history_idx as int, n as int);
                &&& final(self).history_idx == idx
                &&& final(self).input@ == old(self).history@[n - idx]@
                &&& *final(self) == (ScriptConsole {
                    history_idx: final(self).history_idx,
                    input: final(self).input,
                    ..*old(self)
                })
            },
    {
        if self.history.len() > 0 {
            if self.history_idx < self.history.len() {
                self.history_idx = self.history_idx + 1;
            }
            let i: usize = self.history.len() - self.history_idx;
            self.input = self.history[i].clone();
        }
    }

    /// The down key: one entry further on, and past the newest an empty line.
    pub fn key_down(&mut self)
        requires
            old(self).valid(),
        ensures
            final(self).valid(),
            final(self).history_idx == newer(old(self).history_idx as int),
            if old(self).history_idx > 1 {
                final(self).input@ == old(self).history@[old(self).history@.len() - final(self).history_idx]@
            } else {
                final(self).input@.len() == 0
            },
            *final(self) == (ScriptConsole {
                history_idx: final(self).history_idx,
                input: final(self).input,
                ..*old(self)
            }),
    {
        if self.history_idx > 1 {
            self.history_idx = self.history_idx - 1;
            let i: usize = self.history.len() - self.history_idx;
            self.input = self.history[i].clone();
        } else {
            self.history_idx = 0;
            self.input = String::new();
        }
    }

    /// The enter key. A command of the console is carried out; any other line is
    /// echoed and returned for evaluation.
    pub fn submit(&mut self) -> (r: Submission)
        requires
            old(self).valid(),
        ensures
            final(self).valid(),
            old(self).input@.len() == 0 ==> r is Nothing && *final(self) == *old(self),
            old(self).input@.len() > 0 ==> {
                let src = old(self).input@;
                &&& final(self).input@.len() == 0
                &&& final(self).history_idx == 0
                &&& crate::text::views(final(self).history@) == remembered(
                    crate::text::views(old(self).history@),
                    src,
                )
                &&& final(self).tab_candidates == old(self).tab_candidates
                &&& final(self).started == old(self).started
                &&& if is_clear(src) {
                    &&& r is Handled
                    &&& final(self).output@.len() == 0
                    &&& final(self).scroll_to_bottom
                } else if is_help(src) {
                    &&& r is Handled
                    &&& log(final(self).output@) == log(old(self).output@) + help_lines()
                    &&& final(self).scroll_to_bottom
                } else {
                    &&& r matches Submission::Evaluate(s) && s@ == src
                    &&& log(final(self).output@) == log(old(self).output@).push(
                        LineView::Input(src),
                    )
                    &&& final(self).scroll_to_bottom == old(self).scroll_to_bottom
                }
            },
    {
        if self.input.as_str().is_empty() {
            proof {
                assert(self.input@.len() == 0);
            }
            return Submission::Nothing;
        }
        let src: String = self.input.clone();
        self.input = String::new();
        self.history_idx = 0;
        let repeated: bool = self.history.len() > 0 && same(
            self.history[self.history.len() - 1].as_str(),
            src.as_str(),
        );
        let ghost before = self.history@;
        if !repeated {
            self.history.push(src.clone());
            proof {
                assert(crate::text::views(self.history@) =~= crate::text::views(before).push(src@));
            }
        }
        let command: &str = trim(src.as_str());
        if same(command, "clear") || same(command, "clear()") {
            self.output = Vec::new();
            self.scroll_to_bottom = true;
            return Submission::Handled;
        }
        if same(command, "help") || same(command, "help()") {
            self.emit_help();
            self.scroll_to_bottom = true;
            return Submission::Handled;
        }
        let ghost logged = self.output@;
        self.output.push(ScriptLine::Input(src.clone()));
        proof {
            assert(log(self.output@) =~= log(logged).push(LineView::Input(src@)));
        }
        Submission::Evaluate(src)
    }

    /// What the evaluation of a submitted line gave. The log keeps its last
    /// lines only.
    pub fn finish(&mut self, result: Result<Vec<String>, String>)
        ensures
            log(final(self).output@) == last_lines(
                log(old(self).output@) + result_lines(result_view(result)),
                1000,
            ),
            *final(self) == (ScriptConsole {
                output: final(self).output,
                scroll_to_bottom: true,
                ..*old(self)
            }),
    {
        push_result(&mut self.output, result);
        let ghost all = log(self.output@);
        let ghost mut gone: int = 0;
        proof {
            assert(all.skip(0) =~= all);
        }
        while self.output.len() > LOG_LIMIT
            invariant
                0 <= gone <= all.len(),
                log(self.output@) == all.skip(gone),
                gone == 0 || self.output.len() >= LOG_LIMIT,
                *self == (ScriptConsole { output: self.output, ..*old(self) }),
            decreases self.output.len(),
        {
            let ghost before = self.output@;
            let _oldest = self.output.remove(0);
            proof {
                assert(log(self.output@) =~= log(before).skip(1));
                assert(all.skip(gone).skip(1) =~= all.skip(gone + 1));
                gone = gone + 1;
            }
        }
        self.scroll_to_bottom = true;
    }

    /// A script file was picked: it is announced.
    pub fn announce_file(&mut self, path: &str)
        ensures
            log(final(self).output@) == log(old(self).output@).push(
                LineView::System("\u{2500}\u{2500} Running script: "@ + path@ + " \u{2500}\u{2500}"@),
            ),
            *final(self) == (ScriptConsole { output: final(self).output, ..*old(self) }),
    {
        let mut text: String = String::from_str("\u{2500}\u{2500} Running script: ");
        text.append(path);
        text.append(" \u{2500}\u{2500}");
        let ghost before = self.output@;
        self.output.push(ScriptLine::System(text));
        proof {
            assert(log(self.output@) =~= log(before).push(LineView::System(text@)));
        }
    }

    /// A script file was read: its lines are echoed.
    pub fn echo_source(&mut self, source: &str)
        ensures
            log(final(self).output@) == log(old(self).output@) + crate::text::lines(
                source@,
            ).map_values(|l: Seq<char>| LineView::Input(l)),
            *final(self) == (ScriptConsole { output: final(self).output, ..*old(self) }),
    {
        let lines: Vec<String> = lines_of(source);
        let ghost start = log(self.output@);
        let ghost all = crate::text::lines(source@).map_values(|l: Seq<char>| LineView::Input(l));
        proof {
            assert(start + all.take(0) =~= start);
        }
        let mut i: usize = 0;
        while i < lines.len()
            invariant
                i <= lines.len(),
                crate::text::views(lines@) == crate::text::lines(source@),
                all == crate::text::lines(source@).map_values(|l: Seq<char>| LineView::Input(l)),
                log(self.output@) == start + all.take(i as int),
                *self == (ScriptConsole { output: self.output, ..*old(self) }),
            decreases lines.len() - i,
        {
            let ghost before = self.output@;
            self.output.push(ScriptLine::Input(lines[i].clone()));
            proof {
                assert(crate::text::views(lines@)[i as int] == lines@[i as int]@);
                assert(log(self.output@) =~= log(before).push(all[i as int]));
                assert((start + all.take(i as int)).push(all[i as int]) =~= start + all.take(
                    i + 1,
                ));
            }
            i += 1;
        }
        proof {
            assert(crate::text::views(lines@).len() == lines@.len());
            assert(all.take(all.len() as int) =~= all);
        }
    }

    /// What the evaluation of a script file gave. The log is not shortened.
    pub fn finish_file(&mut self, result: Result<Vec<String>, String>)
        ensures
            log(final(self).output@) == log(old(self).output@) + result_lines(result_view(result)),
            *final(self) == (ScriptConsole {
                output: final(self).output,
                scroll_to_bottom: true,
                ..*old(self)
            }),
    {
        push_result(&mut self.output, result);
        self.scroll_to_bottom = true;
    }

    /// A script file could not be read.
    pub fn unreadable_file(&mut self, path: &str, error: &str)
        ensures
            log(final(self).output@) == log(old(self).output@).push(
                LineView::Error("Failed to read "@ + path@ + ": "@ + error@),
            ),
            *final(self) == (ScriptConsole {
                output: final(self).output,
                scroll_to_bottom: true,
                ..*old(self)
            }),
    {
        let mut text: String = String::from_str("Failed to read ");
        text.append(path);
        text.append(": ");
        text.append(error);
        let ghost before = self.output@;
        self.output.push(ScriptLine::Error(text));
        proof {
            assert(log(self.output@) =~= log(before).push(LineView::Error(text@)));
        }
        self.scroll_to_bottom = true;
    }

    /// The tab key: completes the identifier being typed as far as the
    /// candidates agree, and lists them where there are several.
    pub fn complete(&mut self, candidates: &Vec<String>)
        ensures
            ({
                let prefix = token(old(self).input@);
                let found = completions(
                    crate::text::views(candidates@),
                    prefix,
                    candidates@.len(),
                );
                if prefix.len() == 0 || found.len() == 0 {
                    *final(self) == *old(self)
                } else if found.len() == 1 {
                    &&& final(self).input@ == old(self).input@ + found[0].skip(prefix.len() as int)
                    &&& final(self).tab_candidates@.len() == 0
                    &&& *final(self) == (ScriptConsole {
                        input: final(self).input,
                        tab_candidates: final(self).tab_candidates,
                        ..*old(self)
                    })
                } else {
                    &&& exists|common: Seq<char>|
                        #[trigger] crate::text::is_common_prefix(found, common) && final(self).input@ == old(self).input@ + common.skip(prefix.len() as int)
                    &&& crate::text::views(final(self).tab_candidates@) == found
                    &&& log(final(self).output@) == log(old(self).output@).push(
                        LineView::System(listing(found)),
                    )
                    &&& *final(self) == (ScriptConsole {
                        input: final(self).input,
                        tab_candidates: final(self).tab_candidates,
                        output: final(self).output,
                        scroll_to_bottom: true,
                        ..*old(self)
                    })
                }
            }),
    {
        let line: String = self.input.clone();
        let prefix: &str = last_token(line.as_str());
        if prefix.is_empty() {
            return ;
        }
        let n: usize = prefix.unicode_len();
        let found: Vec<String> = matching(candidates, prefix);
        let ghost all = completions(crate::text::views(candidates@), prefix@, candidates@.len());
        proof {
            lemma_completions(crate::text::views(candidates@), prefix@, candidates@.len());
            assert(crate::text::views(found@).len() == found@.len());
        }
        if found.len() == 1 {
            let whole: &str = found[0].as_str();
            proof {
                assert(all[0] == whole@);
                assert(whole@.subrange(n as int, whole@.len() as int) =~= all[0].skip(n as int));
            }
            self.input.append(whole.substring_char(n, whole.unicode_len()));
            self.tab_candidates = Vec::new();
        } else if found.len() > 1 {
            let common: String = longest_common_prefix(&found);
            proof {
                lemma_prefix_is_shared(all, prefix@);
                lemma_common_prefix_is_longest(all, common@, n as int);
            }
            let rest: &str = common.as_str().substring_char(n, common.as_str().unicode_len());
            proof {
                assert(rest@ =~= common@.skip(n as int));
                assert(crate::text::is_common_prefix(all, common@));
            }
            self.input.append(rest);
            let text: String = list_completions(&found);
            self.tab_candidates = found;
            let ghost before = self.output@;
            self.output.push(ScriptLine::System(text));
            proof {
                assert(log(self.output@) =~= log(before).push(LineView::System(text@)));
            }
            self.scroll_to_bottom = true;
        }
    }
}

proof fn lemma_completions(candidates: Seq<Seq<char>>, prefix: Seq<char>, n: nat)
    ensures
        forall|k: int|
            0 <= k < completions(candidates, prefix, n).len() ==> continues(
                #[trigger] completions(candidates, prefix, n)[k],
                prefix,
            ),
    decreases n,
{
    if n > 0 && n <= candidates.len() {
        lemma_completions(candidates, prefix, (n - 1) as nat);
        let before = completions(candidates, prefix, (n - 1) as nat);
        let now = completions(candidates, prefix, n);
        assert forall|k: int| 0 <= k < now.len() implies continues(#[trigger] now[k], prefix) by {
            if k < before.len() {
                assert(now[k] == before[k]);
            }
        }
    }
}

proof fn lemma_prefix_is_shared(all: Seq<Seq<char>>, prefix: Seq<char>)
    requires
        all.len() > 0,
        forall|k: int| 0 <= k < all.len() ==> continues(#[trigger] all[k], prefix),
    ensures
        crate::text::shared_prefix(all, prefix.len() as int),
{
    assert(continues(all[0], prefix));
}

proof fn lemma_common_prefix_is_longest(all: Seq<Seq<char>>, common: Seq<char>, n: int)
    requires
        all.len() > 0,
        crate::text::is_common_prefix(all, common),
        crate::text::shared_prefix(all, n),
    ensures
        n <= common.len(),
{
    if n > common.len() {
        let m = common.len() as int + 1;
        assert forall|k: int| 0 <= k < all.len() implies m <= (#[trigger] all[k]).len()
            && all[k].take(m) == all[0].take(m) by {
            assert(all[k].take(n).take(m) =~= all[k].take(m));
            assert(all[0].take(n).take(m) =~= all[0].take(m));
        }
    }
}

/// There is one longest common prefix: what the tab key appends is determined.
pub proof fn law_common_prefix_is_unique(all: Seq<Seq<char>>, p: Seq<char>, q: Seq<char>)
    requires
        crate::text::is_common_prefix(all, p),
        crate::text::is_common_prefix(all, q),
    ensures
        p == q,
{
    if all.len() > 0 {
        lemma_common_prefix_is_longest(all, p, q.len() as int);
        lemma_common_prefix_is_longest(all, q, p.len() as int);
    } else {
        assert(p =~= q);
    }
}

/// Completing never contradicts a candidate: each still continues what is typed,
/// or is it.
pub proof fn law_completion_keeps_candidates(
    candidates: Seq<Seq<char>>,
    prefix: Seq<char>,
    common: Seq<char>,
    k: int,
)
    requires
        0 <= k < completions(candidates, prefix, candidates.len()).len(),
        crate::text::is_common_prefix(completions(candidates, prefix, candidates.len()), common),
    ensures
        ({
            let found = completions(candidates, prefix, candidates.len())[k];
            let typed = prefix + common.skip(prefix.len() as int);
            typed.len() <= found.len() && found.take(typed.len() as int) == typed
        }),
{
    let all = completions(candidates, prefix, candidates.len());
    lemma_completions(candidates, prefix, candidates.len());
    lemma_prefix_is_shared(all, prefix);
    lemma_common_prefix_is_longest(all, common, prefix.len() as int);
    assert(continues(all[0], prefix));
    assert(all[k].take(common.len() as int) == all[0].take(common.len() as int));
    assert(prefix + common.skip(prefix.len() as int) =~= common) by {
        assert(all[0].take(prefix.len() as int) =~= common.take(prefix.len() as int));
    }
}

/// The down key undoes the up key, unless the oldest entry was already shown.
pub proof fn law_down_undoes_up(idx: int, n: int)
    requires
        0 <= idx < n,
    ensures
        newer(older(idx, n)) == idx,
{
}

/// After a line has been evaluated the log is bounded, whatever it held before.
pub proof fn law_log_is_bounded(before: Seq<LineView>, n: int)
    requires
        n >= 0,
    ensures
        last_lines(before, n).len() <= n,
        before.len() <= n ==> last_lines(before, n) == before,
        before.len() > 0 && n > 0 ==> last_lines(before, n).last() == before.last(),
{
}

/// A run line is remembered last, and once where it is run again and again.
pub proof fn law_run_lines_are_remembered(history: Seq<Seq<char>>, src: Seq<char>, i: int)
    ensures
        remembered(history, src).len() > 0,
        remembered(history, src).last() == src,
        remembered(remembered(history, src), src) == remembered(history, src),
        history.len() > 0 && history.last() == src ==> remembered(history, src) == history,
        history.len() == 0 || history.last() != src ==> remembered(history, src).len()
            == history.len() + 1,
        0 <= i < history.len() ==> remembered(history, src)[i] == history[i],
{
}

/// Going back in history stops at the oldest line, and going forward at the empty one.
pub proof fn law_history_has_two_ends(idx: int, n: int)
    requires
        0 <= idx <= n,
    ensures
        idx < n ==> older(idx, n) == idx + 1,
        older(n, n) == n,
        idx > 0 ==> newer(idx) == idx - 1,
        newer(0) == 0,
{
}

/// The console clears and helps by two words each, whatever white space stands around them.
pub proof fn law_words_of_the_console(src: Seq<char>)
    ensures
        is_clear(src) <==> crate::text::trimmed(src) == "clear"@ || crate::text::trimmed(src)
            == "clear()"@,
        is_help(src) <==> crate::text::trimmed(src) == "help"@ || crate::text::trimmed(src)
            == "help()"@,
{
}

/// A run that went well shows its lines, and one that failed its error alone.
pub proof fn law_results_are_shown(lines: Seq<Seq<char>>, e: Seq<char>, i: int)
    ensures
        result_lines(Ok(lines)).len() == lines.len(),
        0 <= i < lines.len() ==> result_lines(Ok(lines))[i] == LineView::Output(lines[i]),
        result_lines(Err(e)) == seq![LineView::Error(e)],
{
}

/// The word that is being typed is the longest end of the line made of letters, digits and
/// underscores.
pub proof fn law_typed_word_is_the_end_of_the_line(s: Seq<char>)
    ensures
        token(s).len() <= s.len(),
        s.skip(s.len() - token(s).len()) == token(s),
        forall|i: int|
            0 <= i < token(s).len() ==> crate::text::alphanumeric(#[trigger] token(s)[i]) || token(
                s,
            )[i] == '_',
        token(s).len() < s.len() ==> {
            let c = s[s.len() - token(s).len() - 1];
            !crate::text::alphanumeric(c) && c != '_'
        },
    decreases s.len(),
{
    if s.len() > 0 && word_char(s.last()) {
        let rest = s.drop_last();
        law_typed_word_is_the_end_of_the_line(rest);
        let (t, u) = (token(rest), token(s));
        assert(u == t.push(s.last()));
        assert forall|i: int| 0 <= i < u.len() implies s[s.len() - u.len() + i] == u[i] by {
            if i < t.len() {
                assert(rest.skip(rest.len() - t.len())[i] == t[i]);
            }
        }
        assert(s.skip(s.len() - u.len()) =~= u);
        assert forall|i: int| 0 <= i < u.len() implies crate::text::alphanumeric(#[trigger] u[i])
            || u[i] == '_' by {
            if i < t.len() {
                assert(u[i] == t[i]);
            }
        }
    } else {
        assert(s.skip(s.len() as int) =~= token(s));
    }
}

/// Offered completions are the candidates that begin with what was typed and go on, in order.
pub proof fn law_completions_begin_with_the_word(
    candidates: Seq<Seq<char>>,
    prefix: Seq<char>,
    n: nat,
)
    requires
        n < candidates.len(),
    ensures
        ({
            let c = candidates[n as int];
            let more = c.len() > prefix.len() && forall|i: int|
                0 <= i < prefix.len() ==> #[trigger] c[i] == prefix[i];
            &&& more ==> completions(candidates, prefix, n + 1) == completions(
                candidates,
                prefix,
                n,
            ).push(c)
            &&& !more ==> completions(candidates, prefix, n + 1) == completions(
                candidates,
                prefix,
                n,
            )
        }),
        completions(candidates, prefix, 0).len() == 0,
{
    let c = candidates[n as int];
    if c.len() > prefix.len() {
        if forall|i: int| 0 <= i < prefix.len() ==> #[trigger] c[i] == prefix[i] {
            assert(c.take(prefix.len() as int) =~= prefix);
        } else {
            let i = choose|i: int| 0 <= i < prefix.len() && #[trigger] c[i] != prefix[i];
            assert(c.take(prefix.len() as int)[i] == c[i]);
        }
    }
}

/// Completions are listed in rows of six: row by row the next six of them, two spaces apart.
pub proof fn law_completions_are_listed_in_rows(all: Seq<Seq<char>>, k: int)
    requires
        0 <= k,
        ROW * k < all.len(),
    ensures
        k < rows(all).len(),
        rows(all)[k] == crate::text::joined(
            all.subrange(
                6 * k,
                if all.len() < 6 * (k + 1) {
                    all.len() as int
                } else {
                    6 * (k + 1)
                },
            ),
            "  "@,
        ),
    decreases k,
{
    let w = ROW as int;
    if k == 0 {
        if all.len() <= ROW {
            assert(all.subrange(0, all.len() as int) =~= all);
        } else {
            assert(all.subrange(0, w) =~= all.take(w));
        }
    } else {
        let rest = all.skip(w);
        law_completions_are_listed_in_rows(rest, k - 1);
        assert(all.len() > ROW);
        let end = if rest.len() < w * k {
            rest.len() as int
        } else {
            w * k
        };
        assert(rest.subrange(w * (k - 1), end) =~= all.subrange(w * k, end + w));
        assert(rows(all)[k] == rows(rest)[k - 1]);
    }
}

} // verus!
