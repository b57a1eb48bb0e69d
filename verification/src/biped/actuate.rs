//! What to do with the solver's answer, including when it did not produce one.
//!
//! **A degraded solve is not a slightly-worse solve.** A failed inner problem
//! hands back the solution of the level above it, and at the first level that
//! is the ZERO vector: it satisfies the HOMOGENEOUS equation of motion, with
//! all of gravity dropped, on exactly the transition ticks where the contact
//! rows work hardest. Commanding it is worse than doing nothing.
//!
//! Torques are whole micronewton metres.

use vstd::prelude::*;
use vstd::string::*;

use crate::biped::rig::{BipedRig, CtrlMode, RowLimits};
use crate::joint_map::BASE_ROWS;
use crate::text::{decimal, join};

verus! {

/// How a solve went.
#[derive(Clone, Copy, PartialEq, Eq, Structural, Debug)]
pub enum SolveStatus {
    /// Every level was solved.
    Optimal,
    /// The given priority level failed.
    Degraded { level: usize },
}

/// Levels that the tally tells apart.
pub const TALLY_LEVELS: usize = 12;

/// Running tally of degraded solves, labelled by the level that failed.
pub struct DegradedTally {
    pub n: u32,
    pub by_level: Vec<u32>,
    /// The stack changes shape between double and single support, so the
    /// tally has to be labelled with the names of the LAST configuration
    /// actually solved.
    pub final_level_names: Vec<String>,
}

/// A count that stays at its maximum.
pub open spec fn counted(n: u32) -> u32 {
    if n < u32::MAX {
        (n + 1) as u32
    } else {
        n
    }
}

/// The name of a level, or a question mark where it has none.
pub open spec fn level_name(names: Seq<Seq<char>>, level: int) -> Seq<char> {
    if 0 <= level < names.len() {
        names[level]
    } else {
        "?"@
    }
}

/// The entries of a tally among the first `n` levels: `name=count` for each
/// level that failed at least once.
pub open spec fn tally_parts(counts: Seq<u32>, names: Seq<Seq<char>>, n: nat) -> Seq<Seq<char>>
    decreases n,
{
    if n == 0 || n > counts.len() {
        Seq::empty()
    } else {
        let before = tally_parts(counts, names, (n - 1) as nat);
        if counts[n - 1] > 0 {
            before.push(
                level_name(names, n - 1) + "="@ + crate::text::decimal_of(counts[n - 1] as nat),
            )
        } else {
            before
        }
    }
}

impl DegradedTally {
    pub fn new() -> (r: DegradedTally)
        ensures
            r.n == 0,
            r.by_level@ == Seq::new(12, |i: int| 0u32),
            r.final_level_names.len() == 0,
    {
        let mut by_level: Vec<u32> = Vec::new();
        while by_level.len() < TALLY_LEVELS
            invariant
                by_level.len() <= TALLY_LEVELS,
                forall|i: int| 0 <= i < by_level.len() ==> by_level@[i] == 0,
            decreases TALLY_LEVELS - by_level.len(),
        {
            by_level.push(0);
        }
        DegradedTally { n: 0, by_level, final_level_names: Vec::new() }
    }

    /// Takes note of a solve whose levels are called `level_names`. Returns the
    /// name of the level that failed where the failure is worth a line of the
    /// log: the first few are, and later ones once in a while.
    pub fn observe(
        &mut self,
        status: SolveStatus,
        tick: usize,
        level_names: &Vec<String>,
    ) -> (r: Option<String>)
        ensures
            crate::text::views(final(self).final_level_names@) == crate::text::views(level_names@),
            status is Optimal ==> final(self).n == old(self).n && final(self).by_level@
                == old(self).by_level@ && r is None,
            status matches SolveStatus::Degraded { level } ==> {
                &&& final(self).n == counted(old(self).n)
                &&& final(self).by_level@ == if level < old(self).by_level.len() {
                    old(self).by_level@.update(
                        level as int,
                        counted(old(self).by_level@[level as int]),
                    )
                } else {
                    old(self).by_level@
                }
                &&& r is Some <==> (final(self).n <= 6 || tick % 200 == 0)
                &&& r is Some ==> r->0@ == level_name(
                    crate::text::views(level_names@),
                    level as int,
                )
            },
    {
        let mut names: Vec<String> = Vec::new();
        let mut i: usize = 0;
        while i < level_names.len()
            invariant
                i <= level_names.len(),
                names.len() == i,
                forall|j: int| 0 <= j < i ==> names@[j]@ == #[trigger] level_names@[j]@,
            decreases level_names.len() - i,
        {
            names.push(level_names[i].clone());
            i += 1;
        }
        self.final_level_names = names;
        proof {
            assert(crate::text::views(self.final_level_names@) =~= crate::text::views(
                level_names@,
            ));
        }
        match status {
            SolveStatus::Optimal => None,
            SolveStatus::Degraded { level } => {
                self.n = self.n.saturating_add(1);
                if level < self.by_level.len() {
                    let c: u32 = self.by_level[level].saturating_add(1);
                    self.by_level.set(level, c);
                }
                if self.n <= 6 || tick % 200 == 0 {
                    if level < level_names.len() {
                        Some(level_names[level].clone())
                    } else {
                        Some(String::from_str("?"))
                    }
                } else {
                    None
                }
            },
        }
    }

    /// Final tally by NAME rather than index, if any level failed.
    pub fn report(&self) -> (r: Option<String>)
        ensures
            ({
                let parts = tally_parts(
                    self.by_level@,
                    crate::text::views(self.final_level_names@),
                    self.by_level@.len(),
                );
                &&& r is Some <==> parts.len() > 0
                &&& r is Some ==> r->0@ == "    by level: "@ + crate::text::joined(parts, "  "@)
            }),
    {
        let mut parts: Vec<String> = Vec::new();
        let mut i: usize = 0;
        let ghost names = crate::text::views(self.final_level_names@);
        while i < self.by_level.len()
            invariant
                i <= self.by_level.len(),
                names == crate::text::views(self.final_level_names@),
                crate::text::views(parts@) == tally_parts(self.by_level@, names, i as nat),
            decreases self.by_level.len() - i,
        {
            let c: u32 = self.by_level[i];
            if c > 0 {
                let mut part: String = if i < self.final_level_names.len() {
                    self.final_level_names[i].clone()
                } else {
                    String::from_str("?")
                };
                part.append("=");
                part.append(decimal(c as usize).as_str());
                let ghost before = parts@;
                parts.push(part);
                proof {
                    assert(crate::text::views(parts@) =~= crate::text::views(before).push(part@));
                }
            }
            i += 1;
        }
        if parts.len() == 0 {
            None
        } else {
            let mut line: String = String::from_str("    by level: ");
            line.append(join(&parts, "  ").as_str());
            Some(line)
        }
    }
}

impl Default for DegradedTally {
    fn default() -> (r: DegradedTally)
        ensures
            r.n == 0,
            r.by_level@ == Seq::new(12, |i: int| 0u32),
            r.final_level_names.len() == 0,
    {
        DegradedTally::new()
    }
}

/// The failures of all levels together.
pub open spec fn total(counts: Seq<u32>) -> nat
    decreases counts.len(),
{
    if counts.len() == 0 {
        0
    } else {
        total(counts.drop_last()) + counts.last() as nat
    }
}

/// One more failure of one level is one more failure in total.
pub proof fn law_tally_adds_up(counts: Seq<u32>, level: int)
    requires
        0 <= level < counts.len(),
        counts[level] < u32::MAX,
    ensures
        total(counts.update(level, counted(counts[level]))) == total(counts) + 1,
    decreases counts.len(),
{
    let next = counts.update(level, counted(counts[level]));
    if level == counts.len() - 1 {
        assert(next.drop_last() =~= counts.drop_last());
    } else {
        law_tally_adds_up(counts.drop_last(), level);
        assert(next.drop_last() =~= counts.drop_last().update(level, counted(counts[level])));
    }
}

/// Something the log should say about the command.
#[derive(Clone, Copy, PartialEq, Eq, Structural, Debug)]
pub enum Notice {
    /// A long run of failures: the robot is open-loop, on the torque that was
    /// last good where `held`, else on the fallback.
    OpenLoop { ticks: u32, held: bool },
    /// The run of failures is over.
    Recovered { ticks: u32 },
}

/// Consecutive degraded ticks from which on the robot counts as open-loop.
pub const OPEN_LOOP_TICKS: u32 = 10;

/// How a degraded solve is turned into something safe to command.
pub struct CommandPolicy {
    /// Which priority levels, if they degrade, invalidate the whole solution.
    ///
    /// A failure of a later level still satisfies the hard constraints, but
    /// the last level is the regulariser, and a solution that stopped before
    /// it has an unconstrained null-space component. "Satisfies the hard
    /// constraints" does not mean "is a sane torque". A large value keeps the
    /// conservative behaviour.
    pub fallback_max_level: usize,
    /// Consecutive degraded ticks bridged with the last good torque before
    /// switching to the recomputed one. Over a few ticks freezing is the
    /// smoother choice; swapping controllers every other tick just chatters.
    pub hold_bridge: u32,
    /// Always freeze the last good torque.
    pub hold_last: bool,
    /// Crossfade length on each fallback <-> solver handover.
    pub blend_ticks: u32,
    /// What the last clean solve asked for.
    pub last_good: Option<Vec<i64>>,
    /// Degraded ticks in a row.
    pub consec_degraded: u32,
    /// What was sent last.
    pub cmd_prev: Vec<i64>,
    /// What the running crossfade started from.
    pub blend_from: Vec<i64>,
    /// Ticks left of the running crossfade.
    pub blend_left: u32,
    /// The fallback, or a frozen command, drove the last tick.
    pub in_fallback_prev: bool,
}

/// A crossfade with `left` of `ticks` ticks to go, rounded down.
pub open spec fn faded(from: int, to: int, left: int, ticks: int) -> int {
    (from * left + to * (ticks - left)) / ticks
}

/// A crossfade of whole commands.
pub open spec fn fade(from: Seq<i64>, to: Seq<i64>, left: u32, ticks: u32) -> Seq<i64> {
    Seq::new(
        to.len(),
        |k: int| faded(from[k] as int, to[k] as int, left as int, ticks as int) as i64,
    )
}

impl CommandPolicy {
    /// The policy commands `n` joints.
    pub open spec fn valid(&self, n: nat) -> bool {
        &&& self.cmd_prev.len() == n
        &&& self.blend_from.len() == n
        &&& self.last_good matches Some(prev) ==> prev.len() == n
        &&& self.blend_left <= self.blend_ticks
    }

    /// The solve must not be commanded.
    pub open spec fn unusable(&self, status: SolveStatus) -> bool {
        match status {
            SolveStatus::Optimal => false,
            SolveStatus::Degraded { level } => level <= self.fallback_max_level,
        }
    }

    /// The fallback, or a frozen command, takes over.
    pub open spec fn takes_over(&self, status: SolveStatus) -> bool {
        self.last_good is Some && self.unusable(status)
    }

    /// The command before any crossfade.
    pub open spec fn chosen(
        &self,
        status: SolveStatus,
        solved: Seq<i64>,
        fallback: Seq<i64>,
    ) -> Seq<i64> {
        if !self.takes_over(status) {
            solved
        } else if self.hold_last || self.consec_degraded < self.hold_bridge {
            self.last_good->0@
        } else {
            fallback
        }
    }

    /// A crossfade starts on this tick.
    pub open spec fn fade_starts(&self, status: SolveStatus) -> bool {
        self.blend_ticks > 0 && self.takes_over(status) != self.in_fallback_prev
    }

    /// Ticks left of the crossfade on this tick.
    pub open spec fn fade_left(&self, status: SolveStatus) -> u32 {
        if self.fade_starts(status) {
            self.blend_ticks
        } else {
            self.blend_left
        }
    }

    /// What the crossfade on this tick starts from.
    pub open spec fn fade_from(&self, status: SolveStatus) -> Seq<i64> {
        if self.fade_starts(status) {
            self.cmd_prev@
        } else {
            self.blend_from@
        }
    }

    /// The command that is sent.
    pub open spec fn command(
        &self,
        status: SolveStatus,
        solved: Seq<i64>,
        fallback: Seq<i64>,
    ) -> Seq<i64> {
        let to = self.chosen(status, solved, fallback);
        if self.fade_left(status) > 0 {
            fade(self.fade_from(status), to, self.fade_left(status), self.blend_ticks)
        } else {
            to
        }
    }

    /// Degraded ticks in a row after this tick.
    pub open spec fn next_consec(&self, status: SolveStatus) -> u32 {
        if self.takes_over(status) {
            counted(self.consec_degraded)
        } else {
            0
        }
    }

    /// What the log should say after this tick.
    pub open spec fn notice(&self, status: SolveStatus) -> Option<Notice> {
        if self.takes_over(status) {
            if self.next_consec(status) == OPEN_LOOP_TICKS {
                Some(Notice::OpenLoop { ticks: OPEN_LOOP_TICKS, held: self.hold_last })
            } else {
                None
            }
        } else if self.consec_degraded >= OPEN_LOOP_TICKS {
            Some(Notice::Recovered { ticks: self.consec_degraded })
        } else {
            None
        }
    }

    pub fn new(
        n_joints: usize,
        fallback_max_level: usize,
        hold_bridge: u32,
        hold_last: bool,
        blend_ticks: u32,
    ) -> (r: CommandPolicy)
        ensures
            r.valid(n_joints as nat),
            r.fallback_max_level == fallback_max_level,
            r.hold_bridge == hold_bridge,
            r.hold_last == hold_last,
            r.blend_ticks == if hold_last {
                0
            } else {
                blend_ticks
            },
            r.last_good is None,
            r.consec_degraded == 0,
            forall|k: int| 0 <= k < n_joints ==> r.cmd_prev@[k] == 0,
            forall|k: int| 0 <= k < n_joints ==> r.blend_from@[k] == 0,
            r.blend_left == 0,
            !r.in_fallback_prev,
    {
        CommandPolicy {
            fallback_max_level,
            hold_bridge,
            hold_last,
            blend_ticks: if hold_last {
                0
            } else {
                blend_ticks
            },
            last_good: None,
            consec_degraded: 0,
            cmd_prev: vec![0i64; n_joints],
            blend_from: vec![0i64; n_joints],
            blend_left: 0,
            in_fallback_prev: false,
        }
    }

    /// Replace the solved torques `robot_taus` with something safe to command,
    /// given how the solve went. `fallback` is what the fallback makes of them:
    /// a support torque for the pose the robot is ACTUALLY in, see
    /// [`gravity_plus_posture`].
    ///
    /// Returns whether the fallback (or a frozen command) is driving, and what
    /// the log should say.
    pub fn apply(
        &mut self,
        status: SolveStatus,
        robot_taus: &mut Vec<i64>,
        fallback: &Vec<i64>,
    ) -> (r: (bool, Option<Notice>))
        requires
            old(self).valid(old(robot_taus)@.len()),
            fallback.len() == old(robot_taus).len(),
        ensures
            final(self).valid(old(robot_taus)@.len()),
            final(self).fallback_max_level == old(self).fallback_max_level,
            final(self).hold_bridge == old(self).hold_bridge,
            final(self).hold_last == old(self).hold_last,
            final(self).blend_ticks == old(self).blend_ticks,
            final(robot_taus)@ == old(self).command(status, old(robot_taus)@, fallback@),
            final(self).cmd_prev@ == final(robot_taus)@,
            final(self).consec_degraded == old(self).next_consec(status),
            // Only a clean solve becomes the held command.
            status is Optimal ==> final(self).last_good is Some && final(self).last_good->0@
                == old(robot_taus)@,
            !(status is Optimal) ==> final(self).last_good == old(self).last_good,
            final(self).blend_from@ == old(self).fade_from(status),
            final(self).blend_left == if old(self).fade_left(status) > 0 {
                old(self).fade_left(status) - 1
            } else {
                0
            },
            final(self).in_fallback_prev == old(self).takes_over(status),
            r.0 == old(self).takes_over(status),
            r.1 == old(self).notice(status),
    {
        let ghost solved = robot_taus@;
        let unusable = match status {
            SolveStatus::Optimal => false,
            SolveStatus::Degraded { level } => level <= self.fallback_max_level,
        };
        let in_fallback = unusable && self.last_good.is_some();
        let mut notice: Option<Notice> = None;
        if in_fallback {
            if self.hold_last || self.consec_degraded < self.hold_bridge {
                if let Some(prev) = &self.last_good {
                    copy(prev, robot_taus);
                }
            } else {
                copy(fallback, robot_taus);
            }
            self.consec_degraded = self.consec_degraded.saturating_add(1);
            // Holding the last good torque bridges an occasional failed solve.
            // It must not quietly become the controller: a long run of
            // failures reads in the logs as a smooth mechanical collapse rather
            // than as a control fault.
            if self.consec_degraded == OPEN_LOOP_TICKS {
                notice = Some(Notice::OpenLoop { ticks: OPEN_LOOP_TICKS, held: self.hold_last });
            }
        } else {
            if self.consec_degraded >= OPEN_LOOP_TICKS {
                notice = Some(Notice::Recovered { ticks: self.consec_degraded });
            }
            self.consec_degraded = 0;
            if let SolveStatus::Optimal = status {
                self.last_good = Some(robot_taus.clone());
            }
        }
        // Crossfade whenever the commanding controller changes, in either
        // direction, from whatever was last actually sent.
        if self.blend_ticks > 0 && in_fallback != self.in_fallback_prev {
            self.blend_left = self.blend_ticks;
            copy(&self.cmd_prev, &mut self.blend_from);
        }
        self.in_fallback_prev = in_fallback;
        if self.blend_left > 0 {
            mix(&self.blend_from, robot_taus, self.blend_left, self.blend_ticks);
            self.blend_left = self.blend_left - 1;
        }
        copy(robot_taus, &mut self.cmd_prev);
        (in_fallback, notice)
    }

    /// Degraded ticks in a row.
    pub fn consecutive_degraded(&self) -> (r: u32)
        ensures
            r == self.consec_degraded,
    {
        self.consec_degraded
    }
}

/// Overwrites `to` with `from`.
fn copy(from: &Vec<i64>, to: &mut Vec<i64>)
    requires
        from.len() == old(to).len(),
    ensures
        final(to)@ == from@,
{
    let mut k: usize = 0;
    while k < from.len()
        invariant
            k <= from.len(),
            to.len() == from.len(),
            forall|j: int| 0 <= j < k ==> to@[j] == from@[j],
        decreases from.len() - k,
    {
        to.set(k, from[k]);
        k += 1;
    }
    proof {
        assert(to@ =~= from@);
    }
}

/// A crossfade stays between its ends.
pub proof fn law_fade_stays_between(from: int, to: int, left: int, ticks: int)
    requires
        0 <= left <= ticks,
        0 < ticks,
    ensures
        from <= to ==> from <= faded(from, to, left, ticks) <= to,
        to <= from ==> to <= faded(from, to, left, ticks) <= from,
        left == ticks ==> faded(from, to, left, ticks) == from,
        left == 0 ==> faded(from, to, left, ticks) == to,
{
    let sum = from * left + to * (ticks - left);
    assert(from <= to ==> from * ticks <= sum <= to * ticks) by (nonlinear_arith)
        requires
            sum == from * left + to * (ticks - left),
            0 <= left <= ticks,
            0 < ticks,
    ;
    assert(to <= from ==> to * ticks <= sum <= from * ticks) by (nonlinear_arith)
        requires
            sum == from * left + to * (ticks - left),
            0 <= left <= ticks,
            0 < ticks,
    ;
    lemma_div_between(from, sum, to, ticks);
    lemma_div_between(to, sum, from, ticks);
    if left == ticks {
        assert(to * (ticks - left) == 0) by (nonlinear_arith)
            requires
                left == ticks,
        ;
        lemma_div_between(from, sum, from, ticks);
    }
    if left == 0 {
        assert(from * left == 0) by (nonlinear_arith)
            requires
                left == 0,
        ;
        lemma_div_between(to, sum, to, ticks);
    }
}

proof fn lemma_div_between(lo: int, sum: int, hi: int, d: int)
    requires
        0 < d,
    ensures
        lo * d <= sum <= hi * d ==> lo <= sum / d <= hi,
{
    if lo * d <= sum <= hi * d {
        assert(lo <= sum / d <= hi) by (nonlinear_arith)
            requires
                0 < d,
                lo * d <= sum <= hi * d,
        ;
    }
}

/// Fades `to` in from `from`, with `left` of `ticks` ticks to go.
fn mix(from: &Vec<i64>, to: &mut Vec<i64>, left: u32, ticks: u32)
    requires
        from.len() == old(to).len(),
        0 < left <= ticks,
    ensures
        final(to)@ == fade(from@, old(to)@, left, ticks),
{
    let ghost start = to@;
    let mut k: usize = 0;
    while k < to.len()
        invariant
            k <= to.len(),
            to.len() == from.len(),
            start.len() == to.len(),
            0 < left <= ticks,
            forall|j: int| 0 <= j < k ==> #[trigger] to@[j] == fade(from@, start, left, ticks)[j],
            forall|j: int| k <= j < to.len() ==> #[trigger] to@[j] == start[j],
        decreases to.len() - k,
    {
        let a: i64 = from[k];
        let b: i64 = to[k];
        proof {
            law_fade_stays_between(a as int, b as int, left as int, ticks as int);
            assert(i64::MIN * u32::MAX <= a * left <= i64::MAX * u32::MAX) by (nonlinear_arith)
                requires
                    i64::MIN <= a <= i64::MAX,
                    0 <= left <= u32::MAX,
            ;
            assert(i64::MIN * u32::MAX <= b * (ticks - left) <= i64::MAX * u32::MAX)
                by (nonlinear_arith)
                requires
                    i64::MIN <= b <= i64::MAX,
                    0 <= ticks - left <= u32::MAX,
            ;
        }
        let sum: i128 = a as i128 * left as i128 + b as i128 * (ticks - left) as i128;
        let mixed: i128 = match sum.checked_div_euclid(ticks as i128) {
            Some(m) => m,
            None => 0,
        };
        to.set(k, mixed as i64);
        k += 1;
    }
    proof {
        assert(to@ =~= fade(from@, start, left, ticks));
    }
}

/// A clean solve is sent as it is, unless a crossfade is running.
pub proof fn law_clean_solve_is_sent(p: CommandPolicy, solved: Seq<i64>, fallback: Seq<i64>)
    ensures
        p.fade_left(SolveStatus::Optimal) == 0 ==> p.command(
            SolveStatus::Optimal,
            solved,
            fallback,
        ) == solved,
        p.next_consec(SolveStatus::Optimal) == 0,
{
}

/// While the bridge lasts, and always where the last good torque is to be held,
/// an unusable solve is replaced by the last good torque.
pub proof fn law_bridge_holds_the_last_good(
    p: CommandPolicy,
    status: SolveStatus,
    solved: Seq<i64>,
    fallback: Seq<i64>,
)
    requires
        p.takes_over(status),
        p.hold_last || p.consec_degraded < p.hold_bridge,
        p.fade_left(status) == 0,
    ensures
        p.command(status, solved, fallback) == p.last_good->0@,
{
}

/// Without a crossfade, an unusable solve never reaches the plant once a good
/// one has been seen: the command does not depend on it.
pub proof fn law_unusable_solve_is_not_sent(
    p: CommandPolicy,
    status: SolveStatus,
    a: Seq<i64>,
    b: Seq<i64>,
    fallback: Seq<i64>,
)
    requires
        p.takes_over(status),
    ensures
        p.command(status, a, fallback) == p.command(status, b, fallback),
{
}

/// Largest gain that the fallback computes with.
pub const MAX_GAIN: i64 = 0x4000_0000_0000_0000;

/// Division by a million, towards zero.
pub open spec fn in_micro(x: int) -> int {
    if x >= 0 {
        x / 1_000_000
    } else {
        -((-x) / 1_000_000)
    }
}

/// A value kept within `-lim` and `lim`.
pub open spec fn boxed(x: int, lim: int) -> int {
    if x < -lim {
        -lim
    } else if x > lim {
        lim
    } else {
        x
    }
}

/// The fallback torque of one joint: gravity compensation plus a PD onto the
/// seed posture, kept within the torque box. Gains are in micronewton metres per
/// radian (and second), `lim` in millionths of a micronewton metre.
pub open spec fn support_torque(
    gravity: int,
    q_seed: int,
    q: int,
    v: int,
    kp: int,
    kd: int,
    lim: int,
) -> int {
    in_micro(boxed(gravity * 1_000_000 + kp * (q_seed - q) - kd * v, lim))
}

/// The commands after the fallback has written those of the first `n` actuated
/// joints.
pub open spec fn supported(
    rig: BipedRig,
    gravity: Seq<i64>,
    q: Seq<i64>,
    v: Seq<i64>,
    kp: i64,
    kd: i64,
    out: Seq<i64>,
    n: nat,
) -> Seq<i64>
    decreases n,
{
    let act = rig.map.actuated_upto(rig.q_seed@.len());
    if n == 0 || n > act.len() {
        out
    } else {
        let (ji, vi) = act[n - 1];
        supported(rig, gravity, q, v, kp, kd, out, (n - 1) as nat).update(
            ji as int,
            support_torque(
                gravity[vi - BASE_ROWS] as int,
                rig.q_seed@[ji as int] as int,
                q[ji as int] as int,
                v[vi as int] as int,
                kp as int,
                kd as int,
                rig.limits@[vi - BASE_ROWS].torque as int,
            ) as i64,
        )
    }
}

/// The torque box is a box, and fits the command's numbers.
pub open spec fn box_fits(limits: Seq<RowLimits>) -> bool {
    forall|i: int|
        0 <= i < limits.len() ==> 0 <= (#[trigger] limits[i]).torque <= i64::MAX * 1_000_000
}

/// The support torque of a joint never leaves the torque box.
pub proof fn law_support_torque_stays_in_the_box(
    gravity: int,
    q_seed: int,
    q: int,
    v: int,
    kp: int,
    kd: int,
    lim: int,
)
    requires
        0 <= lim,
    ensures
        ({
            let tau = support_torque(gravity, q_seed, q, v, kp, kd, lim);
            -lim <= tau * 1_000_000 <= lim
        }),
{
}

/// The degraded-solve fallback: gravity compensation plus a PD onto the seed
/// posture, clamped to the torque box. Only actuated joints are written.
pub fn gravity_plus_posture(
    rig: &BipedRig,
    tau_gravity: &Vec<i64>,
    q: &Vec<i64>,
    v: &Vec<i64>,
    hold_kp: i64,
    hold_kd: i64,
    out: &mut Vec<i64>,
)
    requires
        rig.valid(),
        box_fits(rig.limits@),
        tau_gravity.len() == rig.limits.len(),
        q.len() == rig.q_seed.len(),
        v.len() == rig.map.nv,
        old(out).len() == rig.q_seed.len(),
        -MAX_GAIN <= hold_kp <= MAX_GAIN,
        -MAX_GAIN <= hold_kd <= MAX_GAIN,
    ensures
        final(out)@ == supported(
            *rig,
            tau_gravity@,
            q@,
            v@,
            hold_kp,
            hold_kd,
            old(out)@,
            rig.map.actuated_upto(rig.q_seed@.len()).len(),
        ),
{
    let ghost start = out@;
    let act: Vec<(usize, usize)> = rig.actuated();
    let mut n: usize = 0;
    while n < act.len()
        invariant
            rig.valid(),
            box_fits(rig.limits@),
            tau_gravity.len() == rig.limits.len(),
            q.len() == rig.q_seed.len(),
            v.len() == rig.map.nv,
            out.len() == rig.q_seed.len(),
            -MAX_GAIN <= hold_kp <= MAX_GAIN,
            -MAX_GAIN <= hold_kd <= MAX_GAIN,
            act@ == rig.map.actuated_upto(rig.q_seed@.len()),
            n <= act.len(),
            out@ == supported(*rig, tau_gravity@, q@, v@, hold_kp, hold_kd, start, n as nat),
        decreases act.len() - n,
    {
        proof {
            crate::joint_map::law_actuated_set(rig.map, rig.q_seed@.len());
        }
        let ji: usize = act[n].0;
        let vi: usize = act[n].1;
        let row: usize = vi - BASE_ROWS;
        let e: i128 = rig.q_seed[ji] as i128 - q[ji] as i128;
        let rate: i64 = v[vi];
        let lim: i128 = rig.limits[row].torque;
        proof {
            assert(-(MAX_GAIN * 0x1_0000_0000_0000_0000) <= hold_kp * e <= MAX_GAIN
                * 0x1_0000_0000_0000_0000) by (nonlinear_arith)
                requires
                    -MAX_GAIN <= hold_kp <= MAX_GAIN,
                    -0x1_0000_0000_0000_0000 <= e <= 0x1_0000_0000_0000_0000,
                    MAX_GAIN > 0,
            ;
            assert(-(MAX_GAIN * 0x8000_0000_0000_0000) <= hold_kd * rate <= MAX_GAIN
                * 0x8000_0000_0000_0000) by (nonlinear_arith)
                requires
                    -MAX_GAIN <= hold_kd <= MAX_GAIN,
                    -0x8000_0000_0000_0000 <= rate <= 0x8000_0000_0000_0000,
                    MAX_GAIN > 0,
            ;
        }
        let p_term: i128 = hold_kp as i128 * e;
        let d_term: i128 = hold_kd as i128 * rate as i128;
        let tau: i128 = tau_gravity[row] as i128 * 1_000_000 + p_term - d_term;
        let kept: i128 = if tau < -lim {
            -lim
        } else if tau > lim {
            lim
        } else {
            tau
        };
        let micro: i128 = if kept >= 0 {
            kept / 1_000_000
        } else {
            -((-kept) / 1_000_000)
        };
        out.set(ji, micro as i64);
        n += 1;
    }
}

/// Longest control period that commands are computed for, in microseconds.
pub const MAX_PERIOD: i64 = 0x8000_0000;

/// One write to the plant.
#[derive(Clone, Copy, PartialEq, Eq, Structural, Debug)]
pub enum PlantCommand {
    /// A joint velocity for the explicit loop, in millionths of a microradian
    /// per second.
    Velocity { joint: usize, rate: i128 },
    /// The same for the simulator's own velocity servo: the control value IS
    /// the target.
    Servo { joint: usize, rate: i128 },
    /// Position (in half trillionths of a microradian), velocity and torque
    /// feedforward.
    Hybrid { joint: usize, position: i128, rate: i128, torque: i64 },
    /// All torques at once.
    Torques,
}

/// Velocity one period ahead: `v + a dt`.
pub open spec fn rate_ahead(v: int, a: int, dt: int) -> int {
    v * 1_000_000 + a * dt
}

/// Twice the position one period ahead: `2 q + 2 v dt + a dt^2`.
pub open spec fn position_ahead(q: int, v: int, a: int, dt: int) -> int {
    q * 2_000_000_000_000 + v * dt * 2_000_000 + a * (dt * dt)
}

/// The write for one actuated joint.
pub open spec fn joint_command(
    mode: CtrlMode,
    joint: usize,
    q: int,
    v: int,
    a: int,
    torque: i64,
    dt: int,
) -> PlantCommand {
    let rate = rate_ahead(v, a, dt) as i128;
    match mode {
        CtrlMode::Servo => PlantCommand::Servo { joint, rate },
        CtrlMode::Velocity => PlantCommand::Velocity { joint, rate },
        _ => PlantCommand::Hybrid {
            joint,
            position: position_ahead(q, v, a, dt) as i128,
            rate,
            torque,
        },
    }
}

/// The writes for a whole command.
pub open spec fn plant_commands(
    rig: BipedRig,
    mode: CtrlMode,
    taus: Seq<i64>,
    qddot: Seq<i64>,
    q: Seq<i64>,
    v: Seq<i64>,
    dt: i64,
) -> Seq<PlantCommand> {
    let act = rig.map.actuated_upto(rig.q_seed@.len());
    if mode == CtrlMode::Torque {
        seq![PlantCommand::Torques]
    } else {
        Seq::new(
            act.len(),
            |n: int|
                joint_command(
                    mode,
                    act[n].0,
                    q[act[n].0 as int] as int,
                    v[act[n].1 as int] as int,
                    qddot[act[n].1 as int] as int,
                    taus[act[n].0 as int],
                    dt as int,
                ),
        )
    }
}

proof fn lemma_ahead_fits(q: i64, v: i64, a: i64, dt: i64)
    requires
        0 <= dt <= MAX_PERIOD,
    ensures
        i128::MIN <= v * 1_000_000 + a * dt <= i128::MAX,
        i128::MIN <= a * dt <= i128::MAX,
        i128::MIN <= v * dt * 2_000_000 <= i128::MAX,
        i128::MIN <= v * dt <= i128::MAX,
        0 <= dt * dt <= i128::MAX,
        i128::MIN <= a * (dt * dt) <= i128::MAX,
        i128::MIN <= q * 2_000_000_000_000 + v * dt * 2_000_000 <= i128::MAX,
        i128::MIN <= position_ahead(q as int, v as int, a as int, dt as int) <= i128::MAX,
{
    let m: int = 0x8000_0000_0000_0000;
    let p: int = 0x8000_0000;
    assert(-(m * p) <= v * dt <= m * p) by (nonlinear_arith)
        requires
            -m <= v <= m,
            0 <= dt <= p,
            m > 0,
    ;
    assert(-(m * p) <= a * dt <= m * p) by (nonlinear_arith)
        requires
            -m <= a <= m,
            0 <= dt <= p,
            m > 0,
    ;
    assert(0 <= dt * dt <= p * p) by (nonlinear_arith)
        requires
            0 <= dt <= p,
    ;
    let d2 = dt * dt;
    assert(-(m * (p * p)) <= a * d2 <= m * (p * p)) by (nonlinear_arith)
        requires
            -m <= a <= m,
            0 <= d2 <= p * p,
            m > 0,
            p > 0,
    ;
    assert(m * p == 0x4000_0000_0000_0000_0000_0000) by (nonlinear_arith)
        requires
            m == 0x8000_0000_0000_0000,
            p == 0x8000_0000,
    ;
    assert(p * p == 0x4000_0000_0000_0000) by (nonlinear_arith)
        requires
            p == 0x8000_0000,
    ;
    assert(m * (p * p) == 0x2000_0000_0000_0000_0000_0000_0000_0000) by (nonlinear_arith)
        requires
            m == 0x8000_0000_0000_0000,
            p * p == 0x4000_0000_0000_0000,
    ;
}

/// The command in whichever form the control mode wants. In all but torque mode
/// the solved acceleration is integrated one control period forward from the
/// MEASURED state, so the reference never drifts away from where the robot
/// actually is.
pub fn write_to_plant(
    rig: &BipedRig,
    mode: CtrlMode,
    robot_taus: &Vec<i64>,
    qddot: &Vec<i64>,
    q: &Vec<i64>,
    v: &Vec<i64>,
    dt: i64,
) -> (r: Vec<PlantCommand>)
    requires
        rig.valid(),
        robot_taus.len() == rig.q_seed.len(),
        q.len() == rig.q_seed.len(),
        qddot.len() == rig.map.nv,
        v.len() == rig.map.nv,
        0 <= dt <= MAX_PERIOD,
    ensures
        r@ == plant_commands(*rig, mode, robot_taus@, qddot@, q@, v@, dt),
{
    let mut out: Vec<PlantCommand> = Vec::new();
    if let CtrlMode::Torque = mode {
        out.push(PlantCommand::Torques);
        return out;
    }
    let act: Vec<(usize, usize)> = rig.actuated();
    let ghost want = plant_commands(*rig, mode, robot_taus@, qddot@, q@, v@, dt);
    let mut n: usize = 0;
    while n < act.len()
        invariant
            rig.valid(),
            robot_taus.len() == rig.q_seed.len(),
            q.len() == rig.q_seed.len(),
            qddot.len() == rig.map.nv,
            v.len() == rig.map.nv,
            0 <= dt <= MAX_PERIOD,
            mode != CtrlMode::Torque,
            act@ == rig.map.actuated_upto(rig.q_seed@.len()),
            want == plant_commands(*rig, mode, robot_taus@, qddot@, q@, v@, dt),
            n <= act.len(),
            out@ == want.take(n as int),
        decreases act.len() - n,
    {
        proof {
            crate::joint_map::law_actuated_set(rig.map, rig.q_seed@.len());
        }
        let ji: usize = act[n].0;
        let vi: usize = act[n].1;
        proof {
            lemma_ahead_fits(q@[ji as int], v@[vi as int], qddot@[vi as int], dt);
        }
        let a: i128 = qddot[vi] as i128;
        let d: i128 = dt as i128;
        let now: i128 = v[vi] as i128;
        let rate: i128 = now * 1_000_000 + a * d;
        let cmd: PlantCommand = match mode {
            CtrlMode::Servo => PlantCommand::Servo { joint: ji, rate },
            CtrlMode::Velocity => PlantCommand::Velocity { joint: ji, rate },
            _ => {
                let position: i128 = q[ji] as i128 * 2_000_000_000_000 + now * d * 2_000_000 + a * (d
                    * d);
                PlantCommand::Hybrid { joint: ji, position, rate, torque: robot_taus[ji] }
            },
        };
        out.push(cmd);
        n += 1;
        proof {
            assert(out@ =~= want.take(n as int));
        }
    }
    proof {
        assert(want.take(want.len() as int) =~= want);
    }
    out
}

/// A count goes up by one, and stays at the largest number.
pub proof fn law_counts_go_up_by_one(n: u32)
    ensures
        n < u32::MAX ==> counted(n) == n + 1,
        n == u32::MAX ==> counted(n) == n,
{
}

/// During a fade the command is the mean of where it came from and where it goes, by the
/// ticks that are left and those that have passed, up to the last digit.
pub proof fn law_fade_is_the_mean_of_both(from: int, to: int, left: int, ticks: int)
    requires
        ticks > 0,
    ensures
        0 <= from * left + to * (ticks - left) - ticks * faded(from, to, left, ticks) < ticks,
{
    let v = from * left + to * (ticks - left);
    let q = v / ticks;
    assert(0 <= v - ticks * q < ticks) by (nonlinear_arith)
        requires
            ticks > 0,
            q == v / ticks,
    ;
}

/// Without a fade under way the policy sends the solved torque, unless the solve degraded at
/// a level that invalidates it and a good torque is known: then it holds that for the ticks
/// of the bridge, or always where it is told to, and afterwards sends the fallback.
pub proof fn law_policy_sends(
    p: CommandPolicy,
    status: SolveStatus,
    solved: Seq<i64>,
    fallback: Seq<i64>,
)
    requires
        p.blend_ticks == 0,
        p.blend_left == 0,
    ensures
        status is Optimal ==> p.command(status, solved, fallback) == solved,
        status matches SolveStatus::Degraded { level } ==> {
            let sent = p.command(status, solved, fallback);
            &&& level > p.fallback_max_level ==> sent == solved
            &&& p.last_good is None ==> sent == solved
            &&& level <= p.fallback_max_level && p.last_good is Some ==> {
                &&& p.hold_last ==> sent == p.last_good->0@
                &&& p.consec_degraded < p.hold_bridge ==> sent == p.last_good->0@
                &&& !p.hold_last && p.consec_degraded >= p.hold_bridge ==> sent == fallback
            }
        },
{
}

/// Handing over between solver and fallback does not jump: the tick on which it happens still
/// sends the command before it, and the fade then lasts `blend_ticks`.
pub proof fn law_handover_does_not_jump(
    p: CommandPolicy,
    status: SolveStatus,
    solved: Seq<i64>,
    fallback: Seq<i64>,
    k: int,
)
    requires
        p.valid(solved.len()),
        fallback.len() == solved.len(),
        p.blend_ticks > 0,
        p.takes_over(status) != p.in_fallback_prev,
        0 <= k < solved.len(),
    ensures
        p.command(status, solved, fallback).len() == solved.len(),
        p.command(status, solved, fallback)[k] == p.cmd_prev@[k],
        p.fade_left(status) == p.blend_ticks,
        p.fade_from(status) == p.cmd_prev@,
{
    let to = p.chosen(status, solved, fallback);
    law_fade_stays_between(
        p.cmd_prev@[k] as int,
        to[k] as int,
        p.blend_ticks as int,
        p.blend_ticks as int,
    );
}

/// Without a handover a fade goes on from where it was, and the fallback is in charge exactly
/// where a degraded level invalidates the solution and a good one is known.
pub proof fn law_fade_goes_on(p: CommandPolicy, status: SolveStatus)
    ensures
        p.takes_over(status) == p.in_fallback_prev ==> p.fade_left(status) == p.blend_left
            && p.fade_from(status) == p.blend_from@,
        p.takes_over(status) <==> p.last_good is Some && status is Degraded && status->level
            <= p.fallback_max_level,
        p.takes_over(status) && p.consec_degraded < u32::MAX ==> p.next_consec(status)
            == p.consec_degraded + 1,
        !p.takes_over(status) ==> p.next_consec(status) == 0,
{
}

/// The robot is said to be open-loop on the tenth failure in a row, once, and to have
/// recovered when a run of at least ten ends.
pub proof fn law_long_failures_are_told(p: CommandPolicy, status: SolveStatus)
    requires
        p.consec_degraded < u32::MAX,
    ensures
        p.takes_over(status) ==> (p.notice(status) is Some <==> p.consec_degraded == 9),
        p.takes_over(status) && p.consec_degraded == 9 ==> p.notice(status) == Some(
            Notice::OpenLoop { ticks: 10, held: p.hold_last },
        ),
        !p.takes_over(status) ==> (p.notice(status) is Some <==> p.consec_degraded >= 10),
        !p.takes_over(status) && p.consec_degraded >= 10 ==> p.notice(status) == Some(
            Notice::Recovered { ticks: p.consec_degraded },
        ),
{
}

/// Within its box the supporting torque is gravity plus the posture's spring and damper, up
/// to the last digit; beyond it is the limit on that side.
pub proof fn law_support_is_gravity_and_posture(
    gravity: int,
    q_seed: int,
    q: int,
    v: int,
    kp: int,
    kd: int,
    lim: int,
)
    requires
        lim >= 0,
    ensures
        ({
            let tau = support_torque(gravity, q_seed, q, v, kp, kd, lim);
            let want = 1_000_000 * gravity + kp * (q_seed - q) - kd * v;
            &&& 0 <= want <= lim ==> 0 <= want - 1_000_000 * tau < 1_000_000
            &&& -lim <= want <= 0 ==> -1_000_000 < want - 1_000_000 * tau <= 0
            &&& want > lim ==> 0 <= lim - 1_000_000 * tau < 1_000_000
            &&& want < -lim ==> 0 <= lim + 1_000_000 * tau < 1_000_000
        }),
{
}

/// Each actuated joint is commanded its supporting torque, from its own row, and every other
/// entry stays.
pub proof fn law_actuated_joints_are_supported(
    rig: BipedRig,
    gravity: Seq<i64>,
    q: Seq<i64>,
    v: Seq<i64>,
    kp: i64,
    kd: i64,
    out: Seq<i64>,
    n: nat,
    ji: int,
)
    requires
        rig.map.valid(rig.map.a2m@.len()),
        rig.map.a2m@.len() == rig.q_seed@.len(),
        out.len() == rig.q_seed@.len(),
        n <= rig.map.actuated_upto(rig.q_seed@.len()).len(),
        0 <= ji < out.len(),
    ensures
        supported(rig, gravity, q, v, kp, kd, out, n).len() == out.len(),
        ({
            let act = rig.map.actuated_upto(rig.q_seed@.len());
            let now = supported(rig, gravity, q, v, kp, kd, out, n)[ji];
            &&& (forall|k: int| 0 <= k < n ==> (#[trigger] act[k]).0 != ji) ==> now == out[ji]
            &&& forall|k: int|
                0 <= k < n && (#[trigger] act[k]).0 == ji ==> now == support_torque(
                    gravity[act[k].1 - 6] as int,
                    rig.q_seed@[ji] as int,
                    q[ji] as int,
                    v[act[k].1 as int] as int,
                    kp as int,
                    kd as int,
                    rig.limits@[act[k].1 - 6].torque as int,
                ) as i64
        }),
    decreases n,
{
    crate::joint_map::law_actuated_set(rig.map, rig.q_seed@.len());
    let act = rig.map.actuated_upto(rig.q_seed@.len());
    if n > 0 {
        law_actuated_joints_are_supported(rig, gravity, q, v, kp, kd, out, (n - 1) as nat, ji);
        let last = act[n - 1];
        assert(last.0 < out.len());
        assert forall|k: int| 0 <= k < n - 1 implies (#[trigger] act[k]).0 < last.0 by {}
    }
}

/// The commanded position moves at the commanded rate: a little later it is further by the
/// rate times that time, and by what the acceleration adds in it.
pub proof fn law_position_moves_at_the_rate(q: int, v: int, a: int, dt: int, h: int)
    ensures
        position_ahead(q, v, a, dt + h) - position_ahead(q, v, a, dt) == 2 * h * rate_ahead(
            v,
            a,
            dt,
        ) + a * (h * h),
        rate_ahead(v, a, dt + h) - rate_ahead(v, a, dt) == a * h,
        position_ahead(q, v, a, 0) == 2_000_000_000_000 * q,
        rate_ahead(v, a, 0) == 1_000_000 * v,
{
    assert((dt + h) * (dt + h) == dt * dt + 2 * (dt * h) + h * h) by (nonlinear_arith);
    let (b, c, d) = (dt * dt, dt * h, h * h);
    assert(a * (b + 2 * c + d) == a * b + 2 * (a * c) + a * d) by (nonlinear_arith);
    assert(v * (dt + h) * 2_000_000 == v * dt * 2_000_000 + v * h * 2_000_000) by (nonlinear_arith);
    assert(2 * h * (v * 1_000_000 + a * dt) == v * h * 2_000_000 + 2 * (a * (dt * h)))
        by (nonlinear_arith);
    assert(a * (dt + h) == a * dt + a * h) by (nonlinear_arith);
    assert(v * 0 * 2_000_000 == 0 && a * (0 * 0) == 0 && a * 0 == 0) by (nonlinear_arith);
}

/// What a joint is commanded in each mode: its rate ahead where the mode is velocity-resolved,
/// and where it is not also its position ahead and the torque.
pub proof fn law_modes_command(
    joint: usize,
    q: i64,
    v: i64,
    a: i64,
    torque: i64,
    dt: int,
)
    requires
        0 <= dt <= 0xffff_ffff,
        -0x100_0000_0000 <= a <= 0x100_0000_0000,
        -0x100_0000_0000 <= v <= 0x100_0000_0000,
    ensures
        ({
            let rate = 1_000_000 * v + a * dt;
            let of = |mode: CtrlMode| joint_command(
                mode,
                joint,
                q as int,
                v as int,
                a as int,
                torque,
                dt,
            );
            &&& of(CtrlMode::Servo) matches PlantCommand::Servo { joint: j, rate: x } && j == joint
                && x == rate
            &&& of(CtrlMode::Velocity) matches PlantCommand::Velocity { joint: j, rate: x } && j
                == joint && x == rate
            &&& of(CtrlMode::Hybrid) matches PlantCommand::Hybrid {
                joint: j,
                position,
                rate: x,
                torque: t,
            } && j == joint && x == rate && t == torque && position == 2_000_000_000_000 * q
                + 2_000_000 * (v * dt) + a * (dt * dt)
        }),
{
    let m: int = 0x100_0000_0000;
    let d: int = 0xffff_ffff;
    assert(-(m * d) <= a * dt <= m * d && -(m * d) <= v * dt <= m * d) by (nonlinear_arith)
        requires
            -m <= a <= m,
            -m <= v <= m,
            0 <= dt <= d,
    ;
    let x = dt * dt;
    assert(0 <= x <= d * d) by (nonlinear_arith)
        requires
            0 <= dt <= d,
            x == dt * dt,
    ;
    assert(-(m * (d * d)) <= a * x <= m * (d * d)) by (nonlinear_arith)
        requires
            -m <= a <= m,
            0 <= x <= d * d,
    ;
}

/// Every actuated joint gets one command, in order, from its own row; in torque mode there is
/// one for all.
pub proof fn law_each_actuated_joint_is_commanded(
    rig: BipedRig,
    mode: CtrlMode,
    taus: Seq<i64>,
    qddot: Seq<i64>,
    q: Seq<i64>,
    v: Seq<i64>,
    dt: i64,
    k: int,
)
    requires
        0 <= k < rig.map.actuated_upto(rig.q_seed@.len()).len(),
    ensures
        ({
            let all = plant_commands(rig, mode, taus, qddot, q, v, dt);
            let act = rig.map.actuated_upto(rig.q_seed@.len());
            let (ji, vi) = act[k];
            &&& mode == CtrlMode::Torque ==> all == seq![PlantCommand::Torques]
            &&& mode != CtrlMode::Torque ==> all.len() == act.len() && all[k] == joint_command(
                mode,
                ji,
                q[ji as int] as int,
                v[vi as int] as int,
                qddot[vi as int] as int,
                taus[ji as int],
                dt as int,
            )
        }),
{
}

/// The tally names each level that has failed, with its count, and no other.
pub proof fn law_failed_levels_are_named(
    counts: Seq<u32>,
    names: Seq<Seq<char>>,
    n: nat,
    level: int,
)
    requires
        n <= counts.len(),
        0 <= level < n,
    ensures
        counts[level] > 0 && level < names.len() ==> tally_parts(counts, names, n).contains(
            names[level] + "="@ + crate::text::decimal_of(counts[level] as nat),
        ),
        counts[level] > 0 && level >= names.len() ==> tally_parts(counts, names, n).contains(
            "?"@ + "="@ + crate::text::decimal_of(counts[level] as nat),
        ),
        (forall|k: int| 0 <= k < n ==> #[trigger] counts[k] == 0) ==> tally_parts(
            counts,
            names,
            n,
        ).len() == 0,
        tally_parts(counts, names, n).len() <= n,
    decreases n,
{
    let all = tally_parts(counts, names, n);
    let before = tally_parts(counts, names, (n - 1) as nat);
    let part = level_name(names, level) + "="@ + crate::text::decimal_of(counts[level] as nat);
    if n > 1 {
        law_failed_levels_are_named(counts, names, (n - 1) as nat, if level < n - 1 {
            level
        } else {
            0
        });
    }
    if counts[level] > 0 {
        if level < n - 1 {
            let k = choose|k: int| 0 <= k < before.len() && before[k] == part;
            assert(all[k] == part);
        } else {
            assert(all[all.len() - 1] == part);
        }
    }
}

/// An optimal solution is usable, and a degraded one is not where it failed at one of the levels
/// that the fallback answers for.
pub proof fn law_unusable_statuses(p: CommandPolicy, level: usize)
    ensures
        !p.unusable(SolveStatus::Optimal),
        p.unusable(SolveStatus::Degraded { level }) <==> level <= p.fallback_max_level,
{
}

} // verus!
