//! The smaller panels: external force, joint peaks, contacts, inertia check,
//! status line and title.

use vstd::prelude::*;
use vstd::string::*;

use crate::editor::state::InteractionMode;
use crate::order::descending;
use crate::robot::{CollisionPair, JointData, RobotModel, Vec3};
use crate::text::{around, around_two, decimal, same};

verus! {

// ---------------------------------------------------------------- external force

pub open spec fn is_zero(v: Vec3) -> bool {
    v.x == 0 && v.y == 0 && v.z == 0
}

/// Whether a pulse can be applied: a simulation runs, a link is picked, and the
/// force or the torque is not zero.
pub fn can_apply_force(running: bool, link: &Option<String>, force: &Vec3, torque: &Vec3) -> (r:
    bool)
    ensures
        r == (running && *link is Some && !(is_zero(*force) && is_zero(*torque))),
{
    running && link.is_some() && (force.x != 0 || force.y != 0 || force.z != 0 || torque.x != 0
        || torque.y != 0 || torque.z != 0)
}

/// Whether the pulse on the picked link can be cancelled.
pub fn can_cancel_force(running: bool, link: &Option<String>) -> (r: bool)
    ensures
        r == (running && *link is Some),
{
    running && link.is_some()
}

// ---------------------------------------------------------------- peaks

/// The unit of a joint's effort.
pub open spec fn effort_unit_of(joint_type: Seq<char>) -> Seq<char> {
    if joint_type == "prismatic"@ {
        "N"@
    } else {
        "N\u{b7}m"@
    }
}

/// The unit of a joint's rate.
pub open spec fn rate_unit_of(joint_type: Seq<char>) -> Seq<char> {
    if joint_type == "prismatic"@ {
        "m/s"@
    } else {
        "rad/s"@
    }
}

pub fn effort_unit(joint_type: &str) -> (r: &'static str)
    ensures
        r@ == effort_unit_of(joint_type@),
{
    if same(joint_type, "prismatic") {
        "N"
    } else {
        "N\u{b7}m"
    }
}

pub fn rate_unit(joint_type: &str) -> (r: &'static str)
    ensures
        r@ == rate_unit_of(joint_type@),
{
    if same(joint_type, "prismatic") {
        "m/s"
    } else {
        "rad/s"
    }
}

/// The peak of a joint; one that was not recorded counts as `zero`.
pub open spec fn peak_of<P>(peaks: Seq<P>, zero: P, i: int) -> P {
    if i < peaks.len() {
        peaks[i]
    } else {
        zero
    }
}

/// The rows among the first `n` joints: those that can move, each with its peak.
pub open spec fn peak_rows_upto<P>(joints: Seq<JointData>, peaks: Seq<P>, zero: P, n: nat) -> Seq<
    (usize, P),
>
    decreases n,
{
    if n == 0 || n > joints.len() {
        Seq::empty()
    } else {
        let before = peak_rows_upto(joints, peaks, zero, (n - 1) as nat);
        if joints[n - 1].joint_type@ == "fixed"@ {
            before
        } else {
            before.push(((n - 1) as usize, peak_of(peaks, zero, n - 1)))
        }
    }
}

/// The rows of the peaks table.
pub fn peak_rows<P: Copy>(model: &RobotModel, peaks: &Vec<P>, zero: P) -> (r: Vec<(usize, P)>)
    ensures
        r@ == peak_rows_upto(model.joints@, peaks@, zero, model.joints@.len()),
{
    let mut out: Vec<(usize, P)> = Vec::new();
    let mut i: usize = 0;
    while i < model.joints.len()
        invariant
            i <= model.joints.len(),
            out@ == peak_rows_upto(model.joints@, peaks@, zero, i as nat),
        decreases model.joints.len() - i,
    {
        if !same(model.joints[i].joint_type.as_str(), "fixed") {
            let p: P = if i < peaks.len() {
                peaks[i]
            } else {
                zero
            };
            out.push((i, p));
        }
        i += 1;
    }
    out
}

// ---------------------------------------------------------------- contacts

/// A contact as the plant reports it; the world has the empty name.
pub struct ContactRow {
    /// Magnitude of the force, in micronewtons.
    pub mag: i64,
    pub body1: String,
    pub body2: String,
    pub is_self: bool,
}

/// How many of the first `n` contacts are between links of the robot.
pub open spec fn self_count(rows: Seq<ContactRow>, n: nat) -> nat
    decreases n,
{
    if n == 0 || n > rows.len() {
        0
    } else {
        self_count(rows, (n - 1) as nat) + (if rows[n - 1].is_self {
            1nat
        } else {
            0
        })
    }
}

/// The magnitudes of the contacts.
pub open spec fn magnitudes(rows: Seq<ContactRow>) -> Seq<i128> {
    rows.map_values(|r: ContactRow| r.mag as i128)
}

/// The contacts in the order they are shown, and how many there are of each
/// kind.
pub struct ContactTable {
    pub order: Vec<usize>,
    pub n_self: usize,
    pub n_external: usize,
}

/// Orders the contacts, the strongest first; equal ones stay as reported.
pub fn contact_table(rows: &Vec<ContactRow>) -> (r: ContactTable)
    ensures
        crate::order::is_descending_order(magnitudes(rows@), r.order@),
        r.n_self == self_count(rows@, rows@.len()),
        r.n_self + r.n_external == rows@.len(),
{
    let mut keys: Vec<i128> = Vec::new();
    let mut n_self: usize = 0;
    let mut i: usize = 0;
    while i < rows.len()
        invariant
            i <= rows.len(),
            keys@ == magnitudes(rows@).take(i as int),
            n_self == self_count(rows@, i as nat),
            n_self <= i,
        decreases rows.len() - i,
    {
        keys.push(rows[i].mag as i128);
        proof {
            assert(keys@ =~= magnitudes(rows@).take(i + 1));
        }
        if rows[i].is_self {
            n_self = n_self + 1;
        }
        i += 1;
    }
    proof {
        assert(keys@ =~= magnitudes(rows@));
    }
    ContactTable { order: descending(&keys), n_self, n_external: rows.len() - n_self }
}

/// The head of the contacts panel.
pub fn contacts_title(table: &ContactTable) -> (r: String)
    ensures
        r@ == "\u{1f4a5} Contacts  ("@ + crate::text::decimal_of(table.n_self as nat) + " self, "@
            + crate::text::decimal_of(table.n_external as nat) + " ground)"@,
{
    let a: String = decimal(table.n_self);
    let b: String = decimal(table.n_external);
    around_two("\u{1f4a5} Contacts  (", a.as_str(), " self, ", b.as_str(), " ground)")
}

/// How a pair of bodies is shown.
pub open spec fn pair_text(a: Seq<char>, b: Seq<char>) -> Seq<char> {
    if a.len() == 0 && b.len() == 0 {
        "(world\u{2194}world)"@
    } else if a.len() == 0 {
        "world \u{2194} "@ + b
    } else if b.len() == 0 {
        a + " \u{2194} world"@
    } else {
        a + " \u{2194} "@ + b
    }
}

/// How a pair of bodies is shown.
pub fn pair_label(a: &str, b: &str) -> (r: String)
    ensures
        r@ == pair_text(a@, b@),
{
    if a.is_empty() && b.is_empty() {
        String::from_str("(world\u{2194}world)")
    } else if a.is_empty() {
        let mut text: String = String::from_str("world \u{2194} ");
        text.append(b);
        text
    } else if b.is_empty() {
        let mut text: String = String::from_str(a);
        text.append(" \u{2194} world");
        text
    } else {
        around(a, " \u{2194} ", b)
    }
}

/// The pairs among the first `n` that do not join the two links.
pub open spec fn others(pairs: Seq<CollisionPair>, a: Seq<char>, b: Seq<char>, n: nat) -> Seq<
    CollisionPair,
>
    decreases n,
{
    if n == 0 || n > pairs.len() {
        Seq::empty()
    } else {
        let before = others(pairs, a, b, (n - 1) as nat);
        if pairs[n - 1].joins(a, b) {
            before
        } else {
            before.push(pairs[n - 1])
        }
    }
}

/// The pairs after contact between two links was excluded: whatever was said of
/// the pair before is gone, and an excluding entry comes last.
pub open spec fn excludes(
    now: Seq<CollisionPair>,
    was: Seq<CollisionPair>,
    a: Seq<char>,
    b: Seq<char>,
) -> bool {
    &&& now.len() > 0
    &&& now.drop_last() == others(was, a, b, was.len())
    &&& now.last().link_a@ == a
    &&& now.last().link_b@ == b
    &&& !now.last().enabled
}

/// Excludes contact between two links.
pub fn exclude_pair(model: &mut RobotModel, a: &str, b: &str)
    ensures
        *final(model) == (RobotModel { collision_pairs: final(model).collision_pairs, ..*old(model) }),
        excludes(final(model).collision_pairs@, old(model).collision_pairs@, a@, b@),
{
    let mut kept: Vec<CollisionPair> = Vec::new();
    let mut i: usize = 0;
    while i < model.collision_pairs.len()
        invariant
            i <= model.collision_pairs.len(),
            kept@ == others(model.collision_pairs@, a@, b@, i as nat),
        decreases model.collision_pairs.len() - i,
    {
        let p: &CollisionPair = &model.collision_pairs[i];
        if !p.matches(a, b) {
            kept.push(
                CollisionPair {
                    link_a: p.link_a.clone(),
                    link_b: p.link_b.clone(),
                    enabled: p.enabled,
                },
            );
        }
        i += 1;
    }
    let ghost before = kept@;
    kept.push(CollisionPair { link_a: a.to_owned(), link_b: b.to_owned(), enabled: false });
    proof {
        assert(kept@.drop_last() =~= before);
    }
    model.collision_pairs = kept;
}

proof fn lemma_others(pairs: Seq<CollisionPair>, a: Seq<char>, b: Seq<char>, n: nat)
    ensures
        forall|k: int|
            0 <= k < others(pairs, a, b, n).len() ==> !(#[trigger] others(pairs, a, b, n)[k]).joins(
                a,
                b,
            ),
    decreases n,
{
    if n > 0 && n <= pairs.len() {
        lemma_others(pairs, a, b, (n - 1) as nat);
        let before = others(pairs, a, b, (n - 1) as nat);
        let now = others(pairs, a, b, n);
        assert forall|k: int| 0 <= k < now.len() implies !(#[trigger] now[k]).joins(a, b) by {
            if k < before.len() {
                assert(now[k] == before[k]);
            }
        }
    }
}

/// After an exclusion exactly one entry speaks of the pair, and it excludes it.
pub proof fn law_excluded_pair_stands_alone(
    before: Seq<CollisionPair>,
    after: Seq<CollisionPair>,
    a: Seq<char>,
    b: Seq<char>,
    k: int,
)
    requires
        excludes(after, before, a, b),
        0 <= k < after.len(),
    ensures
        after[k].joins(a, b) <==> k == after.len() - 1,
        after[k].joins(a, b) ==> !after[k].enabled,
{
    lemma_others(before, a, b, before.len());
    if k < after.len() - 1 {
        assert(after[k] == after.drop_last()[k]);
        assert(!others(before, a, b, before.len())[k].joins(a, b));
    }
}

// ---------------------------------------------------------------- inertia check

#[derive(Clone, Copy, PartialEq, Eq, Structural, Debug)]
pub enum ValidationSeverity {
    Error,
    Warning,
}

/// What the inertia check found at one link.
pub struct LinkValidation {
    pub link_name: String,
    pub issues: Vec<ValidationSeverity>,
}

impl LinkValidation {
    pub open spec fn any(&self, s: ValidationSeverity) -> bool {
        exists|i: int| 0 <= i < self.issues@.len() && #[trigger] self.issues@[i] == s
    }

    fn has(&self, s: ValidationSeverity) -> (r: bool)
        ensures
            r == self.any(s),
    {
        let mut i: usize = 0;
        while i < self.issues.len()
            invariant
                i <= self.issues.len(),
                forall|j: int| 0 <= j < i ==> #[trigger] self.issues@[j] != s,
            decreases self.issues.len() - i,
        {
            if self.issues[i] == s {
                return true;
            }
            i += 1;
        }
        false
    }

    pub fn has_errors(&self) -> (r: bool)
        ensures
            r == self.any(ValidationSeverity::Error),
    {
        self.has(ValidationSeverity::Error)
    }

    pub fn has_warnings(&self) -> (r: bool)
        ensures
            r == self.any(ValidationSeverity::Warning),
    {
        self.has(ValidationSeverity::Warning)
    }

    pub fn is_ok(&self) -> (r: bool)
        ensures
            r == (self.issues@.len() == 0),
    {
        self.issues.len() == 0
    }
}

/// What a link counts as: its worst finding.
#[derive(Clone, Copy, PartialEq, Eq, Structural, Debug)]
pub enum Verdict {
    Sound,
    Warned,
    Failed,
}

pub open spec fn verdict(v: LinkValidation) -> Verdict {
    if v.any(ValidationSeverity::Error) {
        Verdict::Failed
    } else if v.any(ValidationSeverity::Warning) {
        Verdict::Warned
    } else {
        Verdict::Sound
    }
}

/// How many of the first `n` links count as `w`.
pub open spec fn tally(results: Seq<LinkValidation>, w: Verdict, n: nat) -> nat
    decreases n,
{
    if n == 0 || n > results.len() {
        0
    } else {
        tally(results, w, (n - 1) as nat) + (if verdict(results[n - 1]) == w {
            1nat
        } else {
            0
        })
    }
}

pub struct ValidationCounts {
    pub ok: usize,
    pub warnings: usize,
    pub errors: usize,
}

/// The summary of the inertia check. A link with errors is not counted among
/// the warnings.
pub fn count_validation(results: &Vec<LinkValidation>) -> (r: ValidationCounts)
    ensures
        r.ok == tally(results@, Verdict::Sound, results@.len()),
        r.warnings == tally(results@, Verdict::Warned, results@.len()),
        r.errors == tally(results@, Verdict::Failed, results@.len()),
        r.ok + r.warnings + r.errors == results@.len(),
{
    let mut ok: usize = 0;
    let mut warnings: usize = 0;
    let mut errors: usize = 0;
    let mut i: usize = 0;
    while i < results.len()
        invariant
            i <= results.len(),
            ok == tally(results@, Verdict::Sound, i as nat),
            warnings == tally(results@, Verdict::Warned, i as nat),
            errors == tally(results@, Verdict::Failed, i as nat),
            ok + warnings + errors == i,
        decreases results.len() - i,
    {
        if results[i].has_errors() {
            errors = errors + 1;
        } else if results[i].has_warnings() {
            warnings = warnings + 1;
        } else {
            ok = ok + 1;
        }
        i += 1;
    }
    ValidationCounts { ok, warnings, errors }
}

/// A link without findings, and only such a link, counts as sound.
pub proof fn law_sound_links_have_no_findings(v: LinkValidation)
    ensures
        verdict(v) == Verdict::Sound <==> v.issues@.len() == 0,
{
    if v.issues@.len() > 0 {
        let first = v.issues@[0];
        assert(first == ValidationSeverity::Error || first == ValidationSeverity::Warning);
    }
}

/// The title of the inertia window.
pub fn validation_title(total: usize) -> (r: String)
    ensures
        r@ == "\u{1f50d} Inertia Validation ("@ + crate::text::decimal_of(total as nat)
            + " links)"@,
{
    let n: String = decimal(total);
    around("\u{1f50d} Inertia Validation (", n.as_str(), " links)")
}

/// Whether the inertia window stays.
pub fn validation_stays(open: bool, close_clicked: bool) -> (r: bool)
    ensures
        r == (open && !close_clicked),
{
    open && !close_clicked
}

// ---------------------------------------------------------------- status and title

/// What the status bar says of joint limits: how many joints are at a limit or
/// past one, and how many of those past one.
pub fn limit_status(violations: usize, beyond: usize) -> (r: Option<String>)
    ensures
        r is Some <==> violations > 0,
        r matches Some(t) ==> t@ == (if beyond > 0 {
            "\u{26a0} "@ + crate::text::decimal_of(beyond as nat) + " joint(s) past limit"@
        } else {
            crate::text::decimal_of(violations as nat) + " joint(s) at limit"@
        }),
{
    if violations == 0 {
        None
    } else if beyond > 0 {
        let n: String = decimal(beyond);
        Some(around("\u{26a0} ", n.as_str(), " joint(s) past limit"))
    } else {
        let mut text: String = decimal(violations);
        text.append(" joint(s) at limit");
        Some(text)
    }
}

/// The interaction mode in the status bar.
pub fn mode_label(mode: InteractionMode) -> (r: &'static str)
    ensures
        r@ == match mode {
            InteractionMode::JointDrive => "\u{1f527} Joint Drive"@,
            InteractionMode::OffsetAdjust => "\u{2725} Offset Adjust"@,
        },
{
    match mode {
        InteractionMode::JointDrive => "\u{1f527} Joint Drive",
        InteractionMode::OffsetAdjust => "\u{2725} Offset Adjust",
    }
}

/// The title of the window.
pub fn window_title(model: Option<&RobotModel>) -> (r: String)
    ensures
        r@ == match model {
            Some(m) => "Articara \u{2014} "@ + m.name@,
            None => "Articara - Robot Dynamics Editor"@,
        },
{
    match model {
        Some(m) => {
            let mut text: String = String::from_str("Articara \u{2014} ");
            text.append(m.name.as_str());
            text
        },
        None => String::from_str("Articara - Robot Dynamics Editor"),
    }
}

/// A sliding joint pushes in newtons and goes at metres a second; every other one turns.
pub proof fn law_units_go_with_the_joint(joint_type: Seq<char>)
    ensures
        joint_type == "prismatic"@ ==> effort_unit_of(joint_type) == "N"@ && rate_unit_of(
            joint_type,
        ) == "m/s"@,
        joint_type != "prismatic"@ ==> effort_unit_of(joint_type) == "N\u{b7}m"@ && rate_unit_of(
            joint_type,
        ) == "rad/s"@,
{
}

/// Every joint but the fixed ones has one row, under its number and with its own peak, in the
/// joints' order.
pub proof fn law_moving_joints_have_their_peaks<P>(
    joints: Seq<JointData>,
    peaks: Seq<P>,
    zero: P,
    n: nat,
)
    requires
        n <= joints.len() <= usize::MAX,
    ensures
        ({
            let rows = peak_rows_upto(joints, peaks, zero, n);
            &&& forall|k: int|
                0 <= k < rows.len() ==> {
                    let row = #[trigger] rows[k];
                    &&& row.0 < n && joints[row.0 as int].joint_type@ != "fixed"@
                    &&& row.0 < peaks.len() ==> row.1 == peaks[row.0 as int]
                    &&& row.0 >= peaks.len() ==> row.1 == zero
                }
            &&& forall|i: int, j: int|
                0 <= i < j < rows.len() ==> (#[trigger] rows[i]).0 < (#[trigger] rows[j]).0
            &&& forall|i: int|
                0 <= i < n && (#[trigger] joints[i]).joint_type@ != "fixed"@ ==> exists|k: int|
                    0 <= k < rows.len() && (#[trigger] rows[k]).0 == i
        }),
    decreases n,
{
    if n > 0 {
        law_moving_joints_have_their_peaks(joints, peaks, zero, (n - 1) as nat);
        let before = peak_rows_upto(joints, peaks, zero, (n - 1) as nat);
        let rows = peak_rows_upto(joints, peaks, zero, n);
        assert forall|i: int|
            0 <= i < n && (#[trigger] joints[i]).joint_type@ != "fixed"@ implies exists|k: int|
            0 <= k < rows.len() && (#[trigger] rows[k]).0 == i by {
            if i < n - 1 {
                let k = choose|k: int| 0 <= k < before.len() && (#[trigger] before[k]).0 == i;
                assert(rows[k] == before[k]);
            } else {
                assert(rows[rows.len() - 1].0 == i);
            }
        }
    }
}

/// Contacts of the robot with itself are counted one by one.
pub proof fn law_self_contacts_are_counted(rows: Seq<ContactRow>, n: nat)
    requires
        n < rows.len(),
    ensures
        rows[n as int].is_self ==> self_count(rows, n + 1) == self_count(rows, n) + 1,
        !rows[n as int].is_self ==> self_count(rows, n + 1) == self_count(rows, n),
        self_count(rows, 0) == 0,
{
}

/// A contact is told by both bodies, in order, and a body without a name is the world.
pub proof fn law_contact_is_told_by_its_bodies(a: Seq<char>, b: Seq<char>)
    ensures
        a.len() > 0 && b.len() > 0 ==> pair_text(a, b) == a + " \u{2194} "@ + b,
        a.len() == 0 && b.len() > 0 ==> pair_text(a, b) == "world \u{2194} "@ + b,
        a.len() > 0 && b.len() == 0 ==> pair_text(a, b) == a + " \u{2194} world"@,
        a.len() == 0 && b.len() == 0 ==> pair_text(a, b) == "(world\u{2194}world)"@,
{
}

/// One error fails a link; a warning only warns where there is no error.
pub proof fn law_worst_finding_decides(v: LinkValidation, i: int)
    requires
        0 <= i < v.issues@.len(),
    ensures
        v.issues@[i] == ValidationSeverity::Error ==> verdict(v) == Verdict::Failed,
        v.issues@[i] == ValidationSeverity::Warning ==> verdict(v) != Verdict::Sound,
        (forall|j: int|
            0 <= j < v.issues@.len() ==> #[trigger] v.issues@[j] != ValidationSeverity::Error)
            ==> verdict(v) != Verdict::Failed,
{
}

/// Links are counted by their verdicts, each once.
pub proof fn law_links_are_counted_by_verdict(results: Seq<LinkValidation>, n: nat)
    requires
        n <= results.len(),
    ensures
        tally(results, Verdict::Failed, n) + tally(results, Verdict::Warned, n) + tally(
            results,
            Verdict::Sound,
            n,
        ) == n,
        n > 0 ==> tally(results, verdict(results[n - 1]), n) == tally(
            results,
            verdict(results[n - 1]),
            (n - 1) as nat,
        ) + 1,
    decreases n,
{
    if n > 0 {
        law_links_are_counted_by_verdict(results, (n - 1) as nat);
    }
}

} // verus!
