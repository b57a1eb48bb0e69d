//! The trajectory log, and which contacts count to which foot.
//!
//! Both force columns exist on purpose: `fqp_*` is what the solved contact wrench
//! implies, `fmj_*` is what the plant's contacts produce. Comparing them is the
//! only cross-check in the file.

use vstd::prelude::*;
use vstd::string::*;

use crate::biped::contact::AnchorPose;
use crate::biped::gait::Side;
use crate::robot::{RobotModel, Vec3};
use crate::root::root;
use crate::text::{decimal, join, point, same};

verus! {

/// The columns that every log has, in order.
pub const SHARED_COLUMNS: [&'static str; 57] = [
    "t", "x", "y", "z", "qw", "qx", "qy", "qz",
    "com_x", "com_y", "com_z", "com_ref_z", "tilt", "com_ref_y", "n_stance", "swing_z",
    "trunk_tilt", "foot_z", "foot_vz", "acc_ref_z", "e_lin_z",
    "acom_x", "acom_y", "acom_z", "arp_r", "arp_p", "degraded",
    "cop_lx", "cop_ly", "slip_l", "slip_r", "patch_lx", "patch_ly",
    "fqp_l_x", "fqp_l_y", "fqp_l_z", "fmj_l_x", "fmj_l_y", "fmj_l_z",
    "fqp_r_x", "fqp_r_y", "fqp_r_z", "fmj_r_x", "fmj_r_y", "fmj_r_z",
    "cop_qp_l_x", "cop_qp_l_y", "fz_qp_l", "cop_mj_l_x", "cop_mj_l_y", "fz_mj_l",
    "cop_qp_r_x", "cop_qp_r_y", "fz_qp_r", "cop_mj_r_x", "cop_mj_r_y", "fz_mj_r",
];

/// The shared columns as a value of contracts.
pub open spec fn shared_columns() -> Seq<Seq<char>> {
    Seq::new(57, |i: int| SHARED_COLUMNS@[i]@)
}

/// Each name with a prefix.
pub open spec fn prefixed(prefix: Seq<char>, names: Seq<Seq<char>>) -> Seq<Seq<char>> {
    names.map_values(|n: Seq<char>| prefix + n)
}

/// All columns of a log: the shared ones, then angle, commanded torque and
/// effort limit of each joint, then the controller's own.
pub open spec fn columns(joints: Seq<Seq<char>>, extra: Seq<Seq<char>>) -> Seq<Seq<char>> {
    shared_columns() + joints + prefixed("tau_"@, joints) + prefixed("lim_"@, joints) + extra
}

/// The header line of a log.
pub open spec fn header_line(joints: Seq<Seq<char>>, extra: Seq<Seq<char>>) -> Seq<char> {
    crate::text::joined(columns(joints, extra), ","@) + "\n"@
}

/// Appends each name with a prefix.
fn push_prefixed(out: &mut Vec<String>, prefix: &str, names: &Vec<String>)
    ensures
        crate::text::views(final(out)@) == crate::text::views(old(out)@) + prefixed(
            prefix@,
            crate::text::views(names@),
        ),
{
    let ghost start = crate::text::views(out@);
    let ghost all = prefixed(prefix@, crate::text::views(names@));
    let mut i: usize = 0;
    proof {
        assert(start + all.take(0) =~= start);
    }
    while i < names.len()
        invariant
            i <= names.len(),
            all == prefixed(prefix@, crate::text::views(names@)),
            crate::text::views(out@) == start + all.take(i as int),
        decreases names.len() - i,
    {
        let mut name: String = String::from_str(prefix);
        name.append(names[i].as_str());
        let ghost before = out@;
        out.push(name);
        proof {
            assert(all[i as int] == name@);
            assert(crate::text::views(out@) =~= crate::text::views(before).push(name@));
            assert((start + all.take(i as int)).push(name@) =~= start + all.take(i + 1));
        }
        i += 1;
    }
    proof {
        assert(all.take(all.len() as int) =~= all);
    }
}

/// The header line of a log.
pub fn header(joints: &Vec<String>, extra: &Vec<String>) -> (r: String)
    ensures
        r@ == header_line(crate::text::views(joints@), crate::text::views(extra@)),
{
    let mut cols: Vec<String> = Vec::new();
    let mut i: usize = 0;
    while i < 57
        invariant
            i <= 57,
            crate::text::views(cols@) == shared_columns().take(i as int),
        decreases 57 - i,
    {
        let ghost before = cols@;
        let name: String = String::from_str(SHARED_COLUMNS[i]);
        cols.push(name);
        proof {
            assert(crate::text::views(cols@) =~= crate::text::views(before).push(name@));
            assert(shared_columns().take(i + 1) =~= shared_columns().take(i as int).push(name@));
        }
        i += 1;
    }
    let ghost js = crate::text::views(joints@);
    let ghost ex = crate::text::views(extra@);
    push_prefixed(&mut cols, "", joints);
    push_prefixed(&mut cols, "tau_", joints);
    push_prefixed(&mut cols, "lim_", joints);
    push_prefixed(&mut cols, "", extra);
    proof {
        assert(shared_columns().take(57) =~= shared_columns());
        lemma_no_prefix(js);
        lemma_no_prefix(ex);
        assert(crate::text::views(cols@) == columns(js, ex));
    }
    let mut line: String = join(&cols, ",");
    line.append("\n");
    line
}

proof fn lemma_no_prefix(names: Seq<Seq<char>>)
    ensures
        prefixed(""@, names) == names,
{
    reveal_strlit("");
    assert forall|k: int| 0 <= k < names.len() implies prefixed(""@, names)[k] == names[k] by {
        assert(""@ + names[k] =~= names[k]);
    }
    assert(prefixed(""@, names) =~= names);
}

/// A log has the same number of columns on every line: the shared ones, three
/// per joint, and the controller's own.
pub proof fn law_column_count(joints: Seq<Seq<char>>, extra: Seq<Seq<char>>)
    ensures
        columns(joints, extra).len() == 57 + 3 * joints.len() + extra.len(),
{
}

/// One row of the log. Numbers are billionths of the unit (seconds, metres, radians,
/// newtons), torques millionths of a newton metre.
pub struct Row {
    pub t: i64,
    /// Where the base is, and how it is turned (`w`, `i`, `j`, `k`).
    pub base: Vec3,
    pub base_turn: [i64; 4],
    pub com: Vec3,
    /// Vertical reference of the centre of mass, and the lateral one.
    pub com_ref_z: i64,
    pub com_ref_y: i64,
    pub tilt: i64,
    pub trunk_tilt: i64,
    pub n_stance: usize,
    /// Height of the left foot, and of the right.
    pub foot_z: i64,
    pub swing_z: i64,
    pub foot_vz: i64,
    /// Vertical reference acceleration and vertical pose error of the left foot.
    pub acc_dbg: [i64; 2],
    pub a_com: Vec3,
    pub rp_ref: [i64; 2],
    pub degraded: bool,
    pub cop_box: (i64, i64),
    /// Solved pressure (along, across) and load of each foot, and the solved force.
    pub cop_qp: [Vec3; 2],
    pub f_qp_w: [Vec3; 2],
    /// What the plant's contacts produce.
    pub measured: MeasuredRow,
    /// Commanded torque of each of the robot's joints.
    pub taus: Vec<i64>,
    /// The controller's own columns, in the order in which the log names them.
    pub extra: Vec<i64>,
}

/// What the plant's contacts produce, as it is logged: pressure and load of each foot,
/// the share of the friction cone that it uses, where the left patch is, and the force.
#[derive(Clone, Copy, PartialEq, Eq, Debug)]
pub struct MeasuredRow {
    pub cop: [Vec3; 2],
    pub slip: [i64; 2],
    pub patch: (i64, i64),
    pub f_w: [Vec3; 2],
}

/// A number of billionths with four, five or six places.
#[verifier::opaque]
pub open spec fn four(v: i64) -> Seq<char> {
    crate::text::point_of(v as int, 100_000, 4)
}

#[verifier::opaque]
pub open spec fn five(v: i64) -> Seq<char> {
    crate::text::point_of(v as int, 10_000, 5)
}

#[verifier::opaque]
pub open spec fn six(v: i64) -> Seq<char> {
    crate::text::point_of(v as int, 1_000, 6)
}

/// A force.
pub open spec fn force_cells(f: Vec3) -> Seq<Seq<char>> {
    seq![four(f.x), four(f.y), four(f.z)]
}

/// A pressure and its load.
pub open spec fn pressure_cells(c: Vec3) -> Seq<Seq<char>> {
    seq![six(c.x), six(c.y), four(c.z)]
}

/// What is written of the joints that a log names: `of_joint` for one that the robot
/// has, `missing` for another.
pub open spec fn joint_cells(
    names: Seq<Seq<char>>,
    joints: Seq<crate::robot::JointData>,
    of_joint: spec_fn(int) -> Seq<char>,
    missing: Seq<char>,
) -> Seq<Seq<char>> {
    names.map_values(
        |n: Seq<char>|
            match crate::robot::joint_at(joints, n) {
                Some(ji) => of_joint(ji),
                None => missing,
            },
    )
}

/// Each joint of the robot that a log names is among the first `n`.
pub open spec fn knows(
    names: Seq<Seq<char>>,
    joints: Seq<crate::robot::JointData>,
    n: nat,
) -> bool {
    forall|k: int|
        0 <= k < names.len() ==> (crate::robot::joint_at(joints, #[trigger] names[k]) matches Some(
            ji,
        ) ==> ji < n)
}

proof fn lemma_known(names: Seq<Seq<char>>, joints: Seq<crate::robot::JointData>)
    ensures
        knows(names, joints, joints.len()),
{
}

impl Row {
    /// The cells of base, masses, references and feet.
    pub open spec fn motion_cells(&self) -> Seq<Seq<char>> {
        seq![
            four(self.t),
            five(self.base.x),
            five(self.base.y),
            five(self.base.z),
            five(self.base_turn@[0]),
            five(self.base_turn@[1]),
            five(self.base_turn@[2]),
            five(self.base_turn@[3]),
            five(self.com.x),
            five(self.com.y),
            five(self.com.z),
            five(self.com_ref_z),
            five(self.tilt),
            five(self.com_ref_y),
            crate::text::decimal_of(self.n_stance as nat),
            five(self.swing_z),
            five(self.trunk_tilt),
            six(self.foot_z),
            five(self.foot_vz),
            four(self.acc_dbg@[0]),
            four(self.acc_dbg@[1]),
            four(self.a_com.x),
            four(self.a_com.y),
            four(self.a_com.z),
            four(self.rp_ref@[0]),
            four(self.rp_ref@[1]),
        ]
    }

    /// The cells of the contacts.
    pub open spec fn contact_cells(&self) -> Seq<Seq<char>> {
        seq![
            crate::text::decimal_of(
                if self.degraded {
                    1
                } else {
                    0
                },
            ),
            five(self.cop_box.0),
            five(self.cop_box.1),
            four(self.measured.slip@[0]),
            four(self.measured.slip@[1]),
            six(self.measured.patch.0),
            six(self.measured.patch.1),
        ] + force_cells(self.f_qp_w@[0]) + force_cells(self.measured.f_w@[0]) + force_cells(
            self.f_qp_w@[1],
        ) + force_cells(self.measured.f_w@[1]) + pressure_cells(self.cop_qp@[0]) + pressure_cells(
            self.measured.cop@[0],
        ) + pressure_cells(self.cop_qp@[1]) + pressure_cells(self.measured.cop@[1])
    }

    /// The row's cells, in column order.
    pub open spec fn cells(&self, names: Seq<Seq<char>>, model: RobotModel) -> Seq<Seq<char>> {
        let missing = crate::text::point_of(0, 10, 5);
        self.motion_cells() + self.contact_cells() + joint_cells(
            names,
            model.joints@,
            |ji: int| crate::text::point_of(model.joint_positions@[ji] as int, 10, 5),
            missing,
        ) + joint_cells(
            names,
            model.joints@,
            |ji: int| crate::text::point_of(self.taus@[ji] as int, 10, 5),
            missing,
        ) + joint_cells(
            names,
            model.joints@,
            |ji: int| crate::text::point_of(model.joints@[ji].effort as int, 1_000, 3),
            crate::text::point_of(0, 1_000, 3),
        ) + self.extra@.map_values(|v: i64| six(v))
    }
}

/// Every row has a cell for each column of the header.
pub proof fn law_a_cell_for_each_column(
    row: Row,
    model: RobotModel,
    joints: Seq<Seq<char>>,
    extra: Seq<Seq<char>>,
)
    requires
        row.extra@.len() == extra.len(),
    ensures
        row.cells(joints, model).len() == columns(joints, extra).len(),
        row.cells(joints, model).len() == 57 + 3 * joints.len() + extra.len(),
{
    lemma_shared_cells(row);
}

/// The header describes the rows: the cells of a joint stand under the columns of that
/// joint, and the controller's own under theirs.
pub proof fn law_rows_match_the_header(
    row: Row,
    model: RobotModel,
    joints: Seq<Seq<char>>,
    extra: Seq<Seq<char>>,
    k: int,
    ji: int,
)
    requires
        row.extra@.len() == extra.len(),
        0 <= k < joints.len(),
        crate::robot::joint_at(model.joints@, joints[k]) == Some(ji),
    ensures
        ({
            let cells = row.cells(joints, model);
            let cols = columns(joints, extra);
            let n = joints.len();
            &&& cols[57 + k] == joints[k]
            &&& cells[57 + k] == crate::text::point_of(model.joint_positions@[ji] as int, 10, 5)
            &&& cols[57 + n + k] == "tau_"@ + joints[k]
            &&& cells[57 + n + k] == crate::text::point_of(row.taus@[ji] as int, 10, 5)
            &&& cols[57 + 2 * n + k] == "lim_"@ + joints[k]
            &&& cells[57 + 2 * n + k] == crate::text::point_of(
                model.joints@[ji].effort as int,
                1_000,
                3,
            )
            &&& forall|e: int|
                0 <= e < extra.len() ==> cols[57 + 3 * n + e] == #[trigger] extra[e]
                    && cells[57 + 3 * n + e] == six(row.extra@[e])
        }),
{
    lemma_shared_cells(row);
    let n = joints.len() as int;
    let cells = row.cells(joints, model);
    let cols = columns(joints, extra);
    assert forall|e: int| 0 <= e < extra.len() implies cols[57 + 3 * n + e] == #[trigger] extra[e]
        && cells[57 + 3 * n + e] == six(row.extra@[e]) by {}
}

proof fn lemma_shared_cells(row: Row)
    ensures
        row.motion_cells().len() == 26,
        row.contact_cells().len() == 31,
{
    lemma_triples(row.f_qp_w@[0], row.measured.cop@[0]);
    lemma_triples(row.measured.f_w@[0], row.cop_qp@[0]);
    lemma_triples(row.f_qp_w@[1], row.measured.cop@[1]);
    lemma_triples(row.measured.f_w@[1], row.cop_qp@[1]);
}

proof fn lemma_triples(f: Vec3, c: Vec3)
    ensures
        force_cells(f).len() == 3,
        pressure_cells(c).len() == 3,
{
}

fn put(out: &mut Vec<String>, text: String)
    ensures
        crate::text::views(final(out)@) == crate::text::views(old(out)@).push(text@),
{
    let ghost before = out@;
    out.push(text);
    proof {
        assert(crate::text::views(out@) =~= crate::text::views(before).push(text@));
    }
}

fn put_four(out: &mut Vec<String>, v: i64)
    ensures
        crate::text::views(final(out)@) == crate::text::views(old(out)@).push(four(v)),
{
    proof {
        reveal(four);
    }
    put(out, point(v, 100_000, 4));
}

fn put_five(out: &mut Vec<String>, v: i64)
    ensures
        crate::text::views(final(out)@) == crate::text::views(old(out)@).push(five(v)),
{
    proof {
        reveal(five);
    }
    put(out, point(v, 10_000, 5));
}

fn put_six(out: &mut Vec<String>, v: i64)
    ensures
        crate::text::views(final(out)@) == crate::text::views(old(out)@).push(six(v)),
{
    proof {
        reveal(six);
    }
    put(out, point(v, 1_000, 6));
}

fn push_force(out: &mut Vec<String>, f: Vec3)
    ensures
        crate::text::views(final(out)@) == crate::text::views(old(out)@) + force_cells(f),
{
    put_four(out, f.x);
    put_four(out, f.y);
    put_four(out, f.z);
    proof {
        assert(crate::text::views(out@) =~= crate::text::views(old(out)@) + force_cells(f));
    }
}

fn push_pressure(out: &mut Vec<String>, c: Vec3)
    ensures
        crate::text::views(final(out)@) == crate::text::views(old(out)@) + pressure_cells(c),
{
    put_six(out, c.x);
    put_six(out, c.y);
    put_four(out, c.z);
    proof {
        assert(crate::text::views(out@) =~= crate::text::views(old(out)@) + pressure_cells(c));
    }
}

/// Appends the cells of base, masses, references and feet to an empty line.
fn push_motion(out: &mut Vec<String>, row: &Row)
    requires
        old(out)@.len() == 0,
    ensures
        crate::text::views(final(out)@) == row.motion_cells(),
{
    proof {
        assert(crate::text::views(out@) =~= Seq::<Seq<char>>::empty());
    }
    put_four(out, row.t);
    put_five(out, row.base.x);
    put_five(out, row.base.y);
    put_five(out, row.base.z);
    put_five(out, row.base_turn[0]);
    put_five(out, row.base_turn[1]);
    put_five(out, row.base_turn[2]);
    put_five(out, row.base_turn[3]);
    put_five(out, row.com.x);
    put_five(out, row.com.y);
    put_five(out, row.com.z);
    put_five(out, row.com_ref_z);
    put_five(out, row.tilt);
    put_five(out, row.com_ref_y);
    put(out, decimal(row.n_stance));
    put_five(out, row.swing_z);
    put_five(out, row.trunk_tilt);
    put_six(out, row.foot_z);
    put_five(out, row.foot_vz);
    put_four(out, row.acc_dbg[0]);
    put_four(out, row.acc_dbg[1]);
    put_four(out, row.a_com.x);
    put_four(out, row.a_com.y);
    put_four(out, row.a_com.z);
    put_four(out, row.rp_ref[0]);
    put_four(out, row.rp_ref[1]);
}

/// Appends the cells of the contacts.
fn push_contacts(out: &mut Vec<String>, row: &Row)
    ensures
        crate::text::views(final(out)@) == crate::text::views(old(out)@) + row.contact_cells(),
{
    let flag: usize = if row.degraded {
        1
    } else {
        0
    };
    put(out, decimal(flag));
    put_five(out, row.cop_box.0);
    put_five(out, row.cop_box.1);
    put_four(out, row.measured.slip[0]);
    put_four(out, row.measured.slip[1]);
    put_six(out, row.measured.patch.0);
    put_six(out, row.measured.patch.1);
    push_force(out, row.f_qp_w[0]);
    push_force(out, row.measured.f_w[0]);
    push_force(out, row.f_qp_w[1]);
    push_force(out, row.measured.f_w[1]);
    push_pressure(out, row.cop_qp[0]);
    push_pressure(out, row.measured.cop[0]);
    push_pressure(out, row.cop_qp[1]);
    push_pressure(out, row.measured.cop[1]);
    proof {
        assert(crate::text::views(out@) =~= crate::text::views(old(out)@) + row.contact_cells());
    }
}

/// Millionths with five places.
fn texts_of(values: &Vec<i64>) -> (r: Vec<String>)
    ensures
        r@.len() == values@.len(),
        forall|i: int|
            0 <= i < r@.len() ==> #[trigger] r@[i]@ == crate::text::point_of(
                values@[i] as int,
                10,
                5,
            ),
{
    let mut out: Vec<String> = Vec::new();
    while out.len() < values.len()
        invariant
            out@.len() <= values@.len(),
            forall|i: int|
                0 <= i < out@.len() ==> #[trigger] out@[i]@ == crate::text::point_of(
                    values@[i] as int,
                    10,
                    5,
                ),
        decreases values.len() - out.len(),
    {
        out.push(point(values[out.len()], 10, 5));
    }
    out
}

/// The effort limit of each joint, with three places.
fn limits_of(model: &RobotModel) -> (r: Vec<String>)
    ensures
        r@.len() == model.joints@.len(),
        forall|i: int|
            0 <= i < r@.len() ==> #[trigger] r@[i]@ == crate::text::point_of(
                model.joints@[i].effort as int,
                1_000,
                3,
            ),
{
    let mut out: Vec<String> = Vec::new();
    while out.len() < model.joints.len()
        invariant
            out@.len() <= model.joints@.len(),
            forall|i: int|
                0 <= i < out@.len() ==> #[trigger] out@[i]@ == crate::text::point_of(
                    model.joints@[i].effort as int,
                    1_000,
                    3,
                ),
        decreases model.joints.len() - out.len(),
    {
        out.push(point(model.joints[out.len()].effort, 1_000, 3));
    }
    out
}

/// Appends the controller's own cells.
fn push_extra(out: &mut Vec<String>, extra: &Vec<i64>)
    ensures
        crate::text::views(final(out)@) == crate::text::views(old(out)@) + extra@.map_values(
            |v: i64| six(v),
        ),
{
    let ghost start = crate::text::views(out@);
    let ghost want = extra@.map_values(|v: i64| six(v));
    proof {
        assert(start + want.take(0) =~= start);
    }
    let mut k: usize = 0;
    while k < extra.len()
        invariant
            k <= extra.len(),
            want == extra@.map_values(|v: i64| six(v)),
            crate::text::views(out@) == start + want.take(k as int),
        decreases extra.len() - k,
    {
        put_six(out, extra[k]);
        proof {
            assert((start + want.take(k as int)).push(want[k as int]) =~= start + want.take(k + 1));
        }
        k += 1;
    }
    proof {
        assert(want.take(want.len() as int) =~= want);
    }
}

/// A trajectory log. Without a path nothing is logged.
pub struct TrajLog {
    pub path: Option<String>,
    pub joints: Vec<String>,
    pub n_extra: usize,
}

impl TrajLog {
    /// A log over the given joints, with the controller's own columns appended.
    /// The header line is to be written first where logging is on.
    pub fn create(path: Option<String>, joints: Vec<String>, extra: &Vec<String>) -> (r: (
        TrajLog,
        Option<String>,
    ))
        ensures
            r.0.path == path,
            r.0.joints == joints,
            r.0.n_extra == extra.len(),
            r.1 is Some <==> path is Some,
            r.1 matches Some(h) ==> h@ == header_line(
                crate::text::views(joints@),
                crate::text::views(extra@),
            ),
    {
        let first: Option<String> = if path.is_some() {
            Some(header(&joints, extra))
        } else {
            None
        };
        (TrajLog { path, joints, n_extra: extra.len() }, first)
    }

    pub fn is_enabled(&self) -> (r: bool)
        ensures
            r == (self.path is Some),
    {
        self.path.is_some()
    }

    /// Whether a row with so many values of the controller's own may be
    /// written. Otherwise the header would no longer describe the rows.
    pub fn row_fits(&self, n_extra: usize) -> (r: bool)
        ensures
            r == (n_extra == self.n_extra),
    {
        n_extra == self.n_extra
    }

    /// One line of the log. Nothing is written where logging is off, whatever the row.
    pub fn write(&self, model: &RobotModel, row: &Row) -> (r: Option<String>)
        requires
            self.path is Some ==> {
                let names = crate::text::views(self.joints@);
                &&& knows(names, model.joints@, model.joint_positions@.len())
                &&& knows(names, model.joints@, row.taus@.len())
                &&& row.extra@.len() == self.n_extra
            },
        ensures
            r is Some <==> self.path is Some,
            r matches Some(line) ==> line@ == crate::text::joined(
                row.cells(crate::text::views(self.joints@), *model),
                ","@,
            ) + "\n"@,
    {
        if self.path.is_none() {
            return None;
        }
        let ghost names = crate::text::views(self.joints@);
        let missing: String = point(0, 10, 5);
        let mut all: Vec<String> = Vec::new();
        push_motion(&mut all, row);
        push_contacts(&mut all, row);
        proof {
            assert(crate::text::views(all@) =~= row.motion_cells() + row.contact_cells());
        }
        let angles: Vec<String> = texts_of(&model.joint_positions);
        let taus: Vec<String> = texts_of(&row.taus);
        self.push_joints(&mut all, model, &angles, &missing);
        self.push_joints(&mut all, model, &taus, &missing);
        let limits: Vec<String> = limits_of(model);
        proof {
            lemma_known(names, model.joints@);
        }
        self.push_joints(&mut all, model, &limits, &point(0, 1_000, 3));
        push_extra(&mut all, &row.extra);
        proof {
            let miss = crate::text::point_of(0, 10, 5);
            assert(joint_cells(
                names,
                model.joints@,
                |ji: int| crate::text::views(angles@)[ji],
                miss,
            ) =~= joint_cells(
                names,
                model.joints@,
                |ji: int| crate::text::point_of(model.joint_positions@[ji] as int, 10, 5),
                miss,
            ));
            assert(joint_cells(
                names,
                model.joints@,
                |ji: int| crate::text::views(taus@)[ji],
                miss,
            ) =~= joint_cells(
                names,
                model.joints@,
                |ji: int| crate::text::point_of(row.taus@[ji] as int, 10, 5),
                miss,
            ));
            assert(joint_cells(
                names,
                model.joints@,
                |ji: int| crate::text::views(limits@)[ji],
                crate::text::point_of(0, 1_000, 3),
            ) =~= joint_cells(
                names,
                model.joints@,
                |ji: int| crate::text::point_of(model.joints@[ji].effort as int, 1_000, 3),
                crate::text::point_of(0, 1_000, 3),
            ));
            assert(crate::text::views(all@) =~= row.cells(names, *model));
        }
        let mut line: String = join(&all, ",");
        line.append("\n");
        Some(line)
    }

    /// Appends what is written of each joint that the log names.
    fn push_joints(
        &self,
        out: &mut Vec<String>,
        model: &RobotModel,
        texts: &Vec<String>,
        missing: &String,
    )
        requires
            knows(crate::text::views(self.joints@), model.joints@, texts@.len()),
        ensures
            crate::text::views(final(out)@) == crate::text::views(old(out)@) + joint_cells(
                crate::text::views(self.joints@),
                model.joints@,
                |ji: int| crate::text::views(texts@)[ji],
                missing@,
            ),
    {
        let ghost start = crate::text::views(out@);
        let ghost want = joint_cells(
            crate::text::views(self.joints@),
            model.joints@,
            |ji: int| crate::text::views(texts@)[ji],
            missing@,
        );
        proof {
            assert(start + want.take(0) =~= start);
        }
        let mut k: usize = 0;
        while k < self.joints.len()
            invariant
                k <= self.joints.len(),
                knows(crate::text::views(self.joints@), model.joints@, texts@.len()),
                want == joint_cells(
                    crate::text::views(self.joints@),
                    model.joints@,
                    |ji: int| crate::text::views(texts@)[ji],
                    missing@,
                ),
                crate::text::views(out@) == start + want.take(k as int),
            decreases self.joints.len() - k,
        {
            proof {
                assert(crate::text::views(self.joints@)[k as int] == self.joints@[k as int]@);
            }
            let text: String = match model.joint_index(self.joints[k].as_str()) {
                Some(ji) => String::from_str(texts[ji].as_str()),
                None => String::from_str(missing.as_str()),
            };
            let ghost before = out@;
            out.push(text);
            proof {
                assert(want[k as int] == text@);
                assert(crate::text::views(out@) =~= crate::text::views(before).push(text@));
                assert((start + want.take(k as int)).push(text@) =~= start + want.take(k + 1));
            }
            k += 1;
        }
        proof {
            assert(want.take(want.len() as int) =~= want);
        }
    }
}

/// A contact as the plant reports it: the bodies, where the world has the empty
/// name, where it is, and the force, in nanometres and micronewtons.
pub struct FootContact {
    pub body1: String,
    pub body2: String,
    pub pos: Vec3,
    pub force: Vec3,
}

/// The robot's body in a contact.
pub open spec fn robot_body(c: FootContact) -> Seq<char> {
    if c.body1@.len() == 0 {
        c.body2@
    } else {
        c.body1@
    }
}

/// One of the two bodies is the world.
pub open spec fn is_ground_contact(c: FootContact) -> bool {
    c.body1@.len() == 0 || c.body2@.len() == 0
}

/// The foot that a contact counts to: one of the two foot links, on the ground and
/// pressed upwards.
pub open spec fn counts_to(c: FootContact, left: Seq<char>, right: Seq<char>) -> Option<Side> {
    if c.force.z <= 0 || !is_ground_contact(c) {
        None
    } else if robot_body(c) == left {
        Some(0)
    } else if robot_body(c) == right {
        Some(1)
    } else {
        None
    }
}

/// The foot that a contact counts to, if any.
fn side_of(c: &FootContact, left: &str, right: &str) -> (r: Option<Side>)
    ensures
        r == counts_to(*c, left@, right@),
{
    if c.force.z <= 0 || (!c.body1.as_str().is_empty() && !c.body2.as_str().is_empty()) {
        return None;
    }
    let body: &str = if c.body1.as_str().is_empty() {
        c.body2.as_str()
    } else {
        c.body1.as_str()
    };
    if same(body, left) {
        Some(0)
    } else if same(body, right) {
        Some(1)
    } else {
        None
    }
}

/// What the ground does to one foot: the force, and the sum of the contact
/// points weighted by their vertical forces.
#[derive(Clone, Copy, PartialEq, Eq, Structural, Debug)]
pub struct FootLoad {
    pub fx: i128,
    pub fy: i128,
    pub fz: i128,
    pub wx: i128,
    pub wy: i128,
    pub wz: i128,
}

/// The same as mathematical numbers.
pub struct LoadSum {
    pub fx: int,
    pub fy: int,
    pub fz: int,
    pub wx: int,
    pub wy: int,
    pub wz: int,
}

impl View for FootLoad {
    type V = LoadSum;

    open spec fn view(&self) -> LoadSum {
        LoadSum {
            fx: self.fx as int,
            fy: self.fy as int,
            fz: self.fz as int,
            wx: self.wx as int,
            wy: self.wy as int,
            wz: self.wz as int,
        }
    }
}

/// The load on a foot from the first `n` contacts.
pub open spec fn load_sum(
    contacts: Seq<FootContact>,
    left: Seq<char>,
    right: Seq<char>,
    side: Side,
    n: nat,
) -> LoadSum
    decreases n,
{
    if n == 0 || n > contacts.len() {
        LoadSum { fx: 0, fy: 0, fz: 0, wx: 0, wy: 0, wz: 0 }
    } else {
        let before = load_sum(contacts, left, right, side, (n - 1) as nat);
        let c = contacts[n - 1];
        if counts_to(c, left, right) == Some(side) {
            LoadSum {
                fx: before.fx + c.force.x,
                fy: before.fy + c.force.y,
                fz: before.fz + c.force.z,
                wx: before.wx + c.force.z * c.pos.x,
                wy: before.wy + c.force.z * c.pos.y,
                wz: before.wz + c.force.z * c.pos.z,
            }
        } else {
            before
        }
    }
}

/// Largest number of contacts, force and coordinate that loads are added up for.
pub const MAX_CONTACTS: usize = 0x1_0000;

pub const MAX_FORCE: i64 = 0x2000_0000_0000;

pub const MAX_POSITION: i64 = 0x8_0000_0000_0000;

/// No foot bears more than all of them.
pub const MAX_LOAD: i128 = 0x4000_0000_0000_0000;

/// The contacts can be added up.
pub open spec fn measurable(contacts: Seq<FootContact>) -> bool {
    &&& contacts.len() <= MAX_CONTACTS
    &&& forall|i: int|
        0 <= i < contacts.len() ==> {
            let c = #[trigger] contacts[i];
            &&& -MAX_FORCE <= c.force.x <= MAX_FORCE
            &&& -MAX_FORCE <= c.force.y <= MAX_FORCE
            &&& -MAX_FORCE <= c.force.z <= MAX_FORCE
            &&& -MAX_POSITION <= c.pos.x <= MAX_POSITION
            &&& -MAX_POSITION <= c.pos.y <= MAX_POSITION
            &&& -MAX_POSITION <= c.pos.z <= MAX_POSITION
        }
}

/// No part of a load is larger than this after `n` contacts.
spec fn within_reach(l: LoadSum, n: int) -> bool {
    let f = 0x2000_0000_0000 * n;
    let w = 0x40_0000_0000_0000_0000_0000_0000 * n;
    &&& -f <= l.fx <= f && -f <= l.fy <= f && -f <= l.fz <= f
    &&& -w <= l.wx <= w && -w <= l.wy <= w && -w <= l.wz <= w
}

proof fn lemma_weight(f: int, p: int)
    requires
        -0x8_0000_0000_0000 <= f <= 0x8_0000_0000_0000,
        -0x8_0000_0000_0000 <= p <= 0x8_0000_0000_0000,
    ensures
        -0x40_0000_0000_0000_0000_0000_0000 <= f * p <= 0x40_0000_0000_0000_0000_0000_0000,
{
    assert(-0x40_0000_0000_0000_0000_0000_0000 <= f * p
        <= 0x40_0000_0000_0000_0000_0000_0000) by (nonlinear_arith)
        requires
            -0x8_0000_0000_0000 <= f <= 0x8_0000_0000_0000,
            -0x8_0000_0000_0000 <= p <= 0x8_0000_0000_0000,
    ;
}

/// Adds one contact to a load.
fn load_one(l: &FootLoad, c: &FootContact, n: usize) -> (r: FootLoad)
    requires
        n < MAX_CONTACTS,
        within_reach(l@, n as int),
        -MAX_FORCE <= c.force.x <= MAX_FORCE,
        -MAX_FORCE <= c.force.y <= MAX_FORCE,
        -MAX_FORCE <= c.force.z <= MAX_FORCE,
        -MAX_POSITION <= c.pos.x <= MAX_POSITION,
        -MAX_POSITION <= c.pos.y <= MAX_POSITION,
        -MAX_POSITION <= c.pos.z <= MAX_POSITION,
    ensures
        within_reach(r@, n + 1),
        r@ == (LoadSum {
            fx: l@.fx + c.force.x,
            fy: l@.fy + c.force.y,
            fz: l@.fz + c.force.z,
            wx: l@.wx + c.force.z * c.pos.x,
            wy: l@.wy + c.force.z * c.pos.y,
            wz: l@.wz + c.force.z * c.pos.z,
        }),
{
    proof {
        lemma_weight(c.force.z as int, c.pos.x as int);
        lemma_weight(c.force.z as int, c.pos.y as int);
        lemma_weight(c.force.z as int, c.pos.z as int);
    }
    let fz: i128 = c.force.z as i128;
    FootLoad {
        fx: l.fx + c.force.x as i128,
        fy: l.fy + c.force.y as i128,
        fz: l.fz + fz,
        wx: l.wx + fz * c.pos.x as i128,
        wy: l.wy + fz * c.pos.y as i128,
        wz: l.wz + fz * c.pos.z as i128,
    }
}

/// Ground truth of one foot: the force on it, and the force-weighted mean of its
/// contact points. Everything is zero for a foot that is unsupported.
#[derive(Clone, Copy, PartialEq, Eq, Structural, Debug)]
pub struct FootGround {
    pub fx: i128,
    pub fy: i128,
    pub fz: i128,
    pub patch: Vec3,
}

/// A foot that is loaded with a micronewton or less is unsupported.
pub open spec fn supported(l: LoadSum) -> bool {
    l.fz > 1
}

/// `g` is what the load says of the foot. The mean point is rounded down.
pub open spec fn is_ground_truth(g: FootGround, l: LoadSum) -> bool {
    if supported(l) {
        &&& g.fx == l.fx
        &&& g.fy == l.fy
        &&& g.fz == l.fz
        &&& g.patch.x == l.wx / l.fz
        &&& g.patch.y == l.wy / l.fz
        &&& g.patch.z == l.wz / l.fz
    } else {
        g == (FootGround { fx: 0, fy: 0, fz: 0, patch: Vec3 { x: 0, y: 0, z: 0 } })
    }
}

/// The most that friction bears along the ground, in millionths of a micronewton; no
/// less than a nanonewton.
pub open spec fn cone(fz: int, mu: int) -> int {
    if mu * fz < 1_000 {
        1_000
    } else {
        mu * fz
    }
}

proof fn lemma_square(v: int)
    requires
        -MAX_LOAD <= v <= MAX_LOAD,
    ensures
        0 <= v * v <= 0x1000_0000_0000_0000_0000_0000_0000_0000,
{
    assert(0 <= v * v <= 0x4000_0000_0000_0000 * 0x4000_0000_0000_0000) by (nonlinear_arith)
        requires
            -0x4000_0000_0000_0000 <= v <= 0x4000_0000_0000_0000,
    ;
    assert(0x4000_0000_0000_0000int * 0x4000_0000_0000_0000int
        == 0x1000_0000_0000_0000_0000_0000_0000_0000int) by (nonlinear_arith);
}

/// Per-foot ground truth read back out of the plant.
#[derive(Clone, Copy, PartialEq, Eq, Structural, Debug)]
pub struct MeasuredContact {
    pub left: FootGround,
    pub right: FootGround,
}

/// One coordinate of the mean point.
fn mean(w: i128, fz: i128) -> (r: i64)
    requires
        fz > 0,
        -MAX_POSITION * fz <= w <= MAX_POSITION * fz,
    ensures
        r == w as int / fz as int,
        -MAX_POSITION <= r <= MAX_POSITION,
{
    proof {
        lemma_mean(w as int, fz as int, -MAX_POSITION as int, MAX_POSITION as int);
    }
    match w.checked_div_euclid(fz) {
        Some(q) => q as i64,
        None => 0,
    }
}

proof fn lemma_mean(w: int, fz: int, lo: int, hi: int)
    requires
        fz > 0,
        lo * fz <= w <= hi * fz,
    ensures
        lo <= w / fz <= hi,
{
    assert(lo <= w / fz <= hi) by (nonlinear_arith)
        requires
            fz > 0,
            lo * fz <= w <= hi * fz,
    ;
}

/// What a load says of its foot.
fn ground_truth(l: &FootLoad) -> (r: FootGround)
    requires
        -MAX_LOAD <= l.fx <= MAX_LOAD,
        -MAX_LOAD <= l.fy <= MAX_LOAD,
        l.fz <= MAX_LOAD,
        l.fz > 1 ==> {
            &&& -MAX_POSITION * l.fz <= l.wx <= MAX_POSITION * l.fz
            &&& -MAX_POSITION * l.fz <= l.wy <= MAX_POSITION * l.fz
            &&& -MAX_POSITION * l.fz <= l.wz <= MAX_POSITION * l.fz
        },
    ensures
        is_ground_truth(r, l@),
        r.is_near(),
{
    if l.fz > 1 {
        FootGround {
            fx: l.fx,
            fy: l.fy,
            fz: l.fz,
            patch: Vec3 { x: mean(l.wx, l.fz), y: mean(l.wy, l.fz), z: mean(l.wz, l.fz) },
        }
    } else {
        FootGround { fx: 0, fy: 0, fz: 0, patch: Vec3 { x: 0, y: 0, z: 0 } }
    }
}

/// Force, and force-weighted mean of the ground contact points, of both feet.
pub fn measure_contacts(contacts: &Vec<FootContact>, left: &str, right: &str) -> (r:
    MeasuredContact)
    requires
        measurable(contacts@),
    ensures
        is_ground_truth(r.left, load_sum(contacts@, left@, right@, 0, contacts@.len())),
        is_ground_truth(r.right, load_sum(contacts@, left@, right@, 1, contacts@.len())),
        r.left.is_near(),
        r.right.is_near(),
{
    let none = FootLoad { fx: 0, fy: 0, fz: 0, wx: 0, wy: 0, wz: 0 };
    let mut l: FootLoad = none;
    let mut rt: FootLoad = none;
    let mut i: usize = 0;
    while i < contacts.len()
        invariant
            measurable(contacts@),
            i <= contacts.len(),
            l@ == load_sum(contacts@, left@, right@, 0, i as nat),
            rt@ == load_sum(contacts@, left@, right@, 1, i as nat),
            within_reach(l@, i as int),
            within_reach(rt@, i as int),
        decreases contacts.len() - i,
    {
        let c: &FootContact = &contacts[i];
        proof {
            assert(contacts@[i as int] == *c);
        }
        match side_of(c, left, right) {
            Some(side) => {
                if side == 0 {
                    l = load_one(&l, c, i);
                } else {
                    rt = load_one(&rt, c, i);
                }
            },
            None => {},
        }
        i += 1;
    }
    proof {
        lemma_mean_in_room(contacts@, left@, right@, 0);
        lemma_mean_in_room(contacts@, left@, right@, 1);
    }
    MeasuredContact { left: ground_truth(&l), right: ground_truth(&rt) }
}

proof fn lemma_mean_in_room(
    contacts: Seq<FootContact>,
    left: Seq<char>,
    right: Seq<char>,
    side: Side,
)
    requires
        measurable(contacts),
    ensures
        ({
            let l = load_sum(contacts, left, right, side, contacts.len());
            &&& -MAX_POSITION * l.fz <= l.wx <= MAX_POSITION * l.fz
            &&& -MAX_POSITION * l.fz <= l.wy <= MAX_POSITION * l.fz
            &&& -MAX_POSITION * l.fz <= l.wz <= MAX_POSITION * l.fz
        }),
{
    let (n, lo, hi) = (contacts.len(), -MAX_POSITION as int, MAX_POSITION as int);
    assert forall|k: int| 0 <= k < 3 implies lo * load_sum(contacts, left, right, side, n).fz
        <= #[trigger] load_sum(contacts, left, right, side, n).moment(k) <= hi * load_sum(
        contacts,
        left,
        right,
        side,
        n,
    ).fz by {
        law_pressure_lies_among_the_contacts(contacts, left, right, side, n, k, lo, hi);
    }
    let l = load_sum(contacts, left, right, side, n);
    assert(l.moment(0) == l.wx && l.moment(1) == l.wy && l.moment(2) == l.wz);
}

/// Coordinate `k` of a point.
pub open spec fn coordinate(p: Vec3, k: int) -> int {
    if k == 0 {
        p.x as int
    } else if k == 1 {
        p.y as int
    } else {
        p.z as int
    }
}

impl LoadSum {
    /// The sum of coordinate `k` of the points, weighted by the vertical forces.
    pub open spec fn moment(self, k: int) -> int {
        if k == 0 {
            self.wx
        } else if k == 1 {
            self.wy
        } else {
            self.wz
        }
    }
}

/// The difference of two points along an axis, rounded down. The axis is in parts
/// per billion.
pub open spec fn span_along(axis: Vec3, from: Vec3, to: Vec3) -> int {
    (axis.x * (to.x - from.x) + axis.y * (to.y - from.y) + axis.z * (to.z - from.z))
        / 1_000_000_000
}

fn span_of(axis: &Vec3, from: &Vec3, to: &Vec3) -> (r: i128)
    requires
        crate::biped::contact::row_fits(*axis),
        in_room(*from),
        in_room(*to),
    ensures
        r == span_along(*axis, *from, *to),
        -0x1_0000_0000_0000_0000_0000_0000 <= r <= 0x1_0000_0000_0000_0000_0000_0000,
{
    let dx: i128 = to.x as i128 - from.x as i128;
    let dy: i128 = to.y as i128 - from.y as i128;
    let dz: i128 = to.z as i128 - from.z as i128;
    proof {
        lemma_span(axis.x as int, dx as int);
        lemma_span(axis.y as int, dy as int);
        lemma_span(axis.z as int, dz as int);
    }
    let v: i128 = axis.x as i128 * dx + axis.y as i128 * dy + axis.z as i128 * dz;
    match v.checked_div_euclid(1_000_000_000) {
        Some(q) => q,
        None => 0,
    }
}

proof fn lemma_span(a: int, d: int)
    requires
        -0x100_0000_0000 <= a <= 0x100_0000_0000,
        -0x10_0000_0000_0000 <= d <= 0x10_0000_0000_0000,
    ensures
        -0x1000_0000_0000_0000_0000_0000 <= a * d <= 0x1000_0000_0000_0000_0000_0000,
{
    assert(-0x1000_0000_0000_0000_0000_0000 <= a * d <= 0x1000_0000_0000_0000_0000_0000)
        by (nonlinear_arith)
        requires
            -0x100_0000_0000 <= a <= 0x100_0000_0000,
            -0x10_0000_0000_0000 <= d <= 0x10_0000_0000_0000,
    ;
}

/// No point is further out than a contact can be.
pub open spec fn in_room(p: Vec3) -> bool {
    &&& -MAX_POSITION <= p.x <= MAX_POSITION
    &&& -MAX_POSITION <= p.y <= MAX_POSITION
    &&& -MAX_POSITION <= p.z <= MAX_POSITION
}

impl FootGround {
    /// The mean point is where contacts can be, and the force is no larger than all of
    /// them together.
    pub open spec fn is_near(self) -> bool {
        &&& in_room(self.patch)
        &&& -MAX_LOAD <= self.fx <= MAX_LOAD
        &&& -MAX_LOAD <= self.fy <= MAX_LOAD
        &&& 0 <= self.fz <= MAX_LOAD
    }

    /// The square of the force along the ground.
    pub open spec fn tangential_squared(self) -> int {
        self.fx * self.fx + self.fy * self.fy
    }

    /// The force along the ground in micronewtons, rounded down.
    pub fn tangential(&self) -> (r: u64)
        requires
            self.is_near(),
        ensures
            crate::root::is_root(r as int, self.tangential_squared()),
            r <= 2 * MAX_LOAD,
    {
        proof {
            lemma_square(self.fx as int);
            lemma_square(self.fy as int);
        }
        let r: u64 = root((self.fx * self.fx + self.fy * self.fy) as u128);
        proof {
            assert(r <= 2 * 0x4000_0000_0000_0000) by (nonlinear_arith)
                requires
                    r * r <= 0x2000_0000_0000_0000_0000_0000_0000_0000,
                    r >= 0,
            ;
        }
        r
    }

    /// How much of the friction cone the foot uses, in millionths and rounded down:
    /// its force along the ground over the most that friction bears. `mu` is in
    /// millionths.
    pub fn slip(&self, mu: u32) -> (r: u128)
        requires
            self.is_near(),
        ensures
            forall|t: int| #[trigger]
                crate::root::is_root(t, self.tangential_squared()) ==> r == t * 1_000_000_000_000
                    / cone(self.fz as int, mu as int),
    {
        let t: u64 = self.tangential();
        proof {
            let m: int = MAX_LOAD as int;
            assert(0 <= mu * self.fz <= 0xffff_ffff * m) by (nonlinear_arith)
                requires
                    0 <= self.fz <= m,
                    0 <= mu <= 0xffff_ffff,
            ;
        }
        let borne: u128 = mu as u128 * self.fz as u128;
        let most: u128 = if borne < 1_000 {
            1_000
        } else {
            borne
        };
        proof {
            assert forall|s: int| #[trigger]
                crate::root::is_root(s, self.tangential_squared()) implies s == t by {
                crate::root::law_root_is_unique(
                    s,
                    self.tangential_squared(),
                    t as int,
                    self.tangential_squared(),
                );
            }
        }
        t as u128 * 1_000_000_000_000 / most
    }

    /// The centre of pressure in the sole's frame, relative to the sole's centre,
    /// and the vertical load, with the foot placed as given. All zero for a foot
    /// that is unsupported.
    pub fn cop(&self, foot: &AnchorPose, sole_centre_x: i64) -> (r: (i128, i128, i128))
        requires
            self.is_near(),
            foot.valid(),
            in_room(foot.pos),
        ensures
            self.fz <= 1 ==> r == (0i128, 0i128, 0i128),
            self.fz > 1 ==> {
                &&& r.0 == span_along(foot.axis(0), foot.pos, self.patch) - sole_centre_x
                &&& r.1 == span_along(foot.axis(1), foot.pos, self.patch)
                &&& r.2 == self.fz
            },
    {
        if self.fz <= 1 {
            return (0, 0, 0);
        }
        let ahead: Vec3 = Vec3 { x: foot.row0.x, y: foot.row1.x, z: foot.row2.x };
        let aside: Vec3 = Vec3 { x: foot.row0.y, y: foot.row1.y, z: foot.row2.y };
        (
            span_of(&ahead, &foot.pos, &self.patch) - sole_centre_x as i128,
            span_of(&aside, &foot.pos, &self.patch),
            self.fz,
        )
    }
}

/// A foot's centre of pressure lies among its contact points: no further out along
/// any axis than the outermost of them.
pub proof fn law_pressure_lies_among_the_contacts(
    contacts: Seq<FootContact>,
    left: Seq<char>,
    right: Seq<char>,
    side: Side,
    n: nat,
    k: int,
    lo: int,
    hi: int,
)
    requires
        n <= contacts.len(),
        forall|i: int|
            0 <= i < n && counts_to(#[trigger] contacts[i], left, right) == Some(side) ==> lo
                <= coordinate(contacts[i].pos, k) <= hi,
    ensures
        ({
            let l = load_sum(contacts, left, right, side, n);
            &&& l.fz >= 0
            &&& lo * l.fz <= l.moment(k) <= hi * l.fz
            &&& supported(l) ==> lo <= l.moment(k) / l.fz <= hi
        }),
    decreases n,
{
    let l = load_sum(contacts, left, right, side, n);
    if n > 0 {
        law_pressure_lies_among_the_contacts(
            contacts,
            left,
            right,
            side,
            (n - 1) as nat,
            k,
            lo,
            hi,
        );
        let before = load_sum(contacts, left, right, side, (n - 1) as nat);
        let c = contacts[n - 1];
        if counts_to(c, left, right) == Some(side) {
            let (f, x, was) = (c.force.z as int, coordinate(c.pos, k), before.fz);
            assert(lo * f <= f * x <= hi * f) by (nonlinear_arith)
                requires
                    f > 0,
                    lo <= x <= hi,
            ;
            assert(lo * (was + f) == lo * was + lo * f) by (nonlinear_arith);
            assert(hi * (was + f) == hi * was + hi * f) by (nonlinear_arith);
            assert(l.moment(k) == before.moment(k) + f * x);
        }
    } else {
        assert(lo * 0 == 0 && hi * 0 == 0) by (nonlinear_arith);
    }
    if supported(l) {
        lemma_mean(l.moment(k), l.fz, lo, hi);
    }
}

/// A contact between a foot and another part of the robot is no ground contact, and
/// counts to neither foot.
pub proof fn law_only_the_ground_carries(c: FootContact, left: Seq<char>, right: Seq<char>)
    requires
        c.body1@.len() > 0,
        c.body2@.len() > 0,
    ensures
        counts_to(c, left, right) is None,
{
}

/// A contact counts to a foot where that foot is pressed upwards by the ground, whichever of
/// the two bodies is named first, and to none otherwise.
pub proof fn law_contact_counts_to_its_foot(c: FootContact, left: Seq<char>, right: Seq<char>)
    requires
        left.len() > 0,
        right.len() > 0,
        left != right,
    ensures
        ({
            let touches = |foot: Seq<char>|
                c.body1@.len() == 0 && c.body2@ == foot || c.body2@.len() == 0 && c.body1@ == foot;
            &&& counts_to(c, left, right) == Some(0usize) <==> c.force.z > 0 && touches(left)
            &&& counts_to(c, left, right) == Some(1usize) <==> c.force.z > 0 && touches(right)
            &&& counts_to(c, left, right) is Some ==> counts_to(c, left, right)->0 <= 1
        }),
{
}

/// One contact more adds its force and its moment to the foot that it counts to, and nothing
/// to the other.
pub proof fn law_contacts_add_up(
    contacts: Seq<FootContact>,
    left: Seq<char>,
    right: Seq<char>,
    side: Side,
    n: nat,
)
    requires
        n < contacts.len(),
    ensures
        ({
            let (a, b) = (
                load_sum(contacts, left, right, side, n),
                load_sum(contacts, left, right, side, n + 1),
            );
            let c = contacts[n as int];
            let mine = counts_to(c, left, right) == Some(side);
            &&& !mine ==> a == b
            &&& mine ==> b.fx - a.fx == c.force.x && b.fy - a.fy == c.force.y && b.fz - a.fz
                == c.force.z
            &&& mine ==> b.wx - a.wx == c.force.z * c.pos.x && b.wy - a.wy == c.force.z * c.pos.y
                && b.wz - a.wz == c.force.z * c.pos.z
        }),
        load_sum(contacts, left, right, side, 0) == (LoadSum {
            fx: 0,
            fy: 0,
            fz: 0,
            wx: 0,
            wy: 0,
            wz: 0,
        }),
{
}

/// The patch is where the whole load would make the same moment, up to the last digit; a foot
/// that carries no more than a millionth of a newton has neither load nor patch.
pub proof fn law_patch_balances_the_contacts(g: FootGround, l: LoadSum)
    requires
        is_ground_truth(g, l),
    ensures
        l.fz > 1 ==> {
            &&& g.fx == l.fx && g.fy == l.fy && g.fz == l.fz
            &&& 0 <= l.wx - l.fz * g.patch.x < l.fz
            &&& 0 <= l.wy - l.fz * g.patch.y < l.fz
            &&& 0 <= l.wz - l.fz * g.patch.z < l.fz
        },
        l.fz <= 1 ==> g.fx == 0 && g.fy == 0 && g.fz == 0 && g.patch.x == 0 && g.patch.y == 0
            && g.patch.z == 0,
{
    if l.fz > 1 {
        lemma_whole_part(l.wx, l.fz);
        lemma_whole_part(l.wy, l.fz);
        lemma_whole_part(l.wz, l.fz);
    }
}

proof fn lemma_whole_part(v: int, d: int)
    requires
        d > 0,
    ensures
        0 <= v - d * (v / d) < d,
{
    let q = v / d;
    assert(0 <= v - d * q < d) by (nonlinear_arith)
        requires
            d > 0,
            q == v / d,
    ;
}

/// Friction bears its coefficient times the load, and never nothing.
pub proof fn law_cone_goes_with_the_load(fz: int, mu: int)
    ensures
        cone(fz, mu) >= mu * fz,
        cone(fz, mu) >= 1_000,
        cone(fz, mu) == mu * fz || cone(fz, mu) == 1_000,
{
}

/// How far one point lies from another along an axis is what the axis sees of the way, up to
/// the last digit.
pub proof fn law_span_is_seen_along_the_axis(axis: Vec3, from: Vec3, to: Vec3)
    ensures
        0 <= (axis.x * (to.x - from.x) + axis.y * (to.y - from.y) + axis.z * (to.z - from.z))
            - 1_000_000_000 * span_along(axis, from, to) < 1_000_000_000,
        span_along(axis, from, from) == 0,
{
    lemma_whole_part(
        axis.x * (to.x - from.x) + axis.y * (to.y - from.y) + axis.z * (to.z - from.z),
        1_000_000_000,
    );
    assert(axis.x * (from.x - from.x) == 0 && axis.y * (from.y - from.y) == 0 && axis.z * (from.z
        - from.z) == 0) by (nonlinear_arith);
}

/// The force along the ground has no part of the load in it, is none where both of its parts
/// are none, and one of its parts where that is alone.
pub proof fn law_force_along_the_ground(g: FootGround, h: FootGround)
    ensures
        g.fx == h.fx && g.fy == h.fy ==> g.tangential_squared() == h.tangential_squared(),
        g.fy == 0 ==> g.tangential_squared() == g.fx * g.fx,
        g.fx == 0 ==> g.tangential_squared() == g.fy * g.fy,
        g.fx == h.fy && g.fy == h.fx ==> g.tangential_squared() == h.tangential_squared(),
        g.tangential_squared() - g.fx * g.fx == g.fy * g.fy,
{
    assert(0 * 0 == 0) by (nonlinear_arith);
}

/// Time, base, centre of mass, references and feet stand under their columns.
pub proof fn law_motion_stands_under_its_columns(
    row: Row,
    model: RobotModel,
    joints: Seq<Seq<char>>,
    extra: Seq<Seq<char>>,
)
    ensures
        ({
            let (cells, cols) = (row.cells(joints, model), columns(joints, extra));
            &&& cols[0] == "t"@ && cells[0] == four(row.t)
            &&& cols[1] == "x"@ && cells[1] == five(row.base.x)
            &&& cols[2] == "y"@ && cells[2] == five(row.base.y)
            &&& cols[3] == "z"@ && cells[3] == five(row.base.z)
            &&& cols[4] == "qw"@ && cells[4] == five(row.base_turn@[0])
            &&& cols[5] == "qx"@ && cells[5] == five(row.base_turn@[1])
            &&& cols[6] == "qy"@ && cells[6] == five(row.base_turn@[2])
            &&& cols[7] == "qz"@ && cells[7] == five(row.base_turn@[3])
            &&& cols[8] == "com_x"@ && cells[8] == five(row.com.x)
            &&& cols[9] == "com_y"@ && cells[9] == five(row.com.y)
            &&& cols[10] == "com_z"@ && cells[10] == five(row.com.z)
            &&& cols[11] == "com_ref_z"@ && cells[11] == five(row.com_ref_z)
            &&& cols[12] == "tilt"@ && cells[12] == five(row.tilt)
            &&& cols[13] == "com_ref_y"@ && cells[13] == five(row.com_ref_y)
            &&& cols[14] == "n_stance"@ && cells[14] == crate::text::decimal_of(row.n_stance as nat)
            &&& cols[15] == "swing_z"@ && cells[15] == five(row.swing_z)
            &&& cols[16] == "trunk_tilt"@ && cells[16] == five(row.trunk_tilt)
            &&& cols[17] == "foot_z"@ && cells[17] == six(row.foot_z)
            &&& cols[18] == "foot_vz"@ && cells[18] == five(row.foot_vz)
            &&& cols[19] == "acc_ref_z"@ && cells[19] == four(row.acc_dbg@[0])
            &&& cols[20] == "e_lin_z"@ && cells[20] == four(row.acc_dbg@[1])
            &&& cols[21] == "acom_x"@ && cells[21] == four(row.a_com.x)
            &&& cols[22] == "acom_y"@ && cells[22] == four(row.a_com.y)
            &&& cols[23] == "acom_z"@ && cells[23] == four(row.a_com.z)
            &&& cols[24] == "arp_r"@ && cells[24] == four(row.rp_ref@[0])
            &&& cols[25] == "arp_p"@ && cells[25] == four(row.rp_ref@[1])
        }),
{
    lemma_shared_cells(row);
    let (cells, all) = (row.cells(joints, model), row.motion_cells() + row.contact_cells());
    assert forall|k: int| 0 <= k < 57 implies cells[k] == #[trigger] all[k] by {}
    assert forall|k: int| 0 <= k < 57 implies columns(joints, extra)[k] == #[trigger] SHARED_COLUMNS@[k]@ by {}
    assert(all[0] == four(row.t));
    assert(all[1] == five(row.base.x));
    assert(all[2] == five(row.base.y));
    assert(all[3] == five(row.base.z));
    assert(all[4] == five(row.base_turn@[0]));
    assert(all[5] == five(row.base_turn@[1]));
    assert(all[6] == five(row.base_turn@[2]));
    assert(all[7] == five(row.base_turn@[3]));
    assert(all[8] == five(row.com.x));
    assert(all[9] == five(row.com.y));
    assert(all[10] == five(row.com.z));
    assert(all[11] == five(row.com_ref_z));
    assert(all[12] == five(row.tilt));
    assert(all[13] == five(row.com_ref_y));
    assert(all[14] == crate::text::decimal_of(row.n_stance as nat));
    assert(all[15] == five(row.swing_z));
    assert(all[16] == five(row.trunk_tilt));
    assert(all[17] == six(row.foot_z));
    assert(all[18] == five(row.foot_vz));
    assert(all[19] == four(row.acc_dbg@[0]));
    assert(all[20] == four(row.acc_dbg@[1]));
    assert(all[21] == four(row.a_com.x));
    assert(all[22] == four(row.a_com.y));
    assert(all[23] == four(row.a_com.z));
    assert(all[24] == four(row.rp_ref@[0]));
    assert(all[25] == four(row.rp_ref@[1]));
}

/// What the contacts are asked for and what they do stands under its columns.
pub proof fn law_contacts_stand_under_their_columns(
    row: Row,
    model: RobotModel,
    joints: Seq<Seq<char>>,
    extra: Seq<Seq<char>>,
)
    ensures
        ({
            let (cells, cols) = (row.cells(joints, model), columns(joints, extra));
            &&& cols[26] == "degraded"@ && cells[26] == crate::text::decimal_of(if row.degraded { 1 } else { 0 })
            &&& cols[27] == "cop_lx"@ && cells[27] == five(row.cop_box.0)
            &&& cols[28] == "cop_ly"@ && cells[28] == five(row.cop_box.1)
            &&& cols[29] == "slip_l"@ && cells[29] == four(row.measured.slip@[0])
            &&& cols[30] == "slip_r"@ && cells[30] == four(row.measured.slip@[1])
            &&& cols[31] == "patch_lx"@ && cells[31] == six(row.measured.patch.0)
            &&& cols[32] == "patch_ly"@ && cells[32] == six(row.measured.patch.1)
            &&& cols[33] == "fqp_l_x"@ && cells[33] == four(row.f_qp_w@[0].x)
            &&& cols[34] == "fqp_l_y"@ && cells[34] == four(row.f_qp_w@[0].y)
            &&& cols[35] == "fqp_l_z"@ && cells[35] == four(row.f_qp_w@[0].z)
            &&& cols[36] == "fmj_l_x"@ && cells[36] == four(row.measured.f_w@[0].x)
            &&& cols[37] == "fmj_l_y"@ && cells[37] == four(row.measured.f_w@[0].y)
            &&& cols[38] == "fmj_l_z"@ && cells[38] == four(row.measured.f_w@[0].z)
            &&& cols[39] == "fqp_r_x"@ && cells[39] == four(row.f_qp_w@[1].x)
            &&& cols[40] == "fqp_r_y"@ && cells[40] == four(row.f_qp_w@[1].y)
            &&& cols[41] == "fqp_r_z"@ && cells[41] == four(row.f_qp_w@[1].z)
            &&& cols[42] == "fmj_r_x"@ && cells[42] == four(row.measured.f_w@[1].x)
            &&& cols[43] == "fmj_r_y"@ && cells[43] == four(row.measured.f_w@[1].y)
            &&& cols[44] == "fmj_r_z"@ && cells[44] == four(row.measured.f_w@[1].z)
            &&& cols[45] == "cop_qp_l_x"@ && cells[45] == six(row.cop_qp@[0].x)
            &&& cols[46] == "cop_qp_l_y"@ && cells[46] == six(row.cop_qp@[0].y)
            &&& cols[47] == "fz_qp_l"@ && cells[47] == four(row.cop_qp@[0].z)
            &&& cols[48] == "cop_mj_l_x"@ && cells[48] == six(row.measured.cop@[0].x)
            &&& cols[49] == "cop_mj_l_y"@ && cells[49] == six(row.measured.cop@[0].y)
            &&& cols[50] == "fz_mj_l"@ && cells[50] == four(row.measured.cop@[0].z)
            &&& cols[51] == "cop_qp_r_x"@ && cells[51] == six(row.cop_qp@[1].x)
            &&& cols[52] == "cop_qp_r_y"@ && cells[52] == six(row.cop_qp@[1].y)
            &&& cols[53] == "fz_qp_r"@ && cells[53] == four(row.cop_qp@[1].z)
            &&& cols[54] == "cop_mj_r_x"@ && cells[54] == six(row.measured.cop@[1].x)
            &&& cols[55] == "cop_mj_r_y"@ && cells[55] == six(row.measured.cop@[1].y)
            &&& cols[56] == "fz_mj_r"@ && cells[56] == four(row.measured.cop@[1].z)
        }),
{
    lemma_shared_cells(row);
    let (cells, all) = (row.cells(joints, model), row.motion_cells() + row.contact_cells());
    assert forall|k: int| 0 <= k < 57 implies cells[k] == #[trigger] all[k] by {}
    assert forall|k: int| 0 <= k < 57 implies columns(joints, extra)[k] == #[trigger] SHARED_COLUMNS@[k]@ by {}
    assert(all[26] == crate::text::decimal_of(if row.degraded { 1 } else { 0 }));
    assert(all[27] == five(row.cop_box.0));
    assert(all[28] == five(row.cop_box.1));
    assert(all[29] == four(row.measured.slip@[0]));
    assert(all[30] == four(row.measured.slip@[1]));
    assert(all[31] == six(row.measured.patch.0));
    assert(all[32] == six(row.measured.patch.1));
    assert(all[33] == four(row.f_qp_w@[0].x));
    assert(all[34] == four(row.f_qp_w@[0].y));
    assert(all[35] == four(row.f_qp_w@[0].z));
    assert(all[36] == four(row.measured.f_w@[0].x));
    assert(all[37] == four(row.measured.f_w@[0].y));
    assert(all[38] == four(row.measured.f_w@[0].z));
    assert(all[39] == four(row.f_qp_w@[1].x));
    assert(all[40] == four(row.f_qp_w@[1].y));
    assert(all[41] == four(row.f_qp_w@[1].z));
    assert(all[42] == four(row.measured.f_w@[1].x));
    assert(all[43] == four(row.measured.f_w@[1].y));
    assert(all[44] == four(row.measured.f_w@[1].z));
    assert(all[45] == six(row.cop_qp@[0].x));
    assert(all[46] == six(row.cop_qp@[0].y));
    assert(all[47] == four(row.cop_qp@[0].z));
    assert(all[48] == six(row.measured.cop@[0].x));
    assert(all[49] == six(row.measured.cop@[0].y));
    assert(all[50] == four(row.measured.cop@[0].z));
    assert(all[51] == six(row.cop_qp@[1].x));
    assert(all[52] == six(row.cop_qp@[1].y));
    assert(all[53] == four(row.cop_qp@[1].z));
    assert(all[54] == six(row.measured.cop@[1].x));
    assert(all[55] == six(row.measured.cop@[1].y));
    assert(all[56] == four(row.measured.cop@[1].z));
}

} // verus!
