//! How the joints of the editor map onto the coordinates of the dynamics model.

use vstd::prelude::*;

verus! {

/// How the editor's joints map onto the rows of the dynamics model.
pub struct JointMap {
    /// Joint of the editor -> joint of the dynamics model.
    pub a2m: Vec<Option<usize>>,
    /// Position coordinates of each joint of the dynamics model.
    pub joint_nq: Vec<usize>,
    /// Velocity coordinates of each joint of the dynamics model.
    pub joint_nv: Vec<usize>,
    /// First position coordinate of each joint of the dynamics model.
    pub q_idx: Vec<usize>,
    /// First velocity coordinate of each joint of the dynamics model.
    pub v_idx: Vec<usize>,
    /// Position coordinates in all.
    pub nq: usize,
    /// Velocity coordinates in all.
    pub nv: usize,
}

/// Velocity coordinates of the floating base.
pub const BASE_ROWS: usize = 6;

impl JointMap {
    /// The map is over `n` joints of the editor and stays within the dynamics
    /// model, which has a floating base.
    pub open spec fn valid(&self, n: nat) -> bool {
        &&& self.in_range(n)
        &&& self.nv >= BASE_ROWS
        &&& self.nq >= BASE_ROWS + 1
    }

    /// The map is over `n` joints of the editor and stays within the dynamics
    /// model.
    pub open spec fn in_range(&self, n: nat) -> bool {
        &&& self.a2m.len() == n
        &&& self.joint_nq.len() == self.joint_nv.len()
        &&& self.q_idx.len() == self.joint_nv.len()
        &&& self.v_idx.len() == self.joint_nv.len()
        &&& forall|ji: int|
            0 <= ji < n ==> ((#[trigger] self.a2m@[ji]) matches Some(mi) ==> mi
                < self.joint_nv.len())
        &&& forall|mi: int|
            0 <= mi < self.joint_nv.len() && #[trigger] self.joint_nv@[mi] == 1 ==> self.v_idx@[mi]
                < self.nv
        &&& forall|mi: int|
            0 <= mi < self.joint_nq.len() && #[trigger] self.joint_nq@[mi] == 1 ==> self.q_idx@[mi]
                < self.nq
    }

    /// The velocity row of a joint with a single velocity coordinate.
    pub open spec fn v_row(&self, ji: int) -> Option<usize> {
        match self.a2m@[ji] {
            Some(mi) => if self.joint_nv@[mi as int] == 1 {
                Some(self.v_idx@[mi as int])
            } else {
                None
            },
            None => None,
        }
    }

    /// The position coordinate of a joint with a single one.
    pub open spec fn q_row(&self, ji: int) -> Option<usize> {
        match self.a2m@[ji] {
            Some(mi) => if self.joint_nq@[mi as int] == 1 {
                Some(self.q_idx@[mi as int])
            } else {
                None
            },
            None => None,
        }
    }

    /// The row of an actuated joint: a single velocity coordinate that is not
    /// one of the floating base's.
    pub open spec fn actuated_row(&self, ji: int) -> Option<usize> {
        match self.v_row(ji) {
            Some(vi) => if vi >= BASE_ROWS {
                Some(vi)
            } else {
                None
            },
            None => None,
        }
    }

    /// Joint and row of each actuated joint among the first `n`.
    pub open spec fn actuated_upto(&self, n: nat) -> Seq<(usize, usize)>
        decreases n,
    {
        if n == 0 || n > self.a2m@.len() {
            Seq::empty()
        } else {
            let before = self.actuated_upto((n - 1) as nat);
            match self.actuated_row(n - 1) {
                Some(vi) => before.push(((n - 1) as usize, vi)),
                None => before,
            }
        }
    }

    /// The velocity row of a joint, if it has exactly one.
    pub fn velocity_row(&self, ji: usize) -> (r: Option<usize>)
        requires
            self.in_range(self.a2m@.len()),
            ji < self.a2m.len(),
        ensures
            r == self.v_row(ji as int),
            r matches Some(vi) ==> vi < self.nv,
    {
        match self.a2m[ji] {
            Some(mi) => if self.joint_nv[mi] == 1 {
                Some(self.v_idx[mi])
            } else {
                None
            },
            None => None,
        }
    }

    /// The position coordinate of a joint, if it has exactly one.
    pub fn position_row(&self, ji: usize) -> (r: Option<usize>)
        requires
            self.in_range(self.a2m@.len()),
            ji < self.a2m.len(),
        ensures
            r == self.q_row(ji as int),
            r matches Some(qi) ==> qi < self.nq,
    {
        match self.a2m[ji] {
            Some(mi) => if self.joint_nq[mi] == 1 {
                Some(self.q_idx[mi])
            } else {
                None
            },
            None => None,
        }
    }

    /// The actuated row of a joint, if it has one.
    pub fn row_of(&self, ji: usize) -> (r: Option<usize>)
        requires
            self.valid(self.a2m@.len()),
            ji < self.a2m.len(),
        ensures
            r == self.actuated_row(ji as int),
            r matches Some(vi) ==> BASE_ROWS <= vi < self.nv,
    {
        match self.velocity_row(ji) {
            Some(vi) => if vi >= BASE_ROWS {
                Some(vi)
            } else {
                None
            },
            None => None,
        }
    }

    /// Joint and row of every joint that maps to a single actuated row. Every
    /// loop of the controller that touches torques or accelerations walks
    /// exactly this set.
    pub fn actuated(&self) -> (r: Vec<(usize, usize)>)
        requires
            self.valid(self.a2m@.len()),
        ensures
            r@ == self.actuated_upto(self.a2m@.len()),
    {
        let mut out: Vec<(usize, usize)> = Vec::new();
        let mut ji: usize = 0;
        while ji < self.a2m.len()
            invariant
                self.valid(self.a2m@.len()),
                ji <= self.a2m.len(),
                out@ == self.actuated_upto(ji as nat),
            decreases self.a2m.len() - ji,
        {
            if let Some(vi) = self.row_of(ji) {
                out.push((ji, vi));
            }
            ji += 1;
        }
        out
    }
}

/// The actuated joints are listed in order, each once, with a row of the
/// dynamics model behind the floating base; and every actuated joint is listed.
pub proof fn law_actuated_set(map: JointMap, n: nat)
    requires
        map.valid(map.a2m@.len()),
        n <= map.a2m@.len(),
    ensures
        forall|p: int|
            0 <= p < map.actuated_upto(n).len() ==> {
                let (ji, vi) = #[trigger] map.actuated_upto(n)[p];
                ji < n && BASE_ROWS <= vi < map.nv && map.actuated_row(ji as int) == Some(vi)
            },
        forall|p: int, q: int|
            0 <= p < q < map.actuated_upto(n).len() ==> (#[trigger] map.actuated_upto(n)[p]).0 < (
            #[trigger] map.actuated_upto(n)[q]).0,
        forall|ji: int|
            0 <= ji < n && (#[trigger] map.actuated_row(ji)) is Some ==> map.actuated_upto(n).contains(
                (ji as usize, map.actuated_row(ji)->0),
            ),
    decreases n,
{
    if n > 0 {
        law_actuated_set(map, (n - 1) as nat);
        let before = map.actuated_upto((n - 1) as nat);
        let now = map.actuated_upto(n);
        assert forall|ji: int| 0 <= ji < n && (#[trigger] map.actuated_row(ji)) is Some implies now.contains(
            (ji as usize, map.actuated_row(ji)->0),
        ) by {
            let e = (ji as usize, map.actuated_row(ji)->0);
            if ji < n - 1 {
                let k = choose|k: int| 0 <= k < before.len() && before[k] == e;
                assert(now[k] == e);
            } else {
                assert(now[now.len() - 1] == e);
            }
        }
        let j = n - 1;
        assert(map.a2m@[j] == map.a2m@[j]);
        if map.actuated_row(j) is Some {
            let mi = map.a2m@[j]->0 as int;
            assert(map.joint_nv@[mi] == 1);
        }
    }
}

/// The coordinates after the first `n` joints have been written over `q`.
pub open spec fn placed<T>(q: Seq<T>, map: JointMap, joint_q: Seq<T>, n: nat) -> Seq<T>
    decreases n,
{
    if n == 0 || n > map.a2m@.len() {
        q
    } else {
        let before = placed(q, map, joint_q, (n - 1) as nat);
        match map.q_row(n - 1) {
            Some(qi) => before.update(qi as int, joint_q[n - 1]),
            None => before,
        }
    }
}

/// The neutral coordinates with the floating base put in front.
pub open spec fn with_base<T>(neutral: Seq<T>, base: Seq<T>) -> Seq<T> {
    Seq::new(
        neutral.len(),
        |i: int|
            if i < base.len() {
                base[i]
            } else {
                neutral[i]
            },
    )
}

/// Position coordinates of the dynamics model: the base's seven first, then the
/// position of every joint that has a single coordinate, the rest neutral.
pub fn pack_positions<T: Copy>(
    map: &JointMap,
    neutral: &Vec<T>,
    base: &[T; 7],
    joint_q: &Vec<T>,
) -> (q: Vec<T>)
    requires
        map.valid(joint_q@.len()),
        neutral.len() == map.nq,
    ensures
        q.len() == map.nq,
        q@ == placed(with_base(neutral@, base@), *map, joint_q@, joint_q@.len()),
{
    let mut q: Vec<T> = Vec::new();
    let mut i: usize = 0;
    while i < neutral.len()
        invariant
            i <= neutral.len(),
            q@ == with_base(neutral@, base@).take(i as int),
        decreases neutral.len() - i,
    {
        if i < 7 {
            q.push(base[i]);
        } else {
            q.push(neutral[i]);
        }
        i += 1;
    }
    proof {
        assert(with_base(neutral@, base@).take(neutral@.len() as int) =~= with_base(
            neutral@,
            base@,
        ));
    }
    let mut ji: usize = 0;
    while ji < joint_q.len()
        invariant
            map.valid(joint_q@.len()),
            ji <= joint_q.len(),
            q.len() == map.nq,
            q@ == placed(with_base(neutral@, base@), *map, joint_q@, ji as nat),
        decreases joint_q.len() - ji,
    {
        if let Some(qi) = map.position_row(ji) {
            q.set(qi, joint_q[ji]);
        }
        ji += 1;
    }
    q
}

/// A rate kept within a bound.
pub open spec fn bounded(rate: i64, bound: Option<i64>) -> i64 {
    match bound {
        None => rate,
        Some(b) => if rate < -b {
            (-b) as i64
        } else if rate > b {
            b
        } else {
            rate
        },
    }
}

/// The rates after the first `n` joints have been written over `v`.
pub open spec fn rates_placed(
    v: Seq<i64>,
    map: JointMap,
    joint_v: Seq<Option<i64>>,
    bound: Option<i64>,
    n: nat,
) -> Seq<i64>
    decreases n,
{
    if n == 0 || n > map.a2m@.len() {
        v
    } else {
        let before = rates_placed(v, map, joint_v, bound, (n - 1) as nat);
        match (map.v_row(n - 1), joint_v[n - 1]) {
            (Some(vi), Some(rate)) => before.update(vi as int, bounded(rate, bound)),
            _ => before,
        }
    }
}

/// A rate that is bounded stays bounded, whatever the plant reports: of every
/// coordinate, what was there before or a rate within the bound is left.
pub proof fn law_joint_rates_are_bounded(
    v: Seq<i64>,
    map: JointMap,
    joint_v: Seq<Option<i64>>,
    bound: i64,
    n: nat,
)
    requires
        map.valid(map.a2m@.len()),
        v.len() == map.nv,
        bound >= 0,
    ensures
        rates_placed(v, map, joint_v, Some(bound), n).len() == v.len(),
        forall|i: int|
            0 <= i < v.len() ==> {
                ||| #[trigger] rates_placed(v, map, joint_v, Some(bound), n)[i] == v[i]
                ||| -bound <= rates_placed(v, map, joint_v, Some(bound), n)[i] <= bound
            },
    decreases n,
{
    if n > 0 {
        law_joint_rates_are_bounded(v, map, joint_v, bound, (n - 1) as nat);
        let before = rates_placed(v, map, joint_v, Some(bound), (n - 1) as nat);
        if n <= map.a2m@.len() && map.a2m@[n - 1] is Some {
            let mi = map.a2m@[n - 1]->0 as int;
            assert(map.joint_nv@[mi] == 1 ==> map.v_idx@[mi] < map.nv);
        }
        assert forall|i: int| 0 <= i < v.len() implies {
            ||| #[trigger] rates_placed(v, map, joint_v, Some(bound), n)[i] == v[i]
            ||| -bound <= rates_placed(v, map, joint_v, Some(bound), n)[i] <= bound
        } by {
            assert(before[i] == v[i] || -bound <= before[i] <= bound);
        }
    }
}

/// Joint rates beyond this are not believed while a run is synchronised.
pub const RATE_BOUND: i64 = 5_000_000;

/// Velocity coordinates of the dynamics model: the base's six first, then the
/// rate of every joint that has a single coordinate and whose rate is known,
/// kept within `bound` where one is given; the rest zero.
pub fn pack_rates(
    map: &JointMap,
    base: &[i64; 6],
    joint_v: &Vec<Option<i64>>,
    bound: Option<i64>,
) -> (v: Vec<i64>)
    requires
        map.valid(joint_v@.len()),
        bound matches Some(b) ==> b >= 0,
    ensures
        v.len() == map.nv,
        v@ == rates_placed(
            with_base(Seq::new(map.nv as nat, |i: int| 0i64), base@),
            *map,
            joint_v@,
            bound,
            joint_v@.len(),
        ),
{
    let ghost start = with_base(Seq::new(map.nv as nat, |i: int| 0i64), base@);
    let mut v: Vec<i64> = Vec::new();
    while v.len() < map.nv
        invariant
            v.len() <= map.nv,
            start == with_base(Seq::new(map.nv as nat, |i: int| 0i64), base@),
            v@ == start.take(v.len() as int),
        decreases map.nv - v.len(),
    {
        let i: usize = v.len();
        let ghost before = v@;
        if i < 6 {
            v.push(base[i]);
        } else {
            v.push(0);
        }
        proof {
            assert(v@ =~= start.take(i + 1));
        }
    }
    proof {
        assert(start.take(start.len() as int) =~= start);
    }
    let mut ji: usize = 0;
    while ji < joint_v.len()
        invariant
            map.valid(joint_v@.len()),
            bound matches Some(b) ==> b >= 0,
            ji <= joint_v.len(),
            v.len() == map.nv,
            v@ == rates_placed(start, *map, joint_v@, bound, ji as nat),
        decreases joint_v.len() - ji,
    {
        if let Some(vi) = map.velocity_row(ji) {
            if let Some(rate) = joint_v[ji] {
                let kept: i64 = match bound {
                    None => rate,
                    Some(b) => if rate < -b {
                        -b
                    } else if rate > b {
                        b
                    } else {
                        rate
                    },
                };
                v.set(vi, kept);
            }
        }
        ji += 1;
    }
    v
}

/// The actuated rows of a full vector, as the first `n` joints pick them: a row
/// that no joint maps to is zero.
pub open spec fn rows_picked(full: Seq<i64>, map: JointMap, row: int, n: nat) -> i64
    decreases n,
{
    if n == 0 || n > map.a2m@.len() {
        0
    } else if map.actuated_row(n - 1) == Some((row + BASE_ROWS) as usize) {
        full[row + BASE_ROWS]
    } else {
        rows_picked(full, map, row, (n - 1) as nat)
    }
}

/// The actuated rows of a vector over all velocity coordinates, such as the
/// gravity torque.
pub fn pick_rows(full: &Vec<i64>, map: &JointMap) -> (r: Vec<i64>)
    requires
        map.valid(map.a2m@.len()),
        full.len() == map.nv,
    ensures
        r.len() == map.nv - BASE_ROWS,
        forall|row: int|
            0 <= row < r.len() ==> #[trigger] r@[row] == rows_picked(
                full@,
                *map,
                row,
                map.a2m@.len(),
            ),
{
    let na: usize = map.nv - BASE_ROWS;
    let mut out: Vec<i64> = Vec::new();
    while out.len() < na
        invariant
            out.len() <= na,
            forall|row: int| 0 <= row < out.len() ==> #[trigger] out@[row] == 0,
        decreases na - out.len(),
    {
        out.push(0);
    }
    let mut ji: usize = 0;
    while ji < map.a2m.len()
        invariant
            map.valid(map.a2m@.len()),
            full.len() == map.nv,
            na == map.nv - BASE_ROWS,
            out.len() == na,
            ji <= map.a2m.len(),
            forall|row: int|
                0 <= row < out.len() ==> #[trigger] out@[row] == rows_picked(
                    full@,
                    *map,
                    row,
                    ji as nat,
                ),
        decreases map.a2m.len() - ji,
    {
        let ghost before = out@;
        if let Some(vi) = map.row_of(ji) {
            out.set(vi - BASE_ROWS, full[vi]);
        }
        proof {
            assert forall|row: int| 0 <= row < out.len() implies #[trigger] out@[row]
                == rows_picked(full@, *map, row, (ji + 1) as nat) by {
                assert(before[row] == rows_picked(full@, *map, row, ji as nat));
            }
        }
        ji += 1;
    }
    out
}

/// A joint has a row where it is a joint of the dynamics model with exactly one coordinate,
/// and then that one; an actuated row lies behind the six of the floating base.
pub proof fn law_rows_of_joints(map: JointMap, ji: int)
    requires
        map.in_range(map.a2m@.len()),
        0 <= ji < map.a2m@.len(),
    ensures
        map.a2m@[ji] is None ==> map.v_row(ji) is None && map.q_row(ji) is None,
        map.a2m@[ji] matches Some(mi) ==> {
            &&& map.v_row(ji) is Some <==> map.joint_nv@[mi as int] == 1
            &&& map.q_row(ji) is Some <==> map.joint_nq@[mi as int] == 1
            &&& map.v_row(ji) matches Some(vi) ==> vi == map.v_idx@[mi as int]
            &&& map.q_row(ji) matches Some(qi) ==> qi == map.q_idx@[mi as int]
        },
        map.actuated_row(ji) is Some <==> map.v_row(ji) is Some && map.v_row(ji)->0 >= 6,
        map.actuated_row(ji) is Some ==> map.actuated_row(ji) == map.v_row(ji),
{
}

/// A coordinate holds the position of the last joint that it belongs to, and what it held
/// where it belongs to none.
pub proof fn law_positions_go_to_their_coordinates<T>(
    q: Seq<T>,
    map: JointMap,
    joint_q: Seq<T>,
    n: nat,
    at: usize,
    j: int,
)
    requires
        map.in_range(map.a2m@.len()),
        n <= map.a2m@.len(),
        q.len() == map.nq,
        at < map.nq,
        -1 <= j < n,
        j >= 0 ==> map.q_row(j) == Some(at),
        forall|i: int| j < i < n ==> #[trigger] map.q_row(i) != Some(at),
    ensures
        placed(q, map, joint_q, n).len() == q.len(),
        placed(q, map, joint_q, n)[at as int] == (if j >= 0 {
            joint_q[j]
        } else {
            q[at as int]
        }),
    decreases n,
{
    if n > 0 {
        lemma_placed_length(q, map, joint_q, (n - 1) as nat);
        let mi = map.a2m@[n - 1];
        if mi is Some {
            assert(map.joint_nq@[mi->0 as int] == 1 ==> map.q_idx@[mi->0 as int] < map.nq);
        }
        if j < n - 1 {
            assert(map.q_row(n - 1) != Some(at));
            law_positions_go_to_their_coordinates(q, map, joint_q, (n - 1) as nat, at, j);
        }
    }
}

proof fn lemma_placed_length<T>(q: Seq<T>, map: JointMap, joint_q: Seq<T>, n: nat)
    requires
        map.in_range(map.a2m@.len()),
        q.len() == map.nq,
        n <= map.a2m@.len(),
    ensures
        placed(q, map, joint_q, n).len() == q.len(),
    decreases n,
{
    if n > 0 {
        lemma_placed_length(q, map, joint_q, (n - 1) as nat);
        let mi = map.a2m@[n - 1];
        if mi is Some {
            assert(map.joint_nq@[mi->0 as int] == 1 ==> map.q_idx@[mi->0 as int] < map.nq);
        }
    }
}

/// The base comes first and the rest stays neutral.
pub proof fn law_base_comes_first<T>(neutral: Seq<T>, base: Seq<T>, i: int)
    requires
        0 <= i < neutral.len(),
    ensures
        with_base(neutral, base).len() == neutral.len(),
        i < base.len() ==> with_base(neutral, base)[i] == base[i],
        i >= base.len() ==> with_base(neutral, base)[i] == neutral[i],
{
}

/// A bounded rate is the rate itself within the bound and else the bound on its side.
pub proof fn law_bounded_rate(rate: i64, bound: i64)
    requires
        bound >= 0,
    ensures
        -bound <= bounded(rate, Some(bound)) <= bound,
        -bound <= rate <= bound ==> bounded(rate, Some(bound)) == rate,
        rate > bound ==> bounded(rate, Some(bound)) == bound,
        rate < -bound ==> bounded(rate, Some(bound)) == -bound,
        bounded(rate, None) == rate,
{
}

/// A row holds the bounded rate of the last joint that it belongs to and whose rate is known,
/// and what it held where there is none.
pub proof fn law_rates_go_to_their_rows(
    v: Seq<i64>,
    map: JointMap,
    joint_v: Seq<Option<i64>>,
    bound: Option<i64>,
    n: nat,
    at: usize,
    j: int,
)
    requires
        map.in_range(map.a2m@.len()),
        n <= map.a2m@.len(),
        v.len() == map.nv,
        at < map.nv,
        -1 <= j < n,
        j >= 0 ==> map.v_row(j) == Some(at) && joint_v[j] is Some,
        forall|i: int|
            j < i < n && (#[trigger] joint_v[i]) is Some ==> map.v_row(i) != Some(at),
    ensures
        rates_placed(v, map, joint_v, bound, n).len() == v.len(),
        rates_placed(v, map, joint_v, bound, n)[at as int] == (if j >= 0 {
            bounded(joint_v[j]->0, bound)
        } else {
            v[at as int]
        }),
    decreases n,
{
    if n > 0 {
        lemma_rates_length(v, map, joint_v, bound, (n - 1) as nat);
        let mi = map.a2m@[n - 1];
        if mi is Some {
            assert(map.joint_nv@[mi->0 as int] == 1 ==> map.v_idx@[mi->0 as int] < map.nv);
        }
        if j < n - 1 {
            let rate = joint_v[n - 1];
            law_rates_go_to_their_rows(v, map, joint_v, bound, (n - 1) as nat, at, j);
        }
    }
}

proof fn lemma_rates_length(
    v: Seq<i64>,
    map: JointMap,
    joint_v: Seq<Option<i64>>,
    bound: Option<i64>,
    n: nat,
)
    requires
        map.in_range(map.a2m@.len()),
        v.len() == map.nv,
        n <= map.a2m@.len(),
    ensures
        rates_placed(v, map, joint_v, bound, n).len() == v.len(),
    decreases n,
{
    if n > 0 {
        lemma_rates_length(v, map, joint_v, bound, (n - 1) as nat);
        let mi = map.a2m@[n - 1];
        if mi is Some {
            assert(map.joint_nv@[mi->0 as int] == 1 ==> map.v_idx@[mi->0 as int] < map.nv);
        }
    }
}

/// Of a full vector each row behind the base's six is picked where an actuated joint has it,
/// and is zero elsewhere.
pub proof fn law_actuated_rows_are_picked(full: Seq<i64>, map: JointMap, row: int, n: nat)
    requires
        n <= map.a2m@.len(),
        0 <= row,
        row + 6 <= usize::MAX,
    ensures
        (exists|ji: int| 0 <= ji < n && #[trigger] map.actuated_row(ji) == Some((row + 6) as usize))
            ==> rows_picked(full, map, row, n) == full[row + 6],
        (forall|ji: int| 0 <= ji < n ==> #[trigger] map.actuated_row(ji) != Some((row + 6) as usize))
            ==> rows_picked(full, map, row, n) == 0,
    decreases n,
{
    if n > 0 {
        law_actuated_rows_are_picked(full, map, row, (n - 1) as nat);
        let last = map.actuated_row(n - 1);
    }
}

} // verus!
