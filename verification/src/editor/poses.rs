//! Named poses, and sequences of them.
//!
//! `A` is the set of joint angles of a pose, `K` the curve along which it is
//! approached; both are only passed on. Durations are whole microseconds.

use vstd::prelude::*;
use vstd::string::*;

use crate::text::{around, around_two, decimal, same, trim};

verus! {

pub struct NamedPose<A, K> {
    pub name: String,
    pub angles: A,
    pub duration: u64,
    pub kind: K,
}

/// `i` is the first pose called `name`.
pub open spec fn first_pose<A, K>(poses: Seq<NamedPose<A, K>>, name: Seq<char>, i: int) -> bool {
    &&& 0 <= i < poses.len()
    &&& poses[i].name@ == name
    &&& forall|j: int| 0 <= j < i ==> (#[trigger] poses[j]).name@ != name
}

/// No pose is called `name`.
pub open spec fn no_pose<A, K>(poses: Seq<NamedPose<A, K>>, name: Seq<char>) -> bool {
    forall|j: int| 0 <= j < poses.len() ==> (#[trigger] poses[j]).name@ != name
}

/// No two poses have the same name.
pub open spec fn distinct_poses<A, K>(poses: Seq<NamedPose<A, K>>) -> bool {
    forall|i: int, j: int|
        0 <= i < j < poses.len() ==> (#[trigger] poses[i]).name@ != (#[trigger] poses[j]).name@
}

fn find_pose<A, K>(poses: &Vec<NamedPose<A, K>>, name: &str) -> (r: Option<usize>)
    ensures
        match r {
            Some(i) => first_pose(poses@, name@, i as int),
            None => no_pose(poses@, name@),
        },
{
    let mut i: usize = 0;
    while i < poses.len()
        invariant
            i <= poses.len(),
            forall|j: int| 0 <= j < i ==> (#[trigger] poses@[j]).name@ != name@,
        decreases poses.len() - i,
    {
        if same(poses[i].name.as_str(), name) {
            return Some(i);
        }
        i += 1;
    }
    None
}

/// Whether the name field holds a name to save under.
pub fn can_save(field: &str) -> (r: bool)
    ensures
        r == (crate::text::trimmed(field@).len() > 0),
{
    !trim(field).is_empty()
}

/// The list after a pose was saved under `name`: a pose of that name is brought
/// up to date, a new one comes last.
pub open spec fn is_saved<A, K>(
    now: Seq<NamedPose<A, K>>,
    was: Seq<NamedPose<A, K>>,
    name: Seq<char>,
    angles: A,
    duration: u64,
    kind: K,
) -> bool {
    if no_pose(was, name) {
        &&& now.len() == was.len() + 1
        &&& now.drop_last() == was
        &&& now.last().name@ == name
        &&& now.last().angles == angles
        &&& now.last().duration == duration
        &&& now.last().kind == kind
    } else {
        exists|i: int|
            #[trigger] first_pose(was, name, i) && now == was.update(
                i,
                NamedPose { angles, duration, kind, ..was[i] },
            )
    }
}

/// Saves the given angles under the name in the field, with the default duration
/// and curve. An empty name saves nothing.
pub fn save_pose<A, K>(
    poses: &mut Vec<NamedPose<A, K>>,
    field: &str,
    angles: A,
    duration: u64,
    kind: K,
) -> (description: Option<String>)
    ensures
        description is Some <==> crate::text::trimmed(field@).len() > 0,
        description is None ==> *final(poses) == *old(poses),
        description matches Some(d) ==> {
            let name = crate::text::trimmed(field@);
            &&& d@ == "Save pose '"@ + name + "'"@
            &&& is_saved(final(poses)@, old(poses)@, name, angles, duration, kind)
        },
{
    let name: &str = trim(field);
    if name.is_empty() {
        return None;
    }
    let ghost was = poses@;
    match find_pose(poses, name) {
        Some(i) => {
            poses[i].angles = angles;
            poses[i].duration = duration;
            poses[i].kind = kind;
            proof {
                assert(first_pose(was, name@, i as int));
                assert(!no_pose(was, name@)) by {
                    assert(was[i as int].name@ == name@);
                }
                assert(poses@ =~= was.update(
                    i as int,
                    NamedPose { angles, duration, kind, ..was[i as int] },
                ));
            }
        },
        None => {
            poses.push(NamedPose { name: name.to_owned(), angles, duration, kind });
            proof {
                assert(poses@.drop_last() =~= was);
            }
        },
    }
    Some(around("Save pose '", name, "'"))
}

/// Saving keeps the names of the poses distinct.
pub proof fn law_saving_keeps_names_distinct<A, K>(
    now: Seq<NamedPose<A, K>>,
    was: Seq<NamedPose<A, K>>,
    name: Seq<char>,
    angles: A,
    duration: u64,
    kind: K,
)
    requires
        distinct_poses(was),
        is_saved(now, was, name, angles, duration, kind),
    ensures
        distinct_poses(now),
{
    if no_pose(was, name) {
        assert forall|i: int, j: int| 0 <= i < j < now.len() implies (#[trigger] now[i]).name@ != (
        #[trigger] now[j]).name@ by {
            assert(now.drop_last()[i] == now[i]);
            if j < now.len() - 1 {
                assert(now.drop_last()[j] == now[j]);
            }
        }
    } else {
        let at = choose|i: int| #[trigger]
            first_pose(was, name, i) && now == was.update(
                i,
                NamedPose { angles, duration, kind, ..was[i] },
            );
        assert forall|i: int, j: int| 0 <= i < j < now.len() implies (#[trigger] now[i]).name@ != (
        #[trigger] now[j]).name@ by {
            assert(now[i].name@ == was[i].name@);
            assert(now[j].name@ == was[j].name@);
        }
    }
}

/// What was saved under a name is found under it.
pub proof fn law_saved_pose_is_found<A, K>(
    now: Seq<NamedPose<A, K>>,
    was: Seq<NamedPose<A, K>>,
    name: Seq<char>,
    angles: A,
    duration: u64,
    kind: K,
)
    requires
        is_saved(now, was, name, angles, duration, kind),
    ensures
        exists|i: int|
            #[trigger] first_pose(now, name, i) && now[i].angles == angles && now[i].duration
                == duration && now[i].kind == kind,
{
    if no_pose(was, name) {
        let i = now.len() - 1;
        assert forall|j: int| 0 <= j < i implies (#[trigger] now[j]).name@ != name by {
            assert(now.drop_last()[j] == now[j]);
        }
        assert(first_pose(now, name, i));
    } else {
        let at = choose|i: int| #[trigger]
            first_pose(was, name, i) && now == was.update(
                i,
                NamedPose { angles, duration, kind, ..was[i] },
            );
        assert(first_pose(now, name, at));
    }
}

/// What the user did in the list of poses. A row's duration and curve are
/// already changed.
pub struct PoseEvents {
    /// The last row whose duration or curve was changed.
    pub edited: Option<usize>,
    pub remove: Option<usize>,
    /// The pose that the editor is to take on.
    pub apply: Option<usize>,
}

/// What the frame is called, given what it was called so far. Of several edits
/// the last counts.
pub open spec fn poses_description<A, K>(
    poses: Seq<NamedPose<A, K>>,
    ev: PoseEvents,
    so_far: Option<Seq<char>>,
) -> Option<Seq<char>> {
    let left = match ev.remove {
        Some(i) => poses.remove(i as int),
        None => poses,
    };
    match ev.apply {
        Some(i) => Some("Apply pose '"@ + left[i as int].name@ + "'"@),
        None => match ev.remove {
            Some(i) => Some("Delete pose '"@ + poses[i as int].name@ + "'"@),
            None => match ev.edited {
                Some(i) => Some("Edit pose defaults '"@ + poses[i as int].name@ + "'"@),
                None => so_far,
            },
        },
    }
}

/// One frame of the list of poses.
pub fn poses_frame<A, K>(
    poses: &mut Vec<NamedPose<A, K>>,
    ev: &PoseEvents,
    so_far: Option<String>,
) -> (description: Option<String>)
    requires
        ev.edited matches Some(i) ==> i < old(poses)@.len(),
        ev.remove matches Some(i) ==> i < old(poses)@.len(),
        ev.apply matches Some(i) ==> i < old(poses)@.len() - (if ev.remove is Some {
            1int
        } else {
            0
        }),
    ensures
        final(poses)@ == (match ev.remove {
            Some(i) => old(poses)@.remove(i as int),
            None => old(poses)@,
        }),
        crate::editor::properties::told(description) == poses_description(
            old(poses)@,
            *ev,
            crate::editor::properties::told(so_far),
        ),
{
    let mut description: Option<String> = so_far;
    if let Some(i) = ev.edited {
        description = Some(around("Edit pose defaults '", poses[i].name.as_str(), "'"));
    }
    if let Some(i) = ev.remove {
        let gone: NamedPose<A, K> = poses.remove(i);
        description = Some(around("Delete pose '", gone.name.as_str(), "'"));
    }
    if let Some(i) = ev.apply {
        description = Some(around("Apply pose '", poses[i].name.as_str(), "'"));
    }
    description
}

// ---------------------------------------------------------------- sequences

pub struct SequenceStep<K> {
    pub pose_name: String,
    pub duration: u64,
    pub kind: K,
}

pub struct Sequence<K> {
    pub name: String,
    pub steps: Vec<SequenceStep<K>>,
}

/// A step takes a second unless it is told otherwise.
pub const STEP_DURATION: u64 = 1_000_000;

/// No sequence is called `name`.
pub open spec fn no_sequence<K>(sequences: Seq<Sequence<K>>, name: Seq<char>) -> bool {
    forall|j: int| 0 <= j < sequences.len() ==> (#[trigger] sequences[j]).name@ != name
}

/// No two sequences have the same name.
pub open spec fn distinct_sequences<K>(sequences: Seq<Sequence<K>>) -> bool {
    forall|i: int, j: int|
        0 <= i < j < sequences.len() ==> (#[trigger] sequences[i]).name@ != (
        #[trigger] sequences[j]).name@
}

/// Whether the name field holds a name for a new sequence.
pub fn can_create<K>(sequences: &Vec<Sequence<K>>, field: &str) -> (r: bool)
    ensures
        r == (crate::text::trimmed(field@).len() > 0 && no_sequence(
            sequences@,
            crate::text::trimmed(field@),
        )),
{
    let name: &str = trim(field);
    if name.is_empty() {
        return false;
    }
    let mut i: usize = 0;
    while i < sequences.len()
        invariant
            i <= sequences.len(),
            name@ == crate::text::trimmed(field@),
            forall|j: int| 0 <= j < i ==> (#[trigger] sequences@[j]).name@ != name@,
        decreases sequences.len() - i,
    {
        if same(sequences[i].name.as_str(), name) {
            return false;
        }
        i += 1;
    }
    true
}

/// The list after an empty sequence was made.
pub open spec fn is_created<K>(now: Seq<Sequence<K>>, was: Seq<Sequence<K>>, name: Seq<char>) -> bool {
    &&& now.len() == was.len() + 1
    &&& now.drop_last() == was
    &&& now.last().name@ == name
    &&& now.last().steps@.len() == 0
}

/// Makes an empty sequence under the name in the field, and clears the field.
pub fn create_sequence<K>(sequences: &mut Vec<Sequence<K>>, field: &mut String) -> (description:
    Option<String>)
    ensures
        description is Some <==> crate::text::trimmed(old(field)@).len() > 0 && no_sequence(
            old(sequences)@,
            crate::text::trimmed(old(field)@),
        ),
        description is None ==> *final(sequences) == *old(sequences) && *final(field) == *old(field),
        description matches Some(d) ==> {
            let name = crate::text::trimmed(old(field)@);
            &&& d@ == "Create sequence '"@ + name + "'"@
            &&& is_created(final(sequences)@, old(sequences)@, name)
            &&& final(field)@.len() == 0
        },
{
    if !can_create(sequences, field.as_str()) {
        return None;
    }
    let name: String = trim(field.as_str()).to_owned();
    let description: String = around("Create sequence '", name.as_str(), "'");
    sequences.push(Sequence { name, steps: Vec::new() });
    proof {
        assert(sequences@.drop_last() =~= old(sequences)@);
    }
    *field = String::new();
    Some(description)
}

/// A new sequence keeps the names distinct.
pub proof fn law_creating_keeps_names_distinct<K>(
    now: Seq<Sequence<K>>,
    was: Seq<Sequence<K>>,
    name: Seq<char>,
)
    requires
        distinct_sequences(was),
        no_sequence(was, name),
        is_created(now, was, name),
    ensures
        distinct_sequences(now),
{
    assert forall|i: int, j: int| 0 <= i < j < now.len() implies (#[trigger] now[i]).name@ != (
    #[trigger] now[j]).name@ by {
        assert(now.drop_last()[i] == now[i]);
        if j < now.len() - 1 {
            assert(now.drop_last()[j] == now[j]);
        }
    }
}

/// Gives a step the pose that was picked. Returns whether the row counts as
/// changed: every pick does.
pub fn pick_step_pose<K>(step: &mut SequenceStep<K>, pose: &str) -> (changed: bool)
    ensures
        changed,
        final(step).pose_name@ == pose@,
        *final(step) == (SequenceStep { pose_name: final(step).pose_name, ..*old(step) }),
{
    step.pose_name = pose.to_owned();
    true
}

/// A step of a sequence.
#[derive(Clone, Copy, PartialEq, Eq, Structural, Debug)]
pub struct StepAt {
    pub sequence: usize,
    pub step: usize,
}

/// A step to append to a sequence, by its pose.
pub struct StepOf {
    pub sequence: usize,
    pub pose: String,
}

/// What the user did in the list of sequences. A step's own values are already
/// changed.
pub struct SequenceEvents {
    /// Sequence and step of the last changed row.
    pub edited: Option<StepAt>,
    pub remove_sequence: Option<usize>,
    pub remove_step: Option<StepAt>,
    pub add_step: Option<StepOf>,
}

/// The list without the removed sequence.
pub open spec fn without_sequence<K>(was: Seq<Sequence<K>>, ev: SequenceEvents) -> Seq<Sequence<K>> {
    match ev.remove_sequence {
        Some(i) => was.remove(i as int),
        None => was,
    }
}

/// The step to remove exists.
pub open spec fn removes_step<K>(list: Seq<Sequence<K>>, ev: SequenceEvents) -> bool {
    ev.remove_step matches Some(p) && p.sequence < list.len() && p.step < list[p.sequence as int].steps@.len()
}

/// The sequence to add to exists.
pub open spec fn adds_step<K>(list: Seq<Sequence<K>>, ev: SequenceEvents) -> bool {
    ev.add_step matches Some(p) && p.sequence < list.len()
}

/// The steps of sequence `i` after the frame.
pub open spec fn is_stepped<K>(
    now: Sequence<K>,
    was: Sequence<K>,
    i: int,
    list: Seq<Sequence<K>>,
    ev: SequenceEvents,
    kind: K,
) -> bool {
    let cut = if removes_step(list, ev) && ev.remove_step->0.sequence == i {
        was.steps@.remove(ev.remove_step->0.step as int)
    } else {
        was.steps@
    };
    &&& now.name == was.name
    &&& if adds_step(list, ev) && ev.add_step->0.sequence == i {
        &&& now.steps@.len() == cut.len() + 1
        &&& now.steps@.drop_last() == cut
        &&& now.steps@.last().pose_name@ == ev.add_step->0.pose@
        &&& now.steps@.last().duration == STEP_DURATION
        &&& now.steps@.last().kind == kind
    } else {
        now.steps@ == cut
    }
}

/// What the frame is called, given what it was called so far. Of several edits
/// the last counts.
pub open spec fn sequences_description<K>(
    was: Seq<Sequence<K>>,
    ev: SequenceEvents,
    so_far: Option<Seq<char>>,
) -> Option<Seq<char>> {
    let list = without_sequence(was, ev);
    if adds_step(list, ev) {
        Some(
            "Add step '"@ + ev.add_step->0.pose@ + "' to sequence '"@
                + list[ev.add_step->0.sequence as int].name@ + "'"@,
        )
    } else if removes_step(list, ev) {
        Some(
            "Remove step "@ + crate::text::decimal_of(ev.remove_step->0.step as nat)
                + " from sequence '"@ + list[ev.remove_step->0.sequence as int].name@ + "'"@,
        )
    } else {
        match ev.remove_sequence {
            Some(i) => Some("Delete sequence '"@ + was[i as int].name@ + "'"@),
            None => match ev.edited {
                Some(p) => Some(
                    "Edit sequence '"@ + was[p.sequence as int].name@ + "' step "@
                        + crate::text::decimal_of(p.step as nat),
                ),
                None => so_far,
            },
        }
    }
}

/// One frame of the list of sequences. `kind` is the curve that a new step gets.
pub fn sequences_frame<K>(
    sequences: &mut Vec<Sequence<K>>,
    ev: &SequenceEvents,
    kind: K,
    so_far: Option<String>,
) -> (description: Option<String>)
    requires
        ev.edited matches Some(p) ==> p.sequence < old(sequences)@.len(),
        ev.remove_sequence matches Some(i) ==> i < old(sequences)@.len(),
    ensures
        ({
            let list = without_sequence(old(sequences)@, *ev);
            &&& final(sequences)@.len() == list.len()
            &&& forall|i: int|
                0 <= i < list.len() ==> is_stepped(
                    #[trigger] final(sequences)@[i],
                    list[i],
                    i,
                    list,
                    *ev,
                    kind,
                )
        }),
        crate::editor::properties::told(description) == sequences_description(
            old(sequences)@,
            *ev,
            crate::editor::properties::told(so_far),
        ),
{
    let mut description: Option<String> = so_far;
    if let Some(p) = ev.edited {
        let mut text: String = around("Edit sequence '", sequences[p.sequence].name.as_str(), "' step ");
        text.append(decimal(p.step).as_str());
        description = Some(text);
    }
    if let Some(i) = ev.remove_sequence {
        let gone: Sequence<K> = sequences.remove(i);
        description = Some(around("Delete sequence '", gone.name.as_str(), "'"));
    }
    let ghost list = without_sequence(old(sequences)@, *ev);
    proof {
        assert(sequences@ == list);
    }
    if let Some(p) = ev.remove_step {
        if p.sequence < sequences.len() {
            if p.step < sequences[p.sequence].steps.len() {
                let _gone = sequences[p.sequence].steps.remove(p.step);
                let at: String = decimal(p.step);
                description = Some(
                    around_two(
                        "Remove step ",
                        at.as_str(),
                        " from sequence '",
                        sequences[p.sequence].name.as_str(),
                        "'",
                    ),
                );
            }
        }
    }
    let ghost cut = sequences@;
    proof {
        assert(cut.len() == list.len());
        assert forall|i: int| 0 <= i < list.len() implies {
            &&& (#[trigger] cut[i]).name == list[i].name
            &&& cut[i].steps@ == (if removes_step(list, *ev) && ev.remove_step->0.sequence == i {
                list[i].steps@.remove(ev.remove_step->0.step as int)
            } else {
                list[i].steps@
            })
        } by {}
    }
    if let Some(p) = &ev.add_step {
        if p.sequence < sequences.len() {
            sequences[p.sequence].steps.push(
                SequenceStep { pose_name: p.pose.clone(), duration: STEP_DURATION, kind },
            );
            description = Some(
                around_two(
                    "Add step '",
                    p.pose.as_str(),
                    "' to sequence '",
                    sequences[p.sequence].name.as_str(),
                    "'",
                ),
            );
            proof {
                let i = p.sequence as int;
                assert(sequences@[i].steps@.drop_last() =~= cut[i].steps@);
            }
        }
    }
    proof {
        assert forall|i: int| 0 <= i < list.len() implies is_stepped(
            #[trigger] sequences@[i],
            list[i],
            i,
            list,
            *ev,
            kind,
        ) by {
            assert(cut[i].name == list[i].name);
        }
    }
    description
}

/// The pose picked for the next step of a sequence is used up: the field is
/// cleared. Nothing is added while none is picked.
pub fn take_step(field: &mut String, si: usize) -> (r: Option<StepOf>)
    ensures
        r is Some <==> old(field)@.len() > 0,
        r matches Some(p) ==> p.sequence == si && p.pose@ == old(field)@,
        final(field)@.len() == 0,
{
    if field.as_str().is_empty() {
        proof {
            assert(field@.len() == 0);
        }
        return None;
    }
    let picked: String = field.clone();
    *field = String::new();
    Some(StepOf { sequence: si, pose: picked })
}

/// Whether a sequence can be played: a simulation runs, and it has steps.
pub fn can_play<K>(sequence: &Sequence<K>, running: bool) -> (r: bool)
    ensures
        r == (running && sequence.steps@.len() > 0),
{
    running && sequence.steps.len() > 0
}

/// The head of a sequence in the list.
pub fn sequence_label<K>(sequence: &Sequence<K>) -> (r: String)
    ensures
        r@ == "\u{25b6} "@ + sequence.name@ + "  ("@ + crate::text::decimal_of(
            sequence.steps@.len(),
        ) + " steps)"@,
{
    let count: String = decimal(sequence.steps.len());
    around_two("\u{25b6} ", sequence.name.as_str(), "  (", count.as_str(), " steps)")
}

/// Every step of the sequence names a pose that there is.
pub open spec fn poses_known<A, K>(sequence: Sequence<K>, poses: Seq<NamedPose<A, K>>) -> bool {
    forall|i: int|
        0 <= i < sequence.steps@.len() ==> !no_pose(
            poses,
            (#[trigger] sequence.steps@[i]).pose_name@,
        )
}

/// Whether every step of a sequence names a pose that there is.
pub fn all_poses_known<A, K>(sequence: &Sequence<K>, poses: &Vec<NamedPose<A, K>>) -> (r: bool)
    ensures
        r == poses_known(*sequence, poses@),
{
    let mut i: usize = 0;
    while i < sequence.steps.len()
        invariant
            i <= sequence.steps.len(),
            forall|k: int|
                0 <= k < i ==> !no_pose(poses@, (#[trigger] sequence.steps@[k]).pose_name@),
        decreases sequence.steps.len() - i,
    {
        match find_pose(poses, sequence.steps[i].pose_name.as_str()) {
            Some(at) => {
                proof {
                    assert(poses@[at as int].name@ == sequence.steps@[i as int].pose_name@);
                }
            },
            None => {
                return false;
            },
        }
        i += 1;
    }
    true
}

/// What the status line says when a sequence is to be played, and whether the
/// simulation goes on. `built` is whether the sequence could be turned into an
/// animation, `running` whether there is a simulation to play it.
pub fn play_sequence(name: &str, built: bool, running: bool) -> (r: (Option<String>, bool))
    ensures
        crate::editor::properties::told(r.0) == (if !built {
            Some("Sequence '"@ + name@ + "' references missing pose(s)"@)
        } else if running {
            Some("Playing sequence '"@ + name@ + "'"@)
        } else {
            None
        }),
        r.1 == (built && running),
{
    if !built {
        (Some(around("Sequence '", name, "' references missing pose(s)")), false)
    } else if running {
        (Some(around("Playing sequence '", name, "'")), true)
    } else {
        (None, false)
    }
}

/// Of what was done to the poses in one frame the applied one is told before the deleted one,
/// that before the edited one, and each by its own name.
pub proof fn law_poses_are_told<A, K>(
    poses: Seq<NamedPose<A, K>>,
    ev: PoseEvents,
    so_far: Option<Seq<char>>,
    i: usize,
)
    requires
        i < poses.len(),
    ensures
        ev.apply == Some(i) && ev.remove is None ==> poses_description(poses, ev, so_far) == Some(
            "Apply pose '"@ + poses[i as int].name@ + "'"@,
        ),
        ev.apply is None && ev.remove == Some(i) ==> poses_description(poses, ev, so_far) == Some(
            "Delete pose '"@ + poses[i as int].name@ + "'"@,
        ),
        ev.apply is None && ev.remove is None && ev.edited == Some(i) ==> poses_description(
            poses,
            ev,
            so_far,
        ) == Some("Edit pose defaults '"@ + poses[i as int].name@ + "'"@),
        ev.apply is None && ev.remove is None && ev.edited is None ==> poses_description(
            poses,
            ev,
            so_far,
        ) == so_far,
        ev.apply == Some(i) && (ev.remove matches Some(k) && k <= i) && i + 1 < poses.len()
            ==> poses_description(poses, ev, so_far) == Some(
            "Apply pose '"@ + poses[i + 1].name@ + "'"@,
        ),
{
}

/// A step that is taken out leaves the others in order, and one that is added comes last, of a
/// second and of the named pose; the other sequences stay as they are.
pub proof fn law_steps_come_and_go<K>(
    now: Sequence<K>,
    was: Sequence<K>,
    i: int,
    list: Seq<Sequence<K>>,
    ev: SequenceEvents,
    kind: K,
    k: int,
)
    requires
        is_stepped(now, was, i, list, ev, kind),
        0 <= i < list.len(),
        list[i] == was,
        0 <= k < was.steps@.len(),
    ensures
        now.name == was.name,
        ev.remove_step is None && ev.add_step is None ==> now.steps@ == was.steps@,
        (ev.remove_step matches Some(p) ==> p.sequence != i) && (ev.add_step matches Some(p)
            ==> p.sequence != i) ==> now.steps@ == was.steps@,
        (ev.remove_step matches Some(p) && p.sequence == i && k < p.step) ==> now.steps@[k]
            == was.steps@[k],
        (ev.remove_step matches Some(p) && p.sequence == i && p.step < k) ==> now.steps@[k - 1]
            == was.steps@[k],
        ev.remove_step is None ==> now.steps@[k] == was.steps@[k],
        (ev.remove_step is None && (ev.add_step matches Some(p) && p.sequence == i)) ==> {
            &&& now.steps@.len() == was.steps@.len() + 1
            &&& now.steps@.last().pose_name@ == ev.add_step->0.pose@
            &&& now.steps@.last().duration == 1_000_000
            &&& now.steps@.last().kind == kind
        },
{
    let cut = if removes_step(list, ev) && ev.remove_step->0.sequence == i {
        was.steps@.remove(ev.remove_step->0.step as int)
    } else {
        was.steps@
    };
    if adds_step(list, ev) && ev.add_step->0.sequence == i {
        assert forall|j: int| 0 <= j < cut.len() implies now.steps@[j] == cut[j] by {
            assert(now.steps@.drop_last()[j] == now.steps@[j]);
        }
    }
    if removes_step(list, ev) && ev.remove_step->0.sequence == i {
        let step = ev.remove_step->0.step as int;
        if k < step {
            assert(cut[k] == was.steps@[k]);
            assert(now.steps@[k] == cut[k]);
        }
        if step < k {
            assert(cut[k - 1] == was.steps@[k]);
            assert(now.steps@[k - 1] == cut[k - 1]);
        }
    }
}

/// Of what was done to the sequences in one frame the added step is told first, then the step
/// that was taken out, the deleted sequence and the edited step.
pub proof fn law_sequences_are_told<K>(
    was: Seq<Sequence<K>>,
    ev: SequenceEvents,
    so_far: Option<Seq<char>>,
    i: usize,
)
    requires
        i < was.len(),
    ensures
        ev.remove_sequence is None && (ev.add_step matches Some(p) && p.sequence == i)
            ==> sequences_description(was, ev, so_far) == Some(
            "Add step '"@ + ev.add_step->0.pose@ + "' to sequence '"@ + was[i as int].name@ + "'"@,
        ),
        ev.remove_sequence is None && ev.add_step is None && (ev.remove_step matches Some(p)
            && p.sequence == i && p.step < was[i as int].steps@.len()) ==> sequences_description(
            was,
            ev,
            so_far,
        ) == Some(
            "Remove step "@ + crate::text::decimal_of(ev.remove_step->0.step as nat)
                + " from sequence '"@ + was[i as int].name@ + "'"@,
        ),
        ev.remove_sequence == Some(i) && ev.add_step is None && ev.remove_step is None
            ==> sequences_description(was, ev, so_far) == Some(
            "Delete sequence '"@ + was[i as int].name@ + "'"@,
        ),
        ev.remove_sequence is None && ev.add_step is None && ev.remove_step is None && (
        ev.edited matches Some(p) && p.sequence == i) ==> sequences_description(was, ev, so_far)
            == Some(
            "Edit sequence '"@ + was[i as int].name@ + "' step "@ + crate::text::decimal_of(
                ev.edited->0.step as nat,
            ),
        ),
        ev.remove_sequence is None && ev.add_step is None && ev.remove_step is None && ev.edited
            is None ==> sequences_description(was, ev, so_far) == so_far,
{
}

} // verus!
