//! Editing the shapes of a link.

use vstd::prelude::*;
use vstd::string::*;

use crate::editor::edit::Edit;
use crate::robot::{CollisionData, Color, GeomData, LinkData, Placement, VisualData};
use crate::text::{around, around_two, decimal};

verus! {

/// No dimension is dragged below a millimetre.
pub const MIN_DIM: i64 = 1_000_000;

/// Which of a link's two shape lists.
#[derive(Clone, Copy, PartialEq, Eq, Structural, Debug)]
pub enum ShapeList {
    Visual,
    Collision,
}

impl ShapeList {
    /// How descriptions call a shape of the list.
    pub open spec fn word_of(self) -> Seq<char> {
        match self {
            ShapeList::Visual => "visual"@,
            ShapeList::Collision => "collision"@,
        }
    }

    pub fn word(self) -> (r: &'static str)
        ensures
            r@ == self.word_of(),
    {
        match self {
            ShapeList::Visual => "visual",
            ShapeList::Collision => "collision",
        }
    }
}

// ---------------------------------------------------------------- dimensions

/// The dimensions of a shape that a drag starts from; unused places are zero.
pub open spec fn dimensions(geom: GeomData) -> Seq<i64> {
    match geom {
        GeomData::Box { hx, hy, hz } => seq![hx, hy, hz],
        GeomData::Cylinder { radius, half_length } => seq![radius, half_length, 0],
        GeomData::Sphere { radius } => seq![radius, 0, 0],
        GeomData::Capsule { radius, half_length } => seq![radius, half_length, 0],
        GeomData::Mesh { .. } => seq![0, 0, 0],
    }
}

/// The dimensions of a shape that a drag starts from.
pub fn geom_params(geom: &GeomData) -> (r: [i64; 3])
    ensures
        r@ == dimensions(*geom),
{
    let r: [i64; 3] = match geom {
        GeomData::Box { hx, hy, hz } => [*hx, *hy, *hz],
        GeomData::Cylinder { radius, half_length } => [*radius, *half_length, 0],
        GeomData::Sphere { radius } => [*radius, 0, 0],
        GeomData::Capsule { radius, half_length } => [*radius, *half_length, 0],
        GeomData::Mesh { .. } => [0, 0, 0],
    };
    proof {
        assert(r@ =~= dimensions(*geom));
    }
    r
}

/// A dimension after a drag.
pub open spec fn dragged(initial: int, delta: int) -> int {
    if initial + delta > MIN_DIM {
        initial + delta
    } else {
        MIN_DIM as int
    }
}

/// Which dimension of a shape an axis drags; a mesh has none.
pub open spec fn dragged_dimension(geom: GeomData, axis: u8) -> Option<int> {
    match geom {
        GeomData::Box { .. } => if axis == 0 {
            Some(0)
        } else if axis == 1 {
            Some(1)
        } else {
            Some(2)
        },
        GeomData::Cylinder { .. } | GeomData::Capsule { .. } => if axis <= 1 {
            Some(0)
        } else {
            Some(1)
        },
        GeomData::Sphere { .. } => Some(0),
        GeomData::Mesh { .. } => None,
    }
}

/// The same kind of shape.
pub open spec fn same_kind(a: GeomData, b: GeomData) -> bool {
    match a {
        GeomData::Box { .. } => b is Box,
        GeomData::Cylinder { .. } => b is Cylinder,
        GeomData::Sphere { .. } => b is Sphere,
        GeomData::Capsule { .. } => b is Capsule,
        GeomData::Mesh { .. } => a == b,
    }
}

fn clamp_dim(initial: i64, delta: i64) -> (r: i64)
    requires
        i64::MIN <= initial + delta <= i64::MAX,
    ensures
        r == dragged(initial as int, delta as int),
{
    let sum: i64 = initial + delta;
    if sum > MIN_DIM {
        sum
    } else {
        MIN_DIM
    }
}

/// The shape after a drag along one of its axes.
pub open spec fn is_scaled(
    now: GeomData,
    was: GeomData,
    axis: u8,
    initial: Seq<i64>,
    delta: int,
) -> bool {
    &&& same_kind(was, now)
    &&& match dragged_dimension(was, axis) {
        Some(d) => {
            &&& dimensions(now)[d] == dragged(initial[d] as int, delta)
            &&& forall|k: int| 0 <= k < 3 && k != d ==> #[trigger] dimensions(now)[k] == dimensions(was)[k]
        },
        None => true,
    }
}

/// Drags one dimension of a shape: `initial` are its dimensions when the drag
/// began, `delta` how far it has gone.
pub fn apply_geom_scale(geom: &mut GeomData, axis: u8, initial: &[i64; 3], delta: i64)
    requires
        forall|k: int| 0 <= k < 3 ==> i64::MIN <= #[trigger] initial@[k] + delta <= i64::MAX,
    ensures
        is_scaled(*final(geom), *old(geom), axis, initial@, delta as int),
{
    proof {
        assert(initial@[0] + delta <= i64::MAX);
        assert(initial@[1] + delta <= i64::MAX);
        assert(initial@[2] + delta <= i64::MAX);
    }
    match geom {
        GeomData::Box { hx, hy, hz } => {
            if axis == 0 {
                *hx = clamp_dim(initial[0], delta);
            } else if axis == 1 {
                *hy = clamp_dim(initial[1], delta);
            } else {
                *hz = clamp_dim(initial[2], delta);
            }
        },
        GeomData::Cylinder { radius, half_length } => {
            if axis <= 1 {
                *radius = clamp_dim(initial[0], delta);
            } else {
                *half_length = clamp_dim(initial[1], delta);
            }
        },
        GeomData::Sphere { radius } => {
            *radius = clamp_dim(initial[0], delta);
        },
        GeomData::Capsule { radius, half_length } => {
            if axis <= 1 {
                *radius = clamp_dim(initial[0], delta);
            } else {
                *half_length = clamp_dim(initial[1], delta);
            }
        },
        GeomData::Mesh { .. } => {},
    }
}

/// A dragged shape never gets thinner than the smallest dimension.
pub proof fn law_dragged_dimension_is_solid(
    now: GeomData,
    was: GeomData,
    axis: u8,
    initial: Seq<i64>,
    delta: int,
)
    requires
        is_scaled(now, was, axis, initial, delta),
        dragged_dimension(was, axis) is Some,
    ensures
        dimensions(now)[dragged_dimension(was, axis)->0] >= MIN_DIM,
{
}

// ---------------------------------------------------------------- new shapes

/// The shapes that the menus add.
#[derive(Clone, Copy, PartialEq, Eq, Structural, Debug)]
pub enum NewShape {
    Box,
    Cylinder,
    Sphere,
    Capsule,
}

impl NewShape {
    /// The shape as it is added.
    pub open spec fn shape(self) -> GeomData {
        match self {
            NewShape::Box => GeomData::Box { hx: 50_000_000, hy: 50_000_000, hz: 50_000_000 },
            NewShape::Cylinder => GeomData::Cylinder {
                radius: 20_000_000,
                half_length: 100_000_000,
            },
            NewShape::Sphere => GeomData::Sphere { radius: 50_000_000 },
            NewShape::Capsule => GeomData::Capsule { radius: 20_000_000, half_length: 100_000_000 },
        }
    }

    pub fn geometry(self) -> (r: GeomData)
        ensures
            r == self.shape(),
    {
        match self {
            NewShape::Box => GeomData::Box { hx: 50_000_000, hy: 50_000_000, hz: 50_000_000 },
            NewShape::Cylinder => GeomData::Cylinder {
                radius: 20_000_000,
                half_length: 100_000_000,
            },
            NewShape::Sphere => GeomData::Sphere { radius: 50_000_000 },
            NewShape::Capsule => GeomData::Capsule { radius: 20_000_000, half_length: 100_000_000 },
        }
    }
}

/// The placement without displacement or turn.
pub open spec fn no_offset() -> Placement {
    Placement {
        translation: crate::robot::Vec3 { x: 0, y: 0, z: 0 },
        rotation: crate::robot::Quat { i: 0, j: 0, k: 0, w: 1_000_000_000 },
    }
}

/// A drawn shape as it is added: grey, at the link's origin.
pub open spec fn new_visual(shape: NewShape) -> VisualData {
    VisualData {
        origin: no_offset(),
        geometry: shape.shape(),
        color: Color { r: 700, g: 700, b: 700, a: 1000 },
    }
}

/// A collision shape as it is added: at the link's origin.
pub open spec fn new_collision(shape: NewShape) -> CollisionData {
    CollisionData { origin: no_offset(), geometry: shape.shape() }
}

/// Adds a shape to the visuals.
pub fn add_visual(link: &mut LinkData, shape: NewShape, edit: &mut Edit)
    ensures
        final(link).visuals@ == old(link).visuals@.push(new_visual(shape)),
        *final(link) == (LinkData { visuals: final(link).visuals, ..*old(link) }),
        final(edit).says("Add visual to '"@ + old(link).name@ + "'"@),
        final(edit).needs_upload,
        final(edit).rebuild == old(edit).rebuild,
{
    link.visuals.push(
        VisualData {
            origin: Placement::identity(),
            geometry: shape.geometry(),
            color: Color { r: 700, g: 700, b: 700, a: 1000 },
        },
    );
    edit.describe(around("Add visual to '", link.name.as_str(), "'"));
    edit.needs_upload = true;
}

/// Adds a shape to the collision shapes.
pub fn add_collision(link: &mut LinkData, shape: NewShape, edit: &mut Edit)
    ensures
        final(link).collisions@ == old(link).collisions@.push(new_collision(shape)),
        *final(link) == (LinkData { collisions: final(link).collisions, ..*old(link) }),
        final(edit).says("Add collision to '"@ + old(link).name@ + "'"@),
        final(edit).needs_upload,
        final(edit).rebuild == old(edit).rebuild,
{
    link.collisions.push(
        CollisionData { origin: Placement::identity(), geometry: shape.geometry() },
    );
    edit.describe(around("Add collision to '", link.name.as_str(), "'"));
    edit.needs_upload = true;
}

/// The collision shapes that copy the visuals.
pub open spec fn copied(visuals: Seq<VisualData>) -> Seq<CollisionData> {
    visuals.map_values(
        |v: VisualData| CollisionData { origin: v.origin, geometry: v.geometry },
    )
}

/// Replaces the collision shapes with the visual ones. A link without visuals
/// keeps what it has.
pub fn copy_visuals(link: &mut LinkData, edit: &mut Edit) -> (done: bool)
    ensures
        done == (old(link).visuals@.len() > 0),
        !done ==> *final(link) == *old(link) && *final(edit) == *old(edit),
        done ==> {
            &&& final(link).collisions@ == copied(old(link).visuals@)
            &&& *final(link) == (LinkData { collisions: final(link).collisions, ..*old(link) })
            &&& final(edit).says(
                "Copy visuals \u{2192} collisions for '"@ + old(link).name@ + "'"@,
            )
            &&& final(edit).needs_upload
            &&& final(edit).rebuild == old(edit).rebuild
        },
{
    if link.visuals.len() == 0 {
        return false;
    }
    let mut out: Vec<CollisionData> = Vec::new();
    let mut k: usize = 0;
    while k < link.visuals.len()
        invariant
            k <= link.visuals.len(),
            out@ == copied(link.visuals@).take(k as int),
        decreases link.visuals.len() - k,
    {
        out.push(
            CollisionData {
                origin: link.visuals[k].origin,
                geometry: link.visuals[k].geometry.duplicate(),
            },
        );
        proof {
            assert(out@ =~= copied(link.visuals@).take(k + 1));
        }
        k += 1;
    }
    proof {
        assert(out@ =~= copied(link.visuals@));
    }
    link.collisions = out;
    edit.describe(around("Copy visuals \u{2192} collisions for '", link.name.as_str(), "'"));
    edit.needs_upload = true;
    true
}

// ---------------------------------------------------------------- list edits

/// A mesh was reduced this frame: the button's label and the method's name.
pub struct Reduction {
    pub label: String,
    pub method: String,
}

/// What the user did to one of a link's shape lists this frame. Shapes edited in
/// place are already changed.
pub struct ShapeEdits {
    pub changed: bool,
    pub reduced: Option<Reduction>,
    pub duplicate: Option<usize>,
    pub remove: Option<usize>,
}

/// A list after its deferred changes: first the duplication, then the removal.
pub open spec fn edited<T>(list: Seq<T>, duplicate: Option<usize>, remove: Option<usize>) -> Seq<T> {
    let first = match duplicate {
        Some(i) => list.insert(i + 1, list[i as int]),
        None => list,
    };
    match remove {
        Some(i) => first.remove(i as int),
        None => first,
    }
}

impl ShapeEdits {
    /// Anything happened to the list.
    pub open spec fn any(&self) -> bool {
        self.changed || self.reduced is Some || self.duplicate is Some || self.remove is Some
    }

    /// The indices are those of a list of length `n`.
    pub open spec fn fits(&self, n: nat) -> bool {
        &&& self.duplicate matches Some(i) ==> i < n && n < usize::MAX
        &&& self.remove matches Some(i) ==> i < (if self.duplicate is Some {
            n + 1
        } else {
            n
        })
    }

    /// The description of the edit, given what the frame was described as so far.
    pub open spec fn description(&self, list: ShapeList, link: Seq<char>, so_far: Option<Seq<char>>) -> Option<
        Seq<char>,
    > {
        if self.remove is Some {
            Some("Remove "@ + list.word_of() + " from '"@ + link + "'"@)
        } else if self.duplicate is Some {
            Some("Duplicate "@ + list.word_of() + " of '"@ + link + "'"@)
        } else if self.reduced is Some {
            Some(
                "Reduce "@ + list.word_of() + " mesh of '"@ + link + "' to "@ + (
                self.reduced->0.label@ + " ("@ + self.reduced->0.method@ + ")"@),
            )
        } else if self.changed && so_far is None {
            Some("Edit "@ + list.word_of() + " of '"@ + link + "'"@)
        } else {
            so_far
        }
    }

    /// Describes the edit.
    fn describe(&self, list: ShapeList, link: &str, edit: &mut Edit)
        ensures
            final(edit).text() == self.description(list, link@, old(edit).text()),
            final(edit).needs_upload == (old(edit).needs_upload || self.any()),
            final(edit).rebuild == old(edit).rebuild,
    {
        if self.changed || self.reduced.is_some() || self.duplicate.is_some()
            || self.remove.is_some() {
            edit.needs_upload = true;
        }
        if self.remove.is_some() {
            edit.describe(around_two("Remove ", list.word(), " from '", link, "'"));
        } else if self.duplicate.is_some() {
            edit.describe(around_two("Duplicate ", list.word(), " of '", link, "'"));
        } else {
            match &self.reduced {
                Some(red) => {
                    let how: String = around_two(
                        "",
                        red.label.as_str(),
                        " (",
                        red.method.as_str(),
                        ")",
                    );
                    proof {
                        reveal_strlit("");
                        assert(how@ =~= red.label@ + " ("@ + red.method@ + ")"@);
                    }
                    let mut text: String = around_two(
                        "Reduce ",
                        list.word(),
                        " mesh of '",
                        link,
                        "' to ",
                    );
                    text.append(how.as_str());
                    edit.describe(text);
                },
                None => {
                    if self.changed && edit.description.is_none() {
                        edit.describe(around_two("Edit ", list.word(), " of '", link, "'"));
                    }
                },
            }
        }
    }
}

/// Carries out the deferred changes of the visuals and describes the edit.
pub fn edit_visuals(link: &mut LinkData, edits: &ShapeEdits, edit: &mut Edit)
    requires
        edits.fits(old(link).visuals@.len()),
    ensures
        final(link).visuals@ == edited(old(link).visuals@, edits.duplicate, edits.remove),
        *final(link) == (LinkData { visuals: final(link).visuals, ..*old(link) }),
        final(edit).text() == edits.description(
            ShapeList::Visual,
            old(link).name@,
            old(edit).text(),
        ),
        final(edit).needs_upload == (old(edit).needs_upload || edits.any()),
        final(edit).rebuild == old(edit).rebuild,
{
    if let Some(i) = edits.duplicate {
        let copy: VisualData = link.visuals[i].duplicate();
        link.visuals.insert(i + 1, copy);
    }
    if let Some(i) = edits.remove {
        let _gone = link.visuals.remove(i);
    }
    edits.describe(ShapeList::Visual, link.name.as_str(), edit);
}

/// The decomposition of a collision mesh: which shape, and what takes its place.
pub struct Decomposition {
    pub index: usize,
    pub shapes: Vec<CollisionData>,
}

/// A list with one entry replaced by others.
pub open spec fn replaced<T>(list: Seq<T>, at: int, with: Seq<T>) -> Seq<T> {
    list.take(at) + with + list.skip(at + 1)
}

/// Carries out the deferred changes of the collision shapes and describes the
/// edit.
pub fn edit_collisions(link: &mut LinkData, edits: &ShapeEdits, edit: &mut Edit)
    requires
        edits.fits(old(link).collisions@.len()),
    ensures
        final(link).collisions@ == edited(old(link).collisions@, edits.duplicate, edits.remove),
        *final(link) == (LinkData { collisions: final(link).collisions, ..*old(link) }),
        final(edit).text() == edits.description(
            ShapeList::Collision,
            old(link).name@,
            old(edit).text(),
        ),
        final(edit).needs_upload == (old(edit).needs_upload || edits.any()),
        final(edit).rebuild == old(edit).rebuild,
{
    if let Some(i) = edits.duplicate {
        let copy: CollisionData = link.collisions[i].duplicate();
        link.collisions.insert(i + 1, copy);
    }
    if let Some(i) = edits.remove {
        let _gone = link.collisions.remove(i);
    }
    edits.describe(ShapeList::Collision, link.name.as_str(), edit);
}

/// Replaces a collision mesh by the shapes it was decomposed into.
pub fn decompose_collision(link: &mut LinkData, d: Decomposition, edit: &mut Edit)
    requires
        d.index < old(link).collisions@.len(),
        old(link).collisions@.len() + d.shapes@.len() <= usize::MAX,
    ensures
        final(link).collisions@ == replaced(old(link).collisions@, d.index as int, d.shapes@),
        *final(link) == (LinkData { collisions: final(link).collisions, ..*old(link) }),
        final(edit).says(
            "Decompose collision of '"@ + old(link).name@ + "' into "@ + crate::text::decimal_of(
                d.shapes@.len(),
            ) + " shapes"@,
        ),
        final(edit).needs_upload,
        final(edit).rebuild == old(edit).rebuild,
{
    let n: usize = d.shapes.len();
    let at: usize = d.index;
    let _mesh = link.collisions.remove(at);
    let ghost was = old(link).collisions@;
    let ghost all = d.shapes@;
    let mut shapes: Vec<CollisionData> = d.shapes;
    let mut left: usize = n;
    proof {
        assert(link.collisions@ =~= was.take(at as int) + all.skip(n as int) + was.skip(at + 1));
    }
    while left > 0
        invariant
            left <= n,
            n == all.len(),
            at < was.len(),
            was.len() + n <= usize::MAX,
            shapes@ == all.take(left as int),
            link.collisions@ == was.take(at as int) + all.skip(left as int) + was.skip(at + 1),
            *link == (LinkData { collisions: link.collisions, ..*old(link) }),
        decreases left,
    {
        let last: Option<CollisionData> = shapes.pop();
        if let Some(c) = last {
            let ghost before = link.collisions@;
            link.collisions.insert(at, c);
            proof {
                assert(c == all[left - 1]);
                assert(shapes@ =~= all.take(left - 1));
                assert(link.collisions@ =~= was.take(at as int) + all.skip(left - 1) + was.skip(
                    at + 1,
                ));
            }
        }
        left -= 1;
    }
    proof {
        assert(all.skip(0) =~= all);
    }
    let count: String = decimal(n);
    edit.describe(
        around_two(
            "Decompose collision of '",
            link.name.as_str(),
            "' into ",
            count.as_str(),
            " shapes",
        ),
    );
    edit.needs_upload = true;
}

/// Duplicating a shape and removing the copy leaves the list as it was.
pub proof fn law_duplicate_then_remove<T>(list: Seq<T>, i: usize)
    requires
        i < list.len(),
        i < usize::MAX,
    ensures
        edited(list, Some(i), Some((i + 1) as usize)) == list,
{
    assert(edited(list, Some(i), Some((i + 1) as usize)) =~= list);
}

// ---------------------------------------------------------------- meshes

/// Numbers per triangle of a flat vertex list: three corners, each with a
/// position and a normal.
pub const FLOATS_PER_TRIANGLE: usize = 18;

/// How many triangles a mesh has.
pub fn triangle_count(floats: usize) -> (r: usize)
    ensures
        r == floats / 18,
{
    floats / FLOATS_PER_TRIANGLE
}

/// Whether a mesh is worth reducing or decomposing.
pub fn can_reduce(floats: usize) -> (r: bool)
    ensures
        r == (floats / 18 > 4),
{
    triangle_count(floats) > 4
}

/// What a mesh is called in the list: its triangles, and its file.
pub fn mesh_label(floats: usize, filename: &Option<String>) -> (r: String)
    ensures
        r@ == "Mesh: "@ + crate::text::decimal_of((floats / 18) as nat) + " tris \u{2014} "@ + (
        match *filename {
            Some(f) => f@,
            None => "(inline)"@,
        }),
{
    let count: String = decimal(triangle_count(floats));
    let mut text: String = around("Mesh: ", count.as_str(), " tris \u{2014} ");
    match filename {
        Some(f) => text.append(f.as_str()),
        None => text.append("(inline)"),
    }
    text
}

/// A dragged dimension is what it was when the drag began plus the way, but at least a
/// millimetre; boxes are dragged along each axis, round shapes in their radius across and in
/// their length along, spheres in their radius, and meshes not at all.
pub proof fn law_drag_scales_its_dimension(
    now: GeomData,
    was: GeomData,
    axis: u8,
    initial: Seq<i64>,
    delta: int,
)
    requires
        is_scaled(now, was, axis, initial, delta),
        initial.len() == 3,
    ensures
        was is Mesh ==> now == was,
        was is Box ==> now is Box && {
            let (a, b) = (dimensions(now), dimensions(was));
            let at: int = if axis < 2 {
                axis as int
            } else {
                2
            };
            &&& a[at] >= 1_000_000
            &&& initial[at] + delta >= 1_000_000 ==> a[at] == initial[at] + delta
            &&& forall|k: int| 0 <= k < 3 && k != at ==> #[trigger] a[k] == b[k]
        },
        was matches GeomData::Cylinder { radius: r0, half_length: l0 } ==> (now matches
            GeomData::Cylinder { radius: r1, half_length: l1 } && {
            &&& axis <= 1 ==> l1 == l0 && r1 >= 1_000_000 && (initial[0] + delta >= 1_000_000
                ==> r1 == initial[0] + delta)
            &&& axis > 1 ==> r1 == r0 && l1 >= 1_000_000 && (initial[1] + delta >= 1_000_000
                ==> l1 == initial[1] + delta)
        }),
        was matches GeomData::Capsule { radius: r0, half_length: l0 } ==> (now matches
            GeomData::Capsule { radius: r1, half_length: l1 } && {
            &&& axis <= 1 ==> l1 == l0 && r1 >= 1_000_000 && (initial[0] + delta >= 1_000_000
                ==> r1 == initial[0] + delta)
            &&& axis > 1 ==> r1 == r0 && l1 >= 1_000_000 && (initial[1] + delta >= 1_000_000
                ==> l1 == initial[1] + delta)
        }),
        was is Sphere ==> (now matches GeomData::Sphere { radius: r1 } && r1 >= 1_000_000 && (
        initial[0] + delta >= 1_000_000 ==> r1 == initial[0] + delta)),
{
    if !(was is Mesh) {
        let d = dragged_dimension(was, axis)->0;
        assert(dimensions(now)[d] == dragged(initial[d] as int, delta));
        assert(forall|k: int|
            0 <= k < 3 && k != d ==> #[trigger] dimensions(now)[k] == dimensions(was)[k]);
        assert(d != 0 ==> dimensions(now)[0] == dimensions(was)[0]);
        assert(d != 1 ==> dimensions(now)[1] == dimensions(was)[1]);
    }
}

/// A new shape stands in the frame of its link, a tenth of a metre wide or twice as long, and
/// is grey where it is seen.
pub proof fn law_new_shapes(shape: NewShape)
    ensures
        new_visual(shape).geometry == new_collision(shape).geometry,
        new_visual(shape).origin == new_collision(shape).origin,
        new_visual(shape).origin.translation == (crate::robot::Vec3 { x: 0, y: 0, z: 0 }),
        new_visual(shape).origin.rotation == (crate::robot::Quat {
            i: 0,
            j: 0,
            k: 0,
            w: 1_000_000_000,
        }),
        new_visual(shape).color == (Color { r: 700, g: 700, b: 700, a: 1000 }),
        new_visual(NewShape::Box).geometry == (GeomData::Box {
            hx: 50_000_000,
            hy: 50_000_000,
            hz: 50_000_000,
        }),
        new_visual(NewShape::Sphere).geometry == (GeomData::Sphere { radius: 50_000_000 }),
        new_visual(NewShape::Cylinder).geometry == (GeomData::Cylinder {
            radius: 20_000_000,
            half_length: 100_000_000,
        }),
        new_visual(NewShape::Capsule).geometry == (GeomData::Capsule {
            radius: 20_000_000,
            half_length: 100_000_000,
        }),
{
}

/// A duplicate stands right behind its shape, and one that is taken out is missed alone.
pub proof fn law_shapes_come_and_go<T>(list: Seq<T>, i: usize, k: int)
    requires
        i < list.len(),
        0 <= k < list.len(),
    ensures
        edited(list, Some(i), None).len() == list.len() + 1,
        edited(list, Some(i), None)[i + 1] == list[i as int],
        k <= i ==> edited(list, Some(i), None)[k] == list[k],
        k > i ==> edited(list, Some(i), None)[k + 1] == list[k],
        edited(list, None, Some(i)).len() == list.len() - 1,
        k < i ==> edited(list, None, Some(i))[k] == list[k],
        k > i ==> edited(list, None, Some(i))[k - 1] == list[k],
        edited(list, None, None) == list,
{
}

/// A copied visual collides where it is seen, with the shape that is seen.
pub proof fn law_visuals_collide_as_they_look(visuals: Seq<VisualData>, i: int)
    requires
        0 <= i < visuals.len(),
    ensures
        copied(visuals).len() == visuals.len(),
        copied(visuals)[i].origin == visuals[i].origin,
        copied(visuals)[i].geometry == visuals[i].geometry,
{
}

/// What replaces a shape stands in its place, between what was before and behind it.
pub proof fn law_replaced_in_its_place<T>(list: Seq<T>, at: int, with: Seq<T>, k: int)
    requires
        0 <= at < list.len(),
    ensures
        replaced(list, at, with).len() == list.len() - 1 + with.len(),
        0 <= k < at ==> replaced(list, at, with)[k] == list[k],
        0 <= k < with.len() ==> replaced(list, at, with)[at + k] == with[k],
        at < k < list.len() ==> replaced(list, at, with)[k - 1 + with.len()] == list[k],
{
}

/// A removed shape is told before a duplicated one, that before a reduced one; a mere change is
/// told where nothing else was.
pub proof fn law_edits_are_told(
    e: ShapeEdits,
    list: ShapeList,
    link: Seq<char>,
    so_far: Option<Seq<char>>,
)
    ensures
        ShapeList::Visual.word_of() == "visual"@,
        ShapeList::Collision.word_of() == "collision"@,
        e.remove is Some ==> e.description(list, link, so_far) == Some(
            "Remove "@ + list.word_of() + " from '"@ + link + "'"@,
        ),
        e.remove is None && e.duplicate is Some ==> e.description(list, link, so_far) == Some(
            "Duplicate "@ + list.word_of() + " of '"@ + link + "'"@,
        ),
        e.remove is None && e.duplicate is None && e.reduced is Some ==> e.description(
            list,
            link,
            so_far,
        ) == Some(
            "Reduce "@ + list.word_of() + " mesh of '"@ + link + "' to "@ + (e.reduced->0.label@
                + " ("@ + e.reduced->0.method@ + ")"@),
        ),
        e.remove is None && e.duplicate is None && e.reduced is None && so_far is Some
            ==> e.description(list, link, so_far) == so_far,
        e.remove is None && e.duplicate is None && e.reduced is None && so_far is None
            ==> e.description(list, link, so_far) == if e.changed {
            Some("Edit "@ + list.word_of() + " of '"@ + link + "'"@)
        } else {
            None
        },
{
}

} // verus!
