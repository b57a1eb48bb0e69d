//! Self-collision results, by link and shape.

use vstd::prelude::*;

use crate::robot::RobotModel;

verus! {

/// Two shapes that touch.
#[derive(Clone, Copy, PartialEq, Eq, Structural, Debug)]
pub struct CollisionHit {
    pub link_a_idx: usize,
    pub collision_a_idx: usize,
    pub link_b_idx: usize,
    pub collision_b_idx: usize,
}

/// Two entries of the collision geometry that touch, and whether they are of neighbouring
/// links.
#[derive(Clone, Copy, PartialEq, Eq, Structural, Debug)]
pub struct GeometryPair {
    pub a: usize,
    pub b: usize,
    pub adjacent: bool,
}

/// A pair counts as a collision. Neighbours can be ignored.
pub open spec fn counts(p: GeometryPair, ignore_adjacent_links: bool) -> bool {
    !(ignore_adjacent_links && p.adjacent)
}

/// The pairs that count among the first `n`, in order.
pub open spec fn counting(
    pairs: Seq<GeometryPair>,
    ignore_adjacent_links: bool,
    n: nat,
) -> Seq<GeometryPair>
    decreases n,
{
    if n == 0 || n > pairs.len() {
        Seq::empty()
    } else {
        let before = counting(pairs, ignore_adjacent_links, (n - 1) as nat);
        if counts(pairs[n - 1], ignore_adjacent_links) {
            before.push(pairs[n - 1])
        } else {
            before
        }
    }
}

/// The touching shapes by link: of the pairs that count.
pub open spec fn collisions(
    geo_map: Seq<(usize, usize)>,
    pairs: Seq<GeometryPair>,
    ignore_adjacent_links: bool,
) -> Seq<CollisionHit> {
    let kept = counting(pairs, ignore_adjacent_links, pairs.len());
    hits(geo_map, kept, kept.len())
}

/// The robot touches itself: some pair counts.
pub open spec fn collides(pairs: Seq<GeometryPair>, ignore_adjacent_links: bool) -> bool {
    exists|i: int|
        0 <= i < pairs.len() && #[trigger] counts(pairs[i], ignore_adjacent_links)
}

/// The hit that a pair of geometry entries stands for. The map says of which
/// link, and which shape of it, each entry was made.
pub open spec fn hit_of(geo_map: Seq<(usize, usize)>, p: GeometryPair) -> Option<CollisionHit> {
    if p.a < geo_map.len() && p.b < geo_map.len() {
        Some(
            CollisionHit {
                link_a_idx: geo_map[p.a as int].0,
                collision_a_idx: geo_map[p.a as int].1,
                link_b_idx: geo_map[p.b as int].0,
                collision_b_idx: geo_map[p.b as int].1,
            },
        )
    } else {
        None
    }
}

/// The hits among the first `n` pairs, in order.
pub open spec fn hits(geo_map: Seq<(usize, usize)>, pairs: Seq<GeometryPair>, n: nat) -> Seq<
    CollisionHit,
>
    decreases n,
{
    if n == 0 || n > pairs.len() {
        Seq::empty()
    } else {
        let before = hits(geo_map, pairs, (n - 1) as nat);
        match hit_of(geo_map, pairs[n - 1]) {
            Some(h) => before.push(h),
            None => before,
        }
    }
}

/// The touching shapes by link, from the touching geometry entries. A pair that
/// names an entry outside the map is dropped.
pub fn self_collision_hits(
    geo_map: &Vec<(usize, usize)>,
    pairs: &Vec<GeometryPair>,
    ignore_adjacent_links: bool,
) -> (r: Vec<CollisionHit>)
    ensures
        r@ == collisions(geo_map@, pairs@, ignore_adjacent_links),
{
    let mut out: Vec<CollisionHit> = Vec::new();
    let ghost mut kept = Seq::<GeometryPair>::empty();
    let mut i: usize = 0;
    while i < pairs.len()
        invariant
            i <= pairs.len(),
            kept == counting(pairs@, ignore_adjacent_links, i as nat),
            out@ == hits(geo_map@, kept, kept.len()),
        decreases pairs.len() - i,
    {
        let p: GeometryPair = pairs[i];
        if !(ignore_adjacent_links && p.adjacent) {
            proof {
                lemma_hits_of_prefix(geo_map@, kept, kept.push(p), kept.len());
                kept = kept.push(p);
            }
            if p.a < geo_map.len() && p.b < geo_map.len() {
                out.push(
                    CollisionHit {
                        link_a_idx: geo_map[p.a].0,
                        collision_a_idx: geo_map[p.a].1,
                        link_b_idx: geo_map[p.b].0,
                        collision_b_idx: geo_map[p.b].1,
                    },
                );
            }
        }
        i += 1;
    }
    out
}

proof fn lemma_hits_of_prefix(
    geo_map: Seq<(usize, usize)>,
    a: Seq<GeometryPair>,
    b: Seq<GeometryPair>,
    n: nat,
)
    requires
        n <= a.len() <= b.len(),
        forall|i: int| 0 <= i < a.len() ==> #[trigger] a[i] == b[i],
    ensures
        hits(geo_map, a, n) == hits(geo_map, b, n),
    decreases n,
{
    if n > 0 {
        lemma_hits_of_prefix(geo_map, a, b, (n - 1) as nat);
    }
}

/// Whether anything touches.
pub fn has_self_collision(pairs: &Vec<GeometryPair>, ignore_adjacent_links: bool) -> (r: bool)
    ensures
        r == collides(pairs@, ignore_adjacent_links),
{
    let mut i: usize = 0;
    while i < pairs.len()
        invariant
            i <= pairs.len(),
            forall|j: int| 0 <= j < i ==> !#[trigger] counts(pairs@[j], ignore_adjacent_links),
        decreases pairs.len() - i,
    {
        if !(ignore_adjacent_links && pairs[i].adjacent) {
            proof {
                assert(counts(pairs@[i as int], ignore_adjacent_links));
            }
            return true;
        }
        i += 1;
    }
    false
}

/// Every entry of the map names a collision shape of the robot.
pub open spec fn maps_shapes(robot: RobotModel, geo_map: Seq<(usize, usize)>) -> bool {
    forall|k: int|
        0 <= k < geo_map.len() ==> {
            let (li, ci) = #[trigger] geo_map[k];
            li < robot.links.len() && ci < robot.links@[li as int].collisions.len()
        }
}

/// Every pair is of entries that the map knows.
pub open spec fn covers(geo_map: Seq<(usize, usize)>, pairs: Seq<GeometryPair>) -> bool {
    forall|i: int|
        0 <= i < pairs.len() ==> (#[trigger] pairs[i]).a < geo_map.len() && pairs[i].b
            < geo_map.len()
}

impl RobotModel {
    /// Whether the robot touches itself, from the entries that touch.
    pub fn has_self_collision(
        &self,
        pairs: &Vec<GeometryPair>,
        ignore_adjacent_links: bool,
    ) -> (r: bool)
        ensures
            r == collides(pairs@, ignore_adjacent_links),
    {
        has_self_collision(pairs, ignore_adjacent_links)
    }

    /// The robot's touching shapes. Where the map covers the entries that touch there is
    /// one to show exactly where the robot touches itself.
    pub fn self_collision_hits(
        &self,
        geo_map: &Vec<(usize, usize)>,
        pairs: &Vec<GeometryPair>,
        ignore_adjacent_links: bool,
    ) -> (r: Vec<CollisionHit>)
        ensures
            r@ == collisions(geo_map@, pairs@, ignore_adjacent_links),
            covers(geo_map@, pairs@) ==> (r@.len() > 0 <==> collides(
                pairs@,
                ignore_adjacent_links,
            )),
    {
        proof {
            if covers(geo_map@, pairs@) {
                law_collision_has_hits(geo_map@, pairs@, ignore_adjacent_links);
            }
        }
        self_collision_hits(geo_map, pairs, ignore_adjacent_links)
    }
}

proof fn lemma_counting(pairs: Seq<GeometryPair>, ignore: bool, n: nat)
    requires
        n <= pairs.len(),
    ensures
        counting(pairs, ignore, n).len() > 0 <==> exists|i: int|
            0 <= i < n && #[trigger] counts(pairs[i], ignore),
        forall|k: int|
            0 <= k < counting(pairs, ignore, n).len() ==> pairs.contains(
                #[trigger] counting(pairs, ignore, n)[k],
            ) && counts(counting(pairs, ignore, n)[k], ignore),
    decreases n,
{
    if n > 0 {
        lemma_counting(pairs, ignore, (n - 1) as nat);
        let before = counting(pairs, ignore, (n - 1) as nat);
        let last = pairs[n - 1];
        let all = counting(pairs, ignore, n);
        if counts(last, ignore) {
            assert(0 <= n - 1 < n && counts(pairs[n - 1], ignore));
        } else if before.len() > 0 {
            let i = choose|i: int| 0 <= i < n - 1 && #[trigger] counts(pairs[i], ignore);
            assert(0 <= i < n && counts(pairs[i], ignore));
        }
        assert forall|k: int| 0 <= k < all.len() implies pairs.contains(#[trigger] all[k])
            && counts(all[k], ignore) by {
            if k < before.len() {
                assert(all[k] == before[k]);
            } else {
                assert(all[k] == last);
            }
        }
    }
}

proof fn lemma_all_count(pairs: Seq<GeometryPair>, n: nat)
    requires
        n <= pairs.len(),
    ensures
        counting(pairs, false, n) == pairs.take(n as int),
    decreases n,
{
    if n > 0 {
        lemma_all_count(pairs, (n - 1) as nat);
    }
    assert(counting(pairs, false, n) =~= pairs.take(n as int));
}

/// Each hit names two shapes that the robot has.
pub proof fn law_hits_name_shapes(
    robot: RobotModel,
    geo_map: Seq<(usize, usize)>,
    pairs: Seq<GeometryPair>,
    n: nat,
    k: int,
)
    requires
        maps_shapes(robot, geo_map),
        0 <= k < hits(geo_map, pairs, n).len(),
    ensures
        ({
            let h = hits(geo_map, pairs, n)[k];
            &&& h.link_a_idx < robot.links.len()
            &&& h.collision_a_idx < robot.links@[h.link_a_idx as int].collisions.len()
            &&& h.link_b_idx < robot.links.len()
            &&& h.collision_b_idx < robot.links@[h.link_b_idx as int].collisions.len()
        }),
    decreases n,
{
    let before = hits(geo_map, pairs, (n - 1) as nat);
    if k < before.len() {
        law_hits_name_shapes(robot, geo_map, pairs, (n - 1) as nat, k);
    } else {
        let p = pairs[n - 1];
        assert(geo_map[p.a as int] == geo_map[p.a as int]);
        assert(geo_map[p.b as int] == geo_map[p.b as int]);
    }
}

/// Where the map covers every pair there is a hit for each pair that counts, and so a
/// robot has a self-collision exactly when there is a hit to show for it.
pub proof fn law_collision_has_hits(
    geo_map: Seq<(usize, usize)>,
    pairs: Seq<GeometryPair>,
    ignore_adjacent_links: bool,
)
    requires
        covers(geo_map, pairs),
    ensures
        collisions(geo_map, pairs, ignore_adjacent_links).len() == counting(
            pairs,
            ignore_adjacent_links,
            pairs.len(),
        ).len(),
        collisions(geo_map, pairs, ignore_adjacent_links).len() > 0 <==> collides(
            pairs,
            ignore_adjacent_links,
        ),
{
    let kept = counting(pairs, ignore_adjacent_links, pairs.len());
    lemma_counting(pairs, ignore_adjacent_links, pairs.len());
    assert forall|i: int| 0 <= i < kept.len() implies (#[trigger] kept[i]).a < geo_map.len()
        && kept[i].b < geo_map.len() by {
        assert(pairs.contains(kept[i]));
        let j = choose|j: int| 0 <= j < pairs.len() && pairs[j] == kept[i];
        assert(pairs[j].a < geo_map.len());
    }
    lemma_hit_for_each(geo_map, kept, kept.len());
}

proof fn lemma_hit_for_each(geo_map: Seq<(usize, usize)>, pairs: Seq<GeometryPair>, n: nat)
    requires
        n <= pairs.len(),
        covers(geo_map, pairs),
    ensures
        hits(geo_map, pairs, n).len() == n,
    decreases n,
{
    if n > 0 {
        lemma_hit_for_each(geo_map, pairs, (n - 1) as nat);
        assert(pairs[n - 1].a < geo_map.len());
    }
}

/// Ignoring neighbours makes no collision: a robot that still touches itself does so when
/// they are not ignored, and each hit that is left was one before.
pub proof fn law_ignoring_makes_no_collision(
    geo_map: Seq<(usize, usize)>,
    pairs: Seq<GeometryPair>,
)
    ensures
        collides(pairs, true) ==> collides(pairs, false),
        forall|k: int|
            0 <= k < collisions(geo_map, pairs, true).len() ==> collisions(
                geo_map,
                pairs,
                false,
            ).contains(#[trigger] collisions(geo_map, pairs, true)[k]),
{
    if collides(pairs, true) {
        let i = choose|i: int| 0 <= i < pairs.len() && #[trigger] counts(pairs[i], true);
        assert(counts(pairs[i], false));
    }
    let kept = counting(pairs, true, pairs.len());
    let all = counting(pairs, false, pairs.len());
    lemma_counting(pairs, true, pairs.len());
    lemma_all_count(pairs, pairs.len());
    assert(all =~= pairs);
    let left = collisions(geo_map, pairs, true);
    assert forall|k: int| 0 <= k < left.len() implies collisions(geo_map, pairs, false).contains(
        #[trigger] left[k],
    ) by {
        let i = lemma_hit_has_pair(geo_map, kept, kept.len(), k);
        assert(pairs.contains(kept[i]));
        let j = choose|j: int| 0 <= j < pairs.len() && pairs[j] == kept[i];
        lemma_pair_has_hit(geo_map, all, all.len(), j);
    }
}

proof fn lemma_hit_has_pair(
    geo_map: Seq<(usize, usize)>,
    pairs: Seq<GeometryPair>,
    n: nat,
    k: int,
) -> (i: int)
    requires
        n <= pairs.len(),
        0 <= k < hits(geo_map, pairs, n).len(),
    ensures
        0 <= i < n,
        hit_of(geo_map, pairs[i]) == Some(hits(geo_map, pairs, n)[k]),
    decreases n,
{
    let before = hits(geo_map, pairs, (n - 1) as nat);
    if k < before.len() {
        lemma_hit_has_pair(geo_map, pairs, (n - 1) as nat, k)
    } else {
        n - 1
    }
}

proof fn lemma_pair_has_hit(
    geo_map: Seq<(usize, usize)>,
    pairs: Seq<GeometryPair>,
    n: nat,
    j: int,
)
    requires
        n <= pairs.len(),
        0 <= j < n,
        hit_of(geo_map, pairs[j]) is Some,
    ensures
        hits(geo_map, pairs, n).contains(hit_of(geo_map, pairs[j])->0),
    decreases n,
{
    let all = hits(geo_map, pairs, n);
    let before = hits(geo_map, pairs, (n - 1) as nat);
    let h = hit_of(geo_map, pairs[j])->0;
    if j < n - 1 {
        lemma_pair_has_hit(geo_map, pairs, (n - 1) as nat, j);
        let k = choose|k: int| 0 <= k < before.len() && before[k] == h;
        assert(all[k] == h);
    } else {
        assert(all[all.len() - 1] == h);
    }
}

} // verus!
