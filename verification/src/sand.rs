//! A single sand grain: position, velocity and identity, in fixed point,
//! together with the per-grain physics of one frame.

use vstd::prelude::*;
use crate::fixed::{
    SCALE, SAND_RADIUS, GRAVITY, JOSTLE, DAMPING_NUM, DAMPING_DEN,
    POS_LIMIT, VEL_LIMIT, DT_LIMIT,
    tdiv, sat_vel, div_trunc, clamp_vel, lemma_mul_bound,
};
use crate::world::{World, WorldV};

verus! {

/// Mathematical image of a grain: unbounded integers for every field.
pub ghost struct SandV {
    pub x: int,
    pub y: int,
    pub delta_x: int,
    pub delta_y: int,
    pub id: int,
}

/// One grain.  `x`/`y` are the position, `delta_x`/`delta_y` the velocity,
/// all in sub-units (see `fixed`); `id` is unique within the world that owns
/// the grain.
#[derive(Clone, Copy)]
pub struct Sand {
    pub x: i64,
    pub y: i64,
    pub delta_x: i64,
    pub delta_y: i64,
    pub id: usize,
}

impl View for Sand {
    type V = SandV;

    open spec fn view(&self) -> SandV {
        SandV {
            x: self.x as int,
            y: self.y as int,
            delta_x: self.delta_x as int,
            delta_y: self.delta_y as int,
            id: self.id as int,
        }
    }
}

/// A grain's fields stay inside the ranges the fixed-point arithmetic needs.
pub open spec fn sand_bounded(s: SandV) -> bool {
    &&& -POS_LIMIT <= s.x <= POS_LIMIT
    &&& -POS_LIMIT <= s.y <= POS_LIMIT
    &&& -VEL_LIMIT <= s.delta_x <= VEL_LIMIT
    &&& -VEL_LIMIT <= s.delta_y <= VEL_LIMIT
}

/// Position clamp at the plane's edges, testing the upper bound first,
/// then the lower one.
pub open spec fn clamp_band(v: int, lo: int, hi: int) -> int {
    if v > hi {
        hi
    } else if v < lo {
        lo
    } else {
        v
    }
}

/// Damping and integration: horizontal velocity keeps the fraction
/// `DAMPING_NUM/DAMPING_DEN` scaled by `(1 - dt)`; gravity raises the
/// vertical velocity; both positions advance by `velocity * dt`.
pub open spec fn integrate(s: SandV, dt: int) -> SandV {
    let vx = sat_vel(tdiv(
        s.delta_x * ((DAMPING_NUM as int) * ((SCALE as int) - dt)),
        (DAMPING_DEN as int) * (SCALE as int),
    ));
    let x = s.x + tdiv(vx * dt, SCALE as int);
    let vy = sat_vel(s.delta_y + tdiv((GRAVITY as int) * dt, SCALE as int));
    let y = s.y + tdiv(vy * dt, SCALE as int);
    SandV { x, y, delta_x: vx, delta_y: vy, id: s.id }
}

/// Resolution against one neighbour.  A neighbour with the grain's own id
/// is ignored; one overlapping the `4r x 4r` interaction square pushes the
/// grain horizontally to exact `2r` separation (losing a little upward
/// momentum), and a neighbour at or below the grain additionally parks it
/// at exact `2r` vertical separation and zeroes its fall.
pub open spec fn collide_step(s: SandV, q: SandV) -> SandV {
    if q.id == s.id {
        s
    } else {
        let xd = s.x - q.x;
        let yd = s.y - q.y;
        if -2 * (SAND_RADIUS as int) < xd < 2 * (SAND_RADIUS as int)
            && -2 * (SAND_RADIUS as int) < yd < 2 * (SAND_RADIUS as int) {
            let x2 = if xd < 0 {
                s.x - (2 * (SAND_RADIUS as int) + xd)
            } else {
                s.x + (2 * (SAND_RADIUS as int) - xd)
            };
            let vx2 = if xd < 0 {
                sat_vel(s.delta_x - tdiv(2 * (SAND_RADIUS as int) + xd, 2))
            } else {
                sat_vel(s.delta_x + tdiv(2 * (SAND_RADIUS as int) - xd, 2))
            };
            let vy2 = sat_vel(s.delta_y - (JOSTLE as int));
            if yd <= 0 {
                SandV {
                    x: x2,
                    y: s.y - (2 * (SAND_RADIUS as int) + yd),
                    delta_x: vx2,
                    delta_y: 0,
                    id: s.id,
                }
            } else {
                SandV { x: x2, y: s.y, delta_x: vx2, delta_y: vy2, id: s.id }
            }
        } else {
            s
        }
    }
}

/// Resolution against a sequence of neighbours, first to last.
pub open spec fn collide_seq(s: SandV, qs: Seq<SandV>) -> SandV
    decreases qs.len(),
{
    if qs.len() == 0 {
        s
    } else {
        collide_seq(collide_step(s, qs[0]), qs.drop_first())
    }
}

/// One whole frame for one grain: integrate, resolve against the grid
/// neighbourhood of the post-integration position, then clamp into the
/// plane (vertical band first, then horizontal).
pub open spec fn update_model(s: SandV, w: WorldV, dt: int) -> SandV {
    let s1 = integrate(s, dt);
    let s2 = collide_seq(s1, w.views_of(w.nearby(s1.x, s1.y)));
    let y3 = clamp_band(s2.y, 2 * (SAND_RADIUS as int),
        w.height * (SCALE as int) - 2 * (SAND_RADIUS as int));
    let x3 = clamp_band(s2.x, 2 * (SAND_RADIUS as int),
        w.width * (SCALE as int) - 2 * (SAND_RADIUS as int));
    SandV { x: x3, y: y3, delta_x: s2.delta_x, delta_y: s2.delta_y, id: s2.id }
}

/// Folding one more neighbour onto the end of the sequence is one more
/// resolution step.
pub proof fn lemma_collide_seq_push(s: SandV, qs: Seq<SandV>, q: SandV)
    ensures
        collide_seq(s, qs.push(q)) == collide_step(collide_seq(s, qs), q),
    decreases qs.len(),
{
    if qs.len() == 0 {
        assert(qs.push(q)[0] == q);
        assert(qs.push(q).drop_first() =~= Seq::<SandV>::empty());
        assert(collide_seq(s, qs) == s);
        assert(collide_seq(collide_step(s, q), Seq::<SandV>::empty()) == collide_step(s, q));
        assert(collide_seq(s, qs.push(q))
            == collide_seq(collide_step(s, qs.push(q)[0]), qs.push(q).drop_first()));
    } else {
        assert(qs.push(q)[0] == qs[0]);
        assert(qs.push(q).drop_first() =~= qs.drop_first().push(q));
        lemma_collide_seq_push(collide_step(s, qs[0]), qs.drop_first(), q);
        assert(collide_seq(s, qs.push(q))
            == collide_seq(collide_step(s, qs[0]), qs.drop_first().push(q)));
        assert(collide_seq(s, qs) == collide_seq(collide_step(s, qs[0]), qs.drop_first()));
    }
}

/// Self-exclusion law: a record carrying the grain's own id, wherever it
/// stands among the neighbours, never changes the outcome of collision
/// resolution.
pub proof fn lemma_self_neighbor_ignored(s: SandV, pre: Seq<SandV>, q: SandV, post: Seq<SandV>)
    requires
        q.id == s.id,
    ensures
        collide_seq(s, pre + seq![q] + post) == collide_seq(s, pre + post),
    decreases pre.len(),
{
    if pre.len() == 0 {
        assert((pre + seq![q] + post)[0] == q);
        assert((pre + seq![q] + post).drop_first() =~= post);
        assert(pre + post =~= post);
    } else {
        let h = pre[0];
        assert((pre + seq![q] + post)[0] == h);
        assert((pre + seq![q] + post).drop_first() =~= pre.drop_first() + seq![q] + post);
        assert((pre + post)[0] == h);
        assert((pre + post).drop_first() =~= pre.drop_first() + post);
        lemma_self_neighbor_ignored(collide_step(s, h), pre.drop_first(), q, post);
    }
}

impl Sand {
    /// A fresh grain at `(x, y)` with zero velocity.
    pub fn new(x: i64, y: i64, id: usize) -> (s: Sand)
        ensures
            s@ == (SandV { x: x as int, y: y as int, delta_x: 0, delta_y: 0, id: id as int }),
    {
        Sand { x, y, delta_x: 0, delta_y: 0, id }
    }

    /// One frame of physics for this grain against a snapshot of the world:
    /// exactly `update_model`, so in particular the grain ends inside the
    /// plane's `2r` margins and keeps its identity.
    pub fn update(&mut self, dt: i64, world: &World)
        requires
            sand_bounded(old(self)@),
            world@.wf(),
            0 <= dt <= DT_LIMIT,
        ensures
            final(self)@ == update_model(old(self)@, world@, dt as int),
            final(self)@.id == old(self)@.id,
            sand_bounded(final(self)@),
            2 * (SAND_RADIUS as int) <= final(self)@.x
                <= world@.width * (SCALE as int) - 2 * (SAND_RADIUS as int),
            2 * (SAND_RADIUS as int) <= final(self)@.y
                <= world@.height * (SCALE as int) - 2 * (SAND_RADIUS as int),
    {
        let ghost w = world@;
        let ghost s0 = self@;
        let m: i64 = DAMPING_NUM * (SCALE - dt);
        proof {
            lemma_mul_bound(self.delta_x as int, m as int, VEL_LIMIT as int, 9_801_000);
        }
        let dx0 = clamp_vel(div_trunc(self.delta_x * m, DAMPING_DEN * SCALE));
        proof {
            lemma_mul_bound(dx0 as int, dt as int, VEL_LIMIT as int, DT_LIMIT as int);
        }
        let x0 = self.x + div_trunc(dx0 * dt, SCALE);
        let dy0 = clamp_vel(self.delta_y + div_trunc(GRAVITY * dt, SCALE));
        proof {
            lemma_mul_bound(dy0 as int, dt as int, VEL_LIMIT as int, DT_LIMIT as int);
        }
        let y0 = self.y + div_trunc(dy0 * dt, SCALE);
        let ghost s1 = integrate(s0, dt as int);
        proof {
            assert(s1 == (SandV {
                x: x0 as int, y: y0 as int,
                delta_x: dx0 as int, delta_y: dy0 as int, id: s0.id
            }));
        }

        let nearby = world.get_nearby(x0, y0);
        let ghost qs = w.views_of(nearby@);

        let mut x = x0;
        let mut y = y0;
        let mut dx = dx0;
        let mut dy = dy0;
        let mut k: usize = 0;
        while k < nearby.len()
            invariant
                w == world@,
                w.wf(),
                k <= nearby.len(),
                qs == w.views_of(nearby@),
                qs.len() == nearby@.len(),
                forall|j: int| 0 <= j < nearby@.len()
                    ==> (#[trigger] nearby@[j]) < w.sands.len(),
                (SandV {
                    x: x as int, y: y as int,
                    delta_x: dx as int, delta_y: dy as int, id: s0.id
                }) == collide_seq(s1, qs.take(k as int)),
                -VEL_LIMIT <= dx <= VEL_LIMIT,
                -VEL_LIMIT <= dy <= VEL_LIMIT,
                -2 * POS_LIMIT <= x <= 2 * POS_LIMIT,
                -2 * POS_LIMIT <= y <= 2 * POS_LIMIT,
                self.id as int == s0.id,
            decreases nearby.len() - k,
        {
            let ghost prev = SandV {
                x: x as int, y: y as int,
                delta_x: dx as int, delta_y: dy as int, id: s0.id,
            };
            let qi = nearby[k];
            let q = read_sand(world, qi);
            proof {
                assert(qs[k as int] == w.sands[qi as int]);
                assert(q@ == w.sands[qi as int]);
                assert(sand_bounded(q@));
            }
            if q.id != self.id {
                let xd = x - q.x;
                let yd = y - q.y;
                if xd > -2 * SAND_RADIUS && xd < 2 * SAND_RADIUS
                    && yd > -2 * SAND_RADIUS && yd < 2 * SAND_RADIUS {
                    if xd < 0 {
                        x = x - (2 * SAND_RADIUS + xd);
                        dx = clamp_vel(dx - div_trunc(2 * SAND_RADIUS + xd, 2));
                    } else {
                        x = x + (2 * SAND_RADIUS - xd);
                        dx = clamp_vel(dx + div_trunc(2 * SAND_RADIUS - xd, 2));
                    }
                    dy = clamp_vel(dy - JOSTLE);
                    if yd <= 0 {
                        y = y - (2 * SAND_RADIUS + yd);
                        dy = 0;
                    }
                }
            }
            proof {
                assert(qs.take(k as int + 1) =~= qs.take(k as int).push(qs[k as int]));
                lemma_collide_seq_push(s1, qs.take(k as int), qs[k as int]);
                assert((SandV {
                    x: x as int, y: y as int,
                    delta_x: dx as int, delta_y: dy as int, id: s0.id
                }) == collide_step(prev, qs[k as int]));
            }
            k = k + 1;
        }
        proof {
            assert(qs.take(nearby@.len() as int) =~= qs);
        }
        let ghost s2 = collide_seq(s1, qs);

        let hi_y = (world.height as i64) * SCALE - 2 * SAND_RADIUS;
        if y > hi_y {
            y = hi_y;
        } else if y < 2 * SAND_RADIUS {
            y = 2 * SAND_RADIUS;
        }
        let hi_x = (world.width as i64) * SCALE - 2 * SAND_RADIUS;
        if x > hi_x {
            x = hi_x;
        } else if x < 2 * SAND_RADIUS {
            x = 2 * SAND_RADIUS;
        }
        self.x = x;
        self.y = y;
        self.delta_x = dx;
        self.delta_y = dy;
    }

    /// Relies on std's `format!` macro to render a human-readable label.
    #[verifier::external_body]
    pub fn to_string(&self) -> String {
        format!("Sand #{} ({},{})", self.id, self.x, self.y)
    }
}

/// Copy one grain out of the arena.
fn read_sand(world: &World, i: usize) -> (q: Sand)
    requires
        i < world.sands.len(),
    ensures
        q@ == world@.sands[i as int],
{
    world.sands[i]
}

} // verus!
