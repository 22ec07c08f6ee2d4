//! The lifetime countdown and the removal of expired particles.
use vstd::prelude::*;

use crate::particle::{Lifetime, Particle, all_valid};

verus! {

/// The countdown after `dt` milliseconds, held at zero.
pub open spec fn counted_down(remaining: int, dt: int) -> int {
    if remaining > dt { remaining - dt } else { 0 }
}

/// The particle with its countdown advanced by `dt`.
pub open spec fn reaped(p: Particle, dt: int) -> Particle {
    Particle { lifetime: Lifetime { remaining: counted_down(p.lifetime.remaining as int, dt) as u64 }, ..p }
}

/// The particles of `s` whose countdown has not reached zero, in their order.
pub open spec fn survivors(s: Seq<Particle>) -> Seq<Particle>
    decreases s.len(),
{
    if s.len() == 0 {
        s
    } else {
        let r = survivors(s.drop_last());
        if s.last().lifetime.remaining > 0 { r.push(s.last()) } else { r }
    }
}

/// Identities strictly increase along `s`.
pub open spec fn ids_increasing(s: Seq<Particle>) -> bool {
    forall|a: int, b: int| 0 <= a < b < s.len() ==> (#[trigger] s[a]).id < (#[trigger] s[b]).id
}

impl Lifetime {
    /// Counts down by `dt` milliseconds, never below zero.
    pub fn tick(&mut self, dt: u32)
        ensures
            final(self).remaining == counted_down(old(self).remaining as int, dt as int),
            final(self).remaining <= old(self).remaining,
    {
        if self.remaining > dt as u64 {
            self.remaining = self.remaining - dt as u64;
        } else {
            self.remaining = 0;
        }
    }

    /// The countdown has reached zero.
    pub fn finished(&self) -> (r: bool)
        ensures
            r == (self.remaining == 0),
    {
        self.remaining == 0
    }
}

/// What survives is exactly what had time left, kept from `s`.
pub proof fn lemma_survivors(s: Seq<Particle>)
    ensures
        forall|x: Particle| #[trigger] survivors(s).contains(x) ==> s.contains(x) && x.lifetime.remaining > 0,
        forall|x: Particle| s.contains(x) && x.lifetime.remaining > 0 ==> #[trigger] survivors(s).contains(x),
    decreases s.len(),
{
    if s.len() > 0 {
        let t = s.drop_last();
        lemma_survivors(t);
        assert(s =~= t.push(s.last()));
        assert forall|x: Particle| #[trigger] survivors(s).contains(x) implies s.contains(x) && x.lifetime.remaining > 0 by {
            if survivors(t).contains(x) {
                let k = choose|k: int| 0 <= k < t.len() && t[k] == x;
                assert(s[k] == x);
            } else {
                assert(x == s.last());
                assert(s[s.len() - 1] == x);
            }
        }
        assert forall|x: Particle| s.contains(x) && x.lifetime.remaining > 0 implies #[trigger] survivors(s).contains(x) by {
            let k = choose|k: int| 0 <= k < s.len() && s[k] == x;
            if k < s.len() - 1 {
                assert(t[k] == x);
                assert(survivors(t).contains(x));
                let r = survivors(t);
                if s.last().lifetime.remaining > 0 {
                    let m = choose|m: int| 0 <= m < r.len() && r[m] == x;
                    assert(r.push(s.last())[m] == x);
                }
            } else {
                let r = survivors(t);
                assert(r.push(s.last())[r.len() as int] == x);
            }
        }
    }
}

/// Removes the particles whose countdown has reached zero.
pub fn remove_expired(ps: Vec<Particle>) -> (r: Vec<Particle>)
    requires
        all_valid(ps@),
        ids_increasing(ps@),
    ensures
        r@ == survivors(ps@),
        all_valid(r@),
        ids_increasing(r@),
        forall|k: int| 0 <= k < r@.len() ==> (#[trigger] r@[k]).lifetime.remaining > 0,
        forall|k: int| 0 <= k < r@.len() ==> exists|j: int| 0 <= j < ps@.len() && ps@[j] == #[trigger] r@[k],
{
    let n = ps.len();
    let mut out: Vec<Particle> = Vec::new();
    let mut i: usize = 0;
    while i < n
        invariant
            n == ps@.len(),
            i <= n,
            all_valid(ps@),
            ids_increasing(ps@),
            out@ == survivors(ps@.take(i as int)),
            all_valid(out@),
            ids_increasing(out@),
            forall|k: int| 0 <= k < out@.len() ==> (#[trigger] out@[k]).lifetime.remaining > 0,
            forall|k: int| 0 <= k < out@.len() ==> exists|j: int| 0 <= j < i && ps@[j] == #[trigger] out@[k],
        decreases n - i,
    {
        assert(ps@.take(i as int + 1).drop_last() =~= ps@.take(i as int));
        assert(ps@.take(i as int + 1).last() == ps@[i as int]);
        let p = ps[i];
        if p.lifetime.remaining > 0 {
            proof {
                assert forall|k: int| 0 <= k < out@.len() implies (#[trigger] out@[k]).id < p.id by {
                    let j = choose|j: int| 0 <= j < i && ps@[j] == out@[k];
                }
            }
            out.push(p);
            proof {
                assert forall|k: int| 0 <= k < out@.len() implies exists|j: int| 0 <= j < i + 1 && ps@[j] == #[trigger] out@[k] by {
                    if k < out@.len() - 1 {
                        let j = choose|j: int| 0 <= j < i && ps@[j] == out@[k];
                    } else {
                        assert(ps@[i as int] == out@[k]);
                    }
                }
            }
        }
        i += 1;
    }
    assert(ps@.take(n as int) =~= ps@);
    out
}

} // verus!
