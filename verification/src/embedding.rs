//! Embedding vectors.
//!
//! Embeddings are fixed-point vectors: each coordinate is an `i64` whose
//! magnitude is at most [`COORD_LIMIT`]. The bound keeps the squared
//! Euclidean distance of any two vectors within `u128`, whatever their
//! length, so distances are computed exactly.

use vstd::prelude::*;

verus! {

/// Largest magnitude a single fixed-point coordinate may have.
pub const COORD_LIMIT: i64 = 0x4000_0000;

/// All coordinates are within `[-COORD_LIMIT, COORD_LIMIT]`.
pub open spec fn coords_bounded(s: Seq<i64>) -> bool {
    forall|i: int| 0 <= i < s.len() ==> -COORD_LIMIT <= #[trigger] s[i] <= COORD_LIMIT
}

/// A document's embedding vector, in fixed-point coordinates.
#[derive(Debug, PartialEq)]
pub struct Embedding {
    pub coords: Vec<i64>,
}

impl Clone for Embedding {
    /// An embedding clones to a vector with the same coordinates.
    fn clone(&self) -> (r: Self)
        ensures
            r@ == self@,
    {
        let coords = self.coords.clone();
        proof {
            assert forall|i: int| 0 <= i < self.coords@.len() implies coords@[i]
                == self.coords@[i] by {
                assert(cloned::<i64>(self.coords[i], coords[i]));
            }
            assert(coords@ =~= self.coords@);
        }
        Embedding { coords }
    }
}

impl View for Embedding {
    type V = Seq<i64>;

    open spec fn view(&self) -> Seq<i64> {
        self.coords@
    }
}

impl Embedding {
    /// The coordinates are bounded.
    pub open spec fn wf(&self) -> bool {
        coords_bounded(self@)
    }

    /// Validate raw coordinates into an embedding; any coordinate out of
    /// range rejects the whole vector.
    pub fn new(coords: Vec<i64>) -> (r: Option<Embedding>)
        ensures
            match r {
                Some(e) => e@ == coords@ && e.wf(),
                None => !coords_bounded(coords@),
            },
    {
        let n = coords.len();
        let mut i: usize = 0;
        while i < n
            invariant
                n == coords@.len(),
                0 <= i <= n,
                forall|j: int| 0 <= j < i ==> -COORD_LIMIT <= #[trigger] coords@[j] <= COORD_LIMIT,
            decreases n - i,
        {
            let c = coords[i];
            if c < -COORD_LIMIT || c > COORD_LIMIT {
                return None;
            }
            i += 1;
        }
        Some(Embedding { coords })
    }

    /// The dimension of the vector.
    pub fn len(&self) -> (n: usize)
        ensures
            n == self@.len(),
    {
        self.coords.len()
    }
}

/// Squared Euclidean distance between two coordinate sequences; coordinates
/// past the shorter length are ignored.
pub open spec fn spec_dist_sq(a: Seq<i64>, b: Seq<i64>) -> int
    decreases a.len(),
{
    if a.len() == 0 || b.len() == 0 {
        0
    } else {
        (a[0] - b[0]) * (a[0] - b[0]) + spec_dist_sq(a.skip(1), b.skip(1))
    }
}

/// Exact squared Euclidean distance of two equal-length embeddings.
pub fn dist_sq(a: &Embedding, b: &Embedding) -> (d: u128)
    requires
        a.wf(),
        b.wf(),
        a@.len() == b@.len(),
    ensures
        d == spec_dist_sq(a@, b@),
{
    let n = a.coords.len();
    let mut acc: u128 = 0;
    let mut i: usize = 0;
    proof {
        assert(a@.skip(0) =~= a@);
        assert(b@.skip(0) =~= b@);
    }
    while i < n
        invariant
            a.wf(),
            b.wf(),
            n == a@.len(),
            n == b@.len(),
            0 <= i <= n,
            acc <= i * 0x4000_0000_0000_0000u128,
            spec_dist_sq(a@, b@) == acc + spec_dist_sq(a@.skip(i as int), b@.skip(i as int)),
        decreases n - i,
    {
        let diff = a.coords[i] - b.coords[i];
        proof {
            assert(-COORD_LIMIT <= a@[i as int] <= COORD_LIMIT);
            assert(-COORD_LIMIT <= b@[i as int] <= COORD_LIMIT);
            assert(diff * diff <= 0x4000_0000_0000_0000 && diff * diff >= 0) by (nonlinear_arith)
                requires
                    -0x8000_0000 <= diff <= 0x8000_0000,
            ;
        }
        let sq = diff * diff;
        proof {
            assert(a@.skip(i as int)[0] == a@[i as int]);
            assert(b@.skip(i as int)[0] == b@[i as int]);
            assert(a@.skip(i as int).skip(1) =~= a@.skip(i as int + 1));
            assert(b@.skip(i as int).skip(1) =~= b@.skip(i as int + 1));
        }
        acc = acc + (sq as u128);
        i += 1;
    }
    proof {
        assert(a@.skip(n as int) =~= Seq::<i64>::empty());
    }
    acc
}

} // verus!
