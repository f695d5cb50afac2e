//! Nearest-neighbour queries over the vault's embeddings.
//!
//! Both queries measure squared Euclidean distance, computed exactly in
//! integers; callers wanting true Euclidean distance take a square root of
//! the returned values. The candidate set of a query is every entry whose
//! document carries an embedding of the same dimension as the reference
//! entry's — including the reference entry itself, which appears at distance
//! zero. Entries without an embedding are silently not candidates.

use vstd::prelude::*;
use vstd::seq_lib::lemma_multiset_commutative;
use vstd::string::StringExecFns;

use crate::embedding::Embedding;
use crate::embedding::dist_sq;
use crate::embedding::spec_dist_sq;
use crate::error::Error;
use crate::error::ErrorView;
use crate::file::File;
use crate::file::FileContents;
use crate::file::FileView;
use crate::vault::Vault;
use crate::vault::entries_view;
use crate::vault::entries_wf;
use crate::vault::spec_get;

verus! {

/// The model of a list of query results: key and squared distance.
pub open spec fn cand_views(v: Seq<(String, u128)>) -> Seq<(Seq<char>, int)> {
    v.map_values(|p: (String, u128)| (p.0@, p.1 as int))
}

/// The candidates of a query with reference embedding `reference`: each
/// entry carrying an embedding of the same dimension, with its exact squared
/// Euclidean distance, in entry order.
pub open spec fn spec_candidates(
    entries: Seq<(Seq<char>, FileView)>,
    reference: Seq<i64>,
) -> Seq<(Seq<char>, int)>
    decreases entries.len(),
{
    if entries.len() == 0 {
        Seq::empty()
    } else {
        let rest = spec_candidates(entries.skip(1), reference);
        match entries[0].1.doc.embedding {
            Some(emb) => if emb.len() == reference.len() {
                seq![(entries[0].0, spec_dist_sq(reference, emb))] + rest
            } else {
                rest
            },
            None => rest,
        }
    }
}

/// Distances never decrease along the sequence.
pub open spec fn sorted_by_dist(s: Seq<(Seq<char>, int)>) -> bool {
    forall|i: int, j: int| 0 <= i < j < s.len() ==> s[i].1 <= s[j].1
}

/// A squared distance lies within the radius `num / den`.
pub open spec fn spec_in_radius(d: int, num: int, den: int) -> bool {
    d * (den * den) <= num * num
}

/// The candidates within the radius, in order.
pub open spec fn spec_within_radius(
    cands: Seq<(Seq<char>, int)>,
    num: int,
    den: int,
) -> Seq<(Seq<char>, int)>
    decreases cands.len(),
{
    if cands.len() == 0 {
        Seq::empty()
    } else {
        let rest = spec_within_radius(cands.skip(1), num, den);
        if spec_in_radius(cands[0].1, num, den) {
            seq![cands[0]] + rest
        } else {
            rest
        }
    }
}

/// Inserting into a sequence inserts into its multiset.
proof fn lemma_insert_multiset<A>(s: Seq<A>, pos: int, x: A)
    requires
        0 <= pos <= s.len(),
    ensures
        s.insert(pos, x).to_multiset() == s.to_multiset().insert(x),
{
    broadcast use vstd::seq_lib::group_to_multiset_ensures;
    broadcast use vstd::multiset::group_multiset_axioms;

    let a = s.subrange(0, pos);
    let b = s.subrange(pos, s.len() as int);
    assert(s =~= a + b);
    lemma_multiset_commutative(a, b);
    lemma_multiset_commutative(a.push(x), b);
    assert(a.push(x).to_multiset() =~= a.to_multiset().insert(x));
    let ma = a.to_multiset();
    let mb = b.to_multiset();
    assert(ma.insert(x).add(mb) =~= ma.add(mb).insert(x));
}

/// Collect the candidates of a query: every entry with an embedding of the
/// reference dimension, paired with its exact squared distance.
fn collect_candidates(files: &Vec<(String, File)>, reference: &Embedding) -> (r: Vec<
    (String, u128),
>)
    requires
        reference.wf(),
        entries_wf(entries_view(files@)),
    ensures
        cand_views(r@) == spec_candidates(entries_view(files@), reference@),
{
    let ghost entries = entries_view(files@);
    let mut out: Vec<(String, u128)> = Vec::new();
    let n = files.len();
    let mut i: usize = 0;
    proof {
        assert(entries.skip(0) =~= entries);
        assert(cand_views(out@) =~= Seq::<(Seq<char>, int)>::empty());
        assert(Seq::<(Seq<char>, int)>::empty() + spec_candidates(entries, reference@)
            =~= spec_candidates(entries, reference@));
    }
    while i < n
        invariant
            n == files@.len(),
            0 <= i <= n,
            reference.wf(),
            entries == entries_view(files@),
            entries_wf(entries),
            spec_candidates(entries, reference@) == cand_views(out@) + spec_candidates(
                entries.skip(i as int),
                reference@,
            ),
        decreases n - i,
    {
        let ghost rest = entries.skip(i as int);
        proof {
            assert(rest[0] == entries[i as int]);
            assert(rest.skip(1) =~= entries.skip(i as int + 1));
            assert(entries[i as int].1.wf());
        }
        match &files[i].1.contents {
            FileContents::MDFile(md) => {
                match &md.embedding {
                    Some(emb) => {
                        if emb.len() == reference.len() {
                            let d = dist_sq(reference, emb);
                            let ghost before = cand_views(out@);
                            out.push((files[i].0.clone(), d));
                            proof {
                                let ghost one = seq![(rest[0].0, d as int)];
                                assert(cand_views(out@) =~= before.push((rest[0].0, d as int)));
                                assert(before.push((rest[0].0, d as int)) =~= before + one);
                                assert(before + (one + spec_candidates(rest.skip(1), reference@))
                                    =~= (before + one) + spec_candidates(rest.skip(1), reference@));
                            }
                        }
                    },
                    None => {},
                }
            },
        }
        i += 1;
    }
    proof {
        assert(entries.skip(n as int) =~= Seq::<(Seq<char>, FileView)>::empty());
        assert(cand_views(out@) + Seq::<(Seq<char>, int)>::empty() =~= cand_views(out@));
    }
    out
}

/// Sort query results by ascending squared distance, by insertion.
fn sort_by_distance(v: Vec<(String, u128)>) -> (r: Vec<(String, u128)>)
    ensures
        cand_views(r@).to_multiset() == cand_views(v@).to_multiset(),
        sorted_by_dist(cand_views(r@)),
        r@.len() == v@.len(),
{
    broadcast use vstd::seq_lib::group_to_multiset_ensures;

    let n = v.len();
    let mut out: Vec<(String, u128)> = Vec::new();
    let mut i: usize = 0;
    proof {
        assert(cand_views(out@) =~= Seq::<(Seq<char>, int)>::empty());
        assert(cand_views(v@.take(0)) =~= Seq::<(Seq<char>, int)>::empty());
        assert(cand_views(out@).to_multiset() =~= cand_views(v@.take(0)).to_multiset());
    }
    while i < n
        invariant
            n == v@.len(),
            0 <= i <= n,
            out@.len() == i,
            sorted_by_dist(cand_views(out@)),
            cand_views(out@).to_multiset() == cand_views(v@.take(i as int)).to_multiset(),
        decreases n - i,
    {
        let key = v[i].0.clone();
        let d = v[i].1;
        let m = out.len();
        let mut pos: usize = 0;
        while pos < m && out[pos].1 <= d
            invariant
                m == out@.len(),
                0 <= pos <= m,
                forall|j: int| 0 <= j < pos ==> (#[trigger] out@[j]).1 <= d,
            decreases m - pos,
        {
            pos += 1;
        }
        let ghost before = cand_views(out@);
        proof {
            assert(pos < m ==> out@[pos as int].1 > d);
        }
        out.insert(pos, (key, d));
        proof {
            let x = (v@[i as int].0@, d as int);
            assert(cand_views(out@) =~= before.insert(pos as int, x));
            lemma_insert_multiset(before, pos as int, x);
            assert(cand_views(out@).to_multiset() == before.to_multiset().insert(x));
            // the new element respects the order on both sides
            assert forall|a: int, b: int|
                0 <= a < b < cand_views(out@).len() implies cand_views(out@)[a].1 <= cand_views(
                out@,
            )[b].1 by {
                before.insert_ensures(pos as int, (v@[i as int].0@, d as int));
                if b < pos {
                } else if a > pos {
                } else if a == pos && b > pos {
                    assert(cand_views(out@)[b] == before[b - 1]);
                    assert(before[b - 1].1 > d || before[b - 1].1 >= before[pos as int].1);
                } else if b == pos && a < pos {
                } else {
                }
            }
            // the processed prefix grows by this element
            assert(v@.take(i as int + 1) =~= v@.take(i as int).push(v@[i as int]));
            let taken = cand_views(v@.take(i as int));
            assert(cand_views(v@.take(i as int + 1)) =~= taken.push(x));
            vstd::seq_lib::to_multiset_build(taken, x);
            assert(cand_views(v@.take(i as int + 1)).to_multiset() == taken.to_multiset().insert(
                x,
            ));
        }
        i += 1;
    }
    proof {
        assert(v@.take(n as int) =~= v@);
    }
    out
}

impl Vault {
    /// Up to `n` entries nearest to the entry at `path`, as pairs of key and
    /// exact squared Euclidean distance, ascending. The reference entry must
    /// exist and carry an embedding; it is itself a candidate, at distance
    /// zero. How ties at the cut are resolved is unspecified.
    pub fn get_closest_files(&self, path: &String, n: usize) -> (r: Result<
        Vec<(String, u128)>,
        Error,
    >)
        requires
            self.wf(),
        ensures
            match r {
                Ok(v) => match spec_get(self.entries(), path@) {
                    Some(fv) => match fv.doc.embedding {
                        Some(reference) => exists|sorted: Seq<(Seq<char>, int)>|
                            {
                                &&& #[trigger] sorted.to_multiset() == spec_candidates(
                                    self.entries(),
                                    reference,
                                ).to_multiset()
                                &&& sorted_by_dist(sorted)
                                &&& cand_views(v@) == sorted.take(
                                    vstd::math::min(n as int, sorted.len() as int),
                                )
                            },
                        None => false,
                    },
                    None => false,
                },
                Err(e) => match e@ {
                    ErrorView::PathNotFound(p) => p == path@ && spec_get(
                        self.entries(),
                        path@,
                    ) is None,
                    ErrorView::NoEmbedding(p) => p == path@ && match spec_get(
                        self.entries(),
                        path@,
                    ) {
                        Some(fv) => fv.doc.embedding is None,
                        None => false,
                    },
                    _ => false,
                },
            },
    {
        let reference = match self.nearest_reference(path) {
            Ok(e) => e,
            Err(e) => {
                return Err(e);
            },
        };
        let cands = collect_candidates(&self.files, reference);
        let mut out = sort_by_distance(cands);
        let ghost witness = cand_views(out@);
        out.truncate(n);
        proof {
            let cut = vstd::math::min(n as int, witness.len() as int);
            assert(cand_views(out@) =~= witness.take(cut));
        }
        Ok(out)
    }

    /// All entries within radius `radius_num / radius_den` of the entry at
    /// `path`, as pairs of key and exact squared Euclidean distance,
    /// ascending. A squared distance `d` is within the radius exactly when
    /// `d * radius_den^2 <= radius_num^2`.
    pub fn get_closest_files_by_threshold(
        &self,
        path: &String,
        radius_num: u32,
        radius_den: u32,
    ) -> (r: Result<Vec<(String, u128)>, Error>)
        requires
            self.wf(),
            radius_den > 0,
        ensures
            match r {
                Ok(v) => match spec_get(self.entries(), path@) {
                    Some(fv) => match fv.doc.embedding {
                        Some(reference) => exists|sorted: Seq<(Seq<char>, int)>|
                            {
                                &&& #[trigger] sorted.to_multiset() == spec_within_radius(
                                    spec_candidates(self.entries(), reference),
                                    radius_num as int,
                                    radius_den as int,
                                ).to_multiset()
                                &&& sorted_by_dist(sorted)
                                &&& cand_views(v@) == sorted
                            },
                        None => false,
                    },
                    None => false,
                },
                Err(e) => match e@ {
                    ErrorView::PathNotFound(p) => p == path@ && spec_get(
                        self.entries(),
                        path@,
                    ) is None,
                    ErrorView::NoEmbedding(p) => p == path@ && match spec_get(
                        self.entries(),
                        path@,
                    ) {
                        Some(fv) => fv.doc.embedding is None,
                        None => false,
                    },
                    _ => false,
                },
            },
    {
        let reference = match self.nearest_reference(path) {
            Ok(e) => e,
            Err(e) => {
                return Err(e);
            },
        };
        let cands = collect_candidates(&self.files, reference);
        let within = filter_within(cands, radius_num, radius_den);
        let out = sort_by_distance(within);
        Ok(out)
    }

    /// The embedding of the reference entry of a query, with the query's
    /// error taxonomy: the entry must exist and carry an embedding.
    fn nearest_reference(&self, path: &String) -> (r: Result<&Embedding, Error>)
        requires
            self.wf(),
        ensures
            match r {
                Ok(e) => {
                    &&& e.wf()
                    &&& match spec_get(self.entries(), path@) {
                        Some(fv) => fv.doc.embedding == Some(e@),
                        None => false,
                    }
                },
                Err(e) => match e@ {
                    ErrorView::PathNotFound(p) => p == path@ && spec_get(
                        self.entries(),
                        path@,
                    ) is None,
                    ErrorView::NoEmbedding(p) => p == path@ && match spec_get(
                        self.entries(),
                        path@,
                    ) {
                        Some(fv) => fv.doc.embedding is None,
                        None => false,
                    },
                    _ => false,
                },
            },
    {
        let file = match self.get_file(path) {
            Some(f) => f,
            None => {
                return Err(Error::PathNotFound(path.clone()));
            },
        };
        proof {
            crate::vault::lemma_get_wf(self.entries(), path@);
        }
        match &file.contents {
            FileContents::MDFile(md) => {
                match &md.embedding {
                    Some(e) => Ok(e),
                    None => Err(Error::NoEmbedding(path.clone())),
                }
            },
        }
    }
}

/// Keep the results within the radius `num / den`.
fn filter_within(v: Vec<(String, u128)>, radius_num: u32, radius_den: u32) -> (r: Vec<
    (String, u128),
>)
    requires
        radius_den > 0,
    ensures
        cand_views(r@) == spec_within_radius(cand_views(v@), radius_num as int, radius_den as int),
{
    let rn = radius_num as u128;
    let rd = radius_den as u128;
    proof {
        assert(rn as int * rn as int <= 0xffff_fffe_0000_0001 && rd as int * rd as int
            <= 0xffff_fffe_0000_0001) by (nonlinear_arith)
            requires
                0 <= rn as int <= 0xffff_ffff,
                0 <= rd as int <= 0xffff_ffff,
        ;
    }
    let num2: u128 = rn * rn;
    let den2: u128 = rd * rd;
    let ghost all = cand_views(v@);
    let mut out: Vec<(String, u128)> = Vec::new();
    let n = v.len();
    let mut i: usize = 0;
    proof {
        assert(all.skip(0) =~= all);
        assert(cand_views(out@) =~= Seq::<(Seq<char>, int)>::empty());
        let ghost whole = spec_within_radius(all, radius_num as int, radius_den as int);
        assert(Seq::<(Seq<char>, int)>::empty() + whole =~= whole);
    }
    while i < n
        invariant
            n == v@.len(),
            0 <= i <= n,
            all == cand_views(v@),
            radius_den > 0,
            num2 == (radius_num as int) * (radius_num as int),
            den2 == (radius_den as int) * (radius_den as int),
            num2 <= 0xffff_fffe_0000_0001,
            den2 <= 0xffff_fffe_0000_0001,
            spec_within_radius(all, radius_num as int, radius_den as int) == cand_views(out@)
                + spec_within_radius(all.skip(i as int), radius_num as int, radius_den as int),
        decreases n - i,
    {
        let ghost rest = all.skip(i as int);
        proof {
            assert(rest[0] == all[i as int]);
            assert(rest.skip(1) =~= all.skip(i as int + 1));
        }
        let d = v[i].1;
        let mut in_radius = false;
        if d > num2 {
            proof {
                assert(!spec_in_radius(d as int, radius_num as int, radius_den as int))
                    by (nonlinear_arith)
                    requires
                        d as int > num2 as int,
                        num2 == (radius_num as int) * (radius_num as int),
                        den2 == (radius_den as int) * (radius_den as int),
                        radius_den as int >= 1,
                ;
            }
            in_radius = false;
        } else {
            proof {
                assert((d as int) * (den2 as int) <= u128::MAX as int) by (nonlinear_arith)
                    requires
                        0 <= d as int <= 0xffff_fffe_0000_0001,
                        0 <= den2 as int <= 0xffff_fffe_0000_0001,
                ;
            }
            in_radius = d * den2 <= num2;
        }
        proof {
            assert(in_radius == spec_in_radius(rest[0].1, radius_num as int, radius_den as int));
        }
        if in_radius {
            let ghost before = cand_views(out@);
            out.push((v[i].0.clone(), d));
            proof {
                let ghost one = seq![rest[0]];
                let ghost tail = spec_within_radius(rest.skip(1), radius_num as int,
                    radius_den as int);
                assert(cand_views(out@) =~= before.push(rest[0]));
                assert(before.push(rest[0]) =~= before + one);
                assert(before + (one + tail) =~= (before + one) + tail);
            }
        }
        i += 1;
    }
    proof {
        assert(all.skip(n as int) =~= Seq::<(Seq<char>, int)>::empty());
        assert(cand_views(out@) + Seq::<(Seq<char>, int)>::empty() =~= cand_views(out@));
    }
    out
}

} // verus!
