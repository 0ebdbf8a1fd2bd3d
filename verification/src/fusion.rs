//! Reciprocal rank fusion of ranked lists.
use crate::keywords::{distinct, law_distinct};
use crate::models::Asset;
use crate::naturals::{Natural, MAX_FACTOR};
use vstd::hash_map::StringHashMap;
use vstd::prelude::*;

verus! {

/// The constant of the fusion: the asset at rank `r` of a list, from 1, gets
/// `1 / (RRF_K + r)` from it.
pub const RRF_K: u64 = 60;

/// One `k`th.
pub open spec fn reciprocal(k: int) -> real {
    (1 as real) / (k as real)
}

/// What a list gives to the asset at index `i`.
pub open spec fn weight(i: int) -> real {
    reciprocal(RRF_K + i + 1)
}

/// An asset and what one list gives to it.
pub type Vote = (Asset, real);

/// The votes of one list.
pub open spec fn votes_of(list: Seq<Asset>) -> Seq<Vote> {
    Seq::new(list.len(), |i: int| (list[i], weight(i)))
}

/// The votes of all lists, list by list.
pub open spec fn votes(lists: Seq<Vec<Asset>>) -> Seq<Vote>
    decreases lists.len(),
{
    if lists.len() == 0 {
        Seq::empty()
    } else {
        votes(lists.drop_last()) + votes_of(lists.last()@)
    }
}

pub open spec fn vote_ids(v: Seq<Vote>) -> Seq<Seq<char>> {
    v.map_values(|x: Vote| x.0.id@)
}

/// The ids that got a vote, in the order in which they are first seen.
pub open spec fn seen(v: Seq<Vote>) -> Seq<Seq<char>> {
    distinct(vote_ids(v))
}

/// The sum of the votes for an id.
pub open spec fn score(v: Seq<Vote>, id: Seq<char>) -> real
    decreases v.len(),
{
    if v.len() == 0 {
        0 as real
    } else if v.last().0.id@ == id {
        score(v.drop_last(), id) + v.last().1
    } else {
        score(v.drop_last(), id)
    }
}

/// The asset of the first vote for an id.
pub open spec fn first_asset(v: Seq<Vote>, id: Seq<char>) -> Asset
    decreases v.len(),
{
    if v.len() == 0 {
        arbitrary()
    } else if vote_ids(v.drop_last()).contains(id) {
        first_asset(v.drop_last(), id)
    } else {
        v.last().0
    }
}

/// `a` is seen before `b`.
pub open spec fn seen_before(v: Seq<Vote>, a: Seq<char>, b: Seq<char>) -> bool {
    exists|i: int, j: int|
        0 <= i < j < seen(v).len() && #[trigger] seen(v)[i] == a && #[trigger] seen(v)[j] == b
}

/// `a` comes before `b` in the fused list: its score is higher, or the scores
/// are equal and it is seen first.
pub open spec fn outranks(v: Seq<Vote>, a: Seq<char>, b: Seq<char>) -> bool {
    score(v, a) > score(v, b) || (score(v, a) == score(v, b) && seen_before(v, a, b))
}

/// The fused list: every id that got a vote, once, as it is first seen, in the
/// order of the scores.
pub open spec fn fused(v: Seq<Vote>, r: Seq<Asset>) -> bool {
    &&& r.len() == seen(v).len()
    &&& forall|i: int|
        0 <= i < r.len() ==> seen(v).contains((#[trigger] r[i]).id@) && r[i] == first_asset(
            v,
            r[i].id@,
        )
    &&& forall|i: int, j: int|
        0 <= i < j < r.len() ==> outranks(v, (#[trigger] r[i]).id@, (#[trigger] r[j]).id@)
}

// ---- scores -----------------------------------------------------------------

/// Scores are estimated in units of `2^-64`.
const UNITS: u128 = 18446744073709551616;

/// The sum of the reciprocals.
spec fn sum(places: Seq<u128>) -> real
    decreases places.len(),
{
    if places.len() == 0 {
        0 as real
    } else {
        sum(places.drop_last()) + reciprocal(places.last() as int)
    }
}

spec fn product(places: Seq<u128>) -> nat
    decreases places.len(),
{
    if places.len() == 0 {
        1
    } else {
        product(places.drop_last()) * places.last() as nat
    }
}

/// Places that a vote can come from.
spec fn are_places(places: Seq<u128>) -> bool {
    forall|i: int| 0 <= i < places.len() ==> 61 <= #[trigger] places[i] <= MAX_FACTOR
}

proof fn lemma_real_product(a: int, b: int)
    ensures
        (a * b) as real == (a as real) * (b as real),
{
    assert((a * b) as real == (a as real) * (b as real)) by (nonlinear_arith);
}

proof fn lemma_reciprocal(k: int)
    requires
        k > 0,
    ensures
        reciprocal(k) * (k as real) == 1 as real,
        reciprocal(k) > 0 as real,
{
    let x = k as real;
    assert((1 as real) / x * x == 1 as real && (1 as real) / x > 0 as real) by (nonlinear_arith)
        requires
            x > 0 as real,
    ;
}

/// A fraction and one `k`th more.
proof fn lemma_fraction_step(n: int, d: int, k: int, s: real)
    requires
        k > 0,
        n as real == s * (d as real),
    ensures
        (n * k + d) as real == (s + reciprocal(k)) * ((d * k) as real),
{
    lemma_reciprocal(k);
    lemma_real_product(n, k);
    lemma_real_product(d, k);
    let (rn, rd, rk, q) = (n as real, d as real, k as real, reciprocal(k));
    assert(rn * rk + rd == (s + q) * (rd * rk)) by (nonlinear_arith)
        requires
            rn == s * rd,
            q * rk == 1 as real,
    ;
}

/// Fractions compare as their cross products do.
proof fn lemma_cross_products(n1: int, d1: int, s1: real, n2: int, d2: int, s2: real)
    requires
        d1 > 0,
        d2 > 0,
        n1 as real == s1 * (d1 as real),
        n2 as real == s2 * (d2 as real),
    ensures
        n1 * d2 < n2 * d1 <==> s1 < s2,
{
    lemma_real_product(n1, d2);
    lemma_real_product(n2, d1);
    let (a, b, x, y) = (n1 as real, n2 as real, d1 as real, d2 as real);
    assert(a * y < b * x <==> s1 < s2) by (nonlinear_arith)
        requires
            a == s1 * x,
            b == s2 * y,
            x > 0 as real,
            y > 0 as real,
    ;
}

/// A reciprocal in units, rounded down, is less than a unit too small.
proof fn lemma_estimate(k: int)
    requires
        k > 0,
    ensures
        ((UNITS as int / k) as real) <= (UNITS as real) * reciprocal(k),
        (UNITS as real) * reciprocal(k) < ((UNITS as int / k) as real) + (1 as real),
{
    lemma_reciprocal(k);
    let u = UNITS as int;
    let w = u / k;
    assert(w * k <= u && u < (w + 1) * k) by (nonlinear_arith)
        requires
            w == u / k,
            k > 0,
    ;
    lemma_real_product(w, k);
    lemma_real_product(w + 1, k);
    let (ru, rk, q, rw) = (u as real, k as real, reciprocal(k), w as real);
    assert(rw <= ru * q && ru * q < rw + (1 as real)) by (nonlinear_arith)
        requires
            rw * rk <= ru,
            ru < (rw + (1 as real)) * rk,
            q * rk == 1 as real,
            q > 0 as real,
    ;
}

/// What an asset got in all.
struct Score {
    /// The places that it got votes for: a vote for place `k` is one `k`th.
    places: Vec<u128>,
    /// The sum in units, each vote rounded down.
    estimate: u128,
}

impl Score {
    spec fn wf(self) -> bool {
        let n = self.places@.len();
        &&& n > 0
        &&& are_places(self.places@)
        &&& self.estimate <= n * (UNITS as nat)
        &&& (self.estimate as real) <= (UNITS as real) * sum(self.places@)
        &&& (UNITS as real) * sum(self.places@) < ((self.estimate + n) as real)
    }

    spec fn worth(self) -> real {
        sum(self.places@)
    }

    /// The score of one vote.
    fn new(place: u128) -> (r: Score)
        requires
            61 <= place <= MAX_FACTOR,
        ensures
            r.wf(),
            r.worth() == reciprocal(place as int),
    {
        let mut places: Vec<u128> = Vec::new();
        places.push(place);
        let estimate: u128 = UNITS / place;
        proof {
            lemma_estimate(place as int);
            assert(places@.drop_last() =~= Seq::<u128>::empty());
            assert(sum(Seq::<u128>::empty()) == 0 as real);
            assert(UNITS as int / place as int <= UNITS) by (nonlinear_arith)
                requires
                    place >= 61,
            ;
        }
        Score { places, estimate }
    }

    /// Adds a vote.
    fn add_vote(&mut self, place: u128)
        requires
            old(self).wf(),
            61 <= place <= MAX_FACTOR,
        ensures
            final(self).wf(),
            final(self).worth() == old(self).worth() + reciprocal(place as int),
    {
        let ghost before = *self;
        let points: u128 = UNITS / place;
        let count: usize = self.places.len();
        proof {
            let n = count as int;
            lemma_estimate(place as int);
            let (u, w, r) = (UNITS as real, sum(before.places@), reciprocal(place as int));
            assert(u * (w + r) == u * w + u * r) by (nonlinear_arith);
            assert(points * 61 <= UNITS) by (nonlinear_arith)
                requires
                    points == UNITS / place,
                    place >= 61,
            ;
            assert(n * (UNITS as int) <= 0xffff_ffff_ffff_ffff * (UNITS as int)) by (nonlinear_arith)
                requires
                    n <= 0xffff_ffff_ffff_ffff,
            ;
            assert((n + 1) * (UNITS as int) == n * (UNITS as int) + UNITS) by (nonlinear_arith);
        }
        self.places.push(place);
        self.estimate = self.estimate + points;
        assert(self.places@.drop_last() =~= before.places@);
    }

    /// The numerator of the score, over the product of the places.
    fn numerator(&self) -> (r: Natural)
        requires
            self.wf(),
        ensures
            (r@ as real) == self.worth() * (product(self.places@) as real),
    {
        let mut top = Natural::zero();
        let mut bottom = Natural::one();
        let mut i: usize = 0;
        assert(self.places@.take(0) =~= Seq::<u128>::empty());
        assert((0 as real) * (1 as real) == 0 as real);
        while i < self.places.len()
            invariant
                are_places(self.places@),
                i <= self.places.len(),
                bottom@ == product(self.places@.take(i as int)),
                (top@ as real) == sum(self.places@.take(i as int)) * (bottom@ as real),
            decreases self.places.len() - i,
        {
            let k: u128 = self.places[i];
            proof {
                assert(self.places@.take(i + 1).drop_last() =~= self.places@.take(i as int));
                lemma_fraction_step(
                    top@ as int,
                    bottom@ as int,
                    k as int,
                    sum(self.places@.take(i as int)),
                );
            }
            top = top.times(k).plus(&bottom);
            bottom = bottom.times(k);
            i += 1;
        }
        assert(self.places@.take(i as int) =~= self.places@);
        top
    }

    /// Whether `self` is worth less than `other`. The estimates decide where they
    /// can; otherwise the sums are compared as fractions.
    fn less(&self, other: &Score) -> (r: bool)
        requires
            self.wf(),
            other.wf(),
        ensures
            r == (self.worth() < other.worth()),
    {
        let ghost (u, a, b) = (UNITS as real, self.worth(), other.worth());
        let votes: u128 = self.places.len() as u128;
        let other_votes: u128 = other.places.len() as u128;
        proof {
            let (n, m) = (votes as int, other_votes as int);
            assert(n * (UNITS as int) <= 0xffff_ffff_ffff_ffff * (UNITS as int) && m * (UNITS as int)
                <= 0xffff_ffff_ffff_ffff * (UNITS as int)) by (nonlinear_arith)
                requires
                    n <= 0xffff_ffff_ffff_ffff,
                    m <= 0xffff_ffff_ffff_ffff,
            ;
            assert(u * a < u * b ==> a < b) by (nonlinear_arith)
                requires
                    u > 0 as real,
            ;
            assert(u * b < u * a ==> b < a) by (nonlinear_arith)
                requires
                    u > 0 as real,
            ;
        }
        if self.estimate + votes <= other.estimate {
            return true;
        }
        if other.estimate + other_votes <= self.estimate {
            return false;
        }
        let x = self.numerator();
        let y = other.numerator();
        proof {
            lemma_product_positive(self.places@);
            lemma_product_positive(other.places@);
            let (d1, d2) = (product(self.places@), product(other.places@));
            lemma_cross_products(x@ as int, d1 as int, a, y@ as int, d2 as int, b);
        }
        scaled(x, &other.places).less(&scaled(y, &self.places))
    }
}

proof fn lemma_product_positive(places: Seq<u128>)
    requires
        are_places(places),
    ensures
        product(places) > 0,
    decreases places.len(),
{
    if places.len() > 0 {
        let past = places.drop_last();
        assert forall|i: int| 0 <= i < past.len() implies 61 <= #[trigger] past[i]
            <= MAX_FACTOR by {
            assert(past[i] == places[i]);
        }
        lemma_product_positive(past);
        let (p, l) = (product(past) as int, places[places.len() - 1] as int);
        assert(p * l > 0) by (nonlinear_arith)
            requires
                p > 0,
                l > 0,
        ;
    }
}

/// A number times all of the places.
fn scaled(n: Natural, places: &Vec<u128>) -> (r: Natural)
    requires
        are_places(places@),
    ensures
        r@ == n@ * product(places@),
{
    let ghost start = n@;
    let mut out = n;
    let mut i: usize = 0;
    assert(places@.take(0) =~= Seq::<u128>::empty());
    assert(start * 1 == start);
    while i < places.len()
        invariant
            are_places(places@),
            i <= places.len(),
            out@ == start * product(places@.take(i as int)),
        decreases places.len() - i,
    {
        let k: u128 = places[i];
        proof {
            assert(places@.take(i + 1).drop_last() =~= places@.take(i as int));
            let (p, q) = (product(places@.take(i as int)) as int, k as int);
            let s = start as int;
            assert((s * p) * q == s * (p * q)) by (nonlinear_arith);
        }
        out = out.times(k);
        i += 1;
    }
    assert(places@.take(i as int) =~= places@);
    out
}

// ---- counting the votes -----------------------------------------------------

struct Tally {
    /// The assets, in the order in which they are first seen.
    pool: Vec<Asset>,
    scores: Vec<Score>,
    /// Where each id stands in the pool.
    index: StringHashMap<usize>,
}

spec fn pool_ids(pool: Seq<Asset>) -> Seq<Seq<char>> {
    pool.map_values(|a: Asset| a.id@)
}

impl Tally {
    /// The tally counts these votes.
    spec fn counts(self, v: Seq<Vote>) -> bool {
        &&& self.pool@.len() == self.scores@.len()
        &&& pool_ids(self.pool@) == seen(v)
        &&& forall|i: int|
            0 <= i < self.pool@.len() ==> {
                &&& self.scores@[i].wf()
                &&& self.scores@[i].worth() == score(v, (#[trigger] self.pool@[i]).id@)
                &&& self.pool@[i] == first_asset(v, self.pool@[i].id@)
                &&& self.index@.contains_key(self.pool@[i].id@)
                &&& self.index@[self.pool@[i].id@] == i
            }
        &&& forall|id: Seq<char>| #[trigger]
            self.index@.contains_key(id) ==> self.index@[id] < self.pool@.len()
                && self.pool@[self.index@[id] as int].id@ == id
    }
}

/// No vote of an id leaves its score at zero, and it is not seen.
proof fn lemma_unseen(v: Seq<Vote>, id: Seq<char>)
    requires
        !vote_ids(v).contains(id),
    ensures
        score(v, id) == 0 as real,
    decreases v.len(),
{
    if v.len() > 0 {
        let past = v.drop_last();
        assert(vote_ids(v)[v.len() - 1] == v.last().0.id@);
        assert(!vote_ids(past).contains(id)) by {
            if vote_ids(past).contains(id) {
                let k = choose|k: int| 0 <= k < past.len() && vote_ids(past)[k] == id;
                assert(vote_ids(v)[k] == id);
            }
        }
        lemma_unseen(past, id);
    }
}

fn count_vote(tally: &mut Tally, asset: &Asset, place: u128, Ghost(v): Ghost<Seq<Vote>>)
    requires
        old(tally).counts(v),
        61 <= place <= MAX_FACTOR,
    ensures
        final(tally).counts(v.push((*asset, reciprocal(place as int)))),
{
    let ghost id = asset.id@;
    let ghost now = v.push((*asset, reciprocal(place as int)));
    let ghost before = *tally;
    proof {
        assert(now.drop_last() =~= v);
        assert(vote_ids(now).drop_last() =~= vote_ids(v));
        assert(vote_ids(now).last() == id);
        law_distinct(vote_ids(v));
    }
    let at: Option<usize> = match tally.index.get(asset.id.as_str()) {
        Some(i) => Some(*i),
        None => None,
    };
    match at {
        Some(i) => {
            proof {
                assert(tally.index@.contains_key(id));
                assert(pool_ids(tally.pool@)[i as int] == id);
                assert(seen(v).contains(id));
                assert(before.scores@[i as int].worth() == score(v, before.pool@[i as int].id@));
            }
            tally.scores[i].add_vote(place);
            proof {
                assert(seen(now) == seen(v));
                assert(vote_ids(v).contains(id));
                assert forall|k: int| 0 <= k < tally.pool@.len() implies {
                    &&& tally.scores@[k].wf()
                    &&& tally.scores@[k].worth() == score(now, (#[trigger] tally.pool@[k]).id@)
                    &&& tally.pool@[k] == first_asset(now, tally.pool@[k].id@)
                    &&& tally.index@.contains_key(tally.pool@[k].id@)
                    &&& tally.index@[tally.pool@[k].id@] == k
                } by {
                    let other = before.pool@[k].id@;
                    assert(before.index@[other] == k);
                    assert(seen(v)[k] == other) by {
                        assert(pool_ids(before.pool@)[k] == other);
                    }
                    assert(seen(v).contains(other));
                    assert(vote_ids(v).contains(other));
                }
            }
        },
        None => {
            proof {
                assert(!seen(v).contains(id)) by {
                    if seen(v).contains(id) {
                        let k = choose|k: int| 0 <= k < seen(v).len() && seen(v)[k] == id;
                        assert(pool_ids(tally.pool@)[k] == id);
                        assert(tally.pool@[k].id@ == id);
                    }
                }
                assert(!vote_ids(v).contains(id));
                lemma_unseen(v, id);
            }
            let at_end: usize = tally.pool.len();
            tally.pool.push(asset.clone());
            tally.scores.push(Score::new(place));
            tally.index.insert(asset.id.clone(), at_end);
            proof {
                assert(pool_ids(tally.pool@) =~= seen(v).push(id));
                assert(seen(now) == seen(v).push(id));
                assert forall|k: int| 0 <= k < tally.pool@.len() implies {
                    &&& tally.scores@[k].wf()
                    &&& tally.scores@[k].worth() == score(now, (#[trigger] tally.pool@[k]).id@)
                    &&& tally.pool@[k] == first_asset(now, tally.pool@[k].id@)
                    &&& tally.index@.contains_key(tally.pool@[k].id@)
                    &&& tally.index@[tally.pool@[k].id@] == k
                } by {
                    if k < before.pool@.len() {
                        let other = before.pool@[k].id@;
                        assert(pool_ids(before.pool@)[k] == other);
                        assert(seen(v).contains(other));
                        assert(vote_ids(v).contains(other));
                        assert(before.index@[other] == k);
                    }
                }
                assert forall|x: Seq<char>| #[trigger] tally.index@.contains_key(x) implies
                    tally.index@[x] < tally.pool@.len()
                    && tally.pool@[tally.index@[x] as int].id@ == x by {
                    if x != id {
                        assert(before.index@.contains_key(x));
                    }
                }
            }
        },
    }
}

// ---- sorting by score -------------------------------------------------------

/// Higher scores first, and the lower index first among equal scores.
spec fn ahead(scores: Seq<Score>, a: usize, b: usize) -> bool {
    let (x, y) = (scores[a as int].worth(), scores[b as int].worth());
    x > y || (x == y && a < b)
}

/// `order` lists the indices below `n`, each once, by their scores.
spec fn ordered(scores: Seq<Score>, order: Seq<usize>, n: int) -> bool {
    &&& order.len() == n
    &&& forall|i: int| 0 <= i < order.len() ==> (#[trigger] order[i]) < n
    &&& forall|i: int, j: int|
        0 <= i < j < order.len() ==> ahead(scores, #[trigger] order[i], #[trigger] order[j])
}

fn order_by_score(scores: &Vec<Score>) -> (r: Vec<usize>)
    requires
        forall|i: int| 0 <= i < scores.len() ==> (#[trigger] scores@[i]).wf(),
    ensures
        ordered(scores@, r@, scores.len() as int),
{
    let mut order: Vec<usize> = Vec::new();
    let mut k: usize = 0;
    while k < scores.len()
        invariant
            forall|i: int| 0 <= i < scores.len() ==> (#[trigger] scores@[i]).wf(),
            k <= scores.len(),
            ordered(scores@, order@, k as int),
        decreases scores.len() - k,
    {
        let mut p: usize = k;
        while p > 0 && scores[order[p - 1]].less(&scores[k])
            invariant
                forall|i: int| 0 <= i < scores.len() ==> (#[trigger] scores@[i]).wf(),
                k < scores.len(),
                p <= k,
                ordered(scores@, order@, k as int),
                forall|i: int|
                    p <= i < k ==> scores@[(#[trigger] order@[i]) as int].worth()
                        < scores@[k as int].worth(),
            decreases p,
        {
            p -= 1;
        }
        let ghost before = order@;
        order.insert(p, k);
        proof {
            let now = order@;
            assert forall|i: int, j: int| 0 <= i < j < now.len() implies ahead(
                scores@,
                #[trigger] now[i],
                #[trigger] now[j],
            ) by {
                let a = if i < p {
                    i
                } else {
                    i - 1
                };
                let b = if j < p {
                    j
                } else {
                    j - 1
                };
                if i != p && j != p {
                    assert(now[i] == before[a]);
                    assert(now[j] == before[b]);
                } else if j == p {
                    assert(now[i] == before[i]);
                    if i < p - 1 {
                        assert(ahead(scores@, before[i], before[p - 1]));
                    }
                } else {
                    assert(now[j] == before[j - 1]);
                }
            }
        }
        k += 1;
    }
    order
}

// ---- fusing -----------------------------------------------------------------

/// Merges ranked lists into one. Every list gives `1 / (RRF_K + rank)` to each
/// of its assets; the assets are sorted by what they got in all, and those
/// with equal scores stay in the order in which they are first seen.
pub fn rrf_merge(lists: &Vec<Vec<Asset>>) -> (r: Vec<Asset>)
    ensures
        fused(votes(lists@), r@),
{
    let mut tally = Tally { pool: Vec::new(), scores: Vec::new(), index: StringHashMap::new() };
    let ghost mut v: Seq<Vote> = Seq::empty();
    assert(pool_ids(tally.pool@) =~= seen(v));
    let mut l: usize = 0;
    while l < lists.len()
        invariant
            l <= lists.len(),
            v == votes(lists@.take(l as int)),
            tally.counts(v),
        decreases lists.len() - l,
    {
        let list = &lists[l];
        let ghost base = v;
        proof {
            assert(lists@.take(l + 1).drop_last() =~= lists@.take(l as int));
        }
        let mut k: usize = 0;
        assert(base + votes_of(list@).take(0) =~= base);
        while k < list.len()
            invariant
                k <= list.len(),
                v == base + votes_of(list@).take(k as int),
                tally.counts(v),
            decreases list.len() - k,
        {
            let place: u128 = RRF_K as u128 + k as u128 + 1;
            count_vote(&mut tally, &list[k], place, Ghost(v));
            proof {
                let now = v.push((list@[k as int], reciprocal(place as int)));
                assert(now =~= base + votes_of(list@).take(k + 1));
                v = now;
            }
            k += 1;
        }
        proof {
            assert(votes_of(list@).take(k as int) =~= votes_of(list@));
        }
        l += 1;
    }
    assert(lists@.take(l as int) =~= lists@);
    assert forall|i: int| 0 <= i < tally.scores.len() implies (#[trigger] tally.scores@[i]).wf() by {
        assert(tally.pool@[i].id@ == pool_ids(tally.pool@)[i]);
    }
    let order = order_by_score(&tally.scores);
    let mut out: Vec<Asset> = Vec::new();
    let mut i: usize = 0;
    while i < order.len()
        invariant
            tally.counts(v),
            ordered(tally.scores@, order@, tally.scores.len() as int),
            i <= order.len(),
            out.len() == i,
            forall|j: int| 0 <= j < i ==> (#[trigger] out@[j]) == tally.pool@[order@[j] as int],
        decreases order.len() - i,
    {
        out.push(tally.pool[order[i]].clone());
        i += 1;
    }
    proof {
        let ids = pool_ids(tally.pool@);
        assert forall|j: int| 0 <= j < out@.len() implies seen(v).contains((#[trigger] out@[j]).id@)
            && out@[j] == first_asset(v, out@[j].id@) by {
            assert(ids[order@[j] as int] == out@[j].id@);
        }
        assert forall|a: int, b: int| 0 <= a < b < out@.len() implies outranks(
            v,
            (#[trigger] out@[a]).id@,
            (#[trigger] out@[b]).id@,
        ) by {
            let x = order@[a];
            let y = order@[b];
            assert(ahead(tally.scores@, x, y));
            assert(ids[x as int] == out@[a].id@);
            assert(ids[y as int] == out@[b].id@);
            assert(tally.pool@[x as int] == out@[a]);
            assert(tally.pool@[y as int] == out@[b]);
            if x < y {
                assert(seen(v)[x as int] == out@[a].id@ && seen(v)[y as int] == out@[b].id@);
            }
        }
    }
    out
}

// ---- what the fusion guarantees ---------------------------------------------

/// The fused list holds every id that is in a list, and none twice.
pub proof fn law_fusion_keeps_every_id_once(lists: Seq<Vec<Asset>>, r: Seq<Asset>)
    requires
        fused(votes(lists), r),
    ensures
        forall|i: int, j: int|
            0 <= i < j < r.len() ==> (#[trigger] r[i]).id@ != (#[trigger] r[j]).id@,
        forall|l: int, k: int|
            0 <= l < lists.len() && 0 <= k < lists[l]@.len() ==> exists|i: int|
                0 <= i < r.len() && (#[trigger] r[i]).id@ == (#[trigger] lists[l]@[k]).id@,
{
    let v = votes(lists);
    law_distinct(vote_ids(v));
    assert forall|i: int, j: int| 0 <= i < j < r.len() implies (#[trigger] r[i]).id@ != (
    #[trigger] r[j]).id@ by {
        assert(outranks(v, r[i].id@, r[j].id@));
        if r[i].id@ == r[j].id@ {
            let (a, b) = choose|a: int, b: int|
                0 <= a < b < seen(v).len() && #[trigger] seen(v)[a] == r[i].id@
                    && #[trigger] seen(v)[b] == r[j].id@;
            assert(seen(v)[a] == seen(v)[b]);
        }
    }
    assert forall|l: int, k: int|
        0 <= l < lists.len() && 0 <= k < lists[l]@.len() implies exists|i: int|
        0 <= i < r.len() && (#[trigger] r[i]).id@ == (#[trigger] lists[l]@[k]).id@ by {
        let id = lists[l]@[k].id@;
        lemma_listed_is_voted(lists, l, k);
        assert(seen(v).contains(id));
        let ids = pool_ids(r);
        lemma_all_ranked(seen(v), ids, id);
        let i = choose|i: int| 0 <= i < ids.len() && ids[i] == id;
        assert(r[i].id@ == id);
    }
}

proof fn lemma_listed_is_voted(lists: Seq<Vec<Asset>>, l: int, k: int)
    requires
        0 <= l < lists.len(),
        0 <= k < lists[l]@.len(),
    ensures
        vote_ids(votes(lists)).contains(lists[l]@[k].id@),
    decreases lists.len(),
{
    let past = lists.drop_last();
    let before = votes(past);
    let id = lists[l]@[k].id@;
    if l < past.len() {
        assert(past[l] == lists[l]);
        lemma_listed_is_voted(past, l, k);
        let i = choose|i: int| 0 <= i < before.len() && vote_ids(before)[i] == id;
        assert(vote_ids(votes(lists))[i] == id);
    } else {
        assert(vote_ids(votes(lists))[before.len() + k] == id);
    }
}

/// A list without repetitions that is as long as another one without
/// repetitions, and has only items of it, has all of them.
proof fn lemma_all_ranked(all: Seq<Seq<char>>, some: Seq<Seq<char>>, x: Seq<char>)
    requires
        all.no_duplicates(),
        some.no_duplicates(),
        some.len() == all.len(),
        forall|i: int| 0 <= i < some.len() ==> all.contains(#[trigger] some[i]),
        all.contains(x),
    ensures
        exists|i: int| 0 <= i < some.len() && some[i] == x,
    decreases all.len(),
{
    if !(exists|i: int| 0 <= i < some.len() && some[i] == x) {
        let at = choose|k: int| 0 <= k < all.len() && all[k] == x;
        let rest = all.remove(at);
        assert forall|i: int| 0 <= i < some.len() implies rest.contains(#[trigger] some[i]) by {
            let k = choose|k: int| 0 <= k < all.len() && all[k] == some[i];
            if k < at {
                assert(rest[k] == some[i]);
            } else {
                assert(rest[k - 1] == some[i]);
            }
        }
        all.unique_seq_to_set();
        some.unique_seq_to_set();
        rest.unique_seq_to_set();
        assert(some.to_set().subset_of(rest.to_set()));
        vstd::set_lib::lemma_len_subset(some.to_set(), rest.to_set());
    }
}

/// Merging gives the fused list of the lists.
pub proof fn law_merging_fuses(lists: &Vec<Vec<Asset>>, r: Vec<Asset>)
    requires
        call_ensures(rrf_merge, (lists,), r),
    ensures
        fused(votes(lists@), r@),
{
}

} // verus!
