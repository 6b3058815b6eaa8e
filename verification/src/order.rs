//! Orders on postings, and sorting a collection by one of them.

use crate::repository::{Job, JobView};
use crate::text::{text_before, text_lt};
use vstd::prelude::*;

verus! {

/// The direction in which a key is sorted.
#[derive(Debug, Clone, Copy, PartialEq, Eq, Structural)]
pub enum Direction {
    Ascending,
    Descending,
}

/// A sort key for postings: first by date, and among postings of one date by
/// company, each in its own direction.
#[derive(Debug, Clone, Copy)]
pub struct Order {
    pub date: Direction,
    pub company: Direction,
}

/// Whether the text `a` comes strictly before `b` in the given direction.
pub open spec fn directed(a: Seq<char>, b: Seq<char>, direction: Direction) -> bool {
    match direction {
        Direction::Ascending => text_before(a, b),
        Direction::Descending => text_before(b, a),
    }
}

/// Whether the posting `a` comes strictly before `b` under `order`.
pub open spec fn precedes(a: JobView, b: JobView, order: Order) -> bool {
    directed(a.date_posted, b.date_posted, order.date) || (a.date_posted == b.date_posted
        && directed(a.company, b.company, order.company))
}

/// `sorted` with `x` put in its place: behind every posting that does not
/// come strictly after it, and so behind its equals.
pub open spec fn inserted(sorted: Seq<JobView>, x: JobView, order: Order) -> Seq<JobView>
    decreases sorted.len(),
{
    if sorted.len() > 0 && precedes(x, sorted.last(), order) {
        inserted(sorted.drop_last(), x, order).push(sorted.last())
    } else {
        sorted.push(x)
    }
}

/// The postings of `jobs` in the order `order`, postings that the order does
/// not tell apart staying in the order in which they stand in `jobs`.
pub open spec fn sorted_by(jobs: Seq<JobView>, order: Order) -> Seq<JobView>
    decreases jobs.len(),
{
    if jobs.len() == 0 {
        jobs
    } else {
        inserted(sorted_by(jobs.drop_last(), order), jobs.last(), order)
    }
}

/// Whether no posting of `jobs` stands behind one that it strictly precedes.
pub open spec fn in_order(jobs: Seq<JobView>, order: Order) -> bool {
    forall|i: int, j: int| 0 <= i < j < jobs.len() ==> !precedes(jobs[j], jobs[i], order)
}

/// No text comes before itself, and of two texts at most one comes before
/// the other.
pub proof fn lemma_text_before_asymmetric(a: Seq<char>, b: Seq<char>)
    ensures
        !(text_before(a, b) && text_before(b, a)),
    decreases a.len(),
{
    if a.len() > 0 && b.len() > 0 && a[0] == b[0] {
        lemma_text_before_asymmetric(a.skip(1), b.skip(1));
    }
}

/// The order on texts is transitive.
pub proof fn lemma_text_before_transitive(a: Seq<char>, b: Seq<char>, c: Seq<char>)
    requires
        text_before(a, b),
        text_before(b, c),
    ensures
        text_before(a, c),
    decreases a.len(),
{
    if a.len() > 0 && b.len() > 0 && c.len() > 0 && a[0] == b[0] && b[0] == c[0] {
        lemma_text_before_transitive(a.skip(1), b.skip(1), c.skip(1));
    }
}

/// Of two different texts one comes before the other.
pub proof fn lemma_text_before_total(a: Seq<char>, b: Seq<char>)
    requires
        a != b,
    ensures
        text_before(a, b) || text_before(b, a),
    decreases a.len(),
{
    if a.len() == 0 || b.len() == 0 {
        if a.len() == 0 && b.len() == 0 {
            assert(a =~= b);
        }
    } else if a[0] == b[0] {
        if a.skip(1) == b.skip(1) {
            assert(a =~= seq![a[0]] + a.skip(1));
            assert(b =~= seq![b[0]] + b.skip(1));
        }
        lemma_text_before_total(a.skip(1), b.skip(1));
    }
}

/// Where `x` does not come before `y` and `y` does not come before `z`,
/// `x` does not come before `z`.
pub proof fn lemma_not_precedes_transitive(x: JobView, y: JobView, z: JobView, order: Order)
    requires
        !precedes(y, x, order),
        !precedes(z, y, order),
    ensures
        !precedes(z, x, order),
{
    let (xd, yd, zd) = (x.date_posted, y.date_posted, z.date_posted);
    let (xc, yc, zc) = (x.company, y.company, z.company);
    if precedes(z, x, order) {
        if zd != xd {
            // z's date is strictly before x's
            if yd != xd {
                lemma_text_before_total(yd, xd);
                lemma_text_before_asymmetric(yd, xd);
                if zd != yd {
                    lemma_text_before_total(zd, yd);
                    if order.date == Direction::Ascending {
                        lemma_text_before_transitive(zd, xd, yd);
                    } else {
                        lemma_text_before_transitive(yd, xd, zd);
                    }
                }
            }
        } else {
            // same date: z's company is strictly before x's
            if yd != xd {
                lemma_text_before_total(yd, xd);
                lemma_text_before_asymmetric(yd, xd);
            } else if yc != xc {
                lemma_text_before_total(yc, xc);
                lemma_text_before_asymmetric(yc, xc);
                if zc != yc {
                    lemma_text_before_total(zc, yc);
                    if order.company == Direction::Ascending {
                        lemma_text_before_transitive(zc, xc, yc);
                    } else {
                        lemma_text_before_transitive(yc, xc, zc);
                    }
                }
            }
        }
    }
}

/// Of two postings at most one strictly precedes the other.
pub proof fn lemma_precedes_asymmetric(x: JobView, y: JobView, order: Order)
    ensures
        !(precedes(x, y, order) && precedes(y, x, order)),
{
    lemma_text_before_asymmetric(x.date_posted, y.date_posted);
    lemma_text_before_asymmetric(x.company, y.company);
}

/// Putting a posting in its place keeps the others and adds that one.
pub proof fn lemma_inserted_is_permutation(sorted: Seq<JobView>, x: JobView, order: Order)
    ensures
        inserted(sorted, x, order).to_multiset() == sorted.to_multiset().insert(x),
        inserted(sorted, x, order).len() == sorted.len() + 1,
    decreases sorted.len(),
{
    broadcast use vstd::seq_lib::group_to_multiset_ensures;

    if sorted.len() > 0 && precedes(x, sorted.last(), order) {
        let front = sorted.drop_last();
        lemma_inserted_is_permutation(front, x, order);
        assert(front.push(sorted.last()) =~= sorted);
        assert(inserted(sorted, x, order).to_multiset() =~= sorted.to_multiset().insert(x));
    }
}

/// Putting a posting in its place keeps a sorted sequence sorted.
pub proof fn lemma_inserted_in_order(sorted: Seq<JobView>, x: JobView, order: Order)
    requires
        in_order(sorted, order),
    ensures
        in_order(inserted(sorted, x, order), order),
        forall|y: JobView|
            (forall|k: int| 0 <= k < sorted.len() ==> !precedes(y, sorted[k], order))
                && !precedes(y, x, order) ==> (forall|k: int|
                0 <= k < inserted(sorted, x, order).len() ==> !precedes(
                    y,
                    #[trigger] inserted(sorted, x, order)[k],
                    order,
                )),
    decreases sorted.len(),
{
    let out = inserted(sorted, x, order);
    lemma_inserted_is_permutation(sorted, x, order);
    if sorted.len() > 0 && precedes(x, sorted.last(), order) {
        let front = sorted.drop_last();
        let last = sorted.last();
        assert(in_order(front, order)) by {
            assert forall|i: int, j: int| 0 <= i < j < front.len() implies !precedes(
                front[j],
                front[i],
                order,
            ) by {
                assert(!precedes(sorted[j], sorted[i], order));
            }
        }
        lemma_inserted_in_order(front, x, order);
        lemma_inserted_is_permutation(front, x, order);
        let mid = inserted(front, x, order);
        lemma_precedes_asymmetric(x, last, order);
        assert(forall|k: int| 0 <= k < front.len() ==> !precedes(last, front[k], order)) by {
            assert forall|k: int| 0 <= k < front.len() implies !precedes(
                last,
                front[k],
                order,
            ) by {
                assert(!precedes(sorted[sorted.len() - 1], sorted[k], order));
            }
        }
        assert forall|i: int, j: int| 0 <= i < j < out.len() implies !precedes(
            out[j],
            out[i],
            order,
        ) by {
            if j < mid.len() {
                assert(!precedes(mid[j], mid[i], order));
            } else {
                assert(!precedes(last, mid[i], order));
            }
        }
        assert forall|y: JobView|
            (forall|k: int| 0 <= k < sorted.len() ==> !precedes(y, sorted[k], order))
                && !precedes(y, x, order) implies (forall|k: int|
            0 <= k < out.len() ==> !precedes(y, #[trigger] out[k], order)) by {
            assert forall|k: int| 0 <= k < front.len() implies !precedes(y, front[k], order) by {
                assert(!precedes(y, sorted[k], order));
            }
            assert forall|k: int| 0 <= k < out.len() implies !precedes(
                y,
                #[trigger] out[k],
                order,
            ) by {
                if k < mid.len() {
                    assert(!precedes(y, mid[k], order));
                } else {
                    assert(!precedes(y, sorted[sorted.len() - 1], order));
                }
            }
        }
    } else {
        assert forall|i: int, j: int| 0 <= i < j < out.len() implies !precedes(
            out[j],
            out[i],
            order,
        ) by {
            if j < sorted.len() {
                assert(!precedes(sorted[j], sorted[i], order));
            } else if sorted.len() > 0 {
                // x stands last; it does not precede the former last, which does not
                // precede anything before it
                let last = sorted.last();
                if i < sorted.len() - 1 {
                    assert(!precedes(sorted[sorted.len() - 1], sorted[i], order));
                    lemma_not_precedes_transitive(sorted[i], last, x, order);
                }
            }
        }
    }
}

/// Sorting keeps every posting, as often as it occurs, and puts the
/// postings in order.
pub proof fn lemma_sorted_by(jobs: Seq<JobView>, order: Order)
    ensures
        sorted_by(jobs, order).to_multiset() == jobs.to_multiset(),
        sorted_by(jobs, order).len() == jobs.len(),
        in_order(sorted_by(jobs, order), order),
    decreases jobs.len(),
{
    broadcast use vstd::seq_lib::group_to_multiset_ensures;

    if jobs.len() > 0 {
        let front = jobs.drop_last();
        lemma_sorted_by(front, order);
        lemma_inserted_is_permutation(sorted_by(front, order), jobs.last(), order);
        lemma_inserted_in_order(sorted_by(front, order), jobs.last(), order);
        assert(front.push(jobs.last()) =~= jobs);
    }
}

/// Putting `x` in its place is inserting it at the position behind which
/// every posting comes strictly after it and before which the nearest one
/// does not.
pub proof fn lemma_inserted_at(sorted: Seq<JobView>, x: JobView, order: Order, at: int)
    requires
        0 <= at <= sorted.len(),
        forall|k: int| at <= k < sorted.len() ==> precedes(x, sorted[k], order),
        at > 0 ==> !precedes(x, sorted[at - 1], order),
    ensures
        inserted(sorted, x, order) == sorted.insert(at, x),
    decreases sorted.len() - at,
{
    if at < sorted.len() {
        let front = sorted.drop_last();
        lemma_inserted_at(front, x, order, at);
        assert(front.insert(at, x).push(sorted.last()) =~= sorted.insert(at, x));
    } else {
        assert(sorted.push(x) =~= sorted.insert(at, x));
    }
}

/// Whether the posting `a` comes strictly before `b` under `order`.
pub fn comes_before(a: &Job, b: &Job, order: Order) -> (before: bool)
    ensures
        before == precedes(a@, b@, order),
{
    let by_date = match order.date {
        Direction::Ascending => text_lt(a.date_posted.as_str(), b.date_posted.as_str()),
        Direction::Descending => text_lt(b.date_posted.as_str(), a.date_posted.as_str()),
    };
    if by_date {
        return true;
    }
    if a.date_posted != b.date_posted {
        return false;
    }
    match order.company {
        Direction::Ascending => text_lt(a.company.as_str(), b.company.as_str()),
        Direction::Descending => text_lt(b.company.as_str(), a.company.as_str()),
    }
}

/// A sorted copy of `jobs`. The sort is stable.
pub fn sorted(jobs: &Vec<Job>, order: Order) -> (out: Vec<Job>)
    ensures
        out.deep_view() == sorted_by(jobs.deep_view(), order),
{
    let mut out: Vec<Job> = Vec::new();
    let ghost all = jobs.deep_view();
    assert(all.take(0) =~= Seq::<JobView>::empty());
    assert(out.deep_view() =~= sorted_by(all.take(0), order));
    let mut i: usize = 0;
    while i < jobs.len()
        invariant
            i <= jobs.len(),
            all == jobs.deep_view(),
            out.len() == i,
            out.deep_view() == sorted_by(all.take(i as int), order),
        decreases jobs.len() - i,
    {
        let job = jobs[i].clone();
        let ghost before = out.deep_view();
        let mut at: usize = out.len();
        while at > 0 && comes_before(&job, &out[at - 1], order)
            invariant
                at <= out.len(),
                before == out.deep_view(),
                forall|k: int| at <= k < out.len() ==> precedes(job@, before[k], order),
            decreases at,
        {
            assert(before[at - 1] == out[at - 1]@);
            at -= 1;
        }
        proof {
            if at > 0 {
                assert(before[at - 1] == out[at - 1]@);
            }
            lemma_inserted_at(before, job@, order, at as int);
            assert(all.take(i + 1).drop_last() =~= all.take(i as int));
            assert(all.take(i + 1).last() == job@);
        }
        out.insert(at, job);
        assert(out.deep_view() =~= before.insert(at as int, job@));
        i += 1;
    }
    assert(all.take(jobs.len() as int) =~= all);
    out
}

} // verus!
