//! The order of texts, and lists in that order.
use crate::split;
use crate::text;
use vstd::multiset::Multiset;
use vstd::prelude::*;

verus! {

/// `a` comes before `b`: at the first place where they differ it has the smaller character, or it
/// has ended there.
pub open spec fn before(a: Seq<char>, b: Seq<char>) -> bool
    decreases a.len(),
{
    if b.len() == 0 {
        false
    } else if a.len() == 0 {
        true
    } else if a[0] == b[0] {
        before(a.drop_first(), b.drop_first())
    } else {
        a[0] < b[0]
    }
}

/// Of two different texts, one comes before the other, and only one.
pub proof fn lemma_before_total(a: Seq<char>, b: Seq<char>)
    ensures
        a != b <==> before(a, b) || before(b, a),
        !(before(a, b) && before(b, a)),
    decreases a.len(),
{
    if a.len() > 0 && b.len() > 0 {
        if a[0] == b[0] {
            let x = a.drop_first();
            let y = b.drop_first();
            lemma_before_total(x, y);
            if x == y {
                assert(a =~= seq![a[0]] + x);
                assert(b =~= seq![b[0]] + y);
            }
        }
    } else if a.len() == 0 && b.len() == 0 {
        assert(a =~= b);
    }
}

/// What comes before an earlier text comes before a later one.
pub proof fn lemma_before_transitive(a: Seq<char>, b: Seq<char>, c: Seq<char>)
    requires
        before(a, b),
        before(b, c),
    ensures
        before(a, c),
    decreases a.len(),
{
    if a.len() > 0 && a[0] == b[0] && b[0] == c[0] {
        lemma_before_transitive(a.drop_first(), b.drop_first(), c.drop_first());
    }
}

/// Tells whether `a` comes before `b`.
pub fn is_before(a: &str, b: &str) -> (r: bool)
    ensures
        r == before(a@, b@),
{
    let x: Vec<char> = text::chars_of(a);
    let y: Vec<char> = text::chars_of(b);
    let mut i: usize = 0;
    proof {
        assert(a@.skip(0) =~= a@);
        assert(b@.skip(0) =~= b@);
    }
    while i < x.len() && i < y.len() && x[i] == y[i]
        invariant
            i <= x@.len(),
            i <= y@.len(),
            x@ == a@,
            y@ == b@,
            before(a@, b@) == before(a@.skip(i as int), b@.skip(i as int)),
        decreases x.len() - i,
    {
        proof {
            assert(a@.skip(i as int).drop_first() =~= a@.skip(i + 1));
            assert(b@.skip(i as int).drop_first() =~= b@.skip(i + 1));
        }
        i = i + 1;
    }
    if i >= y.len() {
        false
    } else if i >= x.len() {
        true
    } else {
        x[i] < y[i]
    }
}

/// No text of the list comes before one that stands ahead of it.
pub open spec fn ascending(list: Seq<Seq<char>>) -> bool {
    forall|i: int, j: int|
        0 <= i < j < list.len() ==> !before(#[trigger] list[j], #[trigger] list[i])
}

/// Each text of the list comes before those that follow it.
pub open spec fn strictly_ascending(list: Seq<Seq<char>>) -> bool {
    forall|i: int, j: int|
        0 <= i < j < list.len() ==> before(#[trigger] list[i], #[trigger] list[j])
}

/// The list with `x` ahead of the first text that `x` comes before.
pub open spec fn inserted(list: Seq<Seq<char>>, x: Seq<char>) -> Seq<Seq<char>>
    decreases list.len(),
{
    if list.len() == 0 {
        seq![x]
    } else if before(x, list[0]) {
        seq![x] + list
    } else {
        seq![list[0]] + inserted(list.drop_first(), x)
    }
}

/// The list in order.
pub open spec fn sorted(list: Seq<Seq<char>>) -> Seq<Seq<char>>
    decreases list.len(),
{
    if list.len() == 0 {
        seq![]
    } else {
        inserted(sorted(list.drop_last()), list.last())
    }
}

/// The list without texts that are the same as the one just ahead of them.
pub open spec fn deduped(list: Seq<Seq<char>>) -> Seq<Seq<char>>
    decreases list.len(),
{
    if list.len() < 2 {
        list
    } else if list[list.len() - 1] == list[list.len() - 2] {
        deduped(list.drop_last())
    } else {
        deduped(list.drop_last()).push(list.last())
    }
}

proof fn lemma_inserted(list: Seq<Seq<char>>, x: Seq<char>)
    requires
        ascending(list),
    ensures
        ascending(inserted(list, x)),
        inserted(list, x).to_multiset() == list.to_multiset().insert(x),
    decreases list.len(),
{
    broadcast use vstd::seq_lib::group_to_multiset_ensures;

    if list.len() == 0 {
        assert(inserted(list, x) =~= list.push(x));
    } else if before(x, list[0]) {
        let r = seq![x] + list;
        assert(r =~= list.insert(0, x));
        assert(r.to_multiset() =~= list.to_multiset().insert(x));
        assert forall|i: int, j: int| 0 <= i < j < r.len() implies !before(
            #[trigger] r[j],
            #[trigger] r[i],
        ) by {
            assert(r[j] == list[j - 1]);
            if i == 0 {
                lemma_before_total(x, list[0]);
                if j > 1 {
                    if before(list[j - 1], x) {
                        lemma_before_transitive(list[j - 1], x, list[0]);
                    }
                }
            } else {
                assert(r[i] == list[i - 1]);
            }
        }
    } else {
        let rest = list.drop_first();
        assert forall|i: int, j: int| 0 <= i < j < rest.len() implies !before(
            #[trigger] rest[j],
            #[trigger] rest[i],
        ) by {
            assert(rest[i] == list[i + 1] && rest[j] == list[j + 1]);
        }
        lemma_inserted(rest, x);
        let tail = inserted(rest, x);
        let r = seq![list[0]] + tail;
        assert(r =~= tail.insert(0, list[0]));
        assert(list =~= rest.insert(0, list[0]));
        assert(r.to_multiset() =~= list.to_multiset().insert(x));
        assert forall|i: int, j: int| 0 <= i < j < r.len() implies !before(
            #[trigger] r[j],
            #[trigger] r[i],
        ) by {
            assert(r[j] == tail[j - 1]);
            if i == 0 {
                assert(tail.contains(tail[j - 1]));
                assert(tail.to_multiset().count(tail[j - 1]) > 0);
                if tail[j - 1] != x {
                    assert(rest.to_multiset().count(tail[j - 1]) > 0);
                    assert(rest.contains(tail[j - 1]));
                    let k = choose|k: int| 0 <= k < rest.len() && rest[k] == tail[j - 1];
                    assert(list[k + 1] == tail[j - 1]);
                }
            } else {
                assert(r[i] == tail[i - 1]);
            }
        }
    }
}

/// Sorting puts the texts in order, and keeps each as often as it was there.
pub proof fn law_sorted(list: Seq<Seq<char>>)
    ensures
        ascending(sorted(list)),
        sorted(list).to_multiset() == list.to_multiset(),
    decreases list.len(),
{
    broadcast use vstd::seq_lib::group_to_multiset_ensures;

    if list.len() == 0 {
        assert(list.to_multiset() =~= Multiset::empty());
        assert(sorted(list).to_multiset() =~= Multiset::empty());
    } else {
        let rest = list.drop_last();
        law_sorted(rest);
        lemma_inserted(sorted(rest), list.last());
        assert(list =~= rest.push(list.last()));
    }
}

proof fn lemma_deduped(list: Seq<Seq<char>>)
    requires
        ascending(list),
    ensures
        strictly_ascending(deduped(list)),
        list.len() > 0 ==> deduped(list).len() > 0 && deduped(list).last() == list.last(),
        forall|x: Seq<char>| #[trigger] deduped(list).contains(x) <==> list.contains(x),
    decreases list.len(),
{
    if list.len() >= 2 {
        let rest = list.drop_last();
        assert forall|i: int, j: int| 0 <= i < j < rest.len() implies !before(
            #[trigger] rest[j],
            #[trigger] rest[i],
        ) by {
            assert(rest[i] == list[i] && rest[j] == list[j]);
        }
        lemma_deduped(rest);
        let d = deduped(rest);
        let n = list.len() as int;
        assert(rest.last() == list[n - 2]);
        assert forall|x: Seq<char>| list.contains(x) <==> rest.contains(x) || x == list.last() by {
            if list.contains(x) {
                let k = choose|k: int| 0 <= k < list.len() && list[k] == x;
                if k < rest.len() {
                    assert(rest[k] == x);
                }
            }
            if rest.contains(x) {
                let k = choose|k: int| 0 <= k < rest.len() && rest[k] == x;
                assert(list[k] == x);
            }
            assert(list.contains(list[n - 1]));
        }
        if list[n - 1] == list[n - 2] {
            assert(rest.contains(rest[n - 2]));
        } else {
            let r = d.push(list.last());
            lemma_before_total(list[n - 1], list[n - 2]);
            assert(before(list[n - 2], list[n - 1]));
            assert forall|i: int, j: int| 0 <= i < j < r.len() implies before(
                #[trigger] r[i],
                #[trigger] r[j],
            ) by {
                if j == d.len() {
                    if i < d.len() - 1 {
                        assert(before(d[i], d[d.len() - 1]));
                        lemma_before_transitive(d[i], d[d.len() - 1], list[n - 1]);
                    }
                } else {
                    assert(r[i] == d[i] && r[j] == d[j]);
                }
            }
            assert forall|x: Seq<char>| #[trigger] r.contains(x) <==> list.contains(x) by {
                if r.contains(x) {
                    let k = choose|k: int| 0 <= k < r.len() && r[k] == x;
                    if k < d.len() {
                        assert(d[k] == x);
                        assert(d.contains(x));
                    }
                }
                if rest.contains(x) {
                    assert(d.contains(x));
                    let k = choose|k: int| 0 <= k < d.len() && d[k] == x;
                    assert(r[k] == x);
                }
                assert(r[d.len() as int] == list.last());
            }
        }
    }
}

/// Sorted and without repetitions, a list has each of its texts once, in order.
pub proof fn law_sorted_deduped(list: Seq<Seq<char>>)
    ensures
        strictly_ascending(deduped(sorted(list))),
        forall|x: Seq<char>| #[trigger]
            deduped(sorted(list)).contains(x) <==> list.contains(x),
{
    broadcast use vstd::seq_lib::group_to_multiset_ensures;

    law_sorted(list);
    lemma_deduped(sorted(list));
    assert forall|x: Seq<char>| #[trigger]
        deduped(sorted(list)).contains(x) <==> list.contains(x) by {
        assert(sorted(list).contains(x) <==> sorted(list).to_multiset().count(x) > 0);
        assert(list.contains(x) <==> list.to_multiset().count(x) > 0);
    }
}

/// Puts `x` ahead of the first text that it comes before.
fn insert_sorted(list: &mut Vec<String>, x: String)
    ensures
        split::views(final(list)@) == inserted(split::views(old(list)@), x@),
{
    let ghost all = split::views(list@);
    let ghost target = inserted(all, x@);
    let mut i: usize = 0;
    proof {
        assert(all.skip(0) =~= all);
        assert(all.take(0) + inserted(all, x@) =~= target);
    }
    while i < list.len() && !is_before(x.as_str(), list[i].as_str())
        invariant
            i <= list@.len(),
            all == split::views(list@),
            target == all.take(i as int) + inserted(all.skip(i as int), x@),
        decreases list.len() - i,
    {
        proof {
            let rest = all.skip(i as int);
            assert(rest.drop_first() =~= all.skip(i + 1));
            assert(all.take(i + 1) + inserted(all.skip(i + 1), x@) =~= all.take(i as int)
                + inserted(rest, x@));
        }
        i = i + 1;
    }
    list.insert(i, x);
    proof {
        let rest = all.skip(i as int);
        if i < all.len() {
            assert(inserted(rest, x@) =~= seq![x@] + rest);
        } else {
            assert(inserted(rest, x@) =~= seq![x@]);
        }
        assert(split::views(list@) =~= all.take(i as int) + inserted(rest, x@));
    }
}

/// The texts of `list` in order.
pub fn sort(list: &Vec<String>) -> (r: Vec<String>)
    ensures
        split::views(r@) == sorted(split::views(list@)),
{
    let ghost all = split::views(list@);
    let mut r: Vec<String> = Vec::new();
    let mut i: usize = 0;
    proof {
        assert(split::views(r@) =~= seq![]);
    }
    while i < list.len()
        invariant
            i <= list@.len(),
            all == split::views(list@),
            split::views(r@) == sorted(all.take(i as int)),
        decreases list.len() - i,
    {
        insert_sorted(&mut r, list[i].clone());
        proof {
            assert(all.take(i + 1).drop_last() =~= all.take(i as int));
            assert(all.take(i + 1).last() == list@[i as int]@);
        }
        i = i + 1;
    }
    proof {
        assert(all.take(i as int) =~= all);
    }
    r
}

/// The texts of `list` without those that are the same as the one just ahead of them.
pub fn dedup(list: &Vec<String>) -> (r: Vec<String>)
    ensures
        split::views(r@) == deduped(split::views(list@)),
{
    let ghost all = split::views(list@);
    let mut r: Vec<String> = Vec::new();
    let mut i: usize = 0;
    proof {
        assert(split::views(r@) =~= all.take(0));
    }
    while i < list.len()
        invariant
            i <= list@.len(),
            all == split::views(list@),
            split::views(r@) == deduped(all.take(i as int)),
        decreases list.len() - i,
    {
        let ghost so_far = r@;
        proof {
            assert(all.take(i + 1).drop_last() =~= all.take(i as int));
        }
        if i == 0 || !text::same(list[i].as_str(), list[i - 1].as_str()) {
            r.push(list[i].clone());
            proof {
                split::lemma_views_push(so_far, list@[i as int]);
                if i == 0 {
                    assert(split::views(r@) =~= all.take(1));
                }
            }
        }
        i = i + 1;
    }
    proof {
        assert(all.take(i as int) =~= all);
    }
    r
}

} // verus!
