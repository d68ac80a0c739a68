//! Two ways to bring two arrays of numbers into one ascending array.

use vstd::prelude::*;

verus! {

/// Whether no number of `s` is followed, anywhere later, by a smaller one.
pub open spec fn is_ascending(s: Seq<i32>) -> bool {
    forall|i: int, j: int| 0 <= i <= j < s.len() ==> s[i] <= s[j]
}

/// The merge of `a` and `b`: at each step the smaller of the two first
/// numbers is taken, and the first number of `b` where they are equal.
pub open spec fn merged(a: Seq<i32>, b: Seq<i32>) -> Seq<i32>
    decreases a.len() + b.len(),
{
    if a.len() == 0 {
        b
    } else if b.len() == 0 {
        a
    } else if a[0] < b[0] {
        seq![a[0]] + merged(a.drop_first(), b)
    } else {
        seq![b[0]] + merged(a, b.drop_first())
    }
}

/// `sort` of the standard library, on a vector of `i32`: afterwards the
/// vector holds the numbers it held before, each as often as before, in
/// ascending order.
#[verifier::external_body]
fn sort_ascending(numbers: &mut Vec<i32>)
    ensures
        is_ascending(final(numbers)@),
        final(numbers)@.to_multiset() == old(numbers)@.to_multiset(),
{
    numbers.sort();
}

/// The numbers of `a` and of `b` in one ascending array, by putting them
/// together and sorting.
pub fn solve1(a: Vec<i32>, b: Vec<i32>) -> (ans: Vec<i32>)
    ensures
        is_ascending(ans@),
        ans@.to_multiset() == (a@ + b@).to_multiset(),
{
    let n = a.len();
    let m = b.len();
    let mut ans: Vec<i32> = Vec::new();
    let mut i: usize = 0;
    while i < n
        invariant
            n == a.len(),
            i <= n,
            ans@ =~= a@.take(i as int),
        decreases n - i,
    {
        ans.push(a[i]);
        i += 1;
    }
    let mut j: usize = 0;
    while j < m
        invariant
            n == a.len(),
            m == b.len(),
            j <= m,
            ans@ =~= a@ + b@.take(j as int),
        decreases m - j,
    {
        ans.push(b[j]);
        j += 1;
    }
    assert(ans@ =~= a@ + b@);
    sort_ascending(&mut ans);
    ans
}

/// The merge takes every number of `a` and of `b`, each as often as it is
/// there; and where both are ascending, so is the merge.
pub proof fn lemma_merged(a: Seq<i32>, b: Seq<i32>)
    ensures
        merged(a, b).to_multiset() =~= (a + b).to_multiset(),
        merged(a, b).len() == a.len() + b.len(),
        is_ascending(a) && is_ascending(b) ==> is_ascending(merged(a, b)),
        is_ascending(a) && is_ascending(b) && merged(a, b).len() > 0 ==> (a.len() > 0 && merged(
            a,
            b,
        )[0] == a[0]) || (b.len() > 0 && merged(a, b)[0] == b[0]),
    decreases a.len() + b.len(),
{
    broadcast use vstd::multiset::group_multiset_axioms;

    if a.len() == 0 {
        assert(a + b =~= b);
    } else if b.len() == 0 {
        assert(a + b =~= a);
    } else if a[0] < b[0] {
        let rest = merged(a.drop_first(), b);
        lemma_merged(a.drop_first(), b);
        assert(a + b =~= seq![a[0]] + (a.drop_first() + b));
        vstd::seq_lib::lemma_multiset_commutative(seq![a[0]], rest);
        vstd::seq_lib::lemma_multiset_commutative(seq![a[0]], a.drop_first() + b);
        if is_ascending(a) && is_ascending(b) {
            lemma_ascending_tail(a);
            lemma_ascending_cons(a[0], rest, a.drop_first(), b);
        }
    } else {
        let rest = merged(a, b.drop_first());
        lemma_merged(a, b.drop_first());
        vstd::seq_lib::lemma_multiset_commutative(seq![b[0]], rest);
        vstd::seq_lib::lemma_multiset_commutative(a, b);
        vstd::seq_lib::lemma_multiset_commutative(a, b.drop_first());
        assert(b =~= seq![b[0]] + b.drop_first());
        vstd::seq_lib::lemma_multiset_commutative(seq![b[0]], b.drop_first());
        if is_ascending(a) && is_ascending(b) {
            lemma_ascending_tail(b);
            lemma_ascending_cons(b[0], rest, a, b.drop_first());
        }
    }
}

/// An ascending sequence without its first number is ascending.
proof fn lemma_ascending_tail(s: Seq<i32>)
    requires
        is_ascending(s),
        s.len() > 0,
    ensures
        is_ascending(s.drop_first()),
        forall|i: int| 0 <= i < s.len() ==> s[0] <= #[trigger] s[i],
{
    assert forall|i: int, j: int| 0 <= i <= j < s.drop_first().len() implies s.drop_first()[i]
        <= s.drop_first()[j] by {
        assert(s[i + 1] <= s[j + 1]);
    }
}

/// A number that is no greater than the first numbers of two ascending
/// sequences may be put before their ascending merge.
proof fn lemma_ascending_cons(x: i32, rest: Seq<i32>, a: Seq<i32>, b: Seq<i32>)
    requires
        is_ascending(rest),
        is_ascending(a),
        is_ascending(b),
        a.len() > 0 ==> x <= a[0],
        b.len() > 0 ==> x <= b[0],
        rest.len() == a.len() + b.len(),
        rest.len() > 0 ==> (a.len() > 0 && rest[0] == a[0]) || (b.len() > 0 && rest[0] == b[0]),
    ensures
        is_ascending(seq![x] + rest),
{
    let s = seq![x] + rest;
    assert forall|i: int, j: int| 0 <= i <= j < s.len() implies s[i] <= s[j] by {
        if i == 0 && j > 0 {
            assert(x <= rest[0]);
            assert(rest[0] <= rest[j - 1]);
        } else if i > 0 {
            assert(rest[i - 1] <= rest[j - 1]);
        }
    }
}

/// Two ascending arrays with the same numbers, each as often in the one as
/// in the other, are the same array.
pub proof fn lemma_ascending_unique(s: Seq<i32>, t: Seq<i32>)
    requires
        is_ascending(s),
        is_ascending(t),
        s.to_multiset() =~= t.to_multiset(),
    ensures
        s =~= t,
    decreases s.len(),
{
    broadcast use vstd::multiset::group_multiset_axioms;

    vstd::seq_lib::to_multiset_len(s);
    vstd::seq_lib::to_multiset_len(t);
    if s.len() > 0 {
        s.to_multiset_ensures();
        t.to_multiset_ensures();
        lemma_ascending_tail(s);
        lemma_ascending_tail(t);
        assert(s.contains(s[0]));
        assert(t.to_multiset().count(s[0]) > 0);
        assert(t.contains(s[0]));
        assert(t.contains(t[0]));
        assert(s.to_multiset().count(t[0]) > 0);
        assert(s.contains(t[0]));
        assert(s[0] == t[0]);
        assert(s.drop_first() =~= s.remove(0));
        assert(t.drop_first() =~= t.remove(0));
        vstd::seq_lib::to_multiset_remove(s, 0);
        vstd::seq_lib::to_multiset_remove(t, 0);
        lemma_ascending_unique(s.drop_first(), t.drop_first());
        assert(s =~= seq![s[0]] + s.drop_first());
        assert(t =~= seq![t[0]] + t.drop_first());
    }
}

/// The numbers of `a` and of `b` in one array, by merging: the smaller of
/// the two first numbers not yet taken goes next, and that of `b` where they
/// are equal. Where `a` and `b` are ascending, so is the result.
pub fn solve2(a: Vec<i32>, b: Vec<i32>) -> (ans: Vec<i32>)
    ensures
        ans@ == merged(a@, b@),
        ans@.to_multiset() == (a@ + b@).to_multiset(),
        is_ascending(a@) && is_ascending(b@) ==> is_ascending(ans@),
{
    let n = a.len();
    let m = b.len();
    let mut ans: Vec<i32> = Vec::new();
    let mut i: usize = 0;
    let mut j: usize = 0;
    assert(a@.skip(0) =~= a@ && b@.skip(0) =~= b@);
    while i < n || j < m
        invariant
            n == a.len(),
            m == b.len(),
            i <= n,
            j <= m,
            ans@ + merged(a@.skip(i as int), b@.skip(j as int)) =~= merged(a@, b@),
        decreases (n - i) + (m - j),
    {
        let ghost rest_a = a@.skip(i as int);
        let ghost rest_b = b@.skip(j as int);
        let ghost before = ans@;
        if i == n {
            ans.push(b[j]);
            j += 1;
            proof {
                assert(rest_b.drop_first() =~= b@.skip(j as int));
                lemma_merged_left_empty(rest_a, rest_b.drop_first());
                assert(merged(rest_a, rest_b) =~= seq![b@[j - 1]] + merged(
                    rest_a,
                    rest_b.drop_first(),
                ));
            }
        } else if j == m {
            ans.push(a[i]);
            i += 1;
            proof {
                assert(rest_a.drop_first() =~= a@.skip(i as int));
                lemma_merged_right_empty(rest_a.drop_first(), rest_b);
                assert(merged(rest_a, rest_b) =~= seq![a@[i - 1]] + merged(
                    rest_a.drop_first(),
                    rest_b,
                ));
            }
        } else if a[i] < b[j] {
            ans.push(a[i]);
            i += 1;
            proof {
                assert(rest_a.drop_first() =~= a@.skip(i as int));
            }
        } else {
            ans.push(b[j]);
            j += 1;
            proof {
                assert(rest_b.drop_first() =~= b@.skip(j as int));
            }
        }
        assert(ans@ + merged(a@.skip(i as int), b@.skip(j as int)) =~= before + merged(
            rest_a,
            rest_b,
        ));
    }
    proof {
        assert(merged(a@.skip(i as int), b@.skip(j as int)) =~= Seq::<i32>::empty());
        lemma_merged(a@, b@);
    }
    ans
}

/// With nothing on the left, the merge is what is on the right.
proof fn lemma_merged_left_empty(a: Seq<i32>, b: Seq<i32>)
    requires
        a.len() == 0,
    ensures
        merged(a, b) == b,
{
}

/// With nothing on the right, the merge is what is on the left.
proof fn lemma_merged_right_empty(a: Seq<i32>, b: Seq<i32>)
    requires
        b.len() == 0,
    ensures
        merged(a, b) == a,
{
}

/// On ascending arrays the two ways give the same array.
pub proof fn lemma_sorting_is_merging(a: Seq<i32>, b: Seq<i32>, sorted: Seq<i32>)
    requires
        is_ascending(a),
        is_ascending(b),
        is_ascending(sorted),
        sorted.to_multiset() =~= (a + b).to_multiset(),
    ensures
        sorted == merged(a, b),
{
    lemma_merged(a, b);
    lemma_ascending_unique(sorted, merged(a, b));
}

} // verus!
