//! Views of sequences and options of what has a view, and what is collected over a sequence.

use vstd::prelude::*;

verus! {

/// The views of the members of `s`, in order.
pub open spec fn views<T: View>(s: Seq<T>) -> Seq<T::V> {
    s.map_values(|t: T| t@)
}

/// The view of what `o` holds.
pub open spec fn option_view<T: View>(o: Option<T>) -> Option<T::V> {
    match o {
        Some(t) => Some(t@),
        None => None,
    }
}

/// All that `f` gives for the members of `s`, in order.
pub open spec fn each<A, B>(s: Seq<A>, f: spec_fn(A) -> Seq<B>) -> Seq<B>
    decreases s.len(),
{
    if s.len() == 0 {
        Seq::empty()
    } else {
        f(s[0]) + each(s.drop_first(), f)
    }
}

/// What `f` gives for two sequences behind each other is what it gives for each, behind each other.
pub proof fn lemma_each_add<A, B>(s: Seq<A>, t: Seq<A>, f: spec_fn(A) -> Seq<B>)
    ensures
        each(s + t, f) == each(s, f) + each(t, f),
    decreases s.len(),
{
    if s.len() == 0 {
        assert(s + t =~= t);
        assert(each(s, f) + each(t, f) =~= each(t, f));
    } else {
        lemma_each_add(s.drop_first(), t, f);
        assert((s + t).drop_first() =~= s.drop_first() + t);
        assert(each(s + t, f) =~= each(s, f) + each(t, f));
    }
}

/// What `f` gives for all that `g` gives for the members of `s`, is what both together give.
pub proof fn lemma_each_each<A, B, C>(
    s: Seq<A>,
    g: spec_fn(A) -> Seq<B>,
    f: spec_fn(B) -> Seq<C>,
)
    ensures
        each(each(s, g), f) == each(s, |a: A| each(g(a), f)),
    decreases s.len(),
{
    if s.len() > 0 {
        lemma_each_each(s.drop_first(), g, f);
        lemma_each_add(g(s[0]), each(s.drop_first(), g), f);
    }
}

/// What `f` gives for the members of `s` after `m` was applied to them.
pub proof fn lemma_each_map<A, B, C>(
    s: Seq<A>,
    m: spec_fn(A) -> B,
    f: spec_fn(B) -> Seq<C>,
    g: spec_fn(A) -> Seq<C>,
)
    requires
        forall|i: int| 0 <= i < s.len() ==> f(m(#[trigger] s[i])) == g(s[i]),
    ensures
        each(s.map_values(m), f) == each(s, g),
    decreases s.len(),
{
    if s.len() > 0 {
        let rest = s.drop_first();
        assert forall|i: int| 0 <= i < rest.len() implies f(m(#[trigger] rest[i])) == g(
            rest[i],
        ) by {
            assert(rest[i] == s[i + 1]);
        }
        lemma_each_map(rest, m, f, g);
        assert(s.map_values(m).drop_first() =~= rest.map_values(m));
        assert(f(m(s[0])) == g(s[0]));
    }
}

/// Where one value is given for each member, the values come in the order of the members.
pub proof fn lemma_each_one<A, B>(s: Seq<A>, f: spec_fn(A) -> Seq<B>, h: spec_fn(A) -> B)
    requires
        forall|i: int| 0 <= i < s.len() ==> f(#[trigger] s[i]) == seq![h(s[i])],
    ensures
        each(s, f) == s.map_values(h),
    decreases s.len(),
{
    if s.len() > 0 {
        let rest = s.drop_first();
        assert forall|i: int| 0 <= i < rest.len() implies f(#[trigger] rest[i]) == seq![
            h(rest[i]),
        ] by {
            assert(rest[i] == s[i + 1]);
        }
        lemma_each_one(rest, f, h);
        assert(f(s[0]) == seq![h(s[0])]);
        assert(each(s, f) =~= s.map_values(h));
    } else {
        assert(each(s, f) =~= s.map_values(h));
    }
}

/// Where nothing is given for any member, there is nothing.
pub proof fn lemma_each_none<A, B>(s: Seq<A>, f: spec_fn(A) -> Seq<B>)
    requires
        forall|i: int| 0 <= i < s.len() ==> f(#[trigger] s[i]).len() == 0,
    ensures
        each(s, f) == Seq::<B>::empty(),
    decreases s.len(),
{
    if s.len() > 0 {
        let rest = s.drop_first();
        assert forall|i: int| 0 <= i < rest.len() implies f(#[trigger] rest[i]).len() == 0 by {
            assert(rest[i] == s[i + 1]);
        }
        lemma_each_none(rest, f);
        assert(f(s[0]).len() == 0);
        assert(each(s, f) =~= Seq::<B>::empty());
    }
}

/// All that is given for the members of `s` is given for one of them, and the other way round.
pub proof fn lemma_each_members<A, B>(s: Seq<A>, f: spec_fn(A) -> Seq<B>)
    ensures
        forall|n: int|
            0 <= n < each(s, f).len() ==> exists|k: int|
                0 <= k < s.len() && f(#[trigger] s[k]).contains(#[trigger] each(s, f)[n]),
        forall|k: int, b: B|
            #![trigger s[k], each(s, f).contains(b)]
            0 <= k < s.len() && f(s[k]).contains(b) ==> each(s, f).contains(b),
    decreases s.len(),
{
    if s.len() > 0 {
        let rest = s.drop_first();
        lemma_each_members(rest, f);
        let head = f(s[0]);
        let tail = each(rest, f);
        let all = each(s, f);
        assert forall|n: int| 0 <= n < all.len() implies exists|k: int|
            0 <= k < s.len() && f(#[trigger] s[k]).contains(#[trigger] all[n]) by {
            if n < head.len() {
                assert(head[n] == all[n]);
                assert(f(s[0]).contains(all[n]));
            } else {
                assert(tail[n - head.len()] == all[n]);
                let k = choose|k: int|
                    0 <= k < rest.len() && f(#[trigger] rest[k]).contains(tail[n - head.len()]);
                assert(f(s[k + 1]).contains(all[n]));
            }
        }
        assert forall|k: int, b: B|
            #![trigger s[k], all.contains(b)]
            0 <= k < s.len() && f(s[k]).contains(b) implies all.contains(b) by {
            if k == 0 {
                let i = choose|i: int| 0 <= i < head.len() && head[i] == b;
                assert(all[i] == b);
            } else {
                assert(rest[k - 1] == s[k]);
                assert(tail.contains(b));
                let i = choose|i: int| 0 <= i < tail.len() && tail[i] == b;
                assert(all[head.len() + i] == b);
            }
        }
    }
}

/// What `f` gives for one member alone.
pub proof fn lemma_each_single<A, B>(a: A, f: spec_fn(A) -> Seq<B>)
    ensures
        each(seq![a], f) == f(a),
{
    reveal_with_fuel(each, 2);
    assert(seq![a].drop_first() =~= Seq::<A>::empty());
    assert(each(seq![a], f) =~= f(a));
}

/// What `f` gives for the `k`th member stands behind what it gives for those before.
pub proof fn lemma_each_at<A, B>(s: Seq<A>, f: spec_fn(A) -> Seq<B>, k: int)
    requires
        0 <= k < s.len(),
    ensures
        each(s.take(k + 1), f).len() == each(s.take(k), f).len() + f(s[k]).len(),
        each(s.take(k), f).len() + f(s[k]).len() <= each(s, f).len(),
        forall|j: int|
            0 <= j < f(s[k]).len() ==> each(s, f)[each(s.take(k), f).len() + j]
                == #[trigger] f(s[k])[j],
{
    let one = seq![s[k]];
    assert(s.take(k + 1) =~= s.take(k) + one);
    assert(s =~= s.take(k) + one + s.skip(k + 1));
    lemma_each_add(s.take(k), one, f);
    lemma_each_add(s.take(k) + one, s.skip(k + 1), f);
    lemma_each_single(s[k], f);
}

/// Appending to a sequence appends to its views.
pub broadcast proof fn lemma_views_push<T: View>(s: Seq<T>, t: T)
    ensures
        #[trigger] views(s.push(t)) == views(s).push(t@),
{
    assert(views(s.push(t)) =~= views(s).push(t@));
}

/// Concatenating sequences concatenates their views.
pub broadcast proof fn lemma_views_add<T: View>(s: Seq<T>, t: Seq<T>)
    ensures
        #[trigger] views(s + t) == views(s) + views(t),
{
    assert(views(s + t) =~= views(s) + views(t));
}

} // verus!
