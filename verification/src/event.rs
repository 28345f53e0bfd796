//! The combinators of events: choosing among alternatives, wrapping results,
//! and the order in which a choice tries its ready alternatives.
use vstd::prelude::*;
use rand::seq::SliceRandom;

verus! {

/// An argument of `choose`: a single base event, or a choice whose
/// alternatives are spliced in.
pub enum ChoiceItem<A> {
    Single(A),
    Many(Vec<A>),
}

/// The alternatives that one argument of `choose` contributes.
pub open spec fn item_alternatives<A>(item: ChoiceItem<A>) -> Seq<A> {
    match item {
        ChoiceItem::Single(a) => seq![a],
        ChoiceItem::Many(v) => v@,
    }
}

/// The concatenation of a sequence of sequences.
pub open spec fn concat<A>(ss: Seq<Seq<A>>) -> Seq<A>
    decreases ss.len(),
{
    if ss.len() == 0 {
        Seq::empty()
    } else {
        concat(ss.drop_last()) + ss.last()
    }
}

/// The alternatives of the choice that `choose` builds from its arguments.
pub open spec fn choice_of<A>(items: Seq<ChoiceItem<A>>) -> Seq<A> {
    concat(items.map_values(|it: ChoiceItem<A>| item_alternatives(it)))
}

/// Builds the flat list of alternatives of a choice: base events are taken as
/// they are and nested choices contribute their alternatives, in order.
pub fn flatten_alternatives<A>(items: Vec<ChoiceItem<A>>) -> (alts: Vec<A>)
    ensures
        alts@ == choice_of(items@),
{
    let ghost orig = items@;
    let ghost ss = orig.map_values(|it: ChoiceItem<A>| item_alternatives(it));
    let mut items = items;
    let mut alts: Vec<A> = Vec::new();
    let n = items.len();
    let mut k: usize = 0;
    while k < n
        invariant
            n == orig.len(),
            ss == orig.map_values(|it: ChoiceItem<A>| item_alternatives(it)),
            k <= n,
            items@ == orig.skip(k as int),
            alts@ == concat(ss.take(k as int)),
        decreases n - k,
    {
        let item = items.remove(0);
        assert(item == orig[k as int]);
        assert(ss.take(k + 1).drop_last() =~= ss.take(k as int));
        match item {
            ChoiceItem::Single(a) => {
                alts.push(a);
                assert(alts@ =~= concat(ss.take(k as int)) + seq![a]);
            },
            ChoiceItem::Many(v) => {
                let mut v = v;
                alts.append(&mut v);
            },
        }
        assert(items@ =~= orig.skip(k + 1));
        k = k + 1;
    }
    assert(ss.take(n as int) =~= ss);
    alts
}

/// Appends a wrap function to the wraps of a base event: wraps run in the
/// order in which they were added, the innermost first.
pub fn wrap_base<P>(wraps: Vec<P>, transform: P) -> (r: Vec<P>)
    ensures
        r@ == wraps@.push(transform),
{
    let mut wraps = wraps;
    wraps.push(transform);
    wraps
}

/// Wraps every alternative of a choice with (a clone of) the same transform:
/// wrapping distributes over choice.
pub fn wrap_choice<P: Clone>(alts: Vec<Vec<P>>, transform: &P) -> (r: Vec<Vec<P>>)
    ensures
        r@.len() == alts@.len(),
        forall|i: int|
            0 <= i < alts@.len() ==> (#[trigger] r@[i])@.len() == alts@[i]@.len() + 1
                && r@[i]@.drop_last() == alts@[i]@ && cloned(*transform, r@[i]@.last()),
{
    let ghost orig = alts@;
    let mut alts = alts;
    let mut r: Vec<Vec<P>> = Vec::new();
    let n = alts.len();
    let mut k: usize = 0;
    while k < n
        invariant
            n == orig.len(),
            k <= n,
            alts@ == orig.skip(k as int),
            r@.len() == k,
            forall|i: int|
                0 <= i < k ==> (#[trigger] r@[i])@.len() == orig[i]@.len() + 1
                    && r@[i]@.drop_last() == orig[i]@ && cloned(*transform, r@[i]@.last()),
        decreases n - k,
    {
        let a = alts.remove(0);
        assert(a == orig[k as int]);
        let t = transform.clone();
        let w = wrap_base(a, t);
        assert(w@.drop_last() =~= orig[k as int]@);
        r.push(w);
        assert(alts@ =~= orig.skip(k + 1));
        k = k + 1;
    }
    r
}

/// The positions of the alternatives whose poll said they are ready, in order.
pub fn enabled_indices(polls: &Vec<bool>) -> (r: Vec<usize>)
    ensures
        r@ == Seq::new(polls@.len(), |i: int| i).filter(|i: int| polls@[i]).map_values(
            |i: int| i as usize,
        ),
        forall|k: int| 0 <= k < r@.len() ==> (#[trigger] r@[k]) < polls@.len() && polls@[r@[k] as int],
        forall|i: int| 0 <= i < polls@.len() && polls@[i] ==> r@.contains(i as usize),
{
    let ghost all = Seq::new(polls@.len(), |i: int| i);
    let ghost p = |i: int| polls@[i];
    let mut r: Vec<usize> = Vec::new();
    let n = polls.len();
    let mut i: usize = 0;
    while i < n
        invariant
            n == polls@.len(),
            i <= n,
            all == Seq::new(polls@.len(), |i: int| i),
            p == (|i: int| polls@[i]),
            r@ == all.take(i as int).filter(p).map_values(|j: int| j as usize),
            forall|k: int| 0 <= k < r@.len() ==> (#[trigger] r@[k]) < i && polls@[r@[k] as int],
            forall|j: int| 0 <= j < i && polls@[j] ==> r@.contains(j as usize),
        decreases n - i,
    {
        proof {
            reveal(Seq::filter);
            assert(all.take(i + 1).drop_last() =~= all.take(i as int));
            assert(all.take(i + 1).last() == i as int);
        }
        if polls[i] {
            let ghost old_r = r@;
            r.push(i);
            proof {
                assert(r@ =~= old_r.push(i));
                assert(all.take(i + 1).filter(p) == all.take(i as int).filter(p).push(i as int));
                assert(r@ =~= all.take(i + 1).filter(p).map_values(|j: int| j as usize));
                assert(r@[old_r.len() as int] == i);
                assert forall|j: int| 0 <= j < i + 1 && polls@[j] implies r@.contains(j as usize) by {
                    if j < i {
                        let w = choose|w: int| 0 <= w < old_r.len() && old_r[w] == j as usize;
                        assert(r@[w] == j as usize);
                    } else {
                        assert(r@[old_r.len() as int] == j as usize);
                    }
                }
            }
        } else {
            proof {
                assert(all.take(i + 1).filter(p) == all.take(i as int).filter(p));
            }
        }
        i = i + 1;
    }
    proof {
        assert(all.take(n as int) =~= all);
    }
    r
}

/// `rand::seq::SliceRandom::shuffle` with the thread-local generator
/// `rand::rng()`: reorders the items at random; the result is a permutation
/// of what was there. Which permutation comes out is left unsaid.
#[verifier::external_body]
fn shuffle_indices(v: &mut Vec<usize>)
    ensures
        final(v)@.len() == old(v)@.len(),
        final(v)@.to_multiset() == old(v)@.to_multiset(),
{
    v.shuffle(&mut rand::rng())
}

/// The order in which a choice tries the alternatives that polled ready: a
/// random permutation of their positions, so that no ready alternative is
/// preferred over another.
pub fn try_order(polls: &Vec<bool>) -> (order: Vec<usize>)
    ensures
        order@.to_multiset() == enabled_seq(polls@).to_multiset(),
        order@.len() == enabled_seq(polls@).len(),
        forall|k: int| 0 <= k < order@.len() ==> (#[trigger] order@[k]) < polls@.len() && polls@[order@[k] as int],
{
    let mut order = enabled_indices(polls);
    let ghost before = order@;
    shuffle_indices(&mut order);
    proof {
        assert forall|k: int| 0 <= k < order@.len() implies (#[trigger] order@[k]) < polls@.len()
            && polls@[order@[k] as int] by {
            let x = order@[k];
            assert(order@.to_multiset().count(x) > 0) by {
                order@.to_multiset_ensures();
                assert(order@.contains(x));
            }
            before.to_multiset_ensures();
            assert(before.contains(x));
            let w = choose|w: int| 0 <= w < before.len() && before[w] == x;
            assert(before[w] == x);
        }
    }
    order
}

/// The positions of the ready alternatives, in order.
pub open spec fn enabled_seq(polls: Seq<bool>) -> Seq<usize> {
    Seq::new(polls.len(), |i: int| i).filter(|i: int| polls[i]).map_values(|i: int| i as usize)
}

/// The positions `0..n` in a random order: the order in which a guarded
/// choice polls its alternatives.
pub fn shuffled_positions(n: usize) -> (order: Vec<usize>)
    ensures
        order@.len() == n,
        order@.to_multiset() == Seq::new(n as nat, |i: int| i as usize).to_multiset(),
{
    let mut v: Vec<usize> = Vec::new();
    let mut i: usize = 0;
    while i < n
        invariant
            i <= n,
            v@ == Seq::new(i as nat, |j: int| j as usize),
        decreases n - i,
    {
        v.push(i);
        assert(v@ =~= Seq::new((i + 1) as nat, |j: int| j as usize));
        i = i + 1;
    }
    shuffle_indices(&mut v);
    v
}

/// The alternatives that lose once `winner` has fired: every other position,
/// in order. Each is aborted and cancelled.
pub fn losers(n: usize, winner: usize) -> (r: Vec<usize>)
    ensures
        r@ == Seq::new(n as nat, |i: int| i as usize).filter(|i: usize| i != winner),
{
    let ghost all = Seq::new(n as nat, |i: int| i as usize);
    let ghost p = |i: usize| i != winner;
    let mut r: Vec<usize> = Vec::new();
    let mut i: usize = 0;
    while i < n
        invariant
            i <= n,
            all == Seq::new(n as nat, |i: int| i as usize),
            p == (|i: usize| i != winner),
            r@ == all.take(i as int).filter(p),
        decreases n - i,
    {
        proof {
            reveal(Seq::filter);
            assert(all.take(i + 1).drop_last() =~= all.take(i as int));
        }
        if i != winner {
            r.push(i);
        }
        i = i + 1;
    }
    assert(all.take(n as int) =~= all);
    r
}

/// Choosing among several choices is choosing among all their alternatives:
/// the choice built from two runs of arguments is the first's alternatives
/// followed by the second's, so nested choices flatten.
pub proof fn lemma_concat_append<A>(x: Seq<Seq<A>>, y: Seq<Seq<A>>)
    ensures
        concat(x + y) == concat(x) + concat(y),
    decreases y.len(),
{
    if y.len() == 0 {
        assert(x + y =~= x);
        assert(concat(x) + Seq::<A>::empty() =~= concat(x));
    } else {
        lemma_concat_append(x, y.drop_last());
        assert((x + y).drop_last() =~= x + y.drop_last());
        assert((x + y).last() == y.last());
        assert(concat(x) + concat(y.drop_last()) + y.last() =~= concat(x) + (concat(y.drop_last()) + y.last()));
    }
}

/// Nested choices flatten: `choose` over two runs of arguments gives the
/// alternatives of the first run followed by those of the second.
pub proof fn lemma_choice_of_append<A>(x: Seq<ChoiceItem<A>>, y: Seq<ChoiceItem<A>>)
    ensures
        choice_of(x + y) == choice_of(x) + choice_of(y),
{
    let f = |it: ChoiceItem<A>| item_alternatives(it);
    assert((x + y).map_values(f) =~= x.map_values(f) + y.map_values(f));
    lemma_concat_append(x.map_values(f), y.map_values(f));
}

/// Transforming every alternative commutes with flattening: wrapping a
/// choice wraps each of its alternatives, whichever argument of `choose` it
/// came from.
pub proof fn lemma_concat_map<A, B>(ss: Seq<Seq<A>>, f: spec_fn(A) -> B)
    ensures
        concat(ss.map_values(|s: Seq<A>| s.map_values(f))) == concat(ss).map_values(f),
    decreases ss.len(),
{
    let g = |s: Seq<A>| s.map_values(f);
    if ss.len() == 0 {
        assert(concat(ss).map_values(f) =~= Seq::<B>::empty());
    } else {
        lemma_concat_map(ss.drop_last(), f);
        assert(ss.map_values(g).drop_last() =~= ss.drop_last().map_values(g));
        assert((concat(ss.drop_last()) + ss.last()).map_values(f) =~= concat(ss.drop_last()).map_values(f)
            + ss.last().map_values(f));
    }
}

/// How a sync proceeds on a choice with `n` alternatives.
#[derive(Debug, Clone, Copy, PartialEq, Eq, Structural)]
pub enum ChoicePlan {
    /// No alternatives: the sync fails.
    NoAlternatives,
    /// One alternative: it is synced as a base event.
    Single,
    /// Several: poll all, try the ready ones in random order, else block on all.
    Race,
}

/// The plan for syncing a choice of `n` alternatives.
pub fn plan_choice(n: usize) -> (p: ChoicePlan)
    ensures
        n == 0 ==> p == ChoicePlan::NoAlternatives,
        n == 1 ==> p == ChoicePlan::Single,
        n > 1 ==> p == ChoicePlan::Race,
{
    if n == 0 {
        ChoicePlan::NoAlternatives
    } else if n == 1 {
        ChoicePlan::Single
    } else {
        ChoicePlan::Race
    }
}

/// The first of the values a procedure returned, if it returned any: what a
/// wrap, a guard thunk or a custom event hands on.
pub fn first_value<T>(values: Vec<T>) -> (r: Option<T>)
    ensures
        values@.len() == 0 ==> r is None,
        values@.len() > 0 ==> r == Some(values@[0]),
{
    let mut values = values;
    if values.len() == 0 {
        None
    } else {
        Some(values.remove(0))
    }
}

/// Wraps compose left to right: wrapping with `f` and then with `g` runs
/// the event's own wraps, then `f`, then `g`.
pub proof fn lemma_wraps_compose<P>(wraps: Seq<P>, f: P, g: P)
    ensures
        wraps.push(f).push(g) == wraps + seq![f, g],
        wraps.push(f).push(g)[wraps.len() as int] == f,
        wraps.push(f).push(g).last() == g,
{
    assert(wraps.push(f).push(g) =~= wraps + seq![f, g]);
}

/// `choose` builds its choice argument by argument: no arguments give no
/// alternatives, a nested choice contributes exactly all of its own
/// alternatives in order, and a base event contributes itself.
pub proof fn lemma_choice_of_steps<A>(items: Seq<ChoiceItem<A>>, v: Vec<A>, a: A)
    ensures
        choice_of(Seq::<ChoiceItem<A>>::empty()) == Seq::<A>::empty(),
        choice_of(items.push(ChoiceItem::Many(v))) == choice_of(items) + v@,
        choice_of(items.push(ChoiceItem::Single(a))) == choice_of(items).push(a),
        choice_of(items.push(ChoiceItem::Many(v))).len() == choice_of(items).len() + v@.len(),
{
    let f = |it: ChoiceItem<A>| item_alternatives(it);
    assert(Seq::<ChoiceItem<A>>::empty().map_values(f) =~= Seq::<Seq<A>>::empty());
    assert(items.push(ChoiceItem::Many(v)).map_values(f) =~= items.map_values(f).push(v@));
    assert(items.map_values(f).push(v@).drop_last() =~= items.map_values(f));
    assert(items.push(ChoiceItem::Single(a)).map_values(f) =~= items.map_values(f).push(seq![a]));
    assert(items.map_values(f).push(seq![a]).drop_last() =~= items.map_values(f));
    assert(choice_of(items) + seq![a] =~= choice_of(items).push(a));
}

/// Every ready alternative can be tried first: for each position that polled
/// ready there is an order allowed by `try_order`'s contract (a permutation
/// of the ready positions) that starts with it. Which order a given sync gets
/// is up to the random shuffle.
pub proof fn lemma_any_ready_alternative_can_come_first(polls: Seq<bool>, j: int)
    requires
        0 <= j < polls.len(),
        polls[j],
    ensures
        exists|order: Seq<usize>|
            #![trigger order.to_multiset()]
            order.to_multiset() == enabled_seq(polls).to_multiset() && order.len() == enabled_seq(
                polls,
            ).len() && order[0] == j as usize,
{
    broadcast use vstd::multiset::group_multiset_axioms;
    let all = Seq::new(polls.len(), |i: int| i);
    let p = |i: int| polls[i];
    let filt = all.filter(p);
    let e = enabled_seq(polls);
    all.lemma_filter_contains(p, j);
    assert(all[j] == j);
    assert(filt.contains(j));
    let k = choose|k: int| 0 <= k < filt.len() && filt[k] == j;
    assert(e[k] == j as usize);
    let order = e.remove(k).insert(0, e[k]);
    vstd::seq_lib::to_multiset_remove(e, k);
    vstd::seq_lib::to_multiset_insert(e.remove(k), 0, e[k]);
    e.to_multiset_ensures();
    assert(e.to_multiset().count(e[k]) > 0) by {
        assert(e.contains(e[k]));
    }
    assert(order.to_multiset() =~= e.to_multiset());
    assert(order[0] == j as usize);
}

} // verus!
