//! Orders on texts, and putting things in order.

use vstd::prelude::*;

verus! {

/// `a` comes before `b` in the order of their characters.
pub open spec fn text_before(a: Seq<char>, b: Seq<char>) -> bool
    decreases a.len(),
{
    if b.len() == 0 {
        false
    } else if a.len() == 0 {
        true
    } else if a[0] != b[0] {
        a[0] < b[0]
    } else {
        text_before(a.drop_first(), b.drop_first())
    }
}

/// Of two texts one comes before the other, unless they are the same.
pub proof fn lemma_text_total(a: Seq<char>, b: Seq<char>)
    ensures
        text_before(a, b) || text_before(b, a) || a == b,
        !(text_before(a, b) && text_before(b, a)),
        a == b ==> !text_before(a, b),
    decreases a.len(),
{
    if a.len() > 0 && b.len() > 0 {
        lemma_text_total(a.drop_first(), b.drop_first());
        if a[0] == b[0] && a.drop_first() == b.drop_first() {
            assert(a =~= seq![a[0]] + a.drop_first());
            assert(b =~= seq![b[0]] + b.drop_first());
        }
    } else if a.len() == 0 && b.len() == 0 {
        assert(a =~= b);
    }
}

pub proof fn lemma_text_transitive(a: Seq<char>, b: Seq<char>, c: Seq<char>)
    requires
        text_before(a, b),
        text_before(b, c),
    ensures
        text_before(a, c),
    decreases a.len(),
{
    if a.len() > 0 && a[0] == b[0] && b[0] == c[0] {
        lemma_text_transitive(a.drop_first(), b.drop_first(), c.drop_first());
    }
}

/// Whether `a` comes before `b` in the order of their characters.
pub fn is_text_before(a: &Vec<char>, b: &Vec<char>) -> (r: bool)
    ensures
        r == text_before(a@, b@),
{
    let mut i: usize = 0;
    assert(a@.skip(0) =~= a@);
    assert(b@.skip(0) =~= b@);
    while i < a.len() && i < b.len()
        invariant
            i <= a@.len(),
            i <= b@.len(),
            text_before(a@, b@) == text_before(a@.skip(i as int), b@.skip(i as int)),
        decreases a@.len() - i,
    {
        if a[i] != b[i] {
            return a[i] < b[i];
        }
        assert(a@.skip(i as int).drop_first() =~= a@.skip(i + 1));
        assert(b@.skip(i as int).drop_first() =~= b@.skip(i + 1));
        i += 1;
    }
    i < b.len()
}

/// Things that can be told apart by which goes first. They are numbered from 0.
pub trait Contest {
    /// How many there are.
    spec fn size(&self) -> nat;

    /// Thing `i` goes before thing `j`.
    spec fn beats(&self, i: int, j: int) -> bool;

    /// Of two different things exactly one goes before the other, and going before
    /// carries over.
    proof fn strict(&self)
        ensures
            forall|i: int, j: int|
                0 <= i < self.size() && 0 <= j < self.size() && i != j ==> (#[trigger] self.beats(
                    i,
                    j,
                ) || self.beats(j, i)),
            forall|i: int, j: int| #[trigger] self.beats(i, j) ==> !self.beats(j, i),
            forall|i: int, j: int, k: int| #[trigger]
                self.beats(i, j) && #[trigger] self.beats(j, k) ==> self.beats(i, k),
    ;

    /// What is kept ready for comparing is right.
    spec fn ready(&self) -> bool;

    /// Whether thing `i` goes before thing `j`.
    fn goes_before(&self, i: usize, j: usize) -> (r: bool)
        requires
            self.ready(),
            i < self.size(),
            j < self.size(),
        ensures
            r == self.beats(i as int, j as int),
    ;
}

/// The order in which some of the things go: each once, and each before those
/// after it.
pub open spec fn is_order<C: Contest>(
    c: &C,
    chosen: spec_fn(int) -> bool,
    order: Seq<usize>,
) -> bool {
    &&& forall|k: int| 0 <= k < order.len() ==> (#[trigger] order[k]) < c.size() && chosen(
        order[k] as int,
    )
    &&& forall|i: usize| i < c.size() && chosen(i as int) ==> #[trigger] order.contains(i)
    &&& forall|j: int, k: int|
        0 <= j < k < order.len() ==> #[trigger] c.beats(order[j] as int, order[k] as int)
}

/// Adds thing `x` to an order of others, in its place.
pub(crate) fn insert<C: Contest>(c: &C, order: &mut Vec<usize>, x: usize, Ghost(chosen): Ghost<
    spec_fn(int) -> bool,
>)
    requires
        c.ready(),
        is_order(c, chosen, old(order)@),
        x < c.size(),
        !chosen(x as int),
    ensures
        is_order(c, |i: int| chosen(i) || i == x, final(order)@),
        final(order)@.len() == old(order)@.len() + 1,
{
    let ghost before = order@;
    proof {
        c.strict();
    }
    let mut at: usize = order.len();
    while at > 0 && c.goes_before(x, order[at - 1])
        invariant
            at <= order@.len(),
            order@ == before,
            c.ready(),
            is_order(c, chosen, before),
            x < c.size(),
            !chosen(x as int),
            forall|k: int| at <= k < order@.len() ==> #[trigger] c.beats(x as int, before[k] as int),
        decreases at,
    {
        at -= 1;
    }
    proof {
        c.strict();
        assert forall|k: int| 0 <= k < at implies #[trigger] c.beats(before[k] as int, x as int) by {
            assert(before[at - 1] != x) by {
                assert(chosen(before[at - 1] as int));
            }
            assert(c.beats(before[at - 1] as int, x as int) || c.beats(
                x as int,
                before[at - 1] as int,
            ));
            if k < at - 1 {
                assert(c.beats(before[k] as int, before[at - 1] as int));
            }
        }
    }
    order.insert(at, x);
    proof {
        let now = order@;
        let more = |i: int| chosen(i) || i == x;
        assert(now == before.insert(at as int, x));
        assert forall|k: int| 0 <= k < now.len() implies (#[trigger] now[k]) < c.size() && more(
            now[k] as int,
        ) by {
            if k < at {
                assert(now[k] == before[k]);
            } else if k > at {
                assert(now[k] == before[k - 1]);
            }
        }
        assert forall|i: usize| i < c.size() && more(i as int) implies #[trigger] now.contains(
            i,
        ) by {
            if chosen(i as int) {
                assert(before.contains(i));
                let k = choose|k: int| 0 <= k < before.len() && before[k] == i;
                if k < at {
                    assert(now[k] == i);
                } else {
                    assert(now[k + 1] == i);
                }
            } else {
                assert(now[at as int] == i);
            }
        }
        assert forall|j: int, k: int| 0 <= j < k < now.len() implies #[trigger] c.beats(
            now[j] as int,
            now[k] as int,
        ) by {
            let a = if j < at {
                j
            } else {
                j - 1
            };
            let b = if k < at {
                k
            } else {
                k - 1
            };
            if j != at {
                assert(now[j] == before[a]);
            }
            if k != at {
                assert(now[k] == before[b]);
            }
            if j != at && k != at {
                assert(c.beats(before[a] as int, before[b] as int));
            } else if j == at {
                assert(c.beats(x as int, before[b] as int));
            } else {
                assert(c.beats(before[a] as int, x as int));
            }
        }
    }
}

/// `order` lists the chosen of `n` things, each before those after it.
pub open spec fn lists(
    n: nat,
    before: spec_fn(int, int) -> bool,
    chosen: spec_fn(int) -> bool,
    order: Seq<usize>,
) -> bool {
    &&& forall|k: int| 0 <= k < order.len() ==> (#[trigger] order[k]) < n && chosen(order[k] as int)
    &&& forall|i: usize| i < n && chosen(i as int) ==> #[trigger] order.contains(i)
    &&& forall|j: int, k: int|
        0 <= j < k < order.len() ==> #[trigger] before(order[j] as int, order[k] as int)
}

/// Things are listed in one order only, where no two go before each other.
pub proof fn lists_are_unique(
    n: nat,
    before: spec_fn(int, int) -> bool,
    chosen: spec_fn(int) -> bool,
    a: Seq<usize>,
    b: Seq<usize>,
)
    requires
        forall|i: int, j: int| #[trigger] before(i, j) ==> !before(j, i),
        lists(n, before, chosen, a),
        lists(n, before, chosen, b),
    ensures
        a == b,
{
    lemma_lists_agree(n, before, chosen, a, b, a.len() as int);
    lemma_lists_agree(n, before, chosen, b, a, b.len() as int);
    assert(a =~= b);
}

proof fn lemma_lists_agree(
    n: nat,
    before: spec_fn(int, int) -> bool,
    chosen: spec_fn(int) -> bool,
    a: Seq<usize>,
    b: Seq<usize>,
    m: int,
)
    requires
        forall|i: int, j: int| #[trigger] before(i, j) ==> !before(j, i),
        lists(n, before, chosen, a),
        lists(n, before, chosen, b),
        0 <= m <= a.len(),
    ensures
        m <= b.len(),
        forall|k: int| 0 <= k < m ==> a[k] == b[k],
    decreases m,
{
    if m > 0 {
        lemma_lists_agree(n, before, chosen, a, b, m - 1);
        let x = a[m - 1];
        assert(b.contains(x));
        let k = choose|k: int| 0 <= k < b.len() && b[k] == x;
        if k < m - 1 {
            assert(a[k] == b[k]);
            assert(before(a[k] as int, a[m - 1] as int));
        }
        assert(k >= m - 1);
        if k > m - 1 {
            let y = b[m - 1];
            assert(before(b[m - 1] as int, b[k] as int));
            assert(a.contains(y));
            let p = choose|p: int| 0 <= p < a.len() && a[p] == y;
            if p < m - 1 {
                assert(a[p] == b[p]);
                assert(before(b[p] as int, b[m - 1] as int));
            } else if p > m - 1 {
                assert(before(a[m - 1] as int, a[p] as int));
            }
        }
    }
}

/// The order of those of the things that are marked.
pub(crate) fn put_in_order<C: Contest>(c: &C, marked: &Vec<bool>) -> (r: Vec<usize>)
    requires
        c.ready(),
        marked@.len() == c.size(),
    ensures
        is_order(c, |i: int| 0 <= i < marked@.len() && marked@[i], r@),
{
    let mut out: Vec<usize> = Vec::new();
    let ghost chosen = |i: int| 0 <= i < marked@.len() && marked@[i];
    let mut i: usize = 0;
    while i < marked.len()
        invariant
            i <= marked@.len(),
            marked@.len() == c.size(),
            c.ready(),
            chosen == (|i: int| 0 <= i < marked@.len() && marked@[i]),
            is_order(c, |k: int| k < i && chosen(k), out@),
        decreases marked@.len() - i,
    {
        let ghost so_far = |k: int| k < i && chosen(k);
        let ghost next = |k: int| k < i + 1 && chosen(k);
        if marked[i] {
            insert(c, &mut out, i, Ghost(so_far));
            proof {
                let more = |k: int| so_far(k) || k == i;
                assert forall|k: int| 0 <= k < out@.len() implies (#[trigger] out@[k]) < c.size()
                    && next(out@[k] as int) by {
                    assert(more(out@[k] as int));
                }
                assert forall|k: usize| k < c.size() && next(k as int) implies #[trigger] out@.contains(
                    k,
                ) by {
                    assert(more(k as int));
                }
            }
        } else {
            proof {
                assert forall|k: int| 0 <= k < out@.len() implies (#[trigger] out@[k]) < c.size()
                    && next(out@[k] as int) by {
                    assert(so_far(out@[k] as int));
                }
                assert forall|k: usize| k < c.size() && next(k as int) implies #[trigger] out@.contains(
                    k,
                ) by {
                    assert(so_far(k as int));
                }
            }
        }
        i += 1;
    }
    proof {
        let all = |k: int| k < i && chosen(k);
        assert forall|k: int| 0 <= k < out@.len() implies (#[trigger] out@[k]) < c.size() && chosen(
            out@[k] as int,
        ) by {
            assert(all(out@[k] as int));
        }
        assert forall|k: usize| k < c.size() && chosen(k as int) implies #[trigger] out@.contains(
            k,
        ) by {
            assert(all(k as int));
        }
    }
    out
}

/// What an order lists are the chosen of the things, each once.
pub proof fn lemma_listed<A>(things: Seq<A>, chosen: spec_fn(A) -> bool, order: Seq<usize>)
    requires
        things.len() <= usize::MAX,
        order.no_duplicates(),
        forall|k: int|
            0 <= k < order.len() ==> (#[trigger] order[k]) < things.len() && chosen(
                things[order[k] as int],
            ),
        forall|i: usize|
            i < things.len() && chosen(things[i as int]) ==> #[trigger] order.contains(i),
    ensures
        order.map_values(|i: usize| things[i as int]).to_multiset() == things.filter(
            chosen,
        ).to_multiset(),
    decreases things.len(),
{
    broadcast use vstd::seq_lib::group_to_multiset_ensures;

    reveal(Seq::filter);
    let f = |i: usize| things[i as int];
    if things.len() == 0 {
        if order.len() > 0 {
            assert(order[0] < things.len());
        }
        assert(order.map_values(f) =~= Seq::<A>::empty());
    } else {
        let rest = things.drop_last();
        let g = |i: usize| rest[i as int];
        let n = (things.len() - 1) as usize;
        if chosen(things.last()) {
            assert(order.contains(n));
            let m = choose|m: int| 0 <= m < order.len() && order[m] == n;
            let others = order.remove(m);
            assert forall|k: int| 0 <= k < others.len() implies (#[trigger] others[k]) < rest.len()
                && chosen(rest[others[k] as int]) by {
                let j = if k < m {
                    k
                } else {
                    k + 1
                };
                assert(others[k] == order[j]);
                assert(order[j] != order[m]);
            }
            assert forall|i: usize| i < rest.len() && chosen(rest[i as int]) implies #[trigger] others.contains(
            i) by {
                assert(chosen(things[i as int]));
                assert(order.contains(i));
                let j = choose|j: int| 0 <= j < order.len() && order[j] == i;
                if j < m {
                    assert(others[j] == i);
                } else {
                    assert(others[j - 1] == i);
                }
            }
            assert(others.no_duplicates()) by {
                assert forall|a: int, b: int|
                    0 <= a < others.len() && 0 <= b < others.len() && a != b implies others[a]
                    != others[b] by {
                    let x = if a < m {
                        a
                    } else {
                        a + 1
                    };
                    let y = if b < m {
                        b
                    } else {
                        b + 1
                    };
                    assert(others[a] == order[x] && others[b] == order[y]);
                }
            }
            lemma_listed(rest, chosen, others);
            let all = order.map_values(f);
            assert(all[m] == things.last());
            assert(others.map_values(g) =~= all.remove(m));
            assert(all.remove(m).to_multiset() == all.to_multiset().remove(all[m]));
            assert(all.contains(all[m]));
            assert(all.to_multiset() =~= all.remove(m).to_multiset().insert(all[m]));
            assert(things.filter(chosen) == rest.filter(chosen).push(things.last()));
        } else {
            assert forall|k: int| 0 <= k < order.len() implies (#[trigger] order[k]) < rest.len()
                && chosen(rest[order[k] as int]) by {
                assert(chosen(things[order[k] as int]));
            }
            assert forall|i: usize| i < rest.len() && chosen(rest[i as int]) implies #[trigger] order.contains(
            i) by {
                assert(chosen(things[i as int]));
            }
            lemma_listed(rest, chosen, order);
            assert(order.map_values(g) =~= order.map_values(f)) by {
                assert forall|k: int| 0 <= k < order.len() implies order.map_values(g)[k]
                    == order.map_values(f)[k] by {
                    assert(order[k] < rest.len());
                }
            }
            assert(things.filter(chosen) == rest.filter(chosen));
        }
    }
}

/// The chosen of some things, in whichever order these come.
pub proof fn lemma_chosen_multiset<A>(things: Seq<A>, chosen: spec_fn(A) -> bool)
    ensures
        things.filter(chosen).to_multiset() == things.to_multiset().filter(chosen),
    decreases things.len(),
{
    broadcast use vstd::seq_lib::group_to_multiset_ensures;
    broadcast use vstd::multiset::group_multiset_axioms;

    reveal(Seq::filter);
    if things.len() == 0 {
        assert(things.filter(chosen) =~= Seq::<A>::empty());
        assert(things =~= Seq::<A>::empty());
        assert(things.to_multiset().filter(chosen) =~= Seq::<A>::empty().to_multiset());
    } else {
        let rest = things.drop_last();
        lemma_chosen_multiset(rest, chosen);
        assert(things =~= rest.push(things.last()));
        assert(things.to_multiset() == rest.to_multiset().insert(things.last()));
        assert(things.filter(chosen).to_multiset() =~= things.to_multiset().filter(chosen));
    }
}

/// What is made of things, one by one, in whichever order these come.
pub proof fn lemma_made_multiset<A, B>(x: Seq<A>, y: Seq<A>, make: spec_fn(A) -> B)
    requires
        x.to_multiset() == y.to_multiset(),
    ensures
        x.map_values(make).to_multiset() == y.map_values(make).to_multiset(),
    decreases x.len(),
{
    broadcast use vstd::seq_lib::group_to_multiset_ensures;
    broadcast use vstd::multiset::group_multiset_axioms;

    assert(x.len() == x.to_multiset().len());
    assert(y.len() == y.to_multiset().len());
    if x.len() == 0 {
        assert(x.map_values(make) =~= y.map_values(make));
    } else {
        let last = x.last();
        let m = x.len() - 1;
        assert(x.contains(x[m]));
        assert(x.to_multiset().count(last) > 0);
        assert(y.to_multiset().count(last) > 0);
        assert(y.contains(last));
        let k = choose|k: int| 0 <= k < y.len() && y[k] == last;
        assert(x.remove(m).to_multiset() == y.remove(k).to_multiset());
        lemma_made_multiset(x.remove(m), y.remove(k), make);
        let (u, v) = (x.map_values(make), y.map_values(make));
        assert(x.remove(m).map_values(make) =~= u.remove(m));
        assert(y.remove(k).map_values(make) =~= v.remove(k));
        assert(u[m] == make(last) && v[k] == make(last));
        assert(u.contains(u[m]) && v.contains(v[k]));
        assert(u.to_multiset() =~= u.remove(m).to_multiset().insert(u[m]));
        assert(v.to_multiset() =~= v.remove(k).to_multiset().insert(v[k]));
    }
}

/// Texts are ordered by the first character in which they differ; one that goes on comes
/// after one that has ended.
pub proof fn texts_are_ordered_by_the_first_difference(
    p: Seq<char>,
    a: char,
    b: char,
    s: Seq<char>,
    t: Seq<char>,
)
    ensures
        a != b ==> text_before(p + seq![a] + s, p + seq![b] + t) == (a < b),
        text_before(p, p + seq![b] + t),
        !text_before(p + seq![a] + s, p),
    decreases p.len(),
{
    let x = p + seq![a] + s;
    let y = p + seq![b] + t;
    if p.len() > 0 {
        let q = p.drop_first();
        texts_are_ordered_by_the_first_difference(q, a, b, s, t);
        assert(x.drop_first() =~= q + seq![a] + s);
        assert(y.drop_first() =~= q + seq![b] + t);
    }
}

} // verus!
