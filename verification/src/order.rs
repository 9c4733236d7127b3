//! Dictionary order of texts: by code points, a prefix before what it begins.

use vstd::prelude::*;

use crate::text;

verus! {

/// Whether `a` comes strictly before `b`.
pub open spec fn before(a: Seq<char>, b: Seq<char>) -> bool
    decreases a.len(),
{
    if b.len() == 0 {
        false
    } else if a.len() == 0 {
        true
    } else if a[0] != b[0] {
        a[0] < b[0]
    } else {
        before(a.skip(1), b.skip(1))
    }
}

/// No text comes before itself.
pub proof fn before_irreflexive(a: Seq<char>)
    ensures
        !before(a, a),
    decreases a.len(),
{
    if a.len() > 0 {
        before_irreflexive(a.skip(1));
    }
}

/// The order is transitive.
pub proof fn before_transitive(a: Seq<char>, b: Seq<char>, c: Seq<char>)
    requires
        before(a, b),
        before(b, c),
    ensures
        before(a, c),
    decreases a.len(),
{
    if a.len() > 0 && a[0] == b[0] && b[0] == c[0] {
        before_transitive(a.skip(1), b.skip(1), c.skip(1));
    }
}

/// Of two different texts, one comes before the other.
pub proof fn before_total(a: Seq<char>, b: Seq<char>)
    ensures
        a == b || before(a, b) || before(b, a),
    decreases a.len(),
{
    if a.len() > 0 && b.len() > 0 && a[0] == b[0] {
        before_total(a.skip(1), b.skip(1));
        if a.skip(1) == b.skip(1) {
            assert(a =~= seq![a[0]] + a.skip(1));
            assert(b =~= seq![b[0]] + b.skip(1));
        }
    } else if a.len() == 0 && b.len() == 0 {
        assert(a =~= b);
    }
}

/// Whether `a` comes strictly before `b`.
pub fn is_before(a: &str, b: &str) -> (res: bool)
    ensures
        res == before(a@, b@),
{
    let x = text::chars_of(a);
    let y = text::chars_of(b);
    let mut i: usize = 0;
    assert(a@.skip(0) =~= a@);
    assert(b@.skip(0) =~= b@);
    while i < x.len() && i < y.len()
        invariant
            x@ == a@,
            y@ == b@,
            i <= x@.len(),
            i <= y@.len(),
            before(a@, b@) == before(a@.skip(i as int), b@.skip(i as int)),
        decreases x@.len() - i,
    {
        let c: char = x[i];
        let d: char = y[i];
        assert(a@.skip(i as int)[0] == c);
        assert(b@.skip(i as int)[0] == d);
        if c != d {
            return c < d;
        }
        assert(a@.skip(i as int).skip(1) =~= a@.skip(i as int + 1));
        assert(b@.skip(i as int).skip(1) =~= b@.skip(i as int + 1));
        i += 1;
    }
    i < y.len()
}

/// No later text comes before an earlier one.
pub open spec fn ordered(s: Seq<Seq<char>>) -> bool {
    forall|i: int, j: int| 0 <= i < j < s.len() ==> !before(#[trigger] s[j], #[trigger] s[i])
}

/// Every text comes strictly before all later ones.
pub open spec fn strictly_ordered(s: Seq<Seq<char>>) -> bool {
    forall|i: int, j: int| 0 <= i < j < s.len() ==> before(#[trigger] s[i], #[trigger] s[j])
}

/// Where `name` goes in an ordered list: behind everything that does not come after it.
pub fn place_for(list: &Vec<String>, name: &str) -> (res: usize)
    requires
        ordered(text::texts(list@)),
    ensures
        res <= list@.len(),
        forall|i: int| 0 <= i < res ==> !before(name@, #[trigger] text::texts(list@)[i]),
        forall|i: int| res <= i < list@.len() ==> before(name@, #[trigger] text::texts(list@)[i]),
{
    let mut i: usize = 0;
    while i < list.len()
        invariant
            ordered(text::texts(list@)),
            i <= list@.len(),
            forall|k: int| 0 <= k < i ==> !before(name@, #[trigger] text::texts(list@)[k]),
        decreases list@.len() - i,
    {
        if is_before(name, list[i].as_str()) {
            proof {
                let s = text::texts(list@);
                assert(s[i as int] == list@[i as int]@);
                assert forall|k: int| i <= k < list@.len() implies before(
                    name@,
                    #[trigger] s[k],
                ) by {
                    if k > i {
                        before_total(s[i as int], s[k]);
                        if s[i as int] != s[k] {
                            before_transitive(name@, s[i as int], s[k]);
                        }
                    }
                }
            }
            return i;
        }
        assert(text::texts(list@)[i as int] == list@[i as int]@);
        i += 1;
    }
    i
}

/// The same texts in dictionary order.
pub fn sort_texts(list: &Vec<String>) -> (res: Vec<String>)
    ensures
        ordered(text::texts(res@)),
        text::texts(res@).to_multiset() == text::texts(list@).to_multiset(),
        res@.len() == list@.len(),
{
    let mut out: Vec<String> = Vec::new();
    let mut n: usize = 0;
    proof {
        assert(text::texts(list@).take(0) =~= text::texts(out@));
    }
    while n < list.len()
        invariant
            n <= list@.len(),
            out@.len() == n,
            ordered(text::texts(out@)),
            text::texts(out@).to_multiset() == text::texts(list@).take(n as int).to_multiset(),
        decreases list@.len() - n,
    {
        let at: usize = place_for(&out, list[n].as_str());
        let ghost was = text::texts(out@);
        let ghost name = list@[n as int]@;
        out.insert(at, list[n].clone());
        proof {
            let now = text::texts(out@);
            assert(now =~= was.insert(at as int, name));
            assert forall|i: int, j: int| 0 <= i < j < now.len() implies !before(
                #[trigger] now[j],
                #[trigger] now[i],
            ) by {
                before_irreflexive(name);
                let a = if i < at { i } else { i - 1 };
                let b = if j < at { j } else { j - 1 };
                if i != at && j != at {
                    assert(now[i] == was[a] && now[j] == was[b]);
                } else if i == at {
                    assert(now[j] == was[b]);
                    if before(was[b], name) {
                        before_transitive(was[b], name, was[b]);
                        before_irreflexive(was[b]);
                    }
                } else {
                    assert(now[i] == was[a]);
                }
            }
            assert(now.remove(at as int) =~= was);
            vstd::seq_lib::to_multiset_remove(now, at as int);
            let all = text::texts(list@);
            assert(all.take(n as int + 1) =~= all.take(n as int).push(name));
            vstd::seq_lib::to_multiset_build(all.take(n as int), name);
            now.to_multiset_ensures();
            assert(now[at as int] == name);
            assert(now.contains(name));
            assert(now.to_multiset() =~= was.to_multiset().insert(name));
        }
        n += 1;
    }
    proof {
        assert(text::texts(list@).take(n as int) =~= text::texts(list@));
    }
    out
}

/// Adds `name` to a set of texts that is kept as an ordered list.
pub fn add_to_set(set: &mut Vec<String>, name: &str)
    requires
        strictly_ordered(text::texts(old(set)@)),
    ensures
        strictly_ordered(text::texts(final(set)@)),
        text::texts(final(set)@).to_set() == text::texts(old(set)@).to_set().insert(name@),
{
    let ghost was = text::texts(set@);
    proof {
        strict_is_ordered(was);
    }
    if text::contains_text(set, name) {
        assert(was.to_set().insert(name@) =~= was.to_set());
        return ;
    }
    let at: usize = place_for(set, name);
    set.insert(at, name.to_string());
    proof {
        insert_keeps_order(was, name@, at as int);
        assert(text::texts(set@) =~= was.insert(at as int, name@));
    }
}

/// A new text, put behind everything that comes before it, leaves the order strict.
pub proof fn insert_keeps_order(was: Seq<Seq<char>>, name: Seq<char>, at: int)
    requires
        strictly_ordered(was),
        !was.contains(name),
        0 <= at <= was.len(),
        forall|i: int| 0 <= i < at ==> !before(name, #[trigger] was[i]),
        forall|i: int| at <= i < was.len() ==> before(name, #[trigger] was[i]),
    ensures
        strictly_ordered(was.insert(at, name)),
        was.insert(at, name).to_set() == was.to_set().insert(name),
{
    let now = was.insert(at, name);
    assert forall|i: int, j: int| 0 <= i < j < now.len() implies before(
        #[trigger] now[i],
        #[trigger] now[j],
    ) by {
        let a = if i < at {
            i
        } else {
            i - 1
        };
        let b = if j < at {
            j
        } else {
            j - 1
        };
        if i != at && j != at {
            assert(now[i] == was[a] && now[j] == was[b]);
        } else if i == at {
            assert(now[j] == was[b]);
        } else {
            assert(now[i] == was[a]);
            assert(was.contains(was[a]));
            before_total(was[a], name);
        }
    }
    assert forall|x: Seq<char>| now.to_set().contains(x) <==> was.to_set().insert(name).contains(
        x,
    ) by {
        if was.contains(x) {
            let k = choose|k: int| 0 <= k < was.len() && was[k] == x;
            assert(now[if k < at {
                k
            } else {
                k + 1
            }] == x);
        }
        if x == name {
            assert(now[at] == x);
        }
        if now.contains(x) {
            let k = choose|k: int| 0 <= k < now.len() && now[k] == x;
            if k != at {
                assert(was[if k < at {
                    k
                } else {
                    k - 1
                }] == x);
            }
        }
    }
    assert(now.to_set() =~= was.to_set().insert(name));
}

/// A strict order is an order, and nothing occurs in it twice.
pub proof fn strict_is_ordered(s: Seq<Seq<char>>)
    requires
        strictly_ordered(s),
    ensures
        ordered(s),
        s.no_duplicates(),
{
    assert forall|i: int, j: int| 0 <= i < j < s.len() implies !before(
        #[trigger] s[j],
        #[trigger] s[i],
    ) && s[i] != s[j] by {
        before_irreflexive(s[i]);
        if before(s[j], s[i]) {
            before_transitive(s[i], s[j], s[i]);
        }
    }
}

/// The first place where two texts differ decides which comes first; a text comes before what it
/// begins.
pub proof fn first_difference_decides(
    head: Seq<char>,
    x: char,
    a: Seq<char>,
    y: char,
    b: Seq<char>,
)
    ensures
        x < y ==> before(head + seq![x] + a, head + seq![y] + b),
        before(head, head + seq![y] + b),
    decreases head.len(),
{
    let left = head + seq![x] + a;
    let right = head + seq![y] + b;
    if head.len() > 0 {
        let rest = head.skip(1);
        assert(left.skip(1) =~= rest + seq![x] + a);
        assert(right.skip(1) =~= rest + seq![y] + b);
        first_difference_decides(rest, x, a, y, b);
    }
}

}
