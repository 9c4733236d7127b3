//! The order in which devices are displayed.

use vstd::prelude::*;

use crate::double::Double;
use crate::text;

verus! {

/// The texts of `list` that are (or are not) in `other`, in their order.
pub open spec fn picked(list: Seq<Seq<char>>, other: Seq<Seq<char>>, inside: bool) -> Seq<Seq<char>>
    decreases list.len(),
{
    if list.len() == 0 {
        Seq::empty()
    } else {
        let rest = picked(list.drop_last(), other, inside);
        if other.contains(list.last()) == inside {
            rest.push(list.last())
        } else {
            rest
        }
    }
}

/// What a remembered order becomes when the devices are `names`: those that still exist in
/// their order, and behind them those that were not in it.
pub open spec fn reconciled(order: Seq<Seq<char>>, names: Seq<Seq<char>>) -> Seq<Seq<char>> {
    picked(order, names, true) + picked(names, order, false)
}

fn pick(list: &Vec<String>, other: &Vec<String>, inside: bool, out: &mut Vec<String>)
    ensures
        text::texts(final(out)@) == text::texts(old(out)@) + picked(
            text::texts(list@),
            text::texts(other@),
            inside,
        ),
{
    let ghost start = text::texts(out@);
    let ghost all = text::texts(list@);
    let ghost seen = text::texts(other@);
    let mut i: usize = 0;
    assert(start + picked(all.take(0), seen, inside) =~= start);
    while i < list.len()
        invariant
            i <= list@.len(),
            all == text::texts(list@),
            seen == text::texts(other@),
            text::texts(out@) == start + picked(all.take(i as int), seen, inside),
        decreases list@.len() - i,
    {
        let ghost before = text::texts(out@);
        assert(all.take(i as int + 1).drop_last() =~= all.take(i as int));
        assert(all.take(i as int + 1).last() == list@[i as int]@);
        if text::contains_text(other, list[i].as_str()) == inside {
            out.push(list[i].clone());
            assert(text::texts(out@) =~= before.push(list@[i as int]@));
        }
        assert(text::texts(out@) =~= start + picked(all.take(i as int + 1), seen, inside));
        i += 1;
    }
    assert(all.take(i as int) =~= all);
}

/// Fits a remembered order to the devices that there are.
pub fn reconcile(order: &Vec<String>, names: &Vec<String>) -> (res: Vec<String>)
    ensures
        text::texts(res@) == reconciled(text::texts(order@), text::texts(names@)),
{
    let mut out: Vec<String> = Vec::new();
    pick(order, names, true, &mut out);
    pick(names, order, false, &mut out);
    assert(text::texts(out@) =~= reconciled(text::texts(order@), text::texts(names@)));
    out
}

proof fn lemma_picked(list: Seq<Seq<char>>, other: Seq<Seq<char>>, inside: bool)
    ensures
        forall|n: Seq<char>| #[trigger]
            picked(list, other, inside).contains(n) <==> list.contains(n) && other.contains(n)
                == inside,
        list.no_duplicates() ==> picked(list, other, inside).no_duplicates(),
    decreases list.len(),
{
    let res = picked(list, other, inside);
    if list.len() > 0 {
        let front = list.drop_last();
        let rest = picked(front, other, inside);
        lemma_picked(front, other, inside);
        assert forall|n: Seq<char>| #[trigger]
            res.contains(n) <==> list.contains(n) && other.contains(n) == inside by {
            if res.contains(n) {
                let k = choose|k: int| 0 <= k < res.len() && res[k] == n;
                if k < rest.len() {
                    assert(rest[k] == n);
                    assert(rest.contains(n));
                    let j = choose|j: int| 0 <= j < front.len() && front[j] == n;
                    assert(list[j] == n);
                } else {
                    assert(list[list.len() - 1] == n);
                }
            }
            if list.contains(n) && other.contains(n) == inside {
                let j = choose|j: int| 0 <= j < list.len() && list[j] == n;
                if j < front.len() {
                    assert(front[j] == n);
                    assert(rest.contains(n));
                    let k = choose|k: int| 0 <= k < rest.len() && rest[k] == n;
                    assert(res[k] == n);
                } else {
                    assert(res[rest.len() as int] == n);
                }
            }
        }
        if list.no_duplicates() {
            assert(front.no_duplicates()) by {
                assert forall|i: int, j: int|
                    0 <= i < front.len() && 0 <= j < front.len() && i != j implies front[i]
                    != front[j] by {
                    assert(front[i] == list[i] && front[j] == list[j]);
                }
            }
            assert forall|i: int, j: int|
                0 <= i < res.len() && 0 <= j < res.len() && i != j implies res[i] != res[j] by {
                if i < rest.len() && j < rest.len() {
                    assert(res[i] == rest[i] && res[j] == rest[j]);
                } else {
                    let k = if i < rest.len() {
                        i
                    } else {
                        j
                    };
                    assert(rest.contains(rest[k]));
                    assert(front.contains(rest[k]));
                    let m = choose|m: int| 0 <= m < front.len() && front[m] == rest[k];
                    assert(list[m] == rest[k]);
                }
            }
        }
    }
}

/// A reconciled order holds the existing devices and no others; each of them once, if none
/// was named twice.
pub proof fn reconciled_is_complete(order: Seq<Seq<char>>, names: Seq<Seq<char>>)
    ensures
        forall|n: Seq<char>| #[trigger] reconciled(order, names).contains(n) <==> names.contains(n),
        order.no_duplicates() && names.no_duplicates() ==> reconciled(order, names).no_duplicates(),
{
    lemma_picked(order, names, true);
    lemma_picked(names, order, false);
    let a = picked(order, names, true);
    let b = picked(names, order, false);
    let res = reconciled(order, names);
    assert forall|n: Seq<char>| #[trigger] res.contains(n) <==> names.contains(n) by {
        if res.contains(n) {
            let k = choose|k: int| 0 <= k < res.len() && res[k] == n;
            if k < a.len() {
                assert(a[k] == n);
                assert(a.contains(n));
            } else {
                assert(b[k - a.len()] == n);
                assert(b.contains(n));
            }
        }
        if names.contains(n) {
            if order.contains(n) {
                assert(a.contains(n));
                let k = choose|k: int| 0 <= k < a.len() && a[k] == n;
                assert(res[k] == n);
            } else {
                assert(b.contains(n));
                let k = choose|k: int| 0 <= k < b.len() && b[k] == n;
                assert(res[a.len() + k] == n);
            }
        }
    }
    if order.no_duplicates() && names.no_duplicates() {
        assert forall|i: int, j: int| 0 <= i < j < res.len() implies res[i] != res[j] by {
            if i < a.len() && j >= a.len() {
                assert(a.contains(a[i]));
                assert(b.contains(b[j - a.len()]));
            } else if j < a.len() {
                assert(res[i] == a[i] && res[j] == a[j]);
            } else {
                assert(res[i] == b[i - a.len()] && res[j] == b[j - a.len()]);
            }
        }
    }
}

/// An order that already fits is kept as it is.
pub proof fn reconciled_keeps_fitting(order: Seq<Seq<char>>, names: Seq<Seq<char>>)
    requires
        forall|n: Seq<char>| #[trigger] order.contains(n) <==> names.contains(n),
    ensures
        reconciled(order, names) == order,
{
    lemma_all_picked(order, names);
    lemma_picked(names, order, false);
    let b = picked(names, order, false);
    if b.len() > 0 {
        assert(b.contains(b[0]));
        assert(order.contains(b[0]));
    }
    assert(reconciled(order, names) =~= order);
}

proof fn lemma_all_picked(list: Seq<Seq<char>>, other: Seq<Seq<char>>)
    requires
        forall|n: Seq<char>| #[trigger] list.contains(n) ==> other.contains(n),
    ensures
        picked(list, other, true) == list,
    decreases list.len(),
{
    if list.len() > 0 {
        let front = list.drop_last();
        assert forall|n: Seq<char>| #[trigger] front.contains(n) implies other.contains(n) by {
            let k = choose|k: int| 0 <= k < front.len() && front[k] == n;
            assert(list[k] == n);
            assert(list.contains(n));
        }
        lemma_all_picked(front, other);
        assert(list.contains(list.last()));
        assert(front.push(list.last()) =~= list);
    } else {
        assert(picked(list, other, true) =~= list);
    }
}

/// A list with two elements exchanged.
pub open spec fn exchanged<T>(s: Seq<T>, i: int, j: int) -> Seq<T> {
    s.update(i, s[j]).update(j, s[i])
}

/// Exchanges a device with the one above it. Says whether there is one.
pub fn move_up(order: &mut Vec<String>, index: usize) -> (res: bool)
    ensures
        res == (0 < index < old(order)@.len()),
        final(order)@ == (if res {
            exchanged(old(order)@, index as int, index - 1)
        } else {
            old(order)@
        }),
{
    if index == 0 || index >= order.len() {
        return false;
    }
    let item: String = order.remove(index);
    order.insert(index - 1, item);
    assert(order@ =~= exchanged(old(order)@, index as int, index - 1));
    true
}

/// Exchanges a device with the one below it. Says whether there is one.
pub fn move_down(order: &mut Vec<String>, index: usize) -> (res: bool)
    ensures
        res == (index + 1 < old(order)@.len()),
        final(order)@ == (if res {
            exchanged(old(order)@, index as int, index + 1)
        } else {
            old(order)@
        }),
{
    if index >= order.len() || index + 1 >= order.len() {
        return false;
    }
    let item: String = order.remove(index);
    order.insert(index + 1, item);
    assert(order@ =~= exchanged(old(order)@, index as int, index + 1));
    true
}

/// Moving a device down and up again, or up and down, restores the order.
pub proof fn exchange_undoes_itself<T>(s: Seq<T>, i: int, j: int)
    requires
        0 <= i < s.len(),
        0 <= j < s.len(),
    ensures
        exchanged(exchanged(s, i, j), j, i) == s,
{
    assert(exchanged(exchanged(s, i, j), j, i) =~= s);
}

/// Whether `target` is where a device goes that is dropped at height `y`.
pub open spec fn is_drop_target(centers: Seq<Double>, y: Double, rows: nat, target: nat) -> bool {
    &&& (exists|i: int| 0 <= i < centers.len() && y.below(#[trigger] centers[i])) ==> target
        < centers.len() && y.below(centers[target as int]) && forall|i: int|
        0 <= i < target ==> !y.below(#[trigger] centers[i])
    &&& (forall|i: int| 0 <= i < centers.len() ==> !y.below(#[trigger] centers[i])) ==> target
        == rows
}

/// Where a device that is dropped at height `y` goes: before the first row whose centre is
/// further down, or behind all `rows`.
pub fn drop_target(centers: &Vec<Double>, y: Double, rows: usize) -> (res: usize)
    ensures
        is_drop_target(centers@, y, rows as nat, res as nat),
{
    let mut i: usize = 0;
    while i < centers.len()
        invariant
            i <= centers@.len(),
            forall|j: int| 0 <= j < i ==> !y.below(#[trigger] centers@[j]),
        decreases centers@.len() - i,
    {
        if y.lt(centers[i]) {
            return i;
        }
        i += 1;
    }
    rows
}

/// The order after the device at `source` was dropped at `target`, which counts positions
/// before it was taken out.
pub open spec fn dropped_at<T>(s: Seq<T>, source: int, target: int) -> Seq<T> {
    let rest = s.remove(source);
    let at = if source < target {
        target - 1
    } else {
        target
    };
    if at < rest.len() {
        rest.insert(at, s[source])
    } else {
        rest.push(s[source])
    }
}

/// Where `name` first stands in a list.
pub open spec fn first_index(list: Seq<Seq<char>>, name: Seq<char>) -> Option<int>
    decreases list.len(),
{
    if list.len() == 0 {
        None
    } else if list[0] == name {
        Some(0)
    } else {
        match first_index(list.skip(1), name) {
            Some(i) => Some(i + 1),
            None => None,
        }
    }
}

/// The first index is the one with nothing equal before it.
pub proof fn lemma_first_index(list: Seq<Seq<char>>, name: Seq<char>, i: int)
    requires
        0 <= i <= list.len(),
        forall|k: int| 0 <= k < i ==> #[trigger] list[k] != name,
        i < list.len() ==> list[i] == name,
    ensures
        first_index(list, name) == (if i < list.len() {
            Some(i)
        } else {
            None
        }),
    decreases list.len(),
{
    if i > 0 {
        assert(list[0] != name);
        assert forall|k: int| 0 <= k < i - 1 implies #[trigger] list.skip(1)[k] != name by {
            assert(list[k + 1] != name);
        }
        lemma_first_index(list.skip(1), name, i - 1);
    }
}

/// What is found is in the list.
pub proof fn lemma_first_index_in_range(list: Seq<Seq<char>>, name: Seq<char>)
    ensures
        first_index(list, name) matches Some(i) ==> 0 <= i < list.len() && list[i] == name,
    decreases list.len(),
{
    if list.len() > 0 && list[0] != name {
        lemma_first_index_in_range(list.skip(1), name);
    }
}

/// Moves the device named `name` to where it was dropped. Says whether that changed anything.
pub fn drop_device(order: &mut Vec<String>, name: &str, target: usize) -> (res: bool)
    ensures
        match first_index(text::texts(old(order)@), name@) {
            Some(source) => {
                &&& res == (source != target)
                &&& text::texts(final(order)@) == (if res {
                    dropped_at(text::texts(old(order)@), source, target as int)
                } else {
                    text::texts(old(order)@)
                })
            },
            None => !res && final(order)@ == old(order)@,
        },
{
    let ghost was = text::texts(order@);
    let mut source: usize = 0;
    while source < order.len() && !text::same_text(order[source].as_str(), name)
        invariant
            source <= order@.len(),
            was == text::texts(order@),
            *order == *old(order),
            forall|i: int| 0 <= i < source ==> #[trigger] was[i] != name@,
        decreases order@.len() - source,
    {
        source += 1;
    }
    proof {
        lemma_first_index(was, name@, source as int);
    }
    if source >= order.len() || source == target {
        return false;
    }
    let item: String = order.remove(source);
    let ghost rest = was.remove(source as int);
    assert(text::texts(order@) =~= rest);
    let wanted: usize = if source < target {
        target - 1
    } else {
        target
    };
    let at: usize = if wanted < order.len() {
        wanted
    } else {
        order.len()
    };
    order.insert(at, item);
    assert(text::texts(order@) =~= dropped_at(was, source as int, target as int));
    true
}

/// Dropping a device moves only that device: the others keep their order, and none is lost.
pub proof fn drop_moves_one<T>(s: Seq<T>, source: int, target: int)
    requires
        0 <= source < s.len(),
        0 <= target,
    ensures
        exists|at: int|
            #![trigger dropped_at(s, source, target)[at]]
            0 <= at < s.len() && dropped_at(s, source, target)[at] == s[source] && dropped_at(
                s,
                source,
                target,
            ).remove(at) == s.remove(source),
{
    let rest = s.remove(source);
    let wanted = if source < target {
        target - 1
    } else {
        target
    };
    let at: int = if wanted < rest.len() {
        wanted
    } else {
        rest.len() as int
    };
    let now = dropped_at(s, source, target);
    assert(now[at] == s[source]);
    assert(now.remove(at) =~= rest);
}

/// A remembered order is kept as far as its devices still exist, and new devices come behind it in
/// the order of their list.
pub proof fn reconciled_keeps_the_order(order: Seq<Seq<char>>, names: Seq<Seq<char>>)
    ensures
        reconciled(order, names) == order.filter(|n: Seq<char>| names.contains(n)) + names.filter(
            |n: Seq<char>| !order.contains(n),
        ),
{
    lemma_picked_is_filter(order, names);
    lemma_picked_is_filter(names, order);
}

proof fn lemma_picked_is_filter(list: Seq<Seq<char>>, other: Seq<Seq<char>>)
    ensures
        picked(list, other, true) == list.filter(|n: Seq<char>| other.contains(n)),
        picked(list, other, false) == list.filter(|n: Seq<char>| !other.contains(n)),
    decreases list.len(),
{
    reveal(Seq::filter);
    if list.len() > 0 {
        lemma_picked_is_filter(list.drop_last(), other);
    }
}

/// A device lands where it was dropped: before the one that stood at the target, or behind all if
/// there is none.
pub proof fn devices_land_where_they_are_dropped<T>(s: Seq<T>, source: int, target: int)
    requires
        0 <= source < s.len(),
        0 <= target <= s.len(),
        target != source,
    ensures
        dropped_at(s, source, target).len() == s.len(),
        target == s.len() ==> dropped_at(s, source, target).last() == s[source],
        target < s.len() ==> exists|at: int|
            #![trigger dropped_at(s, source, target)[at]]
            0 <= at < s.len() - 1 && dropped_at(s, source, target)[at] == s[source] && dropped_at(
                s,
                source,
                target,
            )[at + 1] == s[target],
{
    let at = if source < target {
        target - 1
    } else {
        target
    };
    let now = dropped_at(s, source, target);
    if target < s.len() {
        assert(now[at] == s[source]);
        assert(now[at + 1] == s[target]);
    }
}

/// An exchange puts each of the two in the place of the other, and moves nothing else.
pub proof fn exchange_moves_two<T>(s: Seq<T>, i: int, j: int, k: int)
    requires
        0 <= i < s.len(),
        0 <= j < s.len(),
        0 <= k < s.len(),
    ensures
        exchanged(s, i, j).len() == s.len(),
        exchanged(s, i, j)[i] == s[j],
        exchanged(s, i, j)[j] == s[i],
        k != i && k != j ==> exchanged(s, i, j)[k] == s[k],
{
}

/// A device is dropped before the first row whose centre is further down than the place, which is
/// behind every row whose centre is not; past all rows it is dropped behind them.
pub proof fn devices_are_dropped_between_centres(
    centers: Seq<Double>,
    y: Double,
    target: nat,
    i: int,
)
    requires
        is_drop_target(centers, y, centers.len(), target),
        !y.nan(),
        forall|k: int| 0 <= k < centers.len() ==> !(#[trigger] centers[k]).nan(),
        forall|a: int, b: int|
            0 <= a <= b < centers.len() ==> (#[trigger] centers[a]).rank() <= (
            #[trigger] centers[b]).rank(),
        0 <= i < centers.len(),
    ensures
        target <= centers.len(),
        i < target <==> centers[i].rank() <= y.rank(),
{
    if target < centers.len() {
        assert(exists|k: int| 0 <= k < centers.len() && y.below(#[trigger] centers[k])) by {
            if forall|k: int| 0 <= k < centers.len() ==> !y.below(#[trigger] centers[k]) {
                assert(target == centers.len());
            }
        }
        assert(centers[target as int].rank() > y.rank());
        if i >= target {
            assert(centers[target as int].rank() <= centers[i].rank());
        } else {
            assert(!y.below(centers[i]));
        }
    } else {
        if exists|k: int| 0 <= k < centers.len() && y.below(#[trigger] centers[k]) {
            assert(target < centers.len());
        }
        assert(!y.below(centers[i]));
    }
}

proof fn lemma_none_excluded(names: Seq<Seq<char>>)
    ensures
        picked(names, Seq::empty(), false) == names,
    decreases names.len(),
{
    if names.len() > 0 {
        lemma_none_excluded(names.drop_last());
        assert(names.drop_last().push(names.last()) =~= names);
    } else {
        assert(picked(names, Seq::empty(), false) =~= names);
    }
}

/// Where nothing is remembered, the order is that of the devices.
pub proof fn nothing_remembered_is_the_given_order(names: Seq<Seq<char>>)
    ensures
        reconciled(Seq::empty(), names) == names,
{
    lemma_none_excluded(names);
    assert(picked(Seq::empty(), names, true) + names =~= names);
}

}
