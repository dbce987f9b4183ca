//! The order of the entries in an archive: by path, so that it is the tree
//! that decides it and not the walk.

use vstd::prelude::*;
use crate::bundle::{same_tree, TreeEntry};
use crate::policy::{normalize, normalized};

verus! {

/// `a` comes before `b`: at the first place where the two differ `a` has
/// the lower character, or `a` ends there and `b` goes on.
pub open spec fn before(a: Seq<char>, b: Seq<char>) -> bool
    decreases a.len(),
{
    if b.len() == 0 {
        false
    } else if a.len() == 0 {
        true
    } else if a[0] != b[0] {
        (a[0] as u32) < (b[0] as u32)
    } else {
        before(a.drop_first(), b.drop_first())
    }
}

/// What an entry is ordered by: its path with forward slashes.
pub open spec fn entry_key(entry: TreeEntry) -> Seq<char> {
    normalized(entry.path@)
}

/// Where `entry` goes in a list: in front of the first entry that comes
/// after it, at the end where none does.
pub open spec fn place(list: Seq<TreeEntry>, entry: TreeEntry) -> int
    decreases list.len(),
{
    if list.len() == 0 || before(entry_key(entry), entry_key(list[0])) {
        0
    } else {
        1 + place(list.drop_first(), entry)
    }
}

/// The entries of a tree in archive order: each is put, one after the
/// other, in front of the first that comes after it.
pub open spec fn arranged(tree: Seq<TreeEntry>) -> Seq<TreeEntry>
    decreases tree.len(),
{
    if tree.len() == 0 {
        Seq::empty()
    } else {
        let rest = arranged(tree.drop_last());
        rest.insert(place(rest, tree.last()), tree.last())
    }
}

/// The entries that a list of indices stands for.
pub open spec fn picked(order: Seq<usize>, tree: Seq<TreeEntry>) -> Seq<TreeEntry> {
    Seq::new(order.len(), |k: int| tree[order[k] as int])
}

pub proof fn lemma_place(list: Seq<TreeEntry>, entry: TreeEntry)
    ensures
        0 <= place(list, entry) <= list.len(),
        forall|j: int|
            0 <= j < place(list, entry) ==> !before(entry_key(entry), entry_key(#[trigger] list[j])),
        place(list, entry) < list.len() ==> before(
            entry_key(entry),
            entry_key(list[place(list, entry)]),
        ),
    decreases list.len(),
{
    if !(list.len() == 0 || before(entry_key(entry), entry_key(list[0]))) {
        let rest = list.drop_first();
        lemma_place(rest, entry);
        assert forall|j: int| 0 <= j < place(list, entry) implies !before(
            entry_key(entry),
            entry_key(#[trigger] list[j]),
        ) by {
            if j > 0 {
                assert(rest[j - 1] == list[j]);
            }
        }
        if place(list, entry) < list.len() {
            assert(rest[place(rest, entry)] == list[place(list, entry)]);
        }
    }
}

/// The place of an entry is the one index with no later entry in front of
/// it and a later entry at it.
pub proof fn lemma_place_unique(list: Seq<TreeEntry>, entry: TreeEntry, p: int)
    requires
        0 <= p <= list.len(),
        forall|j: int| 0 <= j < p ==> !before(entry_key(entry), entry_key(#[trigger] list[j])),
        p < list.len() ==> before(entry_key(entry), entry_key(list[p])),
    ensures
        place(list, entry) == p,
{
    lemma_place(list, entry);
    let q = place(list, entry);
    if q < p {
        assert(!before(entry_key(entry), entry_key(list[q])));
    } else if p < q {
        assert(!before(entry_key(entry), entry_key(list[p])));
    }
}

pub proof fn lemma_arranged_len(tree: Seq<TreeEntry>)
    ensures
        arranged(tree).len() == tree.len(),
    decreases tree.len(),
{
    if tree.len() > 0 {
        lemma_arranged_len(tree.drop_last());
        lemma_place(arranged(tree.drop_last()), tree.last());
    }
}

/// No text comes before itself.
pub proof fn lemma_before_irreflexive(a: Seq<char>)
    ensures
        !before(a, a),
    decreases a.len(),
{
    if a.len() > 0 {
        lemma_before_irreflexive(a.drop_first());
    }
}

/// What comes before a text comes before everything that the text comes
/// before.
pub proof fn lemma_before_transitive(a: Seq<char>, b: Seq<char>, c: Seq<char>)
    requires
        before(a, b),
        before(b, c),
    ensures
        before(a, c),
    decreases a.len(),
{
    if a.len() > 0 && b.len() > 0 && c.len() > 0 {
        if a[0] == b[0] && b[0] == c[0] {
            lemma_before_transitive(a.drop_first(), b.drop_first(), c.drop_first());
        }
    }
}

/// No entry of the list comes before an earlier one.
pub open spec fn by_path(list: Seq<TreeEntry>) -> bool {
    forall|i: int, j: int|
        0 <= i < j < list.len() ==> !before(
            entry_key(#[trigger] list[j]),
            entry_key(#[trigger] list[i]),
        )
}

/// The archive order is by path: no entry comes before an earlier one, and
/// of two entries with one path the one that the tree lists first stays
/// first.
pub proof fn lemma_arranged_in_order(tree: Seq<TreeEntry>)
    ensures
        by_path(arranged(tree)),
    decreases tree.len(),
{
    if tree.len() > 0 {
        let rest = arranged(tree.drop_last());
        let entry = tree.last();
        let p = place(rest, entry);
        let all = arranged(tree);
        lemma_arranged_in_order(tree.drop_last());
        lemma_place(rest, entry);
        assert forall|i: int, j: int| 0 <= i < j < all.len() implies !before(
            entry_key(#[trigger] all[j]),
            entry_key(#[trigger] all[i]),
        ) by {
            let a = if i < p { i } else { i - 1 };
            let b = if j < p { j } else { j - 1 };
            if i == p {
                assert(all[j] == rest[b]);
                if before(entry_key(rest[b]), entry_key(entry)) {
                    lemma_before_transitive(
                        entry_key(rest[b]),
                        entry_key(entry),
                        entry_key(rest[p]),
                    );
                    if b == p {
                        lemma_before_irreflexive(entry_key(rest[p]));
                    }
                }
            } else if j == p {
                assert(all[i] == rest[a]);
            } else {
                assert(all[i] == rest[a]);
                assert(all[j] == rest[b]);
            }
        }
    }
}

/// Where an entry goes depends on the paths alone.
pub proof fn lemma_place_same(
    first: Seq<TreeEntry>,
    second: Seq<TreeEntry>,
    entry: TreeEntry,
    other: TreeEntry,
)
    requires
        same_tree(first, second),
        entry.path@ == other.path@,
    ensures
        place(first, entry) == place(second, other),
    decreases first.len(),
{
    if first.len() > 0 {
        assert(first[0].path@ == second[0].path@);
        if !before(entry_key(entry), entry_key(first[0])) {
            let a = first.drop_first();
            let b = second.drop_first();
            assert forall|i: int| 0 <= i < a.len() implies (#[trigger] a[i]).path@ == b[i].path@
                && a[i].kind == b[i].kind && a[i].content@ == b[i].content@ by {
                assert(a[i] == first[i + 1]);
                assert(b[i] == second[i + 1]);
                assert(first[i + 1].path@ == second[i + 1].path@);
            }
            lemma_place_same(a, b, entry, other);
        }
    }
}

/// Two trees that hold the same entries in the same order are arranged
/// alike.
pub proof fn lemma_arranged_same(first: Seq<TreeEntry>, second: Seq<TreeEntry>)
    requires
        same_tree(first, second),
    ensures
        same_tree(arranged(first), arranged(second)),
    decreases first.len(),
{
    lemma_arranged_len(first);
    lemma_arranged_len(second);
    if first.len() > 0 {
        let a = first.drop_last();
        let b = second.drop_last();
        assert forall|i: int| 0 <= i < a.len() implies (#[trigger] a[i]).path@ == b[i].path@
            && a[i].kind == b[i].kind && a[i].content@ == b[i].content@ by {
            assert(a[i] == first[i]);
            assert(b[i] == second[i]);
            assert(first[i].path@ == second[i].path@);
        }
        lemma_arranged_same(a, b);
        let x = arranged(a);
        let y = arranged(b);
        let n = first.len() - 1;
        assert(first[n].path@ == second[n].path@);
        lemma_place_same(x, y, first.last(), second.last());
        lemma_place(x, first.last());
        lemma_arranged_len(a);
        lemma_arranged_len(b);
        let p = place(x, first.last());
        let u = arranged(first);
        let v = arranged(second);
        assert forall|i: int| 0 <= i < u.len() implies (#[trigger] u[i]).path@ == v[i].path@
            && u[i].kind == v[i].kind && u[i].content@ == v[i].content@ by {
            if i < p {
                assert(u[i] == x[i]);
                assert(v[i] == y[i]);
                assert(x[i].path@ == y[i].path@);
            } else if i > p {
                assert(u[i] == x[i - 1]);
                assert(v[i] == y[i - 1]);
                assert(x[i - 1].path@ == y[i - 1].path@);
            }
        }
    }
}

/// Two entries hold the same: path, kind and bytes.
pub open spec fn alike(a: TreeEntry, b: TreeEntry) -> bool {
    a.path@ == b.path@ && a.kind == b.kind && a.content@ == b.content@
}

/// Entry `i` of the list holds what `entry` holds.
pub open spec fn held_at(list: Seq<TreeEntry>, entry: TreeEntry, i: int) -> bool {
    0 <= i < list.len() && alike(list[i], entry)
}

/// Some entry of the list holds what `entry` holds.
pub open spec fn holds(list: Seq<TreeEntry>, entry: TreeEntry) -> bool {
    exists|i: int| held_at(list, entry, i)
}

/// Each path stands in the list once.
pub open spec fn one_path_each(list: Seq<TreeEntry>) -> bool {
    forall|i: int, j: int|
        0 <= i < j < list.len() ==> entry_key(#[trigger] list[i]) != entry_key(#[trigger] list[j])
}

/// Two lists hold the same entries, in whatever order.
pub open spec fn same_entries(first: Seq<TreeEntry>, second: Seq<TreeEntry>) -> bool {
    &&& forall|i: int| 0 <= i < first.len() ==> holds(second, #[trigger] first[i])
    &&& forall|j: int| 0 <= j < second.len() ==> holds(first, #[trigger] second[j])
}

/// Two different characters have different codes.
pub proof fn lemma_codes_differ(c: char, d: char)
    requires
        c != d,
    ensures
        (c as u32) != (d as u32),
{
}

/// Of two different texts one comes before the other.
pub proof fn lemma_before_total(a: Seq<char>, b: Seq<char>)
    requires
        a != b,
    ensures
        before(a, b) || before(b, a),
    decreases a.len(),
{
    if a.len() == 0 {
        if b.len() == 0 {
            assert(a =~= b);
        }
    } else if b.len() == 0 {
    } else if a[0] == b[0] {
        let x = a.drop_first();
        let y = b.drop_first();
        if x == y {
            assert(a =~= seq![a[0]] + x);
            assert(b =~= seq![b[0]] + y);
        }
        lemma_before_total(x, y);
        assert(before(a, b) == before(x, y));
        assert(before(b, a) == before(y, x));
    } else {
        lemma_codes_differ(a[0], b[0]);
    }
}

/// Arranging a tree neither adds an entry nor loses one.
pub proof fn lemma_arranged_holds(tree: Seq<TreeEntry>, entry: TreeEntry)
    ensures
        holds(arranged(tree), entry) == holds(tree, entry),
    decreases tree.len(),
{
    if tree.len() > 0 {
        let init = tree.drop_last();
        let rest = arranged(init);
        let last = tree.last();
        let p = place(rest, last);
        let all = arranged(tree);
        lemma_arranged_holds(init, entry);
        lemma_place(rest, last);
        lemma_arranged_len(init);
        if holds(all, entry) {
            let i = choose|i: int| held_at(all, entry, i);
            if i == p {
                assert(held_at(tree, entry, tree.len() - 1));
            } else {
                let a = if i < p { i } else { i - 1 };
                assert(all[i] == rest[a]);
                assert(held_at(rest, entry, a));
                let j = choose|j: int| held_at(init, entry, j);
                assert(init[j] == tree[j]);
                assert(held_at(tree, entry, j));
            }
        }
        if holds(tree, entry) {
            let j = choose|j: int| held_at(tree, entry, j);
            if j == tree.len() - 1 {
                assert(all[p] == last);
                assert(held_at(all, entry, p));
            } else {
                assert(init[j] == tree[j]);
                assert(held_at(init, entry, j));
                let a = choose|a: int| held_at(rest, entry, a);
                let i = if a < p { a } else { a + 1 };
                assert(all[i] == rest[a]);
                assert(held_at(all, entry, i));
            }
        }
    } else {
        if holds(arranged(tree), entry) {
            let i = choose|i: int| held_at(arranged(tree), entry, i);
        }
        if holds(tree, entry) {
            let i = choose|i: int| held_at(tree, entry, i);
        }
    }
}

/// Arranging a tree keeps each path once.
pub proof fn lemma_arranged_one_path(tree: Seq<TreeEntry>)
    requires
        one_path_each(tree),
    ensures
        one_path_each(arranged(tree)),
    decreases tree.len(),
{
    if tree.len() > 0 {
        let init = tree.drop_last();
        let rest = arranged(init);
        let last = tree.last();
        let p = place(rest, last);
        let all = arranged(tree);
        assert forall|i: int, j: int| 0 <= i < j < init.len() implies entry_key(
            #[trigger] init[i],
        ) != entry_key(#[trigger] init[j]) by {
            assert(init[i] == tree[i]);
            assert(init[j] == tree[j]);
        }
        lemma_arranged_one_path(init);
        lemma_place(rest, last);
        lemma_arranged_len(init);
        assert forall|a: int| 0 <= a < rest.len() implies entry_key(#[trigger] rest[a])
            != entry_key(last) by {
            assert(held_at(rest, rest[a], a));
            lemma_arranged_holds(init, rest[a]);
            let j = choose|j: int| held_at(init, rest[a], j);
            assert(init[j] == tree[j]);
            assert(entry_key(tree[j]) != entry_key(tree[tree.len() - 1]));
        }
        assert forall|i: int, j: int| 0 <= i < j < all.len() implies entry_key(#[trigger] all[i])
            != entry_key(#[trigger] all[j]) by {
            let a = if i < p { i } else { i - 1 };
            let b = if j < p { j } else { j - 1 };
            if i == p {
                assert(all[j] == rest[b]);
            } else if j == p {
                assert(all[i] == rest[a]);
            } else {
                assert(all[i] == rest[a]);
                assert(all[j] == rest[b]);
            }
        }
    }
}

/// In a list by path with each path once, an earlier entry comes before
/// every later one.
pub proof fn lemma_strictly_by_path(list: Seq<TreeEntry>, i: int, j: int)
    requires
        by_path(list),
        one_path_each(list),
        0 <= i < j < list.len(),
    ensures
        before(entry_key(list[i]), entry_key(list[j])),
{
    lemma_before_total(entry_key(list[i]), entry_key(list[j]));
}

proof fn lemma_tail_keeps(list: Seq<TreeEntry>)
    requires
        by_path(list),
        one_path_each(list),
        list.len() > 0,
    ensures
        by_path(list.drop_first()),
        one_path_each(list.drop_first()),
{
    let tail = list.drop_first();
    assert forall|i: int, j: int| 0 <= i < j < tail.len() implies !before(
        entry_key(#[trigger] tail[j]),
        entry_key(#[trigger] tail[i]),
    ) && entry_key(tail[i]) != entry_key(tail[j]) by {
        assert(tail[i] == list[i + 1]);
        assert(tail[j] == list[j + 1]);
    }
}

/// Two lists by path that hold the same entries, each path once, are the
/// same list.
pub proof fn lemma_one_order(first: Seq<TreeEntry>, second: Seq<TreeEntry>)
    requires
        by_path(first),
        by_path(second),
        one_path_each(first),
        one_path_each(second),
        same_entries(first, second),
    ensures
        same_tree(first, second),
    decreases first.len(),
{
    if first.len() == 0 {
        if second.len() > 0 {
            assert(holds(first, second[0]));
            let i = choose|i: int| held_at(first, second[0], i);
        }
    } else {
        assert(holds(second, first[0]));
        let j = choose|j: int| held_at(second, first[0], j);
        assert(holds(first, second[0]));
        let i = choose|i: int| held_at(first, second[0], i);
        if j > 0 {
            lemma_strictly_by_path(second, 0, j);
            if i > 0 {
                lemma_strictly_by_path(first, 0, i);
                lemma_before_transitive(
                    entry_key(first[0]),
                    entry_key(first[i]),
                    entry_key(first[0]),
                );
                lemma_before_irreflexive(entry_key(first[0]));
            } else {
                assert(entry_key(second[0]) == entry_key(second[j]));
            }
        }
        assert(alike(second[0], first[0]));
        let a = first.drop_first();
        let b = second.drop_first();
        lemma_tail_keeps(first);
        lemma_tail_keeps(second);
        assert forall|k: int| 0 <= k < a.len() implies holds(b, #[trigger] a[k]) by {
            assert(a[k] == first[k + 1]);
            let e = first[k + 1];
            assert(holds(second, e));
            let m = choose|m: int| held_at(second, e, m);
            if m == 0 {
                assert(entry_key(first[0]) == entry_key(first[k + 1]));
            }
            assert(b[m - 1] == second[m]);
            assert(held_at(b, a[k], m - 1));
        }
        assert forall|k: int| 0 <= k < b.len() implies holds(a, #[trigger] b[k]) by {
            assert(b[k] == second[k + 1]);
            let e = second[k + 1];
            assert(holds(first, e));
            let m = choose|m: int| held_at(first, e, m);
            if m == 0 {
                assert(entry_key(second[0]) == entry_key(second[k + 1]));
            }
            assert(a[m - 1] == first[m]);
            assert(held_at(a, b[k], m - 1));
        }
        lemma_one_order(a, b);
        assert forall|k: int| 0 <= k < first.len() implies (#[trigger] first[k]).path@
            == second[k].path@ && first[k].kind == second[k].kind && first[k].content@
            == second[k].content@ by {
            if k > 0 {
                assert(a[k - 1] == first[k]);
                assert(b[k - 1] == second[k]);
                assert(a[k - 1].path@ == b[k - 1].path@);
            }
        }
    }
}

/// Two trees that hold the same entries, each path once, in whatever
/// order, are arranged alike: the archive order is the tree's and not the
/// walk's.
pub proof fn lemma_arranged_any_walk(first: Seq<TreeEntry>, second: Seq<TreeEntry>)
    requires
        one_path_each(first),
        one_path_each(second),
        same_entries(first, second),
    ensures
        same_tree(arranged(first), arranged(second)),
{
    let u = arranged(first);
    let v = arranged(second);
    lemma_arranged_in_order(first);
    lemma_arranged_in_order(second);
    lemma_arranged_one_path(first);
    lemma_arranged_one_path(second);
    assert forall|i: int| 0 <= i < u.len() implies holds(v, #[trigger] u[i]) by {
        assert(held_at(u, u[i], i));
        lemma_arranged_holds(first, u[i]);
        let j = choose|j: int| held_at(first, u[i], j);
        assert(holds(second, first[j]));
        let k = choose|k: int| held_at(second, first[j], k);
        assert(held_at(second, u[i], k));
        lemma_arranged_holds(second, u[i]);
    }
    assert forall|i: int| 0 <= i < v.len() implies holds(u, #[trigger] v[i]) by {
        assert(held_at(v, v[i], i));
        lemma_arranged_holds(second, v[i]);
        let j = choose|j: int| held_at(second, v[i], j);
        assert(holds(first, second[j]));
        let k = choose|k: int| held_at(first, second[j], k);
        assert(held_at(first, v[i], k));
        lemma_arranged_holds(first, v[i]);
    }
    lemma_one_order(u, v);
}

/// Whether `a` comes before `b`.
pub fn is_before(a: &Vec<char>, b: &Vec<char>) -> (r: bool)
    ensures
        r == before(a@, b@),
{
    let mut i: usize = 0;
    proof {
        assert(a@.skip(0) =~= a@);
        assert(b@.skip(0) =~= b@);
    }
    while i < a.len() && i < b.len() && a[i] == b[i]
        invariant
            i <= a.len(),
            i <= b.len(),
            before(a@, b@) == before(a@.skip(i as int), b@.skip(i as int)),
        decreases a.len() - i,
    {
        proof {
            assert(a@.skip(i as int).drop_first() =~= a@.skip(i + 1));
            assert(b@.skip(i as int).drop_first() =~= b@.skip(i + 1));
            assert(a@.skip(i as int)[0] == a@[i as int]);
            assert(b@.skip(i as int)[0] == b@[i as int]);
        }
        i += 1;
    }
    proof {
        if i < a.len() {
            assert(a@.skip(i as int)[0] == a@[i as int]);
        }
        if i < b.len() {
            assert(b@.skip(i as int)[0] == b@[i as int]);
        }
    }
    if i >= b.len() {
        false
    } else if i >= a.len() {
        true
    } else {
        (a[i] as u32) < (b[i] as u32)
    }
}

/// The archive order of a tree, as indices into it.
pub fn arrange(tree: &Vec<TreeEntry>) -> (order: Vec<usize>)
    ensures
        order@.len() == tree@.len(),
        forall|k: int| 0 <= k < order@.len() ==> (#[trigger] order@[k]) < tree@.len(),
        picked(order@, tree@) == arranged(tree@),
{
    let mut keys: Vec<Vec<char>> = Vec::new();
    let mut i: usize = 0;
    while i < tree.len()
        invariant
            i <= tree.len(),
            keys@.len() == i,
            forall|k: int| 0 <= k < i ==> (#[trigger] keys@[k])@ == entry_key(tree@[k]),
        decreases tree.len() - i,
    {
        keys.push(normalize(tree[i].path.as_str()));
        i += 1;
    }
    let mut order: Vec<usize> = Vec::new();
    let mut n: usize = 0;
    proof {
        assert(picked(order@, tree@) =~= arranged(tree@.take(0)));
    }
    while n < tree.len()
        invariant
            n <= tree.len(),
            keys@.len() == tree@.len(),
            forall|k: int| 0 <= k < keys@.len() ==> (#[trigger] keys@[k])@ == entry_key(tree@[k]),
            order@.len() == n,
            forall|k: int| 0 <= k < order@.len() ==> (#[trigger] order@[k]) < n,
            picked(order@, tree@) == arranged(tree@.take(n as int)),
        decreases tree.len() - n,
    {
        let ghost list = picked(order@, tree@);
        let mut p: usize = 0;
        while p < order.len() && !is_before(&keys[n], &keys[order[p]])
            invariant
                p <= order@.len(),
                n < tree@.len(),
                keys@.len() == tree@.len(),
                forall|k: int|
                    0 <= k < keys@.len() ==> (#[trigger] keys@[k])@ == entry_key(tree@[k]),
                forall|k: int| 0 <= k < order@.len() ==> (#[trigger] order@[k]) < n,
                list == picked(order@, tree@),
                forall|j: int|
                    0 <= j < p ==> !before(entry_key(tree@[n as int]), entry_key(#[trigger] list[j])),
            decreases order@.len() - p,
        {
            p += 1;
        }
        proof {
            if p < order@.len() {
                assert(list[p as int] == tree@[order@[p as int] as int]);
            }
            lemma_place_unique(list, tree@[n as int], p as int);
            assert(tree@.take(n + 1).drop_last() =~= tree@.take(n as int));
            assert(tree@.take(n + 1).last() == tree@[n as int]);
        }
        let ghost old_order = order@;
        order.insert(p, n);
        proof {
            assert(picked(order@, tree@) =~= list.insert(p as int, tree@[n as int])) by {
                assert forall|k: int| 0 <= k < order@.len() implies picked(order@, tree@)[k]
                    == list.insert(p as int, tree@[n as int])[k] by {
                    if k < p {
                        assert(order@[k] == old_order[k]);
                    } else if k > p {
                        assert(order@[k] == old_order[k - 1]);
                    }
                }
            }
            assert forall|k: int| 0 <= k < order@.len() implies (#[trigger] order@[k]) < n + 1 by {
                if k < p {
                    assert(order@[k] == old_order[k]);
                } else if k > p {
                    assert(order@[k] == old_order[k - 1]);
                }
            }
        }
        n += 1;
    }
    proof {
        assert(tree@.take(tree@.len() as int) =~= tree@);
    }
    order
}

} // verus!
