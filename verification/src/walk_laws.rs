//! What the deletion of a rule does to the registry.

use crate::policy::{delete_error, set_error, MAX_DEPTH};
use crate::walk::{Act, Ev, WalkView};
use vstd::prelude::*;

verus! {

/// Where a key is: the names that lead to it from the Rules key.
pub type Path = Seq<Seq<char>>;

// ---------------------------------------------------------------------------
// The walk over a tree of keys
// ---------------------------------------------------------------------------
/// A key with all that is below it.
pub struct KeyTree {
    pub name: Seq<char>,
    pub children: Seq<KeyTree>,
}

/// Whether no two keys below one key have the same name.
pub open spec fn names_differ(t: KeyTree) -> bool
    decreases t,
{
    &&& forall|i: int, j: int|
        0 <= i < j < t.children.len() ==> (#[trigger] t.children[i]).name != (
        #[trigger] t.children[j]).name
    &&& forall|i: int| 0 <= i < t.children.len() ==> names_differ(#[trigger] t.children[i])
}

/// Whether a key at a depth, and all that is below it, lies no deeper than a
/// rule that can be written.
pub open spec fn fits(t: KeyTree, depth: nat) -> bool
    decreases t,
{
    &&& depth <= MAX_DEPTH + 1
    &&& forall|i: int| 0 <= i < t.children.len() ==> fits(#[trigger] t.children[i], depth + 1)
}

/// The paths of a key and of all that is below it, each behind those below it.
pub open spec fn leaves_first(path: Path, t: KeyTree) -> Seq<Path>
    decreases t, 0nat,
{
    all_leaves_first(path, t.children, t.children.len()).push(path)
}

/// The paths of the first `n` keys below a path and of all that is below them,
/// each behind those below it.
pub open spec fn all_leaves_first(path: Path, keys: Seq<KeyTree>, n: nat) -> Seq<Path>
    decreases keys, n,
{
    if n == 0 || n > keys.len() {
        seq![]
    } else {
        all_leaves_first(path, keys, (n - 1) as nat) + leaves_first(
            path.push(keys[n - 1].name),
            keys[n - 1],
        )
    }
}

/// The names below a key.
pub open spec fn names_below(t: KeyTree) -> Seq<Seq<char>> {
    t.children.map_values(|c: KeyTree| c.name)
}

/// The key of a name below a key.
pub open spec fn child_of(t: KeyTree, name: Seq<char>) -> KeyTree {
    t.children[choose|i: int| 0 <= i < t.children.len() && (#[trigger] t.children[i]).name == name]
}

/// An open key: where it is, and what is below it.
#[verifier::ext_equal]
pub struct OpenKey {
    pub path: Path,
    pub tree: KeyTree,
}

/// A walk in progress: the keys that are open, outermost first, and what is
/// done next.
#[verifier::ext_equal]
pub struct Progress {
    pub walk: WalkView,
    pub keys: Seq<OpenKey>,
    pub act: Act,
}

/// The open key of a name below an open key.
pub open spec fn opened(key: OpenKey, name: Seq<char>) -> OpenKey {
    OpenKey { path: key.path.push(name), tree: child_of(key.tree, name) }
}

impl Progress {
    /// The walk after one more action, where each succeeds. A walk that has
    /// committed or given up stays as it is.
    pub open spec fn advanced(self) -> Progress {
        match self.act {
            Act::ListChildren => {
                let (walk, act) = self.walk.step(Ev::Listed(names_below(self.keys.last().tree)));
                Progress { walk, keys: self.keys, act }
            },
            Act::OpenChild(name) => {
                let (walk, act) = self.walk.step(Ev::Opened);
                Progress { walk, keys: self.keys.push(opened(self.keys.last(), name)), act }
            },
            Act::DeleteKey => {
                let (walk, act) = self.walk.step(Ev::Deleted);
                Progress { walk, keys: self.keys.drop_last(), act }
            },
            Act::Commit => self,
            Act::Refuse(_) => self,
        }
    }

    /// The walk after `n` more actions.
    pub open spec fn after(self, n: nat) -> Progress
        decreases n,
    {
        if n == 0 {
            self
        } else {
            self.after((n - 1) as nat).advanced()
        }
    }

    /// The paths of the keys that are deleted in the next `n` actions, in their
    /// order.
    pub open spec fn deleted(self, n: nat) -> Seq<Path>
        decreases n,
    {
        if n == 0 {
            seq![]
        } else {
            let before = self.after((n - 1) as nat);
            if before.act is DeleteKey {
                self.deleted((n - 1) as nat).push(before.keys.last().path)
            } else {
                self.deleted((n - 1) as nat)
            }
        }
    }
}

/// The walk over a key that was opened at a path.
pub open spec fn walk_of(path: Path, t: KeyTree) -> Progress {
    let walk = WalkView { base: path.len(), pending: seq![] };
    Progress { walk, keys: seq![OpenKey { path, tree: t }], act: walk.entered() }
}

proof fn lemma_after_sum(s: Progress, a: nat, b: nat)
    ensures
        s.after(a + b) == s.after(a).after(b),
        s.deleted(a + b) == s.deleted(a) + s.after(a).deleted(b),
    decreases b,
{
    if b > 0 {
        lemma_after_sum(s, a, (b - 1) as nat);
        assert(a + b - 1 == a + (b - 1));
    }
    assert(s.deleted(a + b) == s.deleted(a) + s.after(a).deleted(b));
}

proof fn lemma_one_more(s: Progress)
    ensures
        s.after(1) == s.advanced(),
        s.deleted(1) == if s.act is DeleteKey {
            seq![s.keys.last().path]
        } else {
            seq![]
        },
{
    assert(s.after(0) == s);
    assert(s.deleted(0) == Seq::<Path>::empty());
    assert(s.after(1) == s.after(0).advanced());
}

/// The open key of a child.
spec fn below(path: Path, t: KeyTree, k: int) -> OpenKey {
    OpenKey { path: path.push(t.children[k].name), tree: t.children[k] }
}

/// The walk within a key whose first `k` names have been dealt with.
spec fn within(walk: WalkView, keys: Seq<OpenKey>, names: Seq<Seq<char>>, k: int) -> Progress {
    let (w, act) = (WalkView { pending: walk.pending.push(names.skip(k)), ..walk }).next();
    Progress { walk: w, keys, act }
}

/// From a key's listing, the walk comes to the next name once each key before
/// it is deleted, if those fit.
proof fn lemma_children_deleted(
    walk: WalkView,
    keys: Seq<OpenKey>,
    path: Path,
    t: KeyTree,
    k: int,
) -> (n: nat)
    requires
        names_differ(t),
        keys.len() > 0,
        keys.last() == (OpenKey { path, tree: t }),
        0 <= k <= t.children.len(),
        forall|i: int| 0 <= i < k ==> fits(#[trigger] t.children[i], walk.depth() + 1),
    ensures
        within(walk, keys, names_below(t), 0).after(n) == within(walk, keys, names_below(t), k),
        within(walk, keys, names_below(t), 0).deleted(n) == all_leaves_first(
            path,
            t.children,
            k as nat,
        ),
    decreases t, k,
{
    let names = names_below(t);
    let start = within(walk, keys, names, 0);
    if k == 0 {
        0
    } else {
        let n = lemma_children_deleted(walk, keys, path, t, k - 1);
        let m = lemma_child_deleted(walk, keys, path, t, k - 1);
        lemma_after_sum(start, n, m);
        n + m
    }
}

/// The walk opens the next key of a listing and comes to it.
proof fn lemma_child_opened(walk: WalkView, keys: Seq<OpenKey>, path: Path, t: KeyTree, k: int)
    requires
        names_differ(t),
        keys.len() > 0,
        keys.last() == (OpenKey { path, tree: t }),
        0 <= k < t.children.len(),
    ensures
        ({
            let w = WalkView { pending: walk.pending.push(names_below(t).skip(k + 1)), ..walk };
            let here = within(walk, keys, names_below(t), k);
            &&& here.advanced() == (Progress {
                walk: w,
                keys: keys.push(below(path, t, k)),
                act: w.entered(),
            })
            &&& !(here.act is DeleteKey)
        }),
{
    let names = names_below(t);
    let here = within(walk, keys, names, k);
    let before = walk.pending.push(names.skip(k));
    let w = WalkView { pending: walk.pending.push(names.skip(k + 1)), ..walk };
    assert(before.last() == names.skip(k));
    assert(names.skip(k).skip(1) == names.skip(k + 1));
    assert(before.drop_last() == walk.pending);
    assert(names.skip(k)[0] == t.children[k].name);
    assert(here.walk == w);
    assert(here.act == Act::OpenChild(t.children[k].name));
    assert(child_of(t, t.children[k].name) == t.children[k]) by {
        let i = choose|i: int|
            0 <= i < t.children.len() && (#[trigger] t.children[i]).name == t.children[k].name;
        assert(0 <= i < t.children.len() && t.children[i].name == t.children[k].name);
        assert(i == k);
    }
}

/// The walk deletes the next key of a listing with all that is below it.
proof fn lemma_child_deleted(
    walk: WalkView,
    keys: Seq<OpenKey>,
    path: Path,
    t: KeyTree,
    k: int,
) -> (n: nat)
    requires
        names_differ(t),
        keys.len() > 0,
        keys.last() == (OpenKey { path, tree: t }),
        0 <= k < t.children.len(),
        fits(t.children[k], walk.depth() + 1),
    ensures
        within(walk, keys, names_below(t), k).after(n) == within(
            walk,
            keys,
            names_below(t),
            k + 1,
        ),
        within(walk, keys, names_below(t), k).deleted(n) == leaves_first(
            path.push(t.children[k].name),
            t.children[k],
        ),
    decreases t, 0int,
{
    let names = names_below(t);
    let here = within(walk, keys, names, k);
    let w = WalkView { pending: walk.pending.push(names.skip(k + 1)), ..walk };
    lemma_child_opened(walk, keys, path, t, k);
    lemma_one_more(here);
    let inside = keys.push(below(path, t, k));
    assert(inside.drop_last() == keys);
    let m = lemma_key_deleted(w, inside, path.push(t.children[k].name), t.children[k]);
    lemma_after_sum(here, 1, m);
    assert(here.deleted(1 + m) == leaves_first(path.push(t.children[k].name), t.children[k]));
    1 + m
}

/// The walk deletes an opened key with all that is below it, each key behind
/// those below it.
proof fn lemma_key_deleted(walk: WalkView, keys: Seq<OpenKey>, path: Path, t: KeyTree) -> (n: nat)
    requires
        names_differ(t),
        keys.len() > 0,
        keys.last() == (OpenKey { path, tree: t }),
        fits(t, walk.depth()),
    ensures
        ({
            let opened = Progress { walk, keys, act: walk.entered() };
            let (w, act) = walk.next();
            &&& opened.after(n) == (Progress { walk: w, keys: keys.drop_last(), act })
            &&& opened.deleted(n) == leaves_first(path, t)
        }),
    decreases t, t.children.len() + 1,
{
    let names = names_below(t);
    let opened = Progress { walk, keys, act: walk.entered() };
    let begun = within(walk, keys, names, 0);
    lemma_one_more(opened);
    assert(names.skip(0) == names);
    assert(opened.advanced() == begun);
    let count = t.children.len();
    let m = lemma_children_deleted(walk, keys, path, t, count as int);
    lemma_after_sum(opened, 1, m);
    let done = within(walk, keys, names, count as int);
    lemma_one_more(done);
    let left = walk.pending.push(names.skip(count as int));
    assert(left.last().len() == 0);
    assert(left.drop_last() == walk.pending);
    assert(done.act is DeleteKey);
    assert(done.advanced() == (Progress {
        walk: walk.next().0,
        keys: keys.drop_last(),
        act: walk.next().1,
    }));
    lemma_after_sum(opened, 1 + m, 1);
    assert(opened.deleted(1 + m + 1) == leaves_first(path, t));
    1 + m + 1
}

/// Of the keys below one that are nested too deep, the first.
proof fn lemma_first_unfit(t: KeyTree, depth: nat, from: int) -> (k: int)
    requires
        0 <= from <= t.children.len(),
        forall|i: int| 0 <= i < from ==> fits(#[trigger] t.children[i], depth),
        exists|i: int| 0 <= i < t.children.len() && !fits(#[trigger] t.children[i], depth),
    ensures
        0 <= k < t.children.len(),
        !fits(t.children[k], depth),
        forall|i: int| 0 <= i < k ==> fits(#[trigger] t.children[i], depth),
    decreases t.children.len() - from,
{
    if !fits(t.children[from], depth) {
        from
    } else {
        lemma_first_unfit(t, depth, from + 1)
    }
}

/// The walk gives up on a key that is nested too deep, or that has such a key
/// below it.
proof fn lemma_unfit_refused(walk: WalkView, keys: Seq<OpenKey>, path: Path, t: KeyTree) -> (n: nat)
    requires
        names_differ(t),
        keys.len() > 0,
        keys.last() == (OpenKey { path, tree: t }),
        !fits(t, walk.depth()),
    ensures
        (Progress { walk, keys, act: walk.entered() }).after(n).act == Act::Refuse(
            "rule nesting too deep"@,
        ),
    decreases t,
{
    let names = names_below(t);
    let opened = Progress { walk, keys, act: walk.entered() };
    if walk.depth() > MAX_DEPTH + 1 {
        0
    } else {
        let k = lemma_first_unfit(t, walk.depth() + 1, 0);
        lemma_one_more(opened);
        assert(names.skip(0) == names);
        let m = lemma_children_deleted(walk, keys, path, t, k);
        lemma_after_sum(opened, 1, m);
        let here = within(walk, keys, names, k);
        lemma_child_opened(walk, keys, path, t, k);
        lemma_one_more(here);
        lemma_after_sum(opened, 1 + m, 1);
        let w = WalkView { pending: walk.pending.push(names.skip(k + 1)), ..walk };
        let l = lemma_unfit_refused(
            w,
            keys.push(below(path, t, k)),
            path.push(t.children[k].name),
            t.children[k],
        );
        lemma_after_sum(opened, 1 + m + 1, l);
        1 + m + 1 + l
    }
}

proof fn lemma_over_stays(s: Progress, n: nat)
    requires
        s.act is Commit || s.act is Refuse,
    ensures
        s.after(n) == s,
    decreases n,
{
    if n > 0 {
        lemma_over_stays(s, (n - 1) as nat);
    }
}

// ---------------------------------------------------------------------------
// What a deletion does to the registry
// ---------------------------------------------------------------------------
/// Whether a path leads to a key of a tree that stands at another path.
pub open spec fn in_tree(path: Path, t: KeyTree, p: Path) -> bool
    decreases t,
{
    ||| p == path
    ||| exists|i: int|
        0 <= i < t.children.len() && in_tree(
            path.push(t.children[i].name),
            #[trigger] t.children[i],
            p,
        )
}

/// Whether a tree is all that a registry has at a path and below it.
pub open spec fn stands_at(registry: Set<Path>, path: Path, t: KeyTree) -> bool {
    forall|p: Path|
        #![trigger registry.contains(p)]
        #![trigger in_tree(path, t, p)]
        registry.contains(p) && path.is_prefix_of(p) <==> in_tree(path, t, p)
}

/// A registry without the keys at some paths.
pub open spec fn without(registry: Set<Path>, gone: Seq<Path>) -> Set<Path> {
    Set::new(|p: Path| registry.contains(p) && !gone.contains(p))
}

proof fn lemma_leaves_first_is_the_tree(path: Path, t: KeyTree, p: Path)
    ensures
        leaves_first(path, t).contains(p) <==> in_tree(path, t, p),
    decreases t, t.children.len() + 1,
{
    let all = all_leaves_first(path, t.children, t.children.len());
    lemma_all_leaves_first(path, t, p, t.children.len() as int);
    if leaves_first(path, t).contains(p) {
        let k = leaves_first(path, t).index_of(p);
        if k < all.len() {
            assert(all[k] == p);
        }
    }
    if all.contains(p) {
        let k = all.index_of(p);
        assert(leaves_first(path, t)[k] == p);
    }
    assert(leaves_first(path, t)[all.len() as int] == path);
}

proof fn lemma_all_leaves_first(path: Path, t: KeyTree, p: Path, n: int)
    requires
        0 <= n <= t.children.len(),
    ensures
        all_leaves_first(path, t.children, n as nat).contains(p) <==> exists|i: int|
            0 <= i < n && in_tree(path.push(t.children[i].name), #[trigger] t.children[i], p),
    decreases t, n,
{
    if n > 0 {
        let head = all_leaves_first(path, t.children, (n - 1) as nat);
        let child = t.children[n - 1];
        let tail = leaves_first(path.push(child.name), child);
        let all = all_leaves_first(path, t.children, n as nat);
        lemma_all_leaves_first(path, t, p, n - 1);
        lemma_leaves_first_is_the_tree(path.push(child.name), child, p);
        assert(all == head + tail);
        if all.contains(p) {
            let k = all.index_of(p);
            if k < head.len() {
                assert(head[k] == p);
            } else {
                assert(tail[k - head.len()] == p);
            }
        }
        if head.contains(p) {
            assert(all[head.index_of(p)] == p);
        }
        if tail.contains(p) {
            assert(all[head.len() + tail.index_of(p)] == p);
        }
    }
}

/// A rule that lies no deeper than one that can be written is deleted whole:
/// every key at its path and below it, each behind those below it, and only
/// then comes the commit. Every other key stays as it was.
pub proof fn law_walk_deletes_all_leaves_first(registry: Set<Path>, path: Path, t: KeyTree)
    requires
        stands_at(registry, path, t),
        names_differ(t),
        fits(t, path.len()),
    ensures
        exists|n: nat|
            (#[trigger] walk_of(path, t).after(n)).act is Commit && walk_of(path, t).deleted(n)
                == leaves_first(path, t) && without(registry, walk_of(path, t).deleted(n))
                == registry.filter(|p: Path| !path.is_prefix_of(p)),
{
    let s = walk_of(path, t);
    let n = lemma_key_deleted(s.walk, s.keys, path, t);
    assert(s.after(n).act is Commit);
    let rest = registry.filter(|p: Path| !path.is_prefix_of(p));
    assert forall|p: Path| without(registry, s.deleted(n)).contains(p) <==> rest.contains(p) by {
        lemma_leaves_first_is_the_tree(path, t, p);
        assert(registry.contains(p) && path.is_prefix_of(p) <==> in_tree(path, t, p));
    }
    assert(without(registry, s.deleted(n)) == rest);
}

/// A rule that lies deeper than any that can be written, or has such a key
/// below it, is refused, and nothing of the edit is ever committed.
pub proof fn law_walk_refuses_what_is_too_deep(path: Path, t: KeyTree)
    requires
        names_differ(t),
        !fits(t, path.len()),
    ensures
        exists|n: nat|
            (#[trigger] walk_of(path, t).after(n)).act == Act::Refuse("rule nesting too deep"@),
        forall|n: nat| !((#[trigger] walk_of(path, t).after(n)).act is Commit),
{
    let s = walk_of(path, t);
    let n = lemma_unfit_refused(s.walk, s.keys, path, t);
    assert(s.after(n).act is Refuse);
    assert forall|m: nat| !((#[trigger] s.after(m)).act is Commit) by {
        if m >= n {
            lemma_after_sum(s, n, (m - n) as nat);
            lemma_over_stays(s.after(n), (m - n) as nat);
        } else {
            lemma_after_sum(s, m, (n - m) as nat);
            if s.after(m).act is Commit {
                lemma_over_stays(s.after(m), (n - m) as nat);
            }
        }
    }
}

/// Whether every key of a tree is at a path under which a rule can be written.
pub open spec fn writable(path: Path, t: KeyTree) -> bool
    decreases t,
{
    &&& set_error(path) is None
    &&& forall|i: int|
        0 <= i < t.children.len() ==> writable(
            path.push(t.children[i].name),
            #[trigger] t.children[i],
        )
}

proof fn lemma_writable_fits(path: Path, t: KeyTree)
    requires
        writable(path, t),
    ensures
        fits(t, path.len()),
    decreases t,
{
    assert forall|i: int| 0 <= i < t.children.len() implies fits(
        #[trigger] t.children[i],
        path.len() + 1,
    ) by {
        lemma_writable_fits(path.push(t.children[i].name), t.children[i]);
    }
}

/// What can be written can be deleted: every path that is accepted for writing
/// is accepted for deleting, and the walk deletes the rule with its exceptions
/// and commits.
pub proof fn law_written_rules_can_be_deleted(registry: Set<Path>, path: Path, t: KeyTree)
    requires
        stands_at(registry, path, t),
        names_differ(t),
        writable(path, t),
    ensures
        delete_error(path) is None,
        !(walk_of(path, t).act is Refuse),
        exists|n: nat|
            (#[trigger] walk_of(path, t).after(n)).act is Commit && without(
                registry,
                walk_of(path, t).deleted(n),
            ) == registry.filter(|p: Path| !path.is_prefix_of(p)),
{
    lemma_writable_fits(path, t);
    law_walk_deletes_all_leaves_first(registry, path, t);
}

} // verus!
