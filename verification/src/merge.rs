use vstd::prelude::*;
use crate::blueprint::ElementType;

verus! {

/// Node reached from `i` after `k` parent steps.
pub open spec fn follow(p: Seq<usize>, i: int, k: nat) -> int
    decreases k,
{
    if k == 0 {
        i
    } else {
        follow(p, p[i] as int, (k - 1) as nat)
    }
}

/// `r` is a root of the parent array: a node that is its own parent.
pub open spec fn is_root(p: Seq<usize>, r: int) -> bool {
    0 <= r < p.len() && p[r] as int == r
}

/// Every parent pointer names a node of the array.
pub open spec fn parents_in_range(p: Seq<usize>) -> bool {
    forall|j: int| 0 <= j < p.len() ==> #[trigger] p[j] < p.len()
}

/// Within `d` steps every node has reached a root.
pub open spec fn roots_within(p: Seq<usize>, d: nat) -> bool {
    forall|j: int| 0 <= j < p.len() ==> #[trigger] is_root(p, follow(p, j, d))
}

/// The parent array is a union-find forest: parents are in range and following
/// parents from any node ends at a root.
pub open spec fn is_forest(p: Seq<usize>) -> bool {
    parents_in_range(p) && exists|d: nat| roots_within(p, d)
}

/// A number of steps after which every node of a forest sits at its root.
pub open spec fn forest_depth(p: Seq<usize>) -> nat {
    choose|d: nat| roots_within(p, d)
}

/// The root of node `i` in a forest.
pub open spec fn root_of(p: Seq<usize>, i: int) -> int {
    follow(p, i, forest_depth(p))
}

proof fn lemma_follow_add(p: Seq<usize>, i: int, a: nat, b: nat)
    ensures
        follow(p, i, a + b) == follow(p, follow(p, i, a), b),
    decreases a,
{
    if a > 0 {
        lemma_follow_add(p, p[i] as int, (a - 1) as nat, b);
        assert((a + b - 1) as nat == ((a - 1) as nat + b) as nat);
    }
}

proof fn lemma_root_fixed(p: Seq<usize>, r: int, m: nat)
    requires
        is_root(p, r),
    ensures
        follow(p, r, m) == r,
    decreases m,
{
    if m > 0 {
        lemma_root_fixed(p, r, (m - 1) as nat);
    }
}

proof fn lemma_follow_in_range(p: Seq<usize>, i: int, m: nat)
    requires
        parents_in_range(p),
        0 <= i < p.len(),
    ensures
        0 <= follow(p, i, m) < p.len(),
    decreases m,
{
    if m > 0 {
        assert(p[i] < p.len());
        lemma_follow_in_range(p, p[i] as int, (m - 1) as nat);
    }
}

/// Any root reached from `i` is `root_of(p, i)`.
proof fn lemma_root_unique(p: Seq<usize>, i: int, k: nat)
    requires
        is_forest(p),
        0 <= i < p.len(),
        is_root(p, follow(p, i, k)),
    ensures
        follow(p, i, k) == root_of(p, i),
        is_root(p, root_of(p, i)),
{
    let d = forest_depth(p);
    assert(roots_within(p, d));
    assert(is_root(p, follow(p, i, d)));
    if k <= d {
        lemma_follow_add(p, i, k, (d - k) as nat);
        lemma_root_fixed(p, follow(p, i, k), (d - k) as nat);
        assert(k + (d - k) as nat == d);
    } else {
        lemma_follow_add(p, i, d, (k - d) as nat);
        lemma_root_fixed(p, follow(p, i, d), (k - d) as nat);
        assert(d + (k - d) as nat == k);
    }
}

/// Following parents in the array where root `r` now points at `v` gives the old path
/// as long as the old path has not reached `r`.
proof fn lemma_follow_update_avoid(p: Seq<usize>, r: int, v: usize, x: int, m: nat)
    requires
        parents_in_range(p),
        is_root(p, r),
        0 <= x < p.len(),
        follow(p, x, m) != r,
    ensures
        follow(p.update(r, v), x, m) == follow(p, x, m),
    decreases m,
{
    if m > 0 {
        if x == r {
            lemma_root_fixed(p, r, m);
        }
        assert(p.update(r, v)[x] == p[x]);
        assert(p[x] < p.len());
        lemma_follow_update_avoid(p, r, v, p[x] as int, (m - 1) as nat);
    }
}

/// When the old path from `x` ends in root `r`, the path in the updated array where
/// `r` points at the root `v` is at `r` or already at `v`.
proof fn lemma_follow_update_hit(p: Seq<usize>, r: int, v: usize, x: int, m: nat)
    requires
        parents_in_range(p),
        is_root(p, r),
        is_root(p, v as int),
        r != v,
        0 <= x < p.len(),
        follow(p, x, m) == r,
    ensures
        follow(p.update(r, v), x, m) == r || follow(p.update(r, v), x, m) == v,
    decreases m,
{
    let q = p.update(r, v);
    if m > 0 {
        if x == r {
            assert(q[r] == v);
            assert(is_root(q, v as int));
            lemma_root_fixed(q, v as int, (m - 1) as nat);
        } else {
            assert(q[x] == p[x]);
            assert(p[x] < p.len());
            lemma_follow_update_hit(p, r, v, p[x] as int, (m - 1) as nat);
        }
    }
}

/// Linking root `rj` under root `ri` keeps a forest, moves every node of the tree of
/// `rj` to root `ri` and leaves every other node's root unchanged.
proof fn lemma_link_roots(p: Seq<usize>, ri: usize, rj: usize)
    requires
        is_forest(p),
        is_root(p, ri as int),
        is_root(p, rj as int),
        ri != rj,
    ensures
        is_forest(p.update(rj as int, ri)),
        forall|x: int|
            0 <= x < p.len() ==> #[trigger] root_of(p.update(rj as int, ri), x) == if root_of(p, x)
                == rj {
                ri as int
            } else {
                root_of(p, x)
            },
{
    let q = p.update(rj as int, ri);
    let d = forest_depth(p);
    assert(roots_within(p, d));
    assert(parents_in_range(q)) by {
        assert forall|j: int| 0 <= j < q.len() implies #[trigger] q[j] < q.len() by {
            if j != rj {
                assert(q[j] == p[j]);
            }
        }
    }
    assert forall|x: int| 0 <= x < q.len() implies #[trigger] is_root(q, follow(q, x, d + 1))
        && follow(q, x, d + 1) == (if root_of(p, x) == rj {
        ri as int
    } else {
        root_of(p, x)
    }) by {
        assert(is_root(p, follow(p, x, d)));
        assert(root_of(p, x) == follow(p, x, d));
        lemma_follow_add(q, x, d, 1);
        if follow(p, x, d) == rj {
            lemma_follow_update_hit(p, rj as int, ri, x, d);
            let y = follow(q, x, d);
            assert(follow(q, y, 1) == follow(q, q[y] as int, 0));
            assert(q[ri as int] == ri);
        } else {
            lemma_follow_add(p, x, d, 1);
            lemma_root_fixed(p, follow(p, x, d), 1);
            lemma_follow_update_avoid(p, rj as int, ri, x, d + 1);
            assert(q[follow(p, x, d)] == p[follow(p, x, d)]);
        }
    }
    assert(roots_within(q, d + 1));
    assert(is_forest(q));
    assert forall|x: int| 0 <= x < p.len() implies #[trigger] root_of(q, x) == if root_of(p, x)
        == rj {
        ri as int
    } else {
        root_of(p, x)
    } by {
        assert(is_root(q, follow(q, x, d + 1)));
        lemma_root_unique(q, x, d + 1);
    }
}

proof fn lemma_root_of_is_root(p: Seq<usize>, x: int)
    requires
        is_forest(p),
        0 <= x < p.len(),
    ensures
        is_root(p, root_of(p, x)),
{
    assert(roots_within(p, forest_depth(p)));
    assert(is_root(p, follow(p, x, forest_depth(p))));
}

/// Simple union-find `find` without path compression: follows parent pointers from
/// `i` until it reaches a node that is its own parent, and returns that root.
pub fn uf_find(parent: &[usize], i: usize) -> (r: usize)
    requires
        is_forest(parent@),
        i < parent@.len(),
    ensures
        r as int == root_of(parent@, i as int),
        is_root(parent@, r as int),
{
    let ghost p = parent@;
    let ghost d = forest_depth(p);
    proof {
        assert(roots_within(p, d));
        assert(is_root(p, follow(p, i as int, d)));
    }
    let mut cur = i;
    let ghost mut k: nat = 0;
    while parent[cur] != cur
        invariant
            p == parent@,
            is_forest(p),
            roots_within(p, d),
            0 <= i < p.len(),
            cur < p.len(),
            cur as int == follow(p, i as int, k),
            k <= d,
            is_root(p, follow(p, i as int, d)),
        decreases d - k,
    {
        proof {
            if k == d {
                assert(false);
            }
            lemma_follow_add(p, i as int, k, 1);
            assert(follow(p, cur as int, 1) == follow(p, p[cur as int] as int, 0));
        }
        cur = parent[cur];
        proof {
            k = k + 1;
        }
    }
    proof {
        lemma_root_unique(p, i as int, k);
    }
    cur
}

/// The pair `(a, b)`, `a < b`, qualifies for merging: the two elements have the same
/// type and their primary segments are aligned and close (`aligned[a][b]`, measured
/// by the caller on the segment geometry).
pub open spec fn merge_linked(types: Seq<ElementType>, aligned: Seq<Vec<bool>>, a: int, b: int) -> bool {
    &&& 0 <= a < b < types.len()
    &&& types[a] == types[b]
    &&& aligned[a]@[b]
}

/// `x` and `y` qualify for merging in either order.
pub open spec fn linked(types: Seq<ElementType>, aligned: Seq<Vec<bool>>, x: int, y: int) -> bool {
    merge_linked(types, aligned, x, y) || merge_linked(types, aligned, y, x)
}

/// A non-empty chain of elements in which neighbours qualify for merging.
pub open spec fn is_merge_path(types: Seq<ElementType>, aligned: Seq<Vec<bool>>, path: Seq<int>) -> bool {
    &&& path.len() >= 1
    &&& forall|k: int| 0 <= k < path.len() - 1 ==> #[trigger] linked(types, aligned, path[k], path[k + 1])
}

/// `x` and `y` are joined by a chain of pairs that qualify for merging.
pub open spec fn merge_connected(types: Seq<ElementType>, aligned: Seq<Vec<bool>>, x: int, y: int) -> bool {
    exists|path: Seq<int>|
        #[trigger] is_merge_path(types, aligned, path) && path[0] == x && path[path.len() - 1] == y
}

/// The parent array in which every element is its own group.
pub open spec fn singletons(n: nat) -> Seq<usize> {
    Seq::new(n, |k: int| k as usize)
}

/// Considers the pair `(i, j)`: if it qualifies and the two elements are in different
/// groups, the root of `j` is linked under the root of `i`.
pub open spec fn union_pair(p: Seq<usize>, types: Seq<ElementType>, aligned: Seq<Vec<bool>>, i: int, j: int) -> Seq<usize> {
    if merge_linked(types, aligned, i, j) && root_of(p, i) != root_of(p, j) {
        p.update(root_of(p, j), root_of(p, i) as usize)
    } else {
        p
    }
}

/// Considers the pairs `(i, i + 1), ..., (i, j - 1)` in that order.
pub open spec fn row_unions(p: Seq<usize>, types: Seq<ElementType>, aligned: Seq<Vec<bool>>, i: int, j: int) -> Seq<usize>
    decreases j - i,
{
    if j <= i + 1 {
        p
    } else {
        union_pair(row_unions(p, types, aligned, i, j - 1), types, aligned, i, j - 1)
    }
}

/// Starting from singletons, considers every pair `(a, b)` with `a < i` and `a < b`,
/// rows in increasing `a`, each row in increasing `b`.
pub open spec fn all_unions(types: Seq<ElementType>, aligned: Seq<Vec<bool>>, i: int) -> Seq<usize>
    decreases i,
{
    if i <= 0 {
        singletons(types.len())
    } else {
        row_unions(all_unions(types, aligned, i - 1), types, aligned, i - 1, types.len() as int)
    }
}

proof fn lemma_path_single(types: Seq<ElementType>, aligned: Seq<Vec<bool>>, x: int)
    ensures
        merge_connected(types, aligned, x, x),
{
    let path = seq![x];
    assert(is_merge_path(types, aligned, path));
}

proof fn lemma_path_join(types: Seq<ElementType>, aligned: Seq<Vec<bool>>, x: int, a: int, b: int, y: int)
    requires
        merge_connected(types, aligned, x, a),
        linked(types, aligned, a, b),
        merge_connected(types, aligned, b, y),
    ensures
        merge_connected(types, aligned, x, y),
{
    let p1 = choose|path: Seq<int>|
        #[trigger] is_merge_path(types, aligned, path) && path[0] == x && path[path.len() - 1] == a;
    let p2 = choose|path: Seq<int>|
        #[trigger] is_merge_path(types, aligned, path) && path[0] == b && path[path.len() - 1] == y;
    let path = p1 + p2;
    assert forall|k: int| 0 <= k < path.len() - 1 implies #[trigger] linked(types, aligned, path[k], path[k + 1]) by {
        if k < p1.len() - 1 {
            assert(path[k] == p1[k] && path[k + 1] == p1[k + 1]);
            assert(linked(types, aligned, p1[k], p1[k + 1]));
        } else if k == p1.len() - 1 {
            assert(path[k] == a && path[k + 1] == b);
        } else {
            let k2 = k - p1.len();
            assert(path[k] == p2[k2] && path[k + 1] == p2[k2 + 1]);
            assert(linked(types, aligned, p2[k2], p2[k2 + 1]));
        }
    }
    assert(is_merge_path(types, aligned, path));
    assert(path[0] == x && path[path.len() - 1] == y);
}

/// Union-find grouping of the elements to merge: every pair `(i, j)`, `i < j`, of
/// elements with equal types whose segments are aligned (`aligned[i][j]`) is united,
/// the root of `j`'s group being linked under the root of `i`'s group. Returns the
/// parent array.
pub fn merge_groups(types: &Vec<ElementType>, aligned: &Vec<Vec<bool>>) -> (parent: Vec<usize>)
    requires
        aligned@.len() == types@.len(),
        forall|r: int| 0 <= r < aligned@.len() ==> (#[trigger] aligned@[r])@.len() == types@.len(),
    ensures
        parent@.len() == types@.len(),
        is_forest(parent@),
        parent@ == all_unions(types@, aligned@, types@.len() as int),
        forall|a: int, b: int|
            #[trigger] merge_linked(types@, aligned@, a, b) ==> root_of(parent@, a) == root_of(parent@, b),
        forall|x: int, y: int|
            0 <= x < types@.len() && 0 <= y < types@.len() && #[trigger] root_of(parent@, x) == #[trigger] root_of(parent@, y)
                ==> merge_connected(types@, aligned@, x, y),
{
    let n = types.len();
    let ghost ty = types@;
    let ghost al = aligned@;
    let mut parent: Vec<usize> = Vec::new();
    let mut k: usize = 0;
    while k < n
        invariant
            k <= n,
            n == ty.len(),
            parent@ == singletons(n as nat).take(k as int),
        decreases n - k,
    {
        parent.push(k);
        k = k + 1;
        assert(parent@ == singletons(n as nat).take(k as int));
    }
    assert(parent@ == singletons(n as nat));
    proof {
        assert(roots_within(parent@, 0));
        assert forall|x: int, y: int|
            0 <= x < n && 0 <= y < n && #[trigger] root_of(parent@, x) == #[trigger] root_of(parent@, y)
            implies merge_connected(ty, al, x, y) by {
            lemma_root_unique(parent@, x, 0);
            lemma_root_unique(parent@, y, 0);
            lemma_path_single(ty, al, x);
        }
    }
    let mut i: usize = 0;
    while i < n
        invariant
            i <= n,
            n == ty.len(),
            ty == types@,
            al == aligned@,
            al.len() == n,
            forall|r: int| 0 <= r < al.len() ==> (#[trigger] al[r])@.len() == n,
            parent@.len() == n,
            is_forest(parent@),
            parent@ == all_unions(ty, al, i as int),
            forall|a: int, b: int|
                #[trigger] merge_linked(ty, al, a, b) && a < i ==> root_of(parent@, a) == root_of(parent@, b),
            forall|x: int, y: int|
                0 <= x < n && 0 <= y < n && #[trigger] root_of(parent@, x) == #[trigger] root_of(parent@, y)
                    ==> merge_connected(ty, al, x, y),
        decreases n - i,
    {
        let ghost row_start = parent@;
        let mut j: usize = i + 1;
        while j < n
            invariant
                i < n,
                i + 1 <= j <= n,
                n == ty.len(),
                ty == types@,
                al == aligned@,
                al.len() == n,
                forall|r: int| 0 <= r < al.len() ==> (#[trigger] al[r])@.len() == n,
                parent@.len() == n,
                is_forest(parent@),
                row_start == all_unions(ty, al, i as int),
                parent@ == row_unions(row_start, ty, al, i as int, j as int),
                forall|a: int, b: int|
                    #[trigger] merge_linked(ty, al, a, b) && (a < i || (a == i && b < j)) ==> root_of(parent@, a)
                        == root_of(parent@, b),
                forall|x: int, y: int|
                    0 <= x < n && 0 <= y < n && #[trigger] root_of(parent@, x) == #[trigger] root_of(parent@, y)
                        ==> merge_connected(ty, al, x, y),
            decreases n - j,
        {
            let ghost old_p = parent@;
            let same = types[i] == types[j];
            if same && aligned[i][j] {
                assert(merge_linked(ty, al, i as int, j as int));
                let ri = uf_find(parent.as_slice(), i);
                let rj = uf_find(parent.as_slice(), j);
                if ri != rj {
                    parent.set(rj, ri);
                    proof {
                        lemma_link_roots(old_p, ri, rj);
                        assert(parent@ == old_p.update(rj as int, ri));
                        assert forall|a: int, b: int|
                            #[trigger] merge_linked(ty, al, a, b) && (a < i || (a == i && b < j + 1))
                            implies root_of(parent@, a) == root_of(parent@, b) by {
                            assert(root_of(parent@, a) == if root_of(old_p, a) == rj { ri as int } else { root_of(old_p, a) });
                            assert(root_of(parent@, b) == if root_of(old_p, b) == rj { ri as int } else { root_of(old_p, b) });
                        }
                        assert forall|x: int, y: int|
                            0 <= x < n && 0 <= y < n && #[trigger] root_of(parent@, x) == #[trigger] root_of(parent@, y)
                            implies merge_connected(ty, al, x, y) by {
                            let ox = root_of(old_p, x);
                            let oy = root_of(old_p, y);
                            assert(root_of(parent@, x) == if ox == rj { ri as int } else { ox });
                            assert(root_of(parent@, y) == if oy == rj { ri as int } else { oy });
                            lemma_root_unique(old_p, x, forest_depth(old_p));
                            lemma_root_unique(old_p, y, forest_depth(old_p));
                            if ox == oy {
                            } else if ox == rj {
                                assert(oy == ri);
                                assert(root_of(old_p, x) == root_of(old_p, j as int));
                                assert(root_of(old_p, i as int) == root_of(old_p, y));
                                lemma_path_join(ty, al, x, j as int, i as int, y);
                            } else {
                                assert(ox == ri && oy == rj);
                                assert(root_of(old_p, x) == root_of(old_p, i as int));
                                assert(root_of(old_p, j as int) == root_of(old_p, y));
                                lemma_path_join(ty, al, x, i as int, j as int, y);
                            }
                        }
                    }
                }
            }
            j = j + 1;
        }
        i = i + 1;
    }
    parent
}

/// The values of `s` in order of their first occurrence, each once.
pub open spec fn first_occurrences<A>(s: Seq<A>) -> Seq<A>
    decreases s.len(),
{
    if s.len() == 0 {
        s
    } else {
        let d = first_occurrences(s.drop_last());
        if d.contains(s.last()) {
            d
        } else {
            d.push(s.last())
        }
    }
}

/// Listing values in order of first occurrence keeps every value of `s`, adds none,
/// and lists each exactly once.
pub proof fn lemma_first_occurrences<A>(s: Seq<A>)
    ensures
        first_occurrences(s).no_duplicates(),
        forall|x: A| #[trigger] first_occurrences(s).contains(x) <==> s.contains(x),
    decreases s.len(),
{
    if s.len() > 0 {
        let t = s.drop_last();
        lemma_first_occurrences(t);
        let d = first_occurrences(t);
        assert forall|x: A| #[trigger] first_occurrences(s).contains(x) <==> s.contains(x) by {
            if s.contains(x) && !t.contains(x) {
                assert(x == s.last()) by {
                    let k = choose|k: int| 0 <= k < s.len() && s[k] == x;
                    if k < s.len() - 1 {
                        assert(t[k] == x);
                    }
                }
            }
            if t.contains(x) {
                let k = choose|k: int| 0 <= k < t.len() && t[k] == x;
                assert(s[k] == x);
            }
            if !d.contains(s.last()) {
                assert(d.push(s.last()).contains(x) <==> d.contains(x) || x == s.last()) by {
                    if d.push(s.last()).contains(x) && !d.contains(x) {
                        let k = choose|k: int| 0 <= k < d.len() + 1 && d.push(s.last())[k] == x;
                        if k < d.len() {
                            assert(d[k] == x);
                        }
                    }
                    if d.contains(x) {
                        let k = choose|k: int| 0 <= k < d.len() && d[k] == x;
                        assert(d.push(s.last())[k] == x);
                    }
                    if x == s.last() {
                        assert(d.push(s.last())[d.len() as int] == x);
                    }
                }
            }
            assert(s.last() == s[s.len() - 1]);
        }
        if !d.contains(s.last()) {
            let e = d.push(s.last());
            assert forall|i: int, j: int| 0 <= i < e.len() && 0 <= j < e.len() && i != j implies e[i] != e[j] by {
                if i < d.len() && j < d.len() {
                } else if i == d.len() {
                    assert(e[j] == d[j]);
                } else {
                    assert(e[i] == d[i]);
                }
            }
        }
    }
}

/// The root of every element, in element order.
pub open spec fn roots_seq(p: Seq<usize>) -> Seq<usize> {
    Seq::new(p.len(), |x: int| root_of(p, x) as usize)
}

/// The elements whose root is `r`, in increasing order.
pub open spec fn members_of(p: Seq<usize>, r: int) -> Seq<usize> {
    Seq::new(p.len(), |x: int| x as usize).filter(|x: usize| root_of(p, x as int) == r)
}

/// The groups listed by `groups_by_root` partition the elements: their roots are
/// distinct, element `x` is a member of the group of its own root, and of no other.
pub proof fn lemma_groups_partition(p: Seq<usize>, x: int)
    requires
        is_forest(p),
        p.len() <= usize::MAX,
        0 <= x < p.len(),
    ensures
        first_occurrences(roots_seq(p)).no_duplicates(),
        exists|g: int|
            0 <= g < first_occurrences(roots_seq(p)).len() && #[trigger] first_occurrences(roots_seq(p))[g] as int
                == root_of(p, x) && members_of(p, root_of(p, x)).contains(x as usize),
        forall|r: int| #[trigger] members_of(p, r).contains(x as usize) ==> r == root_of(p, x),
{
    broadcast use vstd::seq_lib::group_filter_ensures;
    let order = first_occurrences(roots_seq(p));
    lemma_first_occurrences(roots_seq(p));
    lemma_root_of_is_root(p, x);
    assert(roots_seq(p)[x] == root_of(p, x) as usize);
    assert(roots_seq(p).contains(root_of(p, x) as usize));
    assert(order.contains(root_of(p, x) as usize));
    let g = choose|g: int| 0 <= g < order.len() && order[g] == root_of(p, x) as usize;
    let idx = Seq::new(p.len(), |y: int| y as usize);
    let pred = |y: usize| root_of(p, y as int) == root_of(p, x);
    assert(idx[x] == x as usize);
    idx.lemma_filter_contains(pred, x);
    assert(members_of(p, root_of(p, x)) == idx.filter(pred));
    assert(order[g] as int == root_of(p, x));
    assert forall|r: int| #[trigger] members_of(p, r).contains(x as usize) implies r == root_of(p, x) by {
        let pr = |y: usize| root_of(p, y as int) == r;
        assert(members_of(p, r) == idx.filter(pr));
        let k = choose|k: int| 0 <= k < idx.filter(pr).len() && idx.filter(pr)[k] == x as usize;
        idx.lemma_filter_pred(pr, k);
    }
}

/// One group of elements to merge: the group's root and its members in increasing order.
#[derive(Debug, Clone, PartialEq, Eq)]
pub struct MergeGroup {
    pub root: usize,
    pub members: Vec<usize>,
}

fn contains_usize(v: &Vec<usize>, x: usize) -> (r: bool)
    ensures
        r == v@.contains(x),
{
    let mut k: usize = 0;
    while k < v.len()
        invariant
            k <= v.len(),
            forall|m: int| 0 <= m < k ==> v@[m] != x,
        decreases v.len() - k,
    {
        if v[k] == x {
            assert(v@[k as int] == x);
            return true;
        }
        k = k + 1;
    }
    false
}

/// The values of `v` in order of first occurrence, each once.
pub fn distinct_in_order(v: &Vec<usize>) -> (r: Vec<usize>)
    ensures
        r@ == first_occurrences(v@),
{
    let mut out: Vec<usize> = Vec::new();
    let mut k: usize = 0;
    while k < v.len()
        invariant
            k <= v.len(),
            out@ == first_occurrences(v@.take(k as int)),
        decreases v.len() - k,
    {
        let x = v[k];
        assert(v@.take(k as int + 1).drop_last() == v@.take(k as int));
        if !contains_usize(&out, x) {
            out.push(x);
        }
        k = k + 1;
    }
    assert(v@.take(v.len() as int) == v@);
    out
}

/// Groups the elements of a union-find forest by root: one group per root, in the order
/// in which the roots first occur when the elements are visited in increasing order,
/// each group listing its members in increasing order.
pub fn groups_by_root(parent: &Vec<usize>) -> (groups: Vec<MergeGroup>)
    requires
        is_forest(parent@),
    ensures
        groups@.len() == first_occurrences(roots_seq(parent@)).len(),
        forall|g: int|
            0 <= g < groups@.len() ==> (#[trigger] groups@[g]).root == first_occurrences(roots_seq(parent@))[g]
                && groups@[g].members@ == members_of(parent@, groups@[g].root as int),
{
    let n = parent.len();
    let ghost p = parent@;
    let mut roots: Vec<usize> = Vec::new();
    let mut k: usize = 0;
    while k < n
        invariant
            k <= n,
            n == p.len(),
            p == parent@,
            is_forest(p),
            roots@ == roots_seq(p).take(k as int),
        decreases n - k,
    {
        let r = uf_find(parent.as_slice(), k);
        roots.push(r);
        k = k + 1;
        assert(roots@ == roots_seq(p).take(k as int));
    }
    assert(roots@ == roots_seq(p));
    let order = distinct_in_order(&roots);
    let mut groups: Vec<MergeGroup> = Vec::new();
    let mut g: usize = 0;
    while g < order.len()
        invariant
            g <= order@.len(),
            n == p.len(),
            roots@ == roots_seq(p),
            is_forest(p),
            order@ == first_occurrences(roots_seq(p)),
            groups@.len() == g,
            forall|h: int|
                0 <= h < g ==> (#[trigger] groups@[h]).root == order@[h] && groups@[h].members@
                    == members_of(p, groups@[h].root as int),
        decreases order@.len() - g,
    {
        let r = order[g];
        let ghost pred = |x: usize| root_of(p, x as int) == r as int;
        let ghost idx = Seq::new(n as nat, |x: int| x as usize);
        let mut members: Vec<usize> = Vec::new();
        let mut x: usize = 0;
        while x < n
            invariant
                x <= n,
                n == p.len(),
                roots@ == roots_seq(p),
                idx == Seq::new(n as nat, |x: int| x as usize),
                is_forest(p),
                pred == (|y: usize| root_of(p, y as int) == r as int),
                members@ == idx.take(x as int).filter(pred),
            decreases n - x,
        {
            let hit = roots[x] == r;
            proof {
                reveal(Seq::filter);
                let t = idx.take(x as int + 1);
                assert(t.drop_last() == idx.take(x as int));
                assert(t.last() == x);
                lemma_root_of_is_root(p, x as int);
                assert(roots@[x as int] == root_of(p, x as int) as usize);
                assert(hit == pred(x));
                assert(t.filter(pred) == if pred(t.last()) {
                    t.drop_last().filter(pred).push(t.last())
                } else {
                    t.drop_last().filter(pred)
                });
            }
            if hit {
                members.push(x);
            }
            x = x + 1;
        }
        assert(idx.take(n as int) == idx);
        groups.push(MergeGroup { root: r, members });
        g = g + 1;
    }
    groups
}

/// One segment of the merge result: an input segment kept as it is (its index), or the
/// new segment spanning the merged group with the given index.
#[derive(Debug, Clone, Copy, PartialEq, Eq, Structural)]
pub enum OutSegment {
    Kept(usize),
    Merged(usize),
}

/// One element of the merge result: an input element kept as it is (its index), or the
/// new element standing for the merged group with the given index.
#[derive(Debug, Clone, Copy, PartialEq, Eq, Structural)]
pub enum OutElement {
    Kept(usize),
    Merged(usize),
}

/// What merging produces, besides the float geometry of merged items: the groups, one
/// element per group, and the segments in output order.
#[derive(Debug, Clone, PartialEq, Eq)]
pub struct MergeOutline {
    pub groups: Vec<MergeGroup>,
    pub elements: Vec<OutElement>,
    pub segments: Vec<OutSegment>,
}

/// Index of the last segment before `end` whose identifier is `id` (later segments with
/// the same identifier replace earlier ones in the lookup table).
pub open spec fn last_index_of(ids: Seq<u128>, id: u128, end: int) -> Option<int>
    decreases end,
{
    if end <= 0 {
        None
    } else if ids[end - 1] == id {
        Some(end - 1)
    } else {
        last_index_of(ids, id, end - 1)
    }
}

/// The segments an element refers to that exist, in its own order, as kept segments.
pub open spec fn found_segments(src: Seq<u128>, ids: Seq<u128>) -> Seq<OutSegment>
    decreases src.len(),
{
    if src.len() == 0 {
        Seq::empty()
    } else {
        found_segments(src.drop_last(), ids) + match last_index_of(ids, src.last(), ids.len() as int) {
            Some(k) => seq![OutSegment::Kept(k as usize)],
            None => Seq::empty(),
        }
    }
}

/// The output segments of group `i`: a lone element keeps its segments, a merged group
/// gets one new segment.
pub open spec fn group_segments(groups: Seq<MergeGroup>, sources: Seq<Vec<u128>>, ids: Seq<u128>, i: int) -> Seq<OutSegment> {
    if groups[i].members@.len() == 1 {
        found_segments(sources[groups[i].members@[0] as int]@, ids)
    } else {
        seq![OutSegment::Merged(i as usize)]
    }
}

/// Output segments of the first `n` groups, group after group.
pub open spec fn segments_upto(groups: Seq<MergeGroup>, sources: Seq<Vec<u128>>, ids: Seq<u128>, n: int) -> Seq<OutSegment>
    decreases n,
{
    if n <= 0 {
        Seq::empty()
    } else {
        segments_upto(groups, sources, ids, n - 1) + group_segments(groups, sources, ids, n - 1)
    }
}

/// Some element refers to segment identifier `id`.
pub open spec fn referenced(sources: Seq<Vec<u128>>, id: u128) -> bool {
    exists|e: int, j: int| 0 <= e < sources.len() && 0 <= j < sources[e]@.len() && #[trigger] sources[e]@[j] == id
}

/// Segment `k` is referenced by no element.
pub open spec fn unreferenced_at(sources: Seq<Vec<u128>>, ids: Seq<u128>) -> spec_fn(usize) -> bool {
    |k: usize| !referenced(sources, ids[k as int])
}

/// The segments no element refers to, in input order, kept as they are.
pub open spec fn unreferenced_segments(sources: Seq<Vec<u128>>, ids: Seq<u128>) -> Seq<OutSegment> {
    Seq::new(ids.len(), |k: int| k as usize).filter(unreferenced_at(sources, ids)).map_values(
        |k: usize| OutSegment::Kept(k),
    )
}

/// One output element per group: a lone element is kept, a merged group gets a new one.
pub open spec fn outline_elements(groups: Seq<MergeGroup>) -> Seq<OutElement> {
    Seq::new(
        groups.len(),
        |i: int|
            if groups[i].members@.len() == 1 {
                OutElement::Kept(groups[i].members@[0])
            } else {
                OutElement::Merged(i as usize)
            },
    )
}

fn last_index(ids: &Vec<u128>, id: u128) -> (r: Option<usize>)
    ensures
        match r {
            Some(k) => last_index_of(ids@, id, ids@.len() as int) == Some(k as int),
            None => last_index_of(ids@, id, ids@.len() as int) is None,
        },
{
    let mut k: usize = 0;
    let mut found: Option<usize> = None;
    while k < ids.len()
        invariant
            k <= ids@.len(),
            match found {
                Some(f) => last_index_of(ids@, id, k as int) == Some(f as int),
                None => last_index_of(ids@, id, k as int) is None,
            },
        decreases ids@.len() - k,
    {
        if ids[k] == id {
            found = Some(k);
        }
        k = k + 1;
    }
    found
}

fn push_found_segments(src: &Vec<u128>, ids: &Vec<u128>, out: &mut Vec<OutSegment>)
    ensures
        final(out)@ == old(out)@ + found_segments(src@, ids@),
{
    let ghost base = out@;
    let mut k: usize = 0;
    while k < src.len()
        invariant
            k <= src@.len(),
            out@ == base + found_segments(src@.take(k as int), ids@),
        decreases src@.len() - k,
    {
        let ghost t = src@.take(k as int + 1);
        assert(t.drop_last() == src@.take(k as int));
        assert(t.last() == src@[k as int]);
        match last_index(ids, src[k]) {
            Some(j) => {
                out.push(OutSegment::Kept(j));
                assert(out@ == base + found_segments(t, ids@));
            },
            None => {
                assert(out@ == base + found_segments(t, ids@));
            },
        }
        k = k + 1;
    }
    assert(src@.take(src@.len() as int) == src@);
}

fn is_referenced(sources: &Vec<Vec<u128>>, id: u128) -> (r: bool)
    ensures
        r == referenced(sources@, id),
{
    let mut e: usize = 0;
    while e < sources.len()
        invariant
            e <= sources@.len(),
            forall|a: int, j: int| 0 <= a < e && 0 <= j < sources@[a]@.len() ==> #[trigger] sources@[a]@[j] != id,
        decreases sources@.len() - e,
    {
        let mut j: usize = 0;
        while j < sources[e].len()
            invariant
                e < sources@.len(),
                j <= sources@[e as int]@.len(),
                forall|a: int, b: int| 0 <= a < e && 0 <= b < sources@[a]@.len() ==> #[trigger] sources@[a]@[b] != id,
                forall|b: int| 0 <= b < j ==> #[trigger] sources@[e as int]@[b] != id,
            decreases sources@[e as int]@.len() - j,
        {
            if sources[e][j] == id {
                assert(sources@[e as int]@[j as int] == id);
                return true;
            }
            j = j + 1;
        }
        e = e + 1;
    }
    false
}

/// The non-geometric part of merging collinear elements: groups are formed as by
/// `merge_groups` and listed as by `groups_by_root`; each group yields one element (the
/// lone element itself, or a new merged one); the output segments are, group by group,
/// the existing segments of a lone element (looked up by identifier) or one new segment
/// for a merged group, followed by the segments no element refers to.
pub fn merge_outline(
    types: &Vec<ElementType>,
    aligned: &Vec<Vec<bool>>,
    sources: &Vec<Vec<u128>>,
    segment_ids: &Vec<u128>,
) -> (r: MergeOutline)
    requires
        aligned@.len() == types@.len(),
        forall|k: int| 0 <= k < aligned@.len() ==> (#[trigger] aligned@[k])@.len() == types@.len(),
        sources@.len() == types@.len(),
    ensures
        ({
            let p = all_unions(types@, aligned@, types@.len() as int);
            &&& r.groups@.len() == first_occurrences(roots_seq(p)).len()
            &&& forall|g: int|
                0 <= g < r.groups@.len() ==> (#[trigger] r.groups@[g]).root == first_occurrences(roots_seq(p))[g]
                    && r.groups@[g].members@ == members_of(p, r.groups@[g].root as int)
        }),
        r.elements@ == outline_elements(r.groups@),
        r.segments@ == segments_upto(r.groups@, sources@, segment_ids@, r.groups@.len() as int)
            + unreferenced_segments(sources@, segment_ids@),
{
    let parent = merge_groups(types, aligned);
    let groups = groups_by_root(&parent);
    let ghost gs = groups@;
    let mut elements: Vec<OutElement> = Vec::new();
    let mut segments: Vec<OutSegment> = Vec::new();
    let mut i: usize = 0;
    while i < groups.len()
        invariant
            gs == groups@,
            i <= gs.len(),
            sources@.len() == types@.len(),
            parent@.len() == types@.len(),
            forall|g: int| 0 <= g < gs.len() ==> (#[trigger] gs[g]).members@ == members_of(parent@, gs[g].root as int),
            elements@ == outline_elements(gs).take(i as int),
            segments@ == segments_upto(gs, sources@, segment_ids@, i as int),
        decreases gs.len() - i,
    {
        let g = &groups[i];
        if g.members.len() == 1 {
            let m = g.members[0];
            proof {
                broadcast use vstd::seq_lib::group_filter_ensures;
                let idx = Seq::new(parent@.len(), |x: int| x as usize);
                let pred = |x: usize| root_of(parent@, x as int) == gs[i as int].root as int;
                assert(members_of(parent@, gs[i as int].root as int) == idx.filter(pred));
                assert(idx.filter(pred)[0] == m);
                assert(idx.filter(pred).contains(m));
                idx.lemma_filter_contains_rev(pred, m);
                let j = choose|j: int| 0 <= j < idx.len() && idx[j] == m;
                assert(idx[j] == j as usize);
                assert(m < sources@.len());
            }
            elements.push(OutElement::Kept(m));
            push_found_segments(&sources[m], segment_ids, &mut segments);
        } else {
            elements.push(OutElement::Merged(i));
            segments.push(OutSegment::Merged(i));
        }
        assert(elements@ == outline_elements(gs).take(i as int + 1));
        i = i + 1;
    }
    assert(outline_elements(gs).take(gs.len() as int) == outline_elements(gs));
    let ghost before = segments@;
    let ghost idx = Seq::new(segment_ids@.len(), |k: int| k as usize);
    let ghost pred = unreferenced_at(sources@, segment_ids@);
    let ghost f = |k: usize| OutSegment::Kept(k);
    let mut k: usize = 0;
    while k < segment_ids.len()
        invariant
            k <= segment_ids@.len(),
            idx == Seq::new(segment_ids@.len(), |k: int| k as usize),
            pred == unreferenced_at(sources@, segment_ids@),
            f == (|k: usize| OutSegment::Kept(k)),
            segments@ == before + idx.take(k as int).filter(pred).map_values(f),
        decreases segment_ids@.len() - k,
    {
        proof {
            crate::tracing::lemma_filter_step(idx, pred, k as int);
            assert(idx[k as int] == k);
        }
        let used = is_referenced(sources, segment_ids[k]);
        if !used {
            proof {
                let a = idx.take(k as int).filter(pred);
                assert(a.push(k).map_values(f) =~= a.map_values(f).push(f(k)));
            }
            segments.push(OutSegment::Kept(k));
        }
        k = k + 1;
    }
    assert(idx.take(segment_ids@.len() as int) == idx);
    MergeOutline { groups, elements, segments }
}

/// Largest gap, in pixels, between the nearest endpoints of two segments that may merge.
pub const MERGE_GAP_PX: u64 = 10;

/// Squared Euclidean distance between two pixel points `(x, y)`.
pub open spec fn sq_dist(a: (u32, u32), b: (u32, u32)) -> int {
    (a.0 - b.0) * (a.0 - b.0) + (a.1 - b.1) * (a.1 - b.1)
}

/// Two pixel points lie at most `MERGE_GAP_PX` apart.
pub open spec fn within_gap(a: (u32, u32), b: (u32, u32)) -> bool {
    sq_dist(a, b) <= MERGE_GAP_PX * MERGE_GAP_PX
}

/// The smallest of the four endpoint distances between segment `a` and segment `b` is at
/// most `MERGE_GAP_PX`.
pub open spec fn endpoints_close(
    a_start: (u32, u32),
    a_end: (u32, u32),
    b_start: (u32, u32),
    b_end: (u32, u32),
) -> bool {
    within_gap(a_end, b_start) || within_gap(a_start, b_end) || within_gap(a_end, b_end)
        || within_gap(a_start, b_start)
}

fn coord_gap(x: u32, y: u32) -> (r: u64)
    ensures
        r as int == if x >= y { x - y } else { y - x },
        r <= u32::MAX,
{
    if x >= y {
        (x - y) as u64
    } else {
        (y - x) as u64
    }
}

fn sq_dist_exact(a: (u32, u32), b: (u32, u32)) -> (r: u128)
    ensures
        r as int == sq_dist(a, b),
{
    let dx = coord_gap(a.0, b.0) as u128;
    let dy = coord_gap(a.1, b.1) as u128;
    proof {
        let ex: int = a.0 - b.0;
        let ey: int = a.1 - b.1;
        assert(dx * dx == ex * ex) by (nonlinear_arith)
            requires
                dx == ex || dx == -ex,
        ;
        assert(dy * dy == ey * ey) by (nonlinear_arith)
            requires
                dy == ey || dy == -ey,
        ;
        assert(dx * dx <= 0xffff_ffffu128 * 0xffff_ffffu128) by (nonlinear_arith)
            requires
                dx <= 0xffff_ffffu128,
        ;
        assert(dy * dy <= 0xffff_ffffu128 * 0xffff_ffffu128) by (nonlinear_arith)
            requires
                dy <= 0xffff_ffffu128,
        ;
    }
    dx * dx + dy * dy
}

/// Whether the nearest endpoints of segment `a` (from `a_start` to `a_end`) and segment
/// `b` lie within `MERGE_GAP_PX` pixels of each other: the distance half of the test for
/// merging two collinear elements. Computed exactly on squared integer distances.
pub fn endpoints_within_gap(
    a_start: (u32, u32),
    a_end: (u32, u32),
    b_start: (u32, u32),
    b_end: (u32, u32),
) -> (r: bool)
    ensures
        r == endpoints_close(a_start, a_end, b_start, b_end),
{
    let limit: u128 = (MERGE_GAP_PX * MERGE_GAP_PX) as u128;
    sq_dist_exact(a_end, b_start) <= limit || sq_dist_exact(a_start, b_end) <= limit
        || sq_dist_exact(a_end, b_end) <= limit || sq_dist_exact(a_start, b_start) <= limit
}

/// Pixel points `p` and `q` lie at most 10 pixels apart (Euclidean distance).
pub open spec fn at_most_ten_apart(p: (u32, u32), q: (u32, u32)) -> bool {
    (p.0 - q.0) * (p.0 - q.0) + (p.1 - q.1) * (p.1 - q.1) <= 100
}

/// The gap test depends only on the two segments' endpoint sets: reversing either
/// segment (swapping its start and end) or swapping the two segments leaves it
/// unchanged, and it holds exactly when some endpoint of `a` lies within 10 pixels of
/// some endpoint of `b` (the nearest endpoints are at most 10 pixels apart).
pub proof fn lemma_gap_test_uses_nearest_endpoints(
    a_start: (u32, u32),
    a_end: (u32, u32),
    b_start: (u32, u32),
    b_end: (u32, u32),
)
    ensures
        endpoints_close(a_end, a_start, b_start, b_end) == endpoints_close(a_start, a_end, b_start, b_end),
        endpoints_close(a_start, a_end, b_end, b_start) == endpoints_close(a_start, a_end, b_start, b_end),
        endpoints_close(b_start, b_end, a_start, a_end) == endpoints_close(a_start, a_end, b_start, b_end),
        endpoints_close(a_start, a_end, b_start, b_end) <==> (at_most_ten_apart(a_start, b_start)
            || at_most_ten_apart(a_start, b_end) || at_most_ten_apart(a_end, b_start) || at_most_ten_apart(
            a_end,
            b_end,
        )),
{
    assert(sq_dist(a_start, b_start) == sq_dist(b_start, a_start)) by (nonlinear_arith);
    assert(sq_dist(a_start, b_end) == sq_dist(b_end, a_start)) by (nonlinear_arith);
    assert(sq_dist(a_end, b_start) == sq_dist(b_start, a_end)) by (nonlinear_arith);
    assert(sq_dist(a_end, b_end) == sq_dist(b_end, a_end)) by (nonlinear_arith);
}

} // verus!
