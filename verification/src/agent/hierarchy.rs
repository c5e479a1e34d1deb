//! Threads and the threads that they created.
use crate::order::{indices, order_by};
use crate::text::{copy_option, view_option};
use vstd::prelude::*;

verus! {

/// A conversation and its settings.
#[derive(Debug)]
pub struct Thread {
    pub id: i64,
    pub parent_thread_id: Option<i64>,
    pub display_name: Option<String>,
    pub provider: String,
    pub model: String,
    pub reasoning_effort: String,
}

/// What a [`Thread`] stands for.
pub struct ThreadView {
    pub id: i64,
    pub parent_thread_id: Option<i64>,
    pub display_name: Option<Seq<char>>,
    pub provider: Seq<char>,
    pub model: Seq<char>,
    pub reasoning_effort: Seq<char>,
}

impl View for Thread {
    type V = ThreadView;

    open spec fn view(&self) -> ThreadView {
        ThreadView {
            id: self.id,
            parent_thread_id: self.parent_thread_id,
            display_name: view_option(self.display_name),
            provider: self.provider@,
            model: self.model@,
            reasoning_effort: self.reasoning_effort@,
        }
    }
}

impl Clone for Thread {
    fn clone(&self) -> (copy: Self)
        ensures
            copy@ == self@,
    {
        Thread {
            id: self.id,
            parent_thread_id: self.parent_thread_id,
            display_name: copy_option(&self.display_name),
            provider: self.provider.clone(),
            model: self.model.clone(),
            reasoning_effort: self.reasoning_effort.clone(),
        }
    }
}

/// A thread and its creator.
#[derive(Clone, Copy, Debug, PartialEq, Eq, Structural)]
pub struct Link {
    pub id: i64,
    pub parent: Option<i64>,
}

/// Why threads make up no tree.
#[derive(Clone, Copy, Debug, PartialEq, Eq, Structural)]
pub enum HierarchyError {
    Broken,
    Unreachable,
}

impl HierarchyError {
    /// What the user is told.
    pub open spec fn words(self) -> Seq<char> {
        match self {
            HierarchyError::Broken => "broken thread hierarchy"@,
            HierarchyError::Unreachable => {
                "thread hierarchy contains an unreachable descendant"@
            },
        }
    }

    /// What the user is told.
    pub fn message(&self) -> (text: String)
        ensures
            text@ == self.words(),
    {
        match self {
            HierarchyError::Broken => "broken thread hierarchy".to_owned(),
            HierarchyError::Unreachable => {
                "thread hierarchy contains an unreachable descendant".to_owned()
            },
        }
    }
}

/// Whether no later link has the number of the link at `i`.
pub open spec fn is_last(links: Seq<Link>, i: int) -> bool {
    forall|j: int| i < j < links.len() ==> (#[trigger] links[j]).id != links[i].id
}

/// Whether a thread has no creator. Of links with one number the last counts.
pub open spec fn broken(links: Seq<Link>) -> bool {
    exists|i: int|
        0 <= i < links.len() && #[trigger] is_last(links, i) && links[i].parent is None
}

/// Whether no number occurs twice.
pub open spec fn distinct(links: Seq<Link>) -> bool {
    forall|i: int, j: int|
        0 <= i < j < links.len() ==> (#[trigger] links[i]).id != (#[trigger] links[j]).id
}

/// Whether at most `steps` creators lead from the link at `i` to `root`.
pub open spec fn reaches(links: Seq<Link>, root: i64, i: int, steps: nat) -> bool
    decreases steps,
{
    &&& 0 <= i < links.len()
    &&& steps > 0
    &&& links[i].parent == Some(root) || exists|j: int|
        0 <= j < links.len() && links[i].parent == Some((#[trigger] links[j]).id) && reaches(
            links,
            root,
            j,
            (steps - 1) as nat,
        )
}

/// Whether creators lead from the link at `i` to `root`.
pub open spec fn reachable(links: Seq<Link>, root: i64, i: int) -> bool {
    exists|steps: nat| #[trigger] reaches(links, root, i, steps)
}

/// Whether every thread was created below `root`.
pub open spec fn connected(links: Seq<Link>, root: i64) -> bool {
    forall|i: int| 0 <= i < links.len() ==> #[trigger] reachable(links, root, i)
}

/// Whether the place `j` of a walk holds the creator of the thread at the place
/// `i`, and nothing between them lies higher than that thread.
pub open spec fn under(links: Seq<Link>, walk: Seq<(usize, usize)>, j: int, i: int) -> bool {
    &&& 0 <= j < i
    &&& links[walk[i].0 as int].parent == Some(links[walk[j].0 as int].id)
    &&& walk[i].1 == walk[j].1 + 1
    &&& forall|k: int| j < k < i ==> (#[trigger] walk[k]).1 >= walk[i].1
}

/// Whether the thread at a place of a walk stands below its creator.
pub open spec fn placed(
    links: Seq<Link>,
    root: i64,
    walk: Seq<(usize, usize)>,
    i: int,
) -> bool {
    if links[walk[i].0 as int].parent == Some(root) {
        walk[i].1 == 1
    } else {
        exists|j: int| #[trigger] under(links, walk, j, i)
    }
}

/// Whether two places of a walk hold different threads, and of threads with one
/// creator the one with the smaller number first.
pub open spec fn in_turn(links: Seq<Link>, first: (usize, usize), second: (usize, usize)) -> bool {
    &&& first.0 != second.0
    &&& links[first.0 as int].parent == links[second.0 as int].parent
        ==> links[first.0 as int].id < links[second.0 as int].id
}

/// Whether a walk visits threads before those that they created, and the latter
/// by growing numbers. It holds the places of the threads and their depths.
pub open spec fn in_preorder(links: Seq<Link>, root: i64, walk: Seq<(usize, usize)>) -> bool {
    &&& forall|i: int| 0 <= i < walk.len() ==> (#[trigger] walk[i]).0 < links.len()
    &&& forall|i: int| 0 <= i < walk.len() ==> #[trigger] placed(links, root, walk, i)
    &&& forall|i: int, j: int|
        0 <= i < j < walk.len() ==> in_turn(links, #[trigger] walk[i], #[trigger] walk[j])
}

/// There is one such walk of a tree.
pub proof fn law_preorder_is_unique(
    links: Seq<Link>,
    root: i64,
    a: Seq<(usize, usize)>,
    b: Seq<(usize, usize)>,
)
    requires
        distinct(links),
        in_preorder(links, root, a),
        in_preorder(links, root, b),
        a.len() == links.len(),
        b.len() == links.len(),
    ensures
        a == b,
{
    lemma_same_prefix(links, root, a, b, a.len());
    assert(a.take(a.len() as int) =~= a);
    assert(b.take(b.len() as int) =~= b);
}

/// A walk as long as the links visits each of them.
proof fn lemma_visits_all(links: Seq<Link>, root: i64, walk: Seq<(usize, usize)>, at: usize)
    requires
        in_preorder(links, root, walk),
        walk.len() == links.len(),
        at < links.len(),
    ensures
        exists|i: int| 0 <= i < walk.len() && (#[trigger] walk[i]).0 == at,
{
    if forall|i: int| 0 <= i < walk.len() ==> (#[trigger] walk[i]).0 != at {
        let places = Seq::new(walk.len(), |i: int| walk[i].0);
        lemma_room(places, links.len(), at);
    }
}

/// Where one number below `count` is left out, fewer than `count` are there.
proof fn lemma_room(places: Seq<usize>, count: nat, left: usize)
    requires
        left < count,
        forall|i: int| 0 <= i < places.len() ==> (#[trigger] places[i]) < count && places[i] != left,
        forall|i: int, j: int|
            0 <= i < j < places.len() ==> #[trigger] places[i] != #[trigger] places[j],
    ensures
        places.len() < count,
{
    let more = places.push(left);
    let numbers = more.map(|i: int, p: usize| p as int);
    assert(numbers.no_duplicates()) by {
        assert forall|i: int, j: int|
            0 <= i < numbers.len() && 0 <= j < numbers.len() && i != j implies numbers[i]
            != numbers[j] by {
            assert(more[i] != more[j]) by {
                if i < places.len() && j < places.len() {
                    if i < j {
                        assert(places[i] != places[j]);
                    } else {
                        assert(places[j] != places[i]);
                    }
                } else if i < places.len() {
                    assert(places[i] != left);
                } else {
                    assert(places[j] != left);
                }
            }
        }
    }
    numbers.unique_seq_to_set();
    let range = vstd::set_lib::set_int_range(0, count as int);
    vstd::set_lib::lemma_int_range(0, count as int);
    assert(numbers.to_set().subset_of(range)) by {
        assert forall|n: int| numbers.to_set().contains(n) implies range.contains(n) by {
            let i = choose|i: int| 0 <= i < numbers.len() && numbers[i] == n;
            assert(more[i] as int == n);
        }
    }
    vstd::set_lib::lemma_len_subset(numbers.to_set(), range);
}

/// Two walks of one tree agree as far as one looks.
proof fn lemma_same_prefix(
    links: Seq<Link>,
    root: i64,
    a: Seq<(usize, usize)>,
    b: Seq<(usize, usize)>,
    count: nat,
)
    requires
        distinct(links),
        in_preorder(links, root, a),
        in_preorder(links, root, b),
        a.len() == links.len(),
        b.len() == links.len(),
        count <= a.len(),
    ensures
        a.take(count as int) == b.take(count as int),
    decreases count,
{
    if count > 0 {
        let i = count - 1;
        lemma_same_prefix(links, root, a, b, i as nat);
        assert forall|k: int| 0 <= k < i implies a[k] == b[k] by {
            assert(a.take(i)[k] == a[k]);
            assert(b.take(i)[k] == b[k]);
        }
        lemma_visits_all(links, root, b, a[i].0);
        lemma_visits_all(links, root, a, b[i].0);
        let in_b = choose|k: int| 0 <= k < b.len() && (#[trigger] b[k]).0 == a[i].0;
        let in_a = choose|k: int| 0 <= k < a.len() && (#[trigger] a[k]).0 == b[i].0;
        if in_b < i {
            assert(a[in_b].0 == a[i].0);
            assert(in_turn(links, a[in_b], a[i]));
        }
        if in_a < i {
            assert(b[in_a].0 == b[i].0);
            assert(in_turn(links, b[in_a], b[i]));
        }
        assert(placed(links, root, a, i));
        assert(placed(links, root, b, i));
        assert(placed(links, root, a, in_a));
        assert(placed(links, root, b, in_b));
        lemma_depth(links, root, a, b, i, in_b);
        lemma_depth(links, root, b, a, i, in_a);
        if a[i].0 != b[i].0 {
            assert(in_b > i && in_a > i);
            lemma_sibling(links, root, a, b, i, in_b);
            lemma_sibling(links, root, b, a, i, in_a);
            assert(a[i].1 == b[i].1);
            lemma_same_creator(links, root, a, b, i);
            assert(in_turn(links, a[i], a[in_a]));
            assert(in_turn(links, b[i], b[in_b]));
        } else {
            if in_b > i {
                assert(in_turn(links, b[i], b[in_b]));
            }
        }
        assert(a[i] == b[i]);
        assert forall|k: int| 0 <= k < count implies a.take(count as int)[k] == b.take(
            count as int,
        )[k] by {
            assert(a[k] == b[k]);
        }
        assert(a.take(count as int) =~= b.take(count as int));
    }
}

/// After a common beginning a thread has the same depth in both walks.
proof fn lemma_depth(
    links: Seq<Link>,
    root: i64,
    a: Seq<(usize, usize)>,
    b: Seq<(usize, usize)>,
    i: int,
    later: int,
)
    requires
        distinct(links),
        in_preorder(links, root, a),
        in_preorder(links, root, b),
        a.len() == links.len(),
        b.len() == links.len(),
        0 <= i <= later < b.len(),
        b[later].0 == a[i].0,
        forall|k: int| 0 <= k < i ==> a[k] == b[k],
    ensures
        a[i].1 == b[later].1,
{
    assert(placed(links, root, a, i));
    assert(placed(links, root, b, later));
    if links[a[i].0 as int].parent != Some(root) {
        let j = choose|j: int| #[trigger] under(links, a, j, i);
        let m = choose|m: int| #[trigger] under(links, b, m, later);
        assert(links[a[j].0 as int].id == links[b[m].0 as int].id);
        assert(a[j] == b[j]);
        if m != j {
            lemma_one_place(links, root, b, j, m);
        }
    }
}

/// A number stands at one place of a walk.
proof fn lemma_one_place(links: Seq<Link>, root: i64, walk: Seq<(usize, usize)>, i: int, j: int)
    requires
        distinct(links),
        in_preorder(links, root, walk),
        0 <= i < walk.len(),
        0 <= j < walk.len(),
        i != j,
    ensures
        links[walk[i].0 as int].id != links[walk[j].0 as int].id,
{
    if i < j {
        assert(in_turn(links, walk[i], walk[j]));
    } else {
        assert(in_turn(links, walk[j], walk[i]));
    }
    let x = walk[i].0 as int;
    let y = walk[j].0 as int;
    if x < y {
        assert(links[x].id != links[y].id);
    } else {
        assert(links[y].id != links[x].id);
    }
}

/// What comes before a thread in one walk only lies no higher.
proof fn lemma_sibling(
    links: Seq<Link>,
    root: i64,
    a: Seq<(usize, usize)>,
    b: Seq<(usize, usize)>,
    i: int,
    later: int,
)
    requires
        distinct(links),
        in_preorder(links, root, a),
        in_preorder(links, root, b),
        a.len() == links.len(),
        b.len() == links.len(),
        0 <= i < later < b.len(),
        b[later].0 == a[i].0,
        forall|k: int| 0 <= k < i ==> a[k] == b[k],
    ensures
        b[i].1 >= a[i].1,
{
    lemma_depth(links, root, a, b, i, later);
    assert(placed(links, root, a, i));
    assert(placed(links, root, b, later));
    assert(placed(links, root, b, i));
    if links[a[i].0 as int].parent != Some(root) {
        let j = choose|j: int| #[trigger] under(links, a, j, i);
        let m = choose|m: int| #[trigger] under(links, b, m, later);
        assert(a[j] == b[j]);
        if m != j {
            lemma_one_place(links, root, b, j, m);
        }
        assert(b[i].1 >= b[later].1);
    } else if links[b[i].0 as int].parent != Some(root) {
        let m = choose|m: int| #[trigger] under(links, b, m, i);
        assert(b[i].1 == b[m].1 + 1);
    }
}

/// Threads of one depth after a common beginning have one creator.
proof fn lemma_same_creator(
    links: Seq<Link>,
    root: i64,
    a: Seq<(usize, usize)>,
    b: Seq<(usize, usize)>,
    i: int,
)
    requires
        distinct(links),
        in_preorder(links, root, a),
        in_preorder(links, root, b),
        0 <= i < a.len(),
        0 <= i < b.len(),
        a[i].1 == b[i].1,
        forall|k: int| 0 <= k < i ==> a[k] == b[k],
    ensures
        links[a[i].0 as int].parent == links[b[i].0 as int].parent,
{
    assert(placed(links, root, a, i));
    assert(placed(links, root, b, i));
    lemma_depth_positive(links, root, a, i);
    lemma_depth_positive(links, root, b, i);
    let roots_a = links[a[i].0 as int].parent == Some(root);
    let roots_b = links[b[i].0 as int].parent == Some(root);
    if !roots_a && !roots_b {
        let j = choose|j: int| #[trigger] under(links, a, j, i);
        let m = choose|m: int| #[trigger] under(links, b, m, i);
        assert(a[j] == b[j]);
        assert(a[m] == b[m]);
        if j < m {
            assert(a[m].1 >= a[i].1);
        } else if m < j {
            assert(b[j].1 >= b[i].1);
        }
    } else if !roots_a {
        let j = choose|j: int| #[trigger] under(links, a, j, i);
        lemma_depth_positive(links, root, a, j);
    } else if !roots_b {
        let m = choose|m: int| #[trigger] under(links, b, m, i);
        lemma_depth_positive(links, root, b, m);
    }
}

/// No thread of a walk stands as high as the root.
proof fn lemma_depth_positive(links: Seq<Link>, root: i64, walk: Seq<(usize, usize)>, i: int)
    requires
        in_preorder(links, root, walk),
        0 <= i < walk.len(),
    ensures
        walk[i].1 >= 1,
{
    assert(placed(links, root, walk, i));
    if links[walk[i].0 as int].parent != Some(root) {
        let j = choose|j: int| #[trigger] under(links, walk, j, i);
        assert(walk[i].1 == walk[j].1 + 1);
    }
}

/// Whether one of the entries is the thread at `at`.
spec fn visited(entries: Seq<(usize, usize)>, at: int) -> bool {
    exists|i: int| 0 <= i < entries.len() && (#[trigger] entries[i]).0 == at
}

/// Whether the place `j` of a walk holds the creator of the thread that is to be
/// visited next, and nothing after it lies higher than that thread.
spec fn waits(
    links: Seq<Link>,
    walk: Seq<(usize, usize)>,
    entry: (usize, usize),
    j: int,
) -> bool {
    &&& 0 <= j < walk.len()
    &&& links[entry.0 as int].parent == Some(links[walk[j].0 as int].id)
    &&& entry.1 == walk[j].1 + 1
    &&& forall|k: int| j < k < walk.len() ==> (#[trigger] walk[k]).1 >= entry.1
}

/// Whether a thread can be visited next.
spec fn ready(
    links: Seq<Link>,
    root: i64,
    walk: Seq<(usize, usize)>,
    entry: (usize, usize),
) -> bool {
    &&& entry.0 < links.len()
    &&& reachable(links, root, entry.0 as int)
    &&& if links[entry.0 as int].parent == Some(root) {
        entry.1 == 1
    } else {
        exists|j: int| #[trigger] waits(links, walk, entry, j)
    }
}

/// Whether the creator of the thread at `at` was visited.
spec fn called(links: Seq<Link>, root: i64, walk: Seq<(usize, usize)>, at: int) -> bool {
    ||| links[at].parent == Some(root)
    ||| exists|i: int|
        0 <= i < walk.len() && links[(#[trigger] walk[i]).0 as int].id != root && links[at].parent
            == Some(links[walk[i].0 as int].id)
}

/// What holds while a tree is walked.
spec fn walking(
    links: Seq<Link>,
    root: i64,
    walk: Seq<(usize, usize)>,
    stack: Seq<(usize, usize)>,
) -> bool {
    &&& in_preorder(links, root, walk)
    &&& forall|i: int| 0 <= i < walk.len() ==> (#[trigger] walk[i]).1 <= i + 1
    &&& forall|i: int|
        0 <= i < walk.len() ==> reachable(links, root, (#[trigger] walk[i]).0 as int)
    &&& forall|i: int| 0 <= i < stack.len() ==> ready(links, root, walk, #[trigger] stack[i])
    &&& forall|i: int, j: int|
        0 <= i < j < stack.len() ==> in_turn(links, #[trigger] stack[j], #[trigger] stack[i])
            && stack[i].1 <= stack[j].1
    &&& forall|i: int, j: int|
        0 <= i < walk.len() && 0 <= j < stack.len() ==> in_turn(
            links,
            #[trigger] walk[i],
            #[trigger] stack[j],
        )
    &&& forall|at: int|
        0 <= at < links.len() ==> (visited(walk, at) || visited(stack, at) <==> #[trigger] called(
            links,
            root,
            walk,
            at,
        ))
}

/// Whether entries are the threads that `parent` created, the last the one with
/// the smallest number.
spec fn brood(links: Seq<Link>, parent: i64, depth: usize, entries: Seq<(usize, usize)>) -> bool {
    &&& forall|i: int|
        0 <= i < entries.len() ==> (#[trigger] entries[i]).0 < links.len()
            && links[entries[i].0 as int].parent == Some(parent) && entries[i].1 == depth
    &&& forall|i: int, j: int|
        0 <= i < j < entries.len() ==> links[(#[trigger] entries[i]).0 as int].id > links[(
        #[trigger] entries[j]).0 as int].id
    &&& forall|at: int|
        0 <= at < links.len() && links[at].parent == Some(parent) ==> #[trigger] visited(
            entries,
            at,
        )
}

proof fn lemma_start(links: Seq<Link>, root: i64, stack: Seq<(usize, usize)>)
    requires
        brood(links, root, 1, stack),
    ensures
        walking(links, root, Seq::empty(), stack),
{
    let walk = Seq::<(usize, usize)>::empty();
    assert forall|i: int| 0 <= i < stack.len() implies ready(links, root, walk, #[trigger] stack[i]) by {
        assert(reaches(links, root, stack[i].0 as int, 1));
    }
    assert forall|at: int| 0 <= at < links.len() implies (visited(walk, at) || visited(stack, at)
        <==> #[trigger] called(links, root, walk, at)) by {
        if visited(stack, at) {
            let i = choose|i: int| 0 <= i < stack.len() && (#[trigger] stack[i]).0 == at;
            assert(links[stack[i].0 as int].parent == Some(root));
        }
    }
}

/// The walk with the top of the stack visited.
proof fn lemma_visit(
    links: Seq<Link>,
    root: i64,
    walk: Seq<(usize, usize)>,
    stack: Seq<(usize, usize)>,
)
    requires
        distinct(links),
        walking(links, root, walk, stack),
        stack.len() > 0,
    ensures
        in_preorder(links, root, walk.push(stack.last())),
        stack.last().1 <= walk.len() + 1,
{
    let top = stack.last();
    let after = walk.push(top);
    assert(ready(links, root, walk, stack[stack.len() - 1]));
    assert forall|i: int| 0 <= i < after.len() implies #[trigger] placed(links, root, after, i) by {
        if i < walk.len() {
            assert(placed(links, root, walk, i));
            assert(after[i] == walk[i]);
            if links[walk[i].0 as int].parent != Some(root) {
                let j = choose|j: int| #[trigger] under(links, walk, j, i);
                assert(after[j] == walk[j]);
                assert forall|k: int| j < k < i implies (#[trigger] after[k]).1 >= after[i].1 by {
                    assert(after[k] == walk[k]);
                }
                assert(under(links, after, j, i));
            }
        } else if links[top.0 as int].parent != Some(root) {
            let j = choose|j: int| #[trigger] waits(links, walk, top, j);
            assert(after[j] == walk[j]);
            assert forall|k: int| j < k < i implies (#[trigger] after[k]).1 >= after[i].1 by {
                assert(after[k] == walk[k]);
            }
            assert(under(links, after, j, i));
        }
    }
    assert forall|i: int, j: int| 0 <= i < j < after.len() implies in_turn(
        links,
        #[trigger] after[i],
        #[trigger] after[j],
    ) by {
        assert(after[i] == walk[i]);
        if j < walk.len() {
            assert(after[j] == walk[j]);
        } else {
            assert(in_turn(links, walk[i], stack[stack.len() - 1]));
        }
    }
    if links[top.0 as int].parent != Some(root) {
        let j = choose|j: int| #[trigger] waits(links, walk, top, j);
        assert(walk[j].1 <= j + 1);
    }
}

/// One step of the walk.
proof fn lemma_step(
    links: Seq<Link>,
    root: i64,
    walk: Seq<(usize, usize)>,
    stack: Seq<(usize, usize)>,
    added: Seq<(usize, usize)>,
)
    requires
        distinct(links),
        walking(links, root, walk, stack),
        stack.len() > 0,
        if links[stack.last().0 as int].id == root {
            added.len() == 0
        } else {
            brood(links, links[stack.last().0 as int].id, (stack.last().1 + 1) as usize, added)
                && (added.len() > 0 ==> stack.last().1 < usize::MAX)
        },
    ensures
        walking(links, root, walk.push(stack.last()), stack.drop_last() + added),
{
    let top = stack.last();
    let after = walk.push(top);
    let rest = stack.drop_last();
    let next = rest + added;
    let number = links[top.0 as int].id;
    assert(ready(links, root, walk, stack[stack.len() - 1]));
    lemma_visit(links, root, walk, stack);
    assert forall|i: int| 0 <= i < after.len() implies (#[trigger] after[i]).1 <= i + 1
        && reachable(links, root, after[i].0 as int) by {
        if i < walk.len() {
            assert(after[i] == walk[i]);
        }
    }
    // The threads that the visited one created were not waiting yet.
    assert forall|i: int, m: int|
        0 <= i < added.len() && 0 <= m < stack.len() implies (#[trigger] added[i]).0 != (
    #[trigger] stack[m]).0 by {
        lemma_fresh(links, root, walk, stack, added[i].0 as int);
        if added[i].0 == stack[m].0 {
            assert(visited(stack, added[i].0 as int));
        }
    }
    assert forall|i: int, m: int|
        0 <= i < added.len() && 0 <= m < walk.len() implies (#[trigger] added[i]).0 != (
    #[trigger] walk[m]).0 by {
        lemma_fresh(links, root, walk, stack, added[i].0 as int);
        if added[i].0 == walk[m].0 {
            assert(visited(walk, added[i].0 as int));
        }
    }
    assert forall|i: int, m: int|
        0 <= i < added.len() && 0 <= m < stack.len() implies links[(#[trigger] added[i]).0
        as int].parent != links[(#[trigger] stack[m]).0 as int].parent by {
        if links[added[i].0 as int].parent == links[stack[m].0 as int].parent {
            lemma_fresh(links, root, walk, stack, stack[m].0 as int);
            assert(visited(stack, stack[m].0 as int));
        }
    }
    assert forall|i: int, m: int|
        0 <= i < added.len() && 0 <= m < walk.len() implies links[(#[trigger] added[i]).0
        as int].parent != links[(#[trigger] walk[m]).0 as int].parent by {
        if links[added[i].0 as int].parent == links[walk[m].0 as int].parent {
            lemma_fresh(links, root, walk, stack, walk[m].0 as int);
            assert(visited(walk, walk[m].0 as int));
        }
    }
    assert forall|i: int| 0 <= i < next.len() implies ready(links, root, after, #[trigger] next[i]) by {
        if i < rest.len() {
            assert(next[i] == stack[i]);
            assert(ready(links, root, walk, stack[i]));
            if links[stack[i].0 as int].parent != Some(root) {
                let j = choose|j: int| #[trigger] waits(links, walk, stack[i], j);
                assert(after[j] == walk[j]);
                assert forall|k: int| j < k < after.len() implies (#[trigger] after[k]).1
                    >= next[i].1 by {
                    if k < walk.len() {
                        assert(after[k] == walk[k]);
                    } else {
                        assert(stack[i].1 <= stack[stack.len() - 1].1);
                    }
                }
                assert(waits(links, after, next[i], j));
            }
        } else {
            let m = i - rest.len();
            assert(next[i] == added[m]);
            let steps = choose|steps: nat| #[trigger] reaches(links, root, top.0 as int, steps);
            assert(links[top.0 as int].id == number);
            assert(reaches(links, root, top.0 as int, ((steps + 1) - 1) as nat));
            assert(reaches(links, root, added[m].0 as int, steps + 1));
            assert(after[walk.len() as int] == top);
            assert(waits(links, after, next[i], walk.len() as int));
        }
    }
    assert forall|i: int, j: int| 0 <= i < j < next.len() implies in_turn(
        links,
        #[trigger] next[j],
        #[trigger] next[i],
    ) && next[i].1 <= next[j].1 by {
        if j < rest.len() {
            assert(next[i] == stack[i] && next[j] == stack[j]);
        } else if i < rest.len() {
            assert(next[i] == stack[i] && next[j] == added[j - rest.len()]);
            assert(stack[i].1 <= stack[stack.len() - 1].1);
        } else {
            assert(next[i] == added[i - rest.len()] && next[j] == added[j - rest.len()]);
        }
    }
    assert forall|i: int, j: int| 0 <= i < after.len() && 0 <= j < next.len() implies in_turn(
        links,
        #[trigger] after[i],
        #[trigger] next[j],
    ) by {
        if j < rest.len() {
            assert(next[j] == stack[j]);
            if i < walk.len() {
                assert(after[i] == walk[i]);
            } else {
                assert(in_turn(links, stack[stack.len() - 1], stack[j]));
            }
        } else {
            assert(next[j] == added[j - rest.len()]);
            if i < walk.len() {
                assert(after[i] == walk[i]);
            } else {
                assert(after[i] == stack[stack.len() - 1]);
            }
        }
    }
    assert forall|at: int| 0 <= at < links.len() implies (visited(after, at) || visited(next, at)
        <==> #[trigger] called(links, root, after, at)) by {
        lemma_called(links, root, walk, stack, added, at);
    }
}

/// Threads with a creator that is still to be visited wait nowhere.
proof fn lemma_fresh(
    links: Seq<Link>,
    root: i64,
    walk: Seq<(usize, usize)>,
    stack: Seq<(usize, usize)>,
    at: int,
)
    requires
        distinct(links),
        walking(links, root, walk, stack),
        stack.len() > 0,
        0 <= at < links.len(),
        links[stack.last().0 as int].id != root,
        links[at].parent == Some(links[stack.last().0 as int].id),
    ensures
        !visited(walk, at),
        !visited(stack, at),
{
    let top = stack.last();
    assert(stack[stack.len() - 1] == top);
    assert(ready(links, root, walk, stack[stack.len() - 1]));
    if called(links, root, walk, at) {
        let i = choose|i: int|
            0 <= i < walk.len() && links[(#[trigger] walk[i]).0 as int].id != root
                && links[at].parent == Some(links[walk[i].0 as int].id);
        assert(in_turn(links, walk[i], stack[stack.len() - 1]));
        let x = walk[i].0 as int;
        let y = top.0 as int;
        if x < y {
            assert(links[x].id != links[y].id);
        } else {
            assert(links[y].id != links[x].id);
        }
    }
}

/// After a step those threads were visited or wait whose creators were visited.
proof fn lemma_called(
    links: Seq<Link>,
    root: i64,
    walk: Seq<(usize, usize)>,
    stack: Seq<(usize, usize)>,
    added: Seq<(usize, usize)>,
    at: int,
)
    requires
        distinct(links),
        walking(links, root, walk, stack),
        stack.len() > 0,
        if links[stack.last().0 as int].id == root {
            added.len() == 0
        } else {
            brood(links, links[stack.last().0 as int].id, (stack.last().1 + 1) as usize, added)
        },
        0 <= at < links.len(),
    ensures
        visited(walk.push(stack.last()), at) || visited(stack.drop_last() + added, at) <==> called(
            links,
            root,
            walk.push(stack.last()),
            at,
        ),
{
    let top = stack.last();
    let after = walk.push(top);
    let rest = stack.drop_last();
    let next = rest + added;
    assert(visited(walk, at) || visited(stack, at) <==> called(links, root, walk, at));
    if visited(walk, at) {
        let i = choose|i: int| 0 <= i < walk.len() && (#[trigger] walk[i]).0 == at;
        assert(after[i].0 == at);
    }
    if visited(stack, at) {
        let i = choose|i: int| 0 <= i < stack.len() && (#[trigger] stack[i]).0 == at;
        if i < rest.len() {
            assert(next[i].0 == at);
        } else {
            assert(after[walk.len() as int].0 == at);
        }
    }
    if visited(added, at) {
        let i = choose|i: int| 0 <= i < added.len() && (#[trigger] added[i]).0 == at;
        assert(next[rest.len() + i].0 == at);
        assert(links[at].parent == Some(links[top.0 as int].id));
        assert(after[walk.len() as int] == top);
    }
    if visited(after, at) && !visited(walk, at) {
        let i = choose|i: int| 0 <= i < after.len() && (#[trigger] after[i]).0 == at;
        if i < walk.len() {
            assert(walk[i].0 == at);
        }
        assert(stack[stack.len() - 1].0 == at);
        assert(visited(stack, at));
    }
    if visited(next, at) {
        let i = choose|i: int| 0 <= i < next.len() && (#[trigger] next[i]).0 == at;
        if i < rest.len() {
            assert(stack[i].0 == at);
            assert(visited(stack, at));
        } else {
            assert(added[i - rest.len()].0 == at);
            assert(visited(added, at));
        }
    }
    if called(links, root, walk, at) && links[at].parent != Some(root) {
        let i = choose|i: int|
            0 <= i < walk.len() && links[(#[trigger] walk[i]).0 as int].id != root
                && links[at].parent == Some(links[walk[i].0 as int].id);
        assert(after[i] == walk[i]);
    }
    if called(links, root, after, at) && links[at].parent != Some(root) {
        let i = choose|i: int|
            0 <= i < after.len() && links[(#[trigger] after[i]).0 as int].id != root
                && links[at].parent == Some(links[after[i].0 as int].id);
        if i < walk.len() {
            assert(walk[i] == after[i]);
            assert(called(links, root, walk, at));
        } else {
            assert(visited(added, at));
        }
    }
}

/// A finished walk visits what can be reached.
proof fn lemma_finished(links: Seq<Link>, root: i64, walk: Seq<(usize, usize)>, i: int, steps: nat)
    requires
        walking(links, root, walk, Seq::empty()),
        reaches(links, root, i, steps),
    ensures
        visited(walk, i),
    decreases steps,
{
    let none = Seq::<(usize, usize)>::empty();
    assert(visited(walk, i) || visited(none, i) <==> called(links, root, walk, i));
    if links[i].parent != Some(root) {
        let j = choose|j: int|
            0 <= j < links.len() && links[i].parent == Some((#[trigger] links[j]).id) && reaches(
                links,
                root,
                j,
                (steps - 1) as nat,
            );
        lemma_finished(links, root, walk, j, (steps - 1) as nat);
        let m = choose|m: int| 0 <= m < walk.len() && (#[trigger] walk[m]).0 == j;
        assert(links[walk[m].0 as int].id != root);
    }
}

/// A finished walk is as long as the tree where everything can be reached, and
/// only there.
proof fn lemma_complete(links: Seq<Link>, root: i64, walk: Seq<(usize, usize)>)
    requires
        walking(links, root, walk, Seq::empty()),
        links.len() <= usize::MAX,
    ensures
        walk.len() == links.len() <==> connected(links, root),
{
    let places = Seq::new(walk.len(), |i: int| walk[i].0);
    if connected(links, root) {
        let range = vstd::set_lib::set_int_range(0, links.len() as int);
        vstd::set_lib::lemma_int_range(0, links.len() as int);
        let numbers = Seq::new(walk.len(), |i: int| walk[i].0 as int);
        assert forall|n: int| range.contains(n) implies numbers.to_set().contains(n) by {
            assert(reachable(links, root, n));
            let steps = choose|steps: nat| #[trigger] reaches(links, root, n, steps);
            lemma_finished(links, root, walk, n, steps);
            let i = choose|i: int| 0 <= i < walk.len() && (#[trigger] walk[i]).0 == n;
            assert(numbers[i] == n);
        }
        numbers.lemma_cardinality_of_set();
        vstd::set_lib::lemma_len_subset(range, numbers.to_set());
        if walk.len() > links.len() {
            lemma_short(links, root, walk);
        }
    }
    if walk.len() == links.len() {
        assert forall|i: int| 0 <= i < links.len() implies #[trigger] reachable(links, root, i) by {
            lemma_visits_all(links, root, walk, i as usize);
            let m = choose|m: int| 0 <= m < walk.len() && (#[trigger] walk[m]).0 == i as usize;
            assert(reachable(links, root, walk[m].0 as int));
        }
    }
}

/// A walk is no longer than the tree.
proof fn lemma_short(links: Seq<Link>, root: i64, walk: Seq<(usize, usize)>)
    requires
        in_preorder(links, root, walk),
    ensures
        walk.len() <= links.len(),
{
    if walk.len() > 0 {
        let last = walk[walk.len() - 1];
        let places = Seq::new((walk.len() - 1) as nat, |i: int| walk[i].0);
        assert forall|i: int| 0 <= i < places.len() implies (#[trigger] places[i]) < links.len()
            && places[i] != last.0 by {
            assert(in_turn(links, walk[i], walk[walk.len() - 1]));
        }
        assert forall|i: int, j: int| 0 <= i < j < places.len() implies #[trigger] places[i]
            != #[trigger] places[j] by {
            assert(in_turn(links, walk[i], walk[j]));
        }
        lemma_room(places, links.len(), last.0);
    }
}

fn is_broken(links: &Vec<Link>) -> (result: bool)
    ensures
        result == broken(links@),
{
    let mut i: usize = 0;
    while i < links.len()
        invariant
            i <= links.len(),
            forall|k: int|
                0 <= k < i && #[trigger] is_last(links@, k) ==> links[k].parent is Some,
        decreases links.len() - i,
    {
        let mut last = true;
        let mut j: usize = i + 1;
        while j < links.len()
            invariant
                i < j <= links.len(),
                last == (forall|k: int| i < k < j ==> (#[trigger] links[k]).id != links[i as int].id),
            decreases links.len() - j,
        {
            if links[j].id == links[i].id {
                last = false;
            }
            j += 1;
        }
        assert(last == is_last(links@, i as int));
        if last && links[i].parent.is_none() {
            return true;
        }
        i += 1;
    }
    false
}

fn is_distinct(links: &Vec<Link>) -> (result: bool)
    ensures
        result == distinct(links@),
{
    let mut i: usize = 0;
    while i < links.len()
        invariant
            i <= links.len(),
            forall|a: int, b: int|
                0 <= a < b < i ==> (#[trigger] links[a]).id != (#[trigger] links[b]).id,
        decreases links.len() - i,
    {
        let mut j: usize = 0;
        while j < i
            invariant
                j <= i < links.len(),
                forall|a: int| 0 <= a < j ==> (#[trigger] links[a]).id != links[i as int].id,
            decreases i - j,
        {
            if links[j].id == links[i].id {
                return false;
            }
            j += 1;
        }
        i += 1;
    }
    true
}

/// Puts the threads that `parent` created on the stack, the one with the
/// smallest number on top.
fn push_brood(
    links: &Vec<Link>,
    order: &Vec<usize>,
    parent: i64,
    depth: usize,
    stack: &mut Vec<(usize, usize)>,
) -> (added: Ghost<Seq<(usize, usize)>>)
    requires
        distinct(links@),
        indices(order@, links@.len()),
        forall|i: int, j: int|
            0 <= i < j < order.len() ==> links[#[trigger] order[i] as int].id
                < links[#[trigger] order[j] as int].id,
    ensures
        final(stack)@ == old(stack)@ + added@,
        brood(links@, parent, depth, added@),
{
    let mut left: usize = order.len();
    let ghost mut added: Seq<(usize, usize)> = Seq::empty();
    assert(stack@ =~= old(stack)@ + added);
    while left > 0
        invariant
            left <= order.len(),
            indices(order@, links@.len()),
            forall|i: int, j: int|
                0 <= i < j < order.len() ==> links[#[trigger] order[i] as int].id
                    < links[#[trigger] order[j] as int].id,
            stack@ == old(stack)@ + added,
            forall|i: int|
                0 <= i < added.len() ==> (#[trigger] added[i]).0 < links.len()
                    && links[added[i].0 as int].parent == Some(parent) && added[i].1 == depth
                    && exists|m: int| left <= m < order.len() && order[m] == added[i].0,
            forall|i: int, j: int|
                0 <= i < j < added.len() ==> links[(#[trigger] added[i]).0 as int].id > links[(
                #[trigger] added[j]).0 as int].id,
            forall|m: int|
                left <= m < order.len() && links[#[trigger] order[m] as int].parent == Some(parent)
                    ==> visited(added, order[m] as int),
        decreases left,
    {
        left -= 1;
        let at = order[left];
        let ghost before = added;
        let mine = match links[at].parent {
            Some(own) => own == parent,
            None => false,
        };
        if mine {
            stack.push((at, depth));
            proof {
                added = added.push((at, depth));
                assert(stack@ =~= old(stack)@ + added);
            }
        }
        proof {
            assert forall|i: int| 0 <= i < added.len() implies exists|m: int|
                left <= m < order.len() && order[m] == (#[trigger] added[i]).0 by {
                if i < before.len() {
                    assert(added[i] == before[i]);
                } else {
                    assert(order[left as int] == added[i].0);
                }
            }
            assert forall|i: int, j: int| 0 <= i < j < added.len() implies links[(
            #[trigger] added[i]).0 as int].id > links[(#[trigger] added[j]).0 as int].id by {
                assert(added[i] == before[i]);
                if j < before.len() {
                    assert(added[j] == before[j]);
                } else {
                    let m = choose|m: int| left + 1 <= m < order.len() && order[m] == before[i].0;
                    assert(links[order[left as int] as int].id < links[order[m] as int].id);
                }
            }
            assert forall|m: int|
                left <= m < order.len() && links[#[trigger] order[m] as int].parent == Some(
                    parent,
                ) implies visited(added, order[m] as int) by {
                if m == left {
                    assert(added[added.len() - 1].0 == order[m]);
                } else {
                    let i = choose|i: int|
                        0 <= i < before.len() && (#[trigger] before[i]).0 == order[m] as int;
                    assert(added[i].0 == order[m]);
                }
            }
        }
    }
    proof {
        assert forall|at: int|
            0 <= at < links.len() && links[at].parent == Some(parent) implies #[trigger] visited(
            added,
            at,
        ) by {
            assert(order@.contains(at as usize));
            let m = choose|m: int| 0 <= m < order.len() && order[m] == at as usize;
            assert(links[order[m] as int].parent == Some(parent));
        }
    }
    Ghost(added)
}

/// Walks the tree below `root`: the places of the threads, each before those
/// that it created, with their depths.
pub fn preorder(root: i64, links: &Vec<Link>) -> (result: Result<
    Vec<(usize, usize)>,
    HierarchyError,
>)
    ensures
        match result {
            Ok(walk) => !broken(links@) && distinct(links@) && connected(links@, root)
                && walk@.len() == links@.len() && in_preorder(links@, root, walk@),
            Err(HierarchyError::Broken) => broken(links@),
            Err(HierarchyError::Unreachable) => !broken(links@) && !(distinct(links@)
                && connected(links@, root)),
        },
{
    if is_broken(links) {
        return Err(HierarchyError::Broken);
    }
    if !is_distinct(links) {
        return Err(HierarchyError::Unreachable);
    }
    let mut keys: Vec<i64> = Vec::new();
    let mut i: usize = 0;
    while i < links.len()
        invariant
            i <= links.len(),
            keys@.len() == i,
            forall|k: int| 0 <= k < i ==> #[trigger] keys[k] == links[k].id,
        decreases links.len() - i,
    {
        keys.push(links[i].id);
        i += 1;
    }
    let order = order_by(&keys);
    assert forall|a: int, b: int| 0 <= a < b < order.len() implies links[#[trigger] order[a]
        as int].id < links[#[trigger] order[b] as int].id by {
        let x = order[a] as int;
        let y = order[b] as int;
        assert(keys[x] == links[x].id && keys[y] == links[y].id);
        if keys[x] == keys[y] {
            assert(links[x].id != links[y].id);
        }
    }
    let mut walk: Vec<(usize, usize)> = Vec::new();
    let mut stack: Vec<(usize, usize)> = Vec::new();
    let Ghost(first) = push_brood(links, &order, root, 1, &mut stack);
    proof {
        assert(stack@ =~= first);
        lemma_start(links@, root, stack@);
        assert(walk@ =~= Seq::empty());
    }
    while stack.len() > 0
        invariant
            distinct(links@),
            indices(order@, links@.len()),
            forall|a: int, b: int|
                0 <= a < b < order.len() ==> links[#[trigger] order[a] as int].id
                    < links[#[trigger] order[b] as int].id,
            walking(links@, root, walk@, stack@),
            walk@.len() <= links@.len(),
        decreases links.len() - walk.len(),
    {
        let ghost before = stack@;
        let ghost walked = walk@;
        let (at, depth) = stack[stack.len() - 1];
        proof {
            assert(ready(links@, root, walk@, stack@[stack.len() - 1]));
            lemma_visit(links@, root, walk@, stack@);
            lemma_short(links@, root, walk@.push(stack@.last()));
        }
        let _ = stack.pop();
        walk.push((at, depth));
        let number = links[at].id;
        if number != root {
            // A thread deeper than the number of threads has created none.
            if depth < links.len() {
                let Ghost(added) = push_brood(links, &order, number, depth + 1, &mut stack);
                proof {
                    lemma_step(links@, root, walked, before, added);
                }
            } else {
                proof {
                    let none = Seq::<(usize, usize)>::empty();
                    assert forall|n: int|
                        0 <= n < links.len() && links[n].parent == Some(number) implies #[trigger] visited(
                        none,
                        n,
                    ) by {
                        lemma_fresh(links@, root, walked, before, n);
                        let places = Seq::new(walk@.len(), |k: int| walk@[k].0);
                        assert forall|k: int| 0 <= k < places.len() implies (#[trigger] places[k])
                            < links.len() && places[k] != n as usize by {
                            if k < walked.len() {
                                assert(walk@[k] == walked[k]);
                                if walked[k].0 == n {
                                    assert(visited(walked, n));
                                }
                            } else {
                                assert(before[before.len() - 1].0 == at);
                                if at == n {
                                    assert(visited(before, n));
                                }
                            }
                        }
                        assert forall|a: int, b: int| 0 <= a < b < places.len() implies
                            #[trigger] places[a] != #[trigger] places[b] by {
                            assert(in_turn(links@, walk@[a], walk@[b]));
                        }
                        lemma_room(places, links@.len(), n as usize);
                    }
                    lemma_step(links@, root, walked, before, none);
                    assert(before.drop_last() + none =~= stack@);
                }
            }
        } else {
            proof {
                lemma_step(links@, root, walked, before, Seq::empty());
                assert(before.drop_last() + Seq::<(usize, usize)>::empty() =~= stack@);
            }
        }
    }
    proof {
        assert(stack@ =~= Seq::empty());
        lemma_complete(links@, root, walk@);
    }
    if walk.len() != links.len() {
        return Err(HierarchyError::Unreachable);
    }
    Ok(walk)
}

/// In a walk a thread comes after the one that it stands below, one level deeper, with
/// nothing between them that is not below that one too; and of two threads below the
/// same one the older, which has the smaller number, comes first.
pub proof fn law_threads_follow_what_they_stand_below(
    links: Seq<Link>,
    root: i64,
    walk: Seq<(usize, usize)>,
    i: int,
    j: int,
)
    requires
        in_preorder(links, root, walk),
        0 <= i < j < walk.len(),
    ensures
        links[walk[i].0 as int].parent == links[walk[j].0 as int].parent
            ==> links[walk[i].0 as int].id < links[walk[j].0 as int].id,
        links[walk[j].0 as int].parent == Some(root) ==> walk[j].1 == 1,
        links[walk[j].0 as int].parent != Some(root) ==> exists|p: int|
            0 <= p < j && links[walk[j].0 as int].parent == Some(
                links[(#[trigger] walk[p]).0 as int].id,
            ) && walk[j].1 == walk[p].1 + 1 && forall|k: int|
                p < k < j ==> (#[trigger] walk[k]).1 > walk[p].1,
{
    assert(in_turn(links, walk[i], walk[j]));
    assert(placed(links, root, walk, j));
    if links[walk[j].0 as int].parent != Some(root) {
        let p = choose|p: int| #[trigger] under(links, walk, p, j);
        assert(0 <= p < j);
        assert(links[walk[j].0 as int].parent == Some(links[walk[p].0 as int].id));
        assert forall|k: int| p < k < j implies (#[trigger] walk[k]).1 > walk[p].1 by {
            assert(walk[k].1 >= walk[j].1);
        }
    }
}

} // verus!
