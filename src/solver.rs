use vstd::prelude::*;
use std::collections::HashMap;
use crate::model::{Direction, GameStatus, Position};

verus! {

broadcast use {vstd::std_specs::hash::group_hash_axioms};

/// Everything about an engine state that can affect later moves; two states with equal keys
/// are one search node.
#[derive(Debug)]
pub struct StateKey {
    pub snake: Vec<Position>,
    /// The snake's facing: North 0, South 1, East 2, West 3, none -1.
    pub snake_dir: i8,
    pub food: Vec<Position>,
    pub floating_food: Vec<Position>,
    pub falling_food: Vec<Position>,
    pub stones: Vec<Position>,
    pub spikes: Vec<Position>,
    pub exit_is_solid: bool,
    pub food_collected: u32,
    pub status: GameStatus,
}

pub struct KeyView {
    pub snake: Seq<Position>,
    pub snake_dir: i8,
    pub food: Seq<Position>,
    pub floating_food: Seq<Position>,
    pub falling_food: Seq<Position>,
    pub stones: Seq<Position>,
    pub spikes: Seq<Position>,
    pub exit_is_solid: bool,
    pub food_collected: u32,
    pub status: GameStatus,
}

pub open spec fn key_view(k: StateKey) -> KeyView {
    KeyView {
        snake: k.snake@,
        snake_dir: k.snake_dir,
        food: k.food@,
        floating_food: k.floating_food@,
        falling_food: k.falling_food@,
        stones: k.stones@,
        spikes: k.spikes@,
        exit_is_solid: k.exit_is_solid,
        food_collected: k.food_collected,
        status: k.status,
    }
}

/// The code of a facing in a state key.
pub fn direction_code(d: Option<Direction>) -> (r: i8)
    ensures
        r == match d {
            Some(Direction::North) => 0i8,
            Some(Direction::South) => 1i8,
            Some(Direction::East) => 2i8,
            Some(Direction::West) => 3i8,
            None => -1i8,
        },
{
    match d {
        Some(Direction::North) => 0,
        Some(Direction::South) => 1,
        Some(Direction::East) => 2,
        Some(Direction::West) => 3,
        None => -1,
    }
}

fn same_positions(a: &Vec<Position>, b: &Vec<Position>) -> (r: bool)
    ensures
        r == (a@ == b@),
{
    if a.len() != b.len() {
        return false;
    }
    let n = a.len();
    let mut i: usize = 0;
    while i < n
        invariant
            n == a.len(),
            n == b.len(),
            i <= n,
            forall|j: int| 0 <= j < i ==> a@[j] == b@[j],
        decreases n - i,
    {
        if a[i] != b[i] {
            return false;
        }
        i = i + 1;
    }
    assert(a@ =~= b@);
    true
}

fn same_key(a: &StateKey, b: &StateKey) -> (r: bool)
    ensures
        r == (key_view(*a) == key_view(*b)),
{
    a.snake_dir == b.snake_dir && a.exit_is_solid == b.exit_is_solid && a.food_collected
        == b.food_collected && a.status == b.status && same_positions(&a.snake, &b.snake)
        && same_positions(&a.food, &b.food) && same_positions(&a.floating_food, &b.floating_food)
        && same_positions(&a.falling_food, &b.falling_food) && same_positions(&a.stones, &b.stones)
        && same_positions(&a.spikes, &b.spikes)
}

/// The bucket of the visited table that a key falls in: its snake's head cell.
pub open spec fn bucket_of(k: KeyView) -> u64 {
    if k.snake.len() == 0 {
        0
    } else {
        ((k.snake[0].x + 0x8000_0000) * 0x1_0000_0000 + (k.snake[0].y + 0x8000_0000)) as u64
    }
}

fn bucket(k: &StateKey) -> (r: u64)
    ensures
        r == bucket_of(key_view(*k)),
{
    if k.snake.len() == 0 {
        0
    } else {
        let x = (k.snake[0].x as i64 + 0x8000_0000) as u64;
        let y = (k.snake[0].y as i64 + 0x8000_0000) as u64;
        assert(x * 0x1_0000_0000 + y <= u64::MAX) by (nonlinear_arith)
            requires
                x <= 0xffff_ffff,
                y <= 0xffff_ffff,
        ;
        x * 0x1_0000_0000 + y
    }
}

/// One node of the search tree: the move that led to it from its parent, and its depth.
struct Node {
    parent: usize,
    dir: Direction,
    depth: usize,
}

/// The moves from the root to node `i`.
pub open spec fn path_to(parents: Seq<usize>, dirs: Seq<Direction>, i: int) -> Seq<Direction>
    decreases i,
{
    if i <= 0 || i >= parents.len() || parents[i] >= i {
        Seq::empty()
    } else {
        path_to(parents, dirs, parents[i] as int).push(dirs[i])
    }
}

/// What to do with an inspected node.
#[derive(Debug)]
pub enum Decision {
    /// The node completes the level; the moves that reach it.
    Solved(Vec<Direction>),
    /// Game over, or a state already expanded: nothing to do.
    Discard,
    /// A new state: try each direction of `EXPLORATION_ORDER` from it.
    Expand,
}

/// The next step of the search.
#[derive(Debug)]
pub enum SearchStep {
    /// Inspect this node: report its engine's status and key.
    Inspect { node: usize },
    /// No node within the depth bound is left: there is no solution.
    Exhausted,
}

/// The order in which moves are tried from each state.
pub const EXPLORATION_ORDER: [Direction; 4] = [
    Direction::North,
    Direction::South,
    Direction::East,
    Direction::West,
];

/// A breadth-first search over engine states. The caller owns the engines: node 0 is the
/// initial engine, and each successor node is the engine of its parent after the move given
/// to `add_successor`. The search decides which node to look at next, whether a node solves
/// the level or is a dead end or a repeat, and the move sequence of a solution.
pub struct Search {
    max_depth: usize,
    nodes: Vec<Node>,
    queue: Vec<usize>,
    head: usize,
    keys: Vec<StateKey>,
    buckets: HashMap<u64, Vec<usize>>,
}

impl Search {
    pub closed spec fn parents(&self) -> Seq<usize> {
        self.nodes@.map_values(|n: Node| n.parent)
    }

    pub closed spec fn dirs(&self) -> Seq<Direction> {
        self.nodes@.map_values(|n: Node| n.dir)
    }

    /// How many nodes the search has.
    pub closed spec fn node_count(&self) -> nat {
        self.nodes@.len()
    }

    /// The moves that lead from the initial state to node `i`.
    pub open spec fn path(&self, i: int) -> Seq<Direction> {
        path_to(self.parents(), self.dirs(), i)
    }

    /// The search's depth bound.
    pub closed spec fn depth_bound(&self) -> nat {
        self.max_depth as nat
    }

    /// The nodes waiting to be inspected, first in first out.
    pub closed spec fn pending(&self) -> Seq<usize> {
        self.queue@.subrange(self.head as int, self.queue@.len() as int)
    }

    /// The keys of the states expanded so far, in order.
    pub closed spec fn visited(&self) -> Seq<KeyView> {
        self.keys@.map_values(|k: StateKey| key_view(k))
    }

    #[verifier::opaque]
    pub closed spec fn wf(&self) -> bool {
        &&& self.nodes@.len() >= 1
        &&& self.nodes@[0].depth == 0
        &&& forall|i: int|
            0 < i < self.nodes@.len() ==> (#[trigger] self.nodes@[i]).parent < i
                && self.nodes@[i].depth == self.nodes@[self.nodes@[i].parent as int].depth + 1
        &&& forall|i: int| 0 <= i < self.nodes@.len() ==> (#[trigger] self.nodes@[i]).depth
            == path_to(self.parents(), self.dirs(), i).len()
        &&& self.head <= self.queue@.len()
        &&& forall|i: int| 0 <= i < self.queue@.len() ==> #[trigger] self.queue@[i] < self.nodes@.len()
        &&& forall|j: int|
            0 <= j < self.keys@.len() ==> self.buckets@.contains_key(
                bucket_of(key_view(#[trigger] self.keys@[j])),
            ) && self.buckets@[bucket_of(key_view(self.keys@[j]))]@.contains(j as usize)
        &&& forall|b: u64, t: int|
            self.buckets@.contains_key(b) && 0 <= t < self.buckets@[b]@.len() ==> #[trigger] self.buckets@[b]@[t]
                < self.keys@.len()
    }
}

} // verus!

verus! {

impl Search {
    proof fn lemma_wf_node(&self, i: int)
        requires
            self.wf(),
            0 <= i < self.nodes@.len(),
        ensures
            self.nodes@[i].depth == self.path(i).len(),
            i > 0 ==> self.nodes@[i].parent < i,
            self.parents()[i] == self.nodes@[i].parent,
            self.dirs()[i] == self.nodes@[i].dir,
            self.parents().len() == self.nodes@.len(),
            self.dirs().len() == self.nodes@.len(),
    {
        reveal(Search::wf);
    }

    proof fn lemma_head_moved(&self, other: &Search)
        requires
            self.wf(),
            other.nodes == self.nodes,
            other.queue == self.queue,
            other.keys == self.keys,
            other.buckets == self.buckets,
            other.head <= other.queue@.len(),
        ensures
            other.wf(),
    {
        reveal(Search::wf);
    }

    proof fn lemma_wf_head(&self)
        requires
            self.wf(),
        ensures
            self.head <= self.queue@.len(),
    {
        reveal(Search::wf);
    }

    proof fn lemma_wf_queue(&self, j: int)
        requires
            self.wf(),
            0 <= j < self.queue@.len(),
        ensures
            self.queue@[j] < self.nodes@.len(),
            self.head <= self.queue@.len(),
    {
        reveal(Search::wf);
    }
}

impl Search {
    proof fn lemma_successor(before: Search, after: Search, parent: usize, id: usize, d: Direction)
        requires
            before.wf(),
            id == before.nodes@.len(),
            parent < id,
            after.nodes@ == before.nodes@.push(
                Node { parent, dir: d, depth: (before.nodes@[parent as int].depth + 1) as usize },
            ),
            before.nodes@[parent as int].depth + 1 <= usize::MAX,
            after.queue@ == before.queue@.push(id),
            after.head == before.head,
            after.keys == before.keys,
            after.buckets == before.buckets,
            after.max_depth == before.max_depth,
        ensures
            after.wf(),
            after.path(id as int) == before.path(parent as int).push(d),
            forall|i: int| 0 <= i < before.nodes@.len() ==> #[trigger] after.path(i) == before.path(i),
            after.pending() == before.pending().push(id),
            after.visited() == before.visited(),
    {
        before.lemma_wf_node(parent as int);
        let id = id as int;
        let parent = parent as int;
        assert(after.parents().len() == id + 1);
        assert(after.dirs().len() == id + 1);
        let pa = before.parents();
        let da = before.dirs();
        assert(pa =~= after.parents().subrange(0, pa.len() as int));
        assert(da =~= after.dirs().subrange(0, da.len() as int));
        assert forall|i: int| 0 <= i < id implies #[trigger] after.path(i) == before.path(i) by {
            lemma_path_prefix(pa, da, after.parents(), after.dirs(), i);
        }
        assert(after.parents()[id] == parent as usize);
        assert(after.dirs()[id] == d);
        assert(after.path(parent) == before.path(parent));
        assert(path_to(after.parents(), after.dirs(), id) == path_to(
            after.parents(),
            after.dirs(),
            after.parents()[id] as int,
        ).push(after.dirs()[id]));
        assert(after.parents()[id] as int == parent);
        assert(after.path(id) == after.path(parent).push(d));
        before.lemma_wf_head();
        assert(after.pending() =~= before.pending().push(id as usize));
        assert(after.visited() =~= before.visited());
        Search::lemma_successor_wf(before, after, parent as usize, id as usize, d);
    }

    #[verifier::rlimit(40)]
    proof fn lemma_successor_wf(before: Search, after: Search, parent: usize, id: usize, d: Direction)
        requires
            before.wf(),
            id == before.nodes@.len(),
            parent < id,
            after.nodes@ == before.nodes@.push(
                Node { parent, dir: d, depth: (before.nodes@[parent as int].depth + 1) as usize },
            ),
            before.nodes@[parent as int].depth + 1 <= usize::MAX,
            after.queue@ == before.queue@.push(id),
            after.head == before.head,
            after.keys == before.keys,
            after.buckets == before.buckets,
            after.max_depth == before.max_depth,
            after.path(id as int) == before.path(parent as int).push(d),
            forall|i: int| 0 <= i < before.nodes@.len() ==> #[trigger] after.path(i) == before.path(i),
        ensures
            after.wf(),
    {
        before.lemma_wf_node(parent as int);
        before.lemma_wf_head();
        assert(after.parents() =~= before.parents().push(parent));
        assert(after.dirs() =~= before.dirs().push(d));
        reveal(Search::wf);
        assert forall|i: int| 0 <= i < after.nodes@.len() implies (#[trigger] after.nodes@[i]).depth
            == path_to(after.parents(), after.dirs(), i).len() by {
            if i < id {
                assert(after.nodes@[i] == before.nodes@[i]);
                assert(after.path(i) == before.path(i));
            }
        }
    }
}

proof fn lemma_path_prefix(pa: Seq<usize>, da: Seq<Direction>, pb: Seq<usize>, db: Seq<Direction>, i: int)
    requires
        0 <= i < pa.len(),
        pa.len() == da.len(),
        pa.len() <= pb.len(),
        pa.len() <= db.len(),
        pa == pb.subrange(0, pa.len() as int),
        da == db.subrange(0, pa.len() as int),
    ensures
        path_to(pa, da, i) == path_to(pb, db, i),
    decreases i,
{
    if i > 0 && pa[i] < i {
        lemma_path_prefix(pa, da, pb, db, pa[i] as int);
    }
}

impl Search {
    /// A search whose only node is the initial state, with the given depth bound.
    pub fn new(max_depth: usize) -> (r: Search)
        ensures
            r.wf(),
            r.node_count() == 1,
            r.path(0) == Seq::<Direction>::empty(),
            r.pending() == seq![0usize],
            r.visited() == Seq::<KeyView>::empty(),
            r.depth_bound() == max_depth,
    {
        let mut nodes: Vec<Node> = Vec::new();
        nodes.push(Node { parent: 0, dir: Direction::North, depth: 0 });
        let mut queue: Vec<usize> = Vec::new();
        queue.push(0);
        let r = Search { max_depth, nodes, queue, head: 0, keys: Vec::new(), buckets: HashMap::new() };
        assert(r.pending() =~= seq![0usize]);
        assert(r.path(0) =~= Seq::<Direction>::empty());
        assert(r.wf()) by {
            reveal(Search::wf);
        }
        assert(r.visited() =~= Seq::<KeyView>::empty());
        r
    }

    /// The number of moves that lead to node `node`.
    pub fn depth(&self, node: usize) -> (r: usize)
        requires
            self.wf(),
            node < self.node_count(),
        ensures
            r == self.path(node as int).len(),
    {
        proof {
            self.lemma_wf_node(node as int);
        }
        self.nodes[node].depth
    }

    /// Takes the next pending node within the depth bound; nodes deeper than the bound are
    /// dropped without inspection.
    pub fn next(&mut self) -> (r: SearchStep)
        requires
            old(self).wf(),
        ensures
            final(self).wf(),
            final(self).parents() == old(self).parents(),
            final(self).dirs() == old(self).dirs(),
            final(self).node_count() == old(self).node_count(),
            final(self).visited() == old(self).visited(),
            final(self).depth_bound() == old(self).depth_bound(),
            match r {
                SearchStep::Inspect { node } => exists|k: int|
                    0 <= k < old(self).pending().len() && old(self).pending()[k] == node
                        && final(self).pending() == old(self).pending().subrange(
                        k + 1,
                        old(self).pending().len() as int,
                    ) && old(self).path(node as int).len() <= old(self).depth_bound() && forall|j: int|
                        0 <= j < k ==> old(self).path(#[trigger] old(self).pending()[j] as int).len()
                            > old(self).depth_bound(),
                SearchStep::Exhausted => final(self).pending().len() == 0 && forall|j: int|
                    0 <= j < old(self).pending().len() ==> old(self).path(
                        #[trigger] old(self).pending()[j] as int,
                    ).len() > old(self).depth_bound(),
            },
    {
        let start = self.head;
        let n = self.queue.len();
        proof {
            self.lemma_wf_head();
        }
        let mut h = start;
        while h < n
            invariant
                self.wf(),
                *self == *old(self),
                n == self.queue@.len(),
                start == self.head,
                start <= h <= n,
                forall|j: int|
                    start <= j < h ==> self.path(#[trigger] self.queue@[j] as int).len()
                        > self.max_depth,
            decreases n - h,
        {
            let id = self.queue[h];
            proof {
                self.lemma_wf_queue(h as int);
                self.lemma_wf_node(id as int);
            }
            h = h + 1;
            if self.nodes[id].depth <= self.max_depth {
                let ghost before = *self;
                self.head = h;
                proof {
                    before.lemma_head_moved(self);
                    let k = h - 1 - start;
                    assert(before.pending()[k] == id);
                    assert(self.pending() =~= before.pending().subrange(
                        k + 1,
                        before.pending().len() as int,
                    ));
                    assert forall|j: int| 0 <= j < k implies before.path(
                        #[trigger] before.pending()[j] as int,
                    ).len() > before.depth_bound() by {
                        assert(before.pending()[j] == self.queue@[start + j]);
                    }
                }
                return SearchStep::Inspect { node: id };
            }
        }
        let ghost before = *self;
        self.head = n;
        proof {
            before.lemma_head_moved(self);
            assert forall|j: int| 0 <= j < before.pending().len() implies before.path(
                #[trigger] before.pending()[j] as int,
            ).len() > before.depth_bound() by {
                assert(before.pending()[j] == self.queue@[start + j]);
            }
            assert(self.pending().len() == 0);
        }
        SearchStep::Exhausted
    }

    /// The moves from the initial state to node `node`.
    fn path_of(&self, node: usize) -> (r: Vec<Direction>)
        requires
            self.wf(),
            node < self.node_count(),
        ensures
            r@ == self.path(node as int),
    {
        let mut out: Vec<Direction> = Vec::new();
        let mut cur = node;
        while cur != 0
            invariant
                self.wf(),
                cur < self.node_count(),
                self.path(node as int) == self.path(cur as int) + out@,
            decreases cur,
        {
            let n = &self.nodes[cur];
            proof {
                self.lemma_wf_node(cur as int);
                assert(self.path(cur as int) == self.path(n.parent as int).push(n.dir));
            }
            let ghost before = out@;
            out.insert(0, n.dir);
            assert(out@ =~= seq![n.dir] + before);
            assert(self.path(node as int) =~= self.path(n.parent as int) + out@);
            cur = n.parent;
        }
        assert(self.path(0) =~= Seq::<Direction>::empty());
        assert(out@ =~= self.path(node as int));
        out
    }
}

} // verus!

verus! {

impl Search {
    /// Whether one of the keys at the positions `v` equals `key`.
    fn scan_bucket(&self, v: &Vec<usize>, key: &StateKey) -> (r: bool)
        requires
            forall|s: int| 0 <= s < v@.len() ==> #[trigger] v@[s] < self.keys@.len(),
        ensures
            r == exists|s: int| 0 <= s < v@.len() && key_view(self.keys@[#[trigger] v@[s] as int]) == key_view(*key),
    {
        let n = v.len();
        let mut t: usize = 0;
        while t < n
            invariant
                n == v@.len(),
                t <= n,
                forall|s: int| 0 <= s < v@.len() ==> #[trigger] v@[s] < self.keys@.len(),
                forall|s: int| 0 <= s < t ==> key_view(self.keys@[#[trigger] v@[s] as int]) != key_view(*key),
            decreases n - t,
        {
            if same_key(&self.keys[v[t]], key) {
                return true;
            }
            t = t + 1;
        }
        false
    }

    /// Whether `key` is the key of a state expanded before.
    fn is_visited(&self, key: &StateKey) -> (r: bool)
        requires
            self.wf(),
        ensures
            r == self.visited().contains(key_view(*key)),
    {
        let b = bucket(key);
        match self.buckets.get(&b) {
            Some(v) => {
                assert(self.buckets@.contains_key(b) && self.buckets@[b] == *v);
                proof {
                    reveal(Search::wf);
                }
                let r = self.scan_bucket(v, key);
                let nk = self.keys.len();
                proof {
                    reveal(Search::wf);
                    if r {
                        let s = choose|s: int| 0 <= s < v@.len() && key_view(self.keys@[#[trigger] v@[s] as int]) == key_view(*key);
                        assert(self.visited()[v@[s] as int] == key_view(*key));
                    }
                    if self.visited().contains(key_view(*key)) {
                        let j = choose|j: int| 0 <= j < self.visited().len() && self.visited()[j] == key_view(*key);
                        assert(key_view(self.keys@[j]) == key_view(*key));
                        assert(self.buckets@[b]@.contains(j as usize));
                        let s = choose|s: int| 0 <= s < v@.len() && v@[s] == j as usize;
                        assert(v@[s] as int == j);
                        assert(key_view(self.keys@[v@[s] as int]) == key_view(*key));
                    }
                }
                r
            },
            None => {
                proof {
                    reveal(Search::wf);
                    if self.visited().contains(key_view(*key)) {
                        let j = choose|j: int| 0 <= j < self.visited().len() && self.visited()[j] == key_view(*key);
                        assert(key_view(self.keys@[j]) == key_view(*key));
                    }
                }
                false
            },
        }
    }

    /// Records `key` as expanded.
    fn mark_visited(&mut self, key: StateKey)
        requires
            old(self).wf(),
        ensures
            final(self).wf(),
            final(self).nodes == old(self).nodes,
            final(self).queue == old(self).queue,
            final(self).head == old(self).head,
            final(self).max_depth == old(self).max_depth,
            final(self).visited() == old(self).visited().push(key_view(key)),
    {
        let b = bucket(&key);
        let idx = self.keys.len();
        let ghost old_keys = self.keys@;
        let ghost old_buckets = self.buckets@;
        self.keys.push(key);
        let mut v = match self.buckets.remove(&b) {
            Some(v) => v,
            None => Vec::new(),
        };
        let ghost old_v = v@;
        v.push(idx);
        self.buckets.insert(b, v);
        proof {
            reveal(Search::wf);
            assert(self.visited() =~= old(self).visited().push(key_view(key)));
            assert forall|j: int| 0 <= j < self.keys@.len() implies self.buckets@.contains_key(
                bucket_of(key_view(#[trigger] self.keys@[j])),
            ) && self.buckets@[bucket_of(key_view(self.keys@[j]))]@.contains(j as usize) by {
                if j == idx {
                    assert(self.buckets@[b]@[old_v.len() as int] == idx);
                } else {
                    assert(self.keys@[j] == old_keys[j]);
                    let bj = bucket_of(key_view(old_keys[j]));
                    if bj == b {
                        let s = choose|s: int| 0 <= s < old_buckets[b]@.len() && old_buckets[b]@[s] == j as usize;
                        assert(self.buckets@[b]@[s] == j as usize);
                    }
                }
            }
            assert forall|c: u64, t: int|
                self.buckets@.contains_key(c) && 0 <= t < self.buckets@[c]@.len() implies #[trigger] self.buckets@[c]@[t]
                < self.keys@.len() by {
                if c != b {
                    assert(self.buckets@[c] == old_buckets[c]);
                }
            }
        }
    }

    /// Decides what to do with node `node`, whose engine has status `status` and key `key`:
    /// a completed level is solved by the node's moves; a game over is a dead end; a key seen
    /// before is a repeat; any other state is recorded and expanded.
    pub fn report(&mut self, node: usize, status: GameStatus, key: StateKey) -> (r: Decision)
        requires
            old(self).wf(),
            node < old(self).node_count(),
        ensures
            final(self).wf(),
            final(self).parents() == old(self).parents(),
            final(self).dirs() == old(self).dirs(),
            final(self).node_count() == old(self).node_count(),
            final(self).pending() == old(self).pending(),
            final(self).depth_bound() == old(self).depth_bound(),
            match status {
                GameStatus::LevelComplete | GameStatus::AllComplete => (r matches Decision::Solved(p)
                    && p@ == old(self).path(node as int)) && final(self).visited() == old(self).visited(),
                GameStatus::GameOver => r is Discard && final(self).visited() == old(self).visited(),
                GameStatus::Playing => if old(self).visited().contains(key_view(key)) {
                    r is Discard && final(self).visited() == old(self).visited()
                } else {
                    r is Expand && final(self).visited() == old(self).visited().push(key_view(key))
                },
            },
    {
        match status {
            GameStatus::LevelComplete | GameStatus::AllComplete => {
                return Decision::Solved(self.path_of(node));
            },
            GameStatus::GameOver => {
                return Decision::Discard;
            },
            GameStatus::Playing => {},
        }
        if self.is_visited(&key) {
            return Decision::Discard;
        }
        self.mark_visited(key);
        Decision::Expand
    }

    /// Adds the node reached from `parent` by the move `d`, at the back of the queue, and
    /// returns its number.
    pub fn add_successor(&mut self, parent: usize, d: Direction) -> (r: usize)
        requires
            old(self).wf(),
            parent < old(self).node_count(),
            old(self).path(parent as int).len() < usize::MAX,
        ensures
            final(self).wf(),
            r == old(self).node_count(),
            final(self).node_count() == r + 1,
            final(self).path(r as int) == old(self).path(parent as int).push(d),
            forall|i: int| 0 <= i < r ==> #[trigger] final(self).path(i) == old(self).path(i),
            final(self).pending() == old(self).pending().push(r),
            final(self).visited() == old(self).visited(),
            final(self).depth_bound() == old(self).depth_bound(),
    {
        proof {
            self.lemma_wf_node(parent as int);
            self.lemma_wf_head();
        }
        let depth = self.nodes[parent].depth + 1;
        let id = self.nodes.len();
        let ghost before = *self;
        self.nodes.push(Node { parent, dir: d, depth });
        self.queue.push(id);
        proof {
            Search::lemma_successor(before, *self, parent, id, d);
        }
        id
    }
}

} // verus!
