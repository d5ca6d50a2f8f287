//! The accounting of connected compute nodes: which are alive, which are in
//! use, and how many are free to join a cluster.

use vstd::prelude::*;

verus! {

/// Liveness and usage of a connected node.
#[derive(Clone, Copy, Debug, PartialEq, Eq, Structural)]
pub struct NodeStatus {
    /// Flag to specify if the node is alive or not
    pub alive: bool,
    /// Flag to specify if the node is in use or not
    pub using: bool,
}

/// The status of a node that has just connected: alive and not in use.
pub open spec fn fresh_status() -> NodeStatus {
    NodeStatus { alive: true, using: false }
}

/// Whether a node can join a cluster: it is alive and not in use.
pub open spec fn is_available(status: NodeStatus) -> bool {
    status.alive && !status.using
}

/// The number of available nodes.
pub open spec fn count_available(statuses: Seq<NodeStatus>) -> nat
    decreases statuses.len(),
{
    if statuses.len() == 0 {
        0
    } else {
        count_available(statuses.drop_last()) + if is_available(statuses.last()) {
            1nat
        } else {
            0nat
        }
    }
}

/// The counter after one increment, wrapping around as an atomic counter's
/// `fetch_add` does.
pub open spec fn count_up(n: usize) -> usize {
    if n == usize::MAX {
        0
    } else {
        (n + 1) as usize
    }
}

/// The counter after one decrement, wrapping around as an atomic counter's
/// `fetch_sub` does.
pub open spec fn count_down(n: usize) -> usize {
    if n == 0 {
        usize::MAX
    } else {
        (n - 1) as usize
    }
}

/// The counter after `n` increments.
pub open spec fn count_up_times(a: usize, n: nat) -> usize
    decreases n,
{
    if n == 0 {
        a
    } else {
        count_up(count_up_times(a, (n - 1) as nat))
    }
}

/// Whether no two entries of `ids` are equal.
pub open spec fn distinct(ids: Seq<Seq<char>>) -> bool {
    forall|i: int, j: int| 0 <= i < ids.len() && 0 <= j < ids.len() && i != j ==> ids[i] != ids[j]
}

fn increment(n: usize) -> (m: usize)
    ensures
        m == count_up(n),
{
    if n == usize::MAX {
        0
    } else {
        n + 1
    }
}

fn decrement(n: usize) -> (m: usize)
    ensures
        m == count_down(n),
{
    if n == 0 {
        usize::MAX
    } else {
        n - 1
    }
}

/// The statuses of all connected nodes, keyed by model identifier, with the
/// count of active nodes that the job end consults before building a cluster.
#[derive(Debug, Default)]
pub struct NodePool {
    ids: Vec<String>,
    statuses: Vec<NodeStatus>,
    active: usize,
}

impl NodePool {
    /// The model identifiers of the nodes, in the order they first joined.
    pub closed spec fn ids(&self) -> Seq<Seq<char>> {
        self.ids@.map_values(|s: String| s@)
    }

    /// The status of each node, in the order of `ids`.
    pub closed spec fn statuses(&self) -> Seq<NodeStatus> {
        self.statuses@
    }

    /// The value of the active node counter.
    pub closed spec fn active(&self) -> usize {
        self.active
    }

    /// Every node has one status and no identifier occurs twice.
    pub open spec fn wf(&self) -> bool {
        &&& self.ids().len() == self.statuses().len()
        &&& distinct(self.ids())
    }

    /// Whether a node with identifier `id` is in the pool.
    pub open spec fn has(&self, id: Seq<char>) -> bool {
        self.ids().contains(id)
    }

    /// The position of the node with identifier `id`.
    pub open spec fn index_of(&self, id: Seq<char>) -> int {
        choose|i: int| 0 <= i < self.ids().len() && self.ids()[i] == id
    }

    /// The status of the node with identifier `id`.
    pub open spec fn status_of(&self, id: Seq<char>) -> NodeStatus {
        self.statuses()[self.index_of(id)]
    }

    proof fn lemma_index_of(&self, i: int)
        requires
            self.wf(),
            0 <= i < self.ids().len(),
        ensures
            self.has(self.ids()[i]),
            self.index_of(self.ids()[i]) == i,
    {
        assert(self.ids().contains(self.ids()[i]));
    }

    /// Returns an empty [`NodePool`].
    pub fn new() -> (pool: Self)
        ensures
            pool.wf(),
            pool.ids() == Seq::<Seq<char>>::empty(),
            pool.statuses() == Seq::<NodeStatus>::empty(),
            pool.active() == 0,
    {
        let pool = NodePool { ids: Vec::new(), statuses: Vec::new(), active: 0 };
        assert(pool.ids() =~= Seq::<Seq<char>>::empty());
        pool
    }

    /// The position of the node with identifier `id`, if it is in the pool.
    fn find(&self, id: &str) -> (index: Option<usize>)
        requires
            self.wf(),
        ensures
            index matches Some(i) ==> i < self.ids().len() && self.ids()[i as int] == id@
                && self.index_of(id@) == i,
            index is None ==> !self.has(id@),
    {
        let key: String = id.to_owned();
        let mut i: usize = 0;
        while i < self.ids.len()
            invariant
                self.wf(),
                key@ == id@,
                i <= self.ids().len(),
                self.ids().len() == self.ids@.len(),
                forall|j: int| 0 <= j < i ==> self.ids()[j] != id@,
            decreases self.ids@.len() - i,
        {
            if self.ids[i] == key {
                proof {
                    assert(self.ids()[i as int] == self.ids@[i as int]@);
                    self.lemma_index_of(i as int);
                }
                return Some(i);
            }
            assert(self.ids()[i as int] == self.ids@[i as int]@);
            i += 1;
        }
        proof {
            if self.has(id@) {
                let j = choose|j: int| 0 <= j < self.ids().len() && self.ids()[j] == id@;
                assert(self.ids()[j] != id@);
            }
        }
        None
    }

    /// The value of the active node counter.
    pub fn active_count(&self) -> (n: usize)
        ensures
            n == self.active(),
    {
        self.active
    }

    /// Adds a newly connected node to the pool.
    ///
    /// A node that was not in the pool, or that was marked dead, counts as one
    /// more active node. Either way the node starts out alive and unused.
    pub fn add(&mut self, id: String)
        requires
            old(self).wf(),
        ensures
            final(self).wf(),
            old(self).has(id@) ==> {
                let i = old(self).index_of(id@);
                &&& final(self).ids() == old(self).ids()
                &&& final(self).statuses() == old(self).statuses().update(i, fresh_status())
                &&& final(self).active() == if old(self).statuses()[i].alive {
                    old(self).active()
                } else {
                    count_up(old(self).active())
                }
            },
            !old(self).has(id@) ==> {
                &&& final(self).ids() == old(self).ids().push(id@)
                &&& final(self).statuses() == old(self).statuses().push(fresh_status())
                &&& final(self).active() == count_up(old(self).active())
            },
    {
        match self.find(id.as_str()) {
            Some(i) => {
                if !self.statuses[i].alive {
                    self.active = increment(self.active);
                }
                self.statuses.set(i, NodeStatus { alive: true, using: false });
            },
            None => {
                self.active = increment(self.active);
                let ghost old_ids = self.ids();
                self.ids.push(id);
                self.statuses.push(NodeStatus { alive: true, using: false });
                proof {
                    assert(self.ids() =~= old_ids.push(id@));
                    assert forall|i: int, j: int|
                        0 <= i < self.ids().len() && 0 <= j < self.ids().len() && i != j implies self.ids()[i]
                        != self.ids()[j] by {
                        if j == old_ids.len() as int && i < old_ids.len() {
                            assert(old_ids.contains(old_ids[i]));
                        }
                        if i == old_ids.len() as int && j < old_ids.len() {
                            assert(old_ids.contains(old_ids[j]));
                        }
                    }
                }
            },
        }
    }

    /// Chooses the first node that is alive and not in use, marks it as in
    /// use and returns its identifier.
    pub fn get(&mut self) -> (chosen: Option<String>)
        requires
            old(self).wf(),
        ensures
            final(self).wf(),
            final(self).ids() == old(self).ids(),
            final(self).active() == old(self).active(),
            chosen is None ==> final(self).statuses() == old(self).statuses() && forall|j: int|
                0 <= j < old(self).statuses().len() ==> !is_available(
                    #[trigger] old(self).statuses()[j],
                ),
            chosen matches Some(id) ==> {
                let i = old(self).index_of(id@);
                &&& old(self).has(id@)
                &&& is_available(old(self).statuses()[i])
                &&& forall|j: int| 0 <= j < i ==> !is_available(#[trigger] old(self).statuses()[j])
                &&& final(self).statuses() == old(self).statuses().update(
                    i,
                    NodeStatus { alive: true, using: true },
                )
            },
    {
        let mut i: usize = 0;
        while i < self.statuses.len()
            invariant
                self.wf(),
                self == old(self),
                i <= self.statuses().len(),
                self.ids().len() == self.ids@.len(),
                forall|j: int| 0 <= j < i ==> !is_available(#[trigger] self.statuses()[j]),
            decreases self.statuses@.len() - i,
        {
            let status = self.statuses[i];
            if status.alive && !status.using {
                self.statuses.set(i, NodeStatus { alive: true, using: true });
                let id = self.ids[i].clone();
                proof {
                    old(self).lemma_index_of(i as int);
                    assert(old(self).ids()[i as int] == id@);
                }
                return Some(id);
            }
            i += 1;
        }
        None
    }

    /// The identifiers of the nodes that are alive and not in use, in pool
    /// order: the nodes that are asked whether they accept a job.
    pub fn available_ids(&self) -> (ids: Vec<String>)
        requires
            self.wf(),
        ensures
            ids@.map_values(|s: String| s@) == self.ids().filter(
                |id: Seq<char>| self.has(id) && is_available(self.status_of(id)),
            ),
    {
        let ghost pred = |id: Seq<char>| self.has(id) && is_available(self.status_of(id));
        let mut out: Vec<String> = Vec::new();
        let mut i: usize = 0;
        while i < self.ids.len()
            invariant
                self.wf(),
                i <= self.ids().len(),
                self.ids().len() == self.ids@.len(),
                pred == (|id: Seq<char>| self.has(id) && is_available(self.status_of(id))),
                out@.map_values(|s: String| s@) == self.ids().take(i as int).filter(pred),
            decreases self.ids@.len() - i,
        {
            let ghost before = out@;
            proof {
                self.lemma_index_of(i as int);
                assert(self.ids().take(i + 1) =~= self.ids().take(i as int).push(self.ids()[i as int]));
                self.ids().take(i as int).lemma_filter_push(self.ids()[i as int], pred);
                assert(self.ids()[i as int] == self.ids@[i as int]@);
            }
            let status = self.statuses[i];
            if status.alive && !status.using {
                out.push(self.ids[i].clone());
                proof {
                    assert(out@.map_values(|s: String| s@) =~= before.map_values(|s: String| s@).push(
                        self.ids()[i as int],
                    ));
                }
            }
            i += 1;
        }
        proof {
            assert(self.ids().take(i as int) =~= self.ids());
        }
        out
    }

    /// Whether the node `id` is in the pool.
    pub fn contains(&self, id: &str) -> (present: bool)
        requires
            self.wf(),
        ensures
            present == self.has(id@),
    {
        self.find(id).is_some()
    }

    /// Whether enough nodes are active to try building a cluster of
    /// `cluster_size` nodes; when too few are, no node is asked.
    pub fn can_build_cluster(&self, cluster_size: usize) -> (possible: bool)
        ensures
            possible == (self.active() >= cluster_size),
    {
        self.active >= cluster_size
    }

    /// Records that the node `id` accepted a job: it is now in use and no
    /// longer counted as active.
    pub fn mark_accepted(&mut self, id: &str)
        requires
            old(self).wf(),
            old(self).has(id@),
        ensures
            final(self).wf(),
            final(self).ids() == old(self).ids(),
            final(self).statuses() == old(self).statuses().update(
                old(self).index_of(id@),
                NodeStatus { alive: old(self).status_of(id@).alive, using: true },
            ),
            final(self).active() == count_down(old(self).active()),
    {
        let i = self.find(id).unwrap();
        let alive = self.statuses[i].alive;
        self.statuses.set(i, NodeStatus { alive, using: true });
        self.active = decrement(self.active);
    }

    /// Marks the node `id` as no longer in use and counts it as active again.
    pub fn end(&mut self, id: &str)
        requires
            old(self).wf(),
            old(self).has(id@),
        ensures
            final(self).wf(),
            final(self).ids() == old(self).ids(),
            final(self).statuses() == old(self).statuses().update(
                old(self).index_of(id@),
                NodeStatus { alive: old(self).status_of(id@).alive, using: false },
            ),
            final(self).active() == count_up(old(self).active()),
    {
        let i = self.find(id).unwrap();
        let alive = self.statuses[i].alive;
        self.statuses.set(i, NodeStatus { alive, using: false });
        self.active = increment(self.active);
    }

    /// Marks every node of `ids` as no longer in use, counting each as active
    /// again: the nodes that accepted a job but were left out of its cluster.
    pub fn release_all(&mut self, ids: &Vec<String>)
        requires
            old(self).wf(),
            forall|k: int| 0 <= k < ids@.len() ==> old(self).has(#[trigger] ids@[k]@),
        ensures
            final(self).wf(),
            final(self).ids() == old(self).ids(),
            final(self).statuses().len() == old(self).statuses().len(),
            forall|j: int|
                0 <= j < old(self).statuses().len() ==> {
                    let s = #[trigger] final(self).statuses()[j];
                    &&& s.alive == old(self).statuses()[j].alive
                    &&& s.using == (old(self).statuses()[j].using && !ids@.map_values(
                        |id: String| id@,
                    ).contains(old(self).ids()[j]))
                },
            final(self).active() == count_up_times(old(self).active(), ids@.len()),
            final(self).statuses() == released(
                old(self).statuses(),
                old(self).ids(),
                ids@.map_values(|id: String| id@),
            ),
    {
        let ghost names = ids@.map_values(|id: String| id@);
        let mut k: usize = 0;
        while k < ids.len()
            invariant
                self.wf(),
                k <= ids@.len(),
                names == ids@.map_values(|id: String| id@),
                self.ids() == old(self).ids(),
                self.statuses().len() == old(self).statuses().len(),
                forall|m: int| 0 <= m < ids@.len() ==> old(self).has(#[trigger] ids@[m]@),
                forall|j: int|
                    0 <= j < old(self).statuses().len() ==> {
                        let s = #[trigger] self.statuses()[j];
                        &&& s.alive == old(self).statuses()[j].alive
                        &&& s.using == (old(self).statuses()[j].using && !names.take(
                            k as int,
                        ).contains(old(self).ids()[j]))
                    },
                self.active() == count_up_times(old(self).active(), k as nat),
            decreases ids@.len() - k,
        {
            let ghost before = self.statuses();
            let ghost at = self.index_of(ids@[k as int]@);
            self.end(ids[k].as_str());
            proof {
                assert(names.take(k + 1) =~= names.take(k as int).push(ids@[k as int]@));
                assert forall|j: int| 0 <= j < old(self).statuses().len() implies {
                    let s = #[trigger] self.statuses()[j];
                    &&& s.alive == old(self).statuses()[j].alive
                    &&& s.using == (old(self).statuses()[j].using && !names.take(
                        k + 1,
                    ).contains(old(self).ids()[j]))
                } by {
                    let tk = names.take(k as int);
                    if j == at {
                        assert(old(self).ids()[j] == ids@[k as int]@);
                        assert(names.take(k + 1).contains(old(self).ids()[j])) by {
                            assert(names.take(k + 1)[k as int] == ids@[k as int]@);
                        }
                    } else {
                        assert(before[j] == self.statuses()[j]);
                        assert(old(self).ids()[j] != ids@[k as int]@) by {
                            let i = choose|i: int|
                                0 <= i < old(self).ids().len() && old(self).ids()[i] == ids@[k as int]@;
                            assert(old(self).ids().contains(ids@[k as int]@));
                        }
                        if names.take(k + 1).contains(old(self).ids()[j]) {
                            let nk = names.take(k + 1);
                            let p = choose|p: int| 0 <= p < nk.len() && #[trigger] nk[p] == old(self).ids()[j];
                            assert(p != k);
                            assert(tk[p] == old(self).ids()[j]);
                        }
                        if tk.contains(old(self).ids()[j]) {
                            let p = choose|p: int| 0 <= p < tk.len() && #[trigger] tk[p] == old(self).ids()[j];
                            assert(names.take(k + 1)[p] == old(self).ids()[j]);
                        }
                    }
                }
            }
            k += 1;
        }
        proof {
            assert(names.take(k as int) =~= names);
            assert(self.statuses() =~= released(old(self).statuses(), old(self).ids(), names));
        }
    }

    /// Updates the alive field of the node `id` by inverting what it
    /// currently is.
    ///
    /// The flag is inverted whatever `_status` holds: callers that want the
    /// node to reach a given state call this only when the node is not in it
    /// already (see `is_alive`). A dead node coming back to life counts as one
    /// more active node; a free node dying counts as one fewer.
    pub fn update_node_alive(&mut self, id: &str, _status: bool)
        requires
            old(self).wf(),
            old(self).has(id@),
        ensures
            final(self).wf(),
            final(self).ids() == old(self).ids(),
            final(self).statuses() == old(self).statuses().update(
                old(self).index_of(id@),
                NodeStatus {
                    alive: !old(self).status_of(id@).alive,
                    using: old(self).status_of(id@).using,
                },
            ),
            final(self).active() == ({
                let s = old(self).status_of(id@);
                if !s.alive {
                    count_up(old(self).active())
                } else if !s.using {
                    count_down(old(self).active())
                } else {
                    old(self).active()
                }
            }),
    {
        let i = self.find(id).unwrap();
        let node_info = self.statuses[i];
        if !node_info.alive {
            self.active = increment(self.active);
        } else if !node_info.using {
            self.active = decrement(self.active);
        }
        self.statuses.set(i, NodeStatus { alive: !node_info.alive, using: node_info.using });
    }

    /// Whether the node `id` is alive.
    pub fn is_alive(&self, id: &str) -> (alive: bool)
        requires
            self.wf(),
            self.has(id@),
        ensures
            alive == self.status_of(id@).alive,
    {
        let i = self.find(id).unwrap();
        self.statuses[i].alive
    }

    /// Whether the node `id` is being used for a job.
    pub fn is_using(&self, id: &str) -> (using: bool)
        requires
            self.wf(),
            self.has(id@),
        ensures
            using == self.status_of(id@).using,
    {
        let i = self.find(id).unwrap();
        self.statuses[i].using
    }
}


/// Changing one node's status changes the number of available nodes by the
/// difference the change makes to that node.
pub proof fn lemma_count_update(statuses: Seq<NodeStatus>, i: int, v: NodeStatus)
    requires
        0 <= i < statuses.len(),
    ensures
        count_available(statuses.update(i, v)) + (if is_available(statuses[i]) {
            1int
        } else {
            0int
        }) == count_available(statuses) + (if is_available(v) {
            1int
        } else {
            0int
        }),
    decreases statuses.len(),
{
    let u = statuses.update(i, v);
    if i == statuses.len() - 1 {
        assert(u.drop_last() =~= statuses.drop_last());
    } else {
        lemma_count_update(statuses.drop_last(), i, v);
        assert(u.drop_last() =~= statuses.drop_last().update(i, v));
    }
}

/// Adding a node that was not in the pool keeps the active counter equal to
/// the number of available nodes.
pub proof fn law_add_new_node_keeps_count(statuses: Seq<NodeStatus>, active: usize)
    requires
        active == count_available(statuses),
        active < usize::MAX,
    ensures
        count_up(active) == count_available(statuses.push(fresh_status())),
{
    assert(statuses.push(fresh_status()).drop_last() =~= statuses);
}

/// Adding again a node that was in the pool keeps the active counter equal to
/// the number of available nodes, unless the node was alive and in use: it
/// becomes free without being counted.
pub proof fn law_add_known_node_keeps_count(statuses: Seq<NodeStatus>, active: usize, i: int)
    requires
        0 <= i < statuses.len(),
        active == count_available(statuses),
        active < usize::MAX,
        !(statuses[i].alive && statuses[i].using),
    ensures
        (if statuses[i].alive {
            active
        } else {
            count_up(active)
        }) == count_available(statuses.update(i, fresh_status())),
{
    lemma_count_update(statuses, i, fresh_status());
}

/// Accepting a job on an available node keeps the active counter equal to
/// the number of available nodes.
pub proof fn law_accept_keeps_count(statuses: Seq<NodeStatus>, active: usize, i: int)
    requires
        0 <= i < statuses.len(),
        is_available(statuses[i]),
        active == count_available(statuses),
    ensures
        count_down(active) == count_available(
            statuses.update(i, NodeStatus { alive: statuses[i].alive, using: true }),
        ),
{
    lemma_count_update(statuses, i, NodeStatus { alive: statuses[i].alive, using: true });
}

/// Ending the use of a live node that was in use keeps the active counter
/// equal to the number of available nodes.
pub proof fn law_end_keeps_count(statuses: Seq<NodeStatus>, active: usize, i: int)
    requires
        0 <= i < statuses.len(),
        statuses[i].alive && statuses[i].using,
        active == count_available(statuses),
        active < usize::MAX,
    ensures
        count_up(active) == count_available(
            statuses.update(i, NodeStatus { alive: statuses[i].alive, using: false }),
        ),
{
    lemma_count_update(statuses, i, NodeStatus { alive: statuses[i].alive, using: false });
}

/// The statuses after the nodes named in `names` are released: each of them
/// is no longer in use.
pub open spec fn released(
    statuses: Seq<NodeStatus>,
    ids: Seq<Seq<char>>,
    names: Seq<Seq<char>>,
) -> Seq<NodeStatus> {
    Seq::new(
        statuses.len(),
        |j: int|
            NodeStatus { alive: statuses[j].alive, using: statuses[j].using && !names.contains(ids[j]) },
    )
}

/// Without wrapping around, `n` increments add `n`.
proof fn lemma_count_up_times(a: usize, n: nat)
    requires
        a + n <= usize::MAX,
    ensures
        count_up_times(a, n) == a + n,
    decreases n,
{
    if n > 0 {
        lemma_count_up_times(a, (n - 1) as nat);
    }
}

/// Releasing distinct nodes that are alive and in use, as `release_all` does
/// with the nodes left out of a cluster, keeps the active counter equal to
/// the number of available nodes.
pub proof fn law_release_all_keeps_count(
    statuses: Seq<NodeStatus>,
    ids: Seq<Seq<char>>,
    names: Seq<Seq<char>>,
    active: usize,
)
    requires
        statuses.len() == ids.len(),
        distinct(ids),
        names.no_duplicates(),
        forall|k: int|
            0 <= k < names.len() ==> exists|j: int|
                0 <= j < ids.len() && ids[j] == #[trigger] names[k] && statuses[j].alive
                    && statuses[j].using,
        active == count_available(statuses),
        active + names.len() <= usize::MAX,
    ensures
        count_up_times(active, names.len()) == count_available(released(statuses, ids, names)),
    decreases names.len(),
{
    lemma_count_up_times(active, names.len());
    if names.len() == 0 {
        assert(released(statuses, ids, names) =~= statuses);
    } else {
        let last = names.last();
        let rest = names.drop_last();
        assert forall|k: int|
            0 <= k < rest.len() implies exists|j: int|
                0 <= j < ids.len() && ids[j] == #[trigger] rest[k] && statuses[j].alive
                    && statuses[j].using by {
            assert(rest[k] == names[k]);
        }
        law_release_all_keeps_count(statuses, ids, rest, active);
        lemma_count_up_times(active, rest.len());
        let i = choose|j: int|
            0 <= j < ids.len() && ids[j] == names[names.len() - 1] && statuses[j].alive
                && statuses[j].using;
        let before = released(statuses, ids, rest);
        assert(!rest.contains(last)) by {
            if rest.contains(last) {
                let p = choose|p: int| 0 <= p < rest.len() && rest[p] == last;
                assert(names[p] == names[names.len() - 1]);
            }
        }
        assert(before[i] == statuses[i]);
        let v = NodeStatus { alive: statuses[i].alive, using: false };
        lemma_count_update(before, i, v);
        assert(released(statuses, ids, names) =~= before.update(i, v)) by {
            assert forall|j: int| 0 <= j < statuses.len() implies #[trigger] released(
                statuses,
                ids,
                names,
            )[j] == before.update(i, v)[j] by {
                if j == i {
                    assert(names.contains(ids[j])) by {
                        assert(names[names.len() - 1] == ids[j]);
                    }
                } else {
                    assert(ids[j] != last);
                    if names.contains(ids[j]) {
                        let p = choose|p: int| 0 <= p < names.len() && names[p] == ids[j];
                        assert(p != names.len() - 1);
                        assert(rest[p] == ids[j]);
                    }
                    if rest.contains(ids[j]) {
                        let p = choose|p: int| 0 <= p < rest.len() && rest[p] == ids[j];
                        assert(names[p] == ids[j]);
                    }
                }
            }
        }
    }
}

/// Inverting a node's liveness keeps the active counter equal to the number
/// of available nodes, unless a dead node that is in use comes back to life.
pub proof fn law_update_alive_keeps_count(statuses: Seq<NodeStatus>, active: usize, i: int)
    requires
        0 <= i < statuses.len(),
        active == count_available(statuses),
        active < usize::MAX,
        !(!statuses[i].alive && statuses[i].using),
    ensures
        ({
            let s = statuses[i];
            if !s.alive {
                count_up(active)
            } else if !s.using {
                count_down(active)
            } else {
                active
            }
        }) == count_available(
            statuses.update(i, NodeStatus { alive: !statuses[i].alive, using: statuses[i].using }),
        ),
{
    lemma_count_update(
        statuses,
        i,
        NodeStatus { alive: !statuses[i].alive, using: statuses[i].using },
    );
}

} // verus!
