//! The first control layer's record of connected compute servers: which are
//! alive and which are in use, keyed by the identifier each was given when it
//! connected.

use vstd::prelude::*;

use crate::models::ObjectId;

verus! {

/// Information about a connected server
#[derive(Debug, Clone, Copy)]
pub struct ServerInfo {
    /// Flag to specify if server is alive or not
    alive: bool,
    /// Flag to specify if server is in use or not
    using: bool,
}

impl ServerInfo {
    /// Whether the server is alive.
    pub closed spec fn is_alive(&self) -> bool {
        self.alive
    }

    /// Whether the server is in use.
    pub closed spec fn is_using(&self) -> bool {
        self.using
    }

    /// Whether the server can be handed out: alive and not in use.
    pub open spec fn is_free(&self) -> bool {
        self.is_alive() && !self.is_using()
    }

    /// creates new ServerInfo instance
    pub fn new() -> (info: ServerInfo)
        ensures
            info.is_alive(),
            !info.is_using(),
    {
        ServerInfo { alive: true, using: false }
    }

    /// Getter for `using` flag
    pub fn get_using(&self) -> (using: bool)
        ensures
            using == self.is_using(),
    {
        self.using
    }

    /// Setter for `using` flag
    pub fn set_using(&mut self, using: bool)
        ensures
            final(self).is_using() == using,
            final(self).is_alive() == old(self).is_alive(),
    {
        self.using = using
    }

    /// Getter for `alive` flag
    pub fn get_alive(&self) -> (alive: bool)
        ensures
            alive == self.is_alive(),
    {
        self.alive
    }

    /// Setter for `alive` flag
    pub fn set_alive(&mut self, alive: bool)
        ensures
            final(self).is_alive() == alive,
            final(self).is_using() == old(self).is_using(),
    {
        self.alive = alive
    }
}

/// Whether no two identifiers of `ids` are equal.
pub open spec fn distinct_ids(ids: Seq<Seq<u8>>) -> bool {
    forall|i: int, j: int| 0 <= i < ids.len() && 0 <= j < ids.len() && i != j ==> ids[i] != ids[j]
}

/// Whether two identifiers are the same.
fn same_id(a: &ObjectId, b: &ObjectId) -> (same: bool)
    ensures
        same == (a.bytes@ == b.bytes@),
{
    let mut i: usize = 0;
    while i < 12
        invariant
            i <= 12,
            a.bytes@.len() == 12,
            b.bytes@.len() == 12,
            forall|j: int| 0 <= j < i ==> a.bytes@[j] == b.bytes@[j],
        decreases 12 - i,
    {
        if a.bytes[i] != b.bytes[i] {
            return false;
        }
        i += 1;
    }
    assert(a.bytes@ =~= b.bytes@);
    true
}

/// The information of every connected server, each under the identifier it
/// was given.
#[derive(Debug)]
pub struct ServerPool {
    ids: Vec<ObjectId>,
    info: Vec<ServerInfo>,
}

impl ServerPool {
    /// The identifiers of the servers, as bytes, in the order they joined.
    pub closed spec fn ids(&self) -> Seq<Seq<u8>> {
        self.ids@.map_values(|id: ObjectId| id.bytes@)
    }

    /// The information of each server, in the order of `ids`.
    pub closed spec fn infos(&self) -> Seq<ServerInfo> {
        self.info@
    }

    /// Every server has its information and no identifier occurs twice.
    pub open spec fn wf(&self) -> bool {
        &&& self.ids().len() == self.infos().len()
        &&& distinct_ids(self.ids())
    }

    /// Whether a server with identifier `id` is in the pool.
    pub open spec fn has(&self, id: Seq<u8>) -> bool {
        self.ids().contains(id)
    }

    /// The position of the server with identifier `id`.
    pub open spec fn index_of(&self, id: Seq<u8>) -> int {
        choose|i: int| 0 <= i < self.ids().len() && self.ids()[i] == id
    }

    proof fn lemma_index_of(&self, i: int)
        requires
            self.wf(),
            0 <= i < self.ids().len(),
        ensures
            self.has(self.ids()[i]),
            self.index_of(self.ids()[i]) == i,
    {
        assert(self.ids().contains(self.ids()[i]));
    }

    /// Returns a new ServerPool instance
    pub fn new() -> (pool: ServerPool)
        ensures
            pool.wf(),
            pool.ids() == Seq::<Seq<u8>>::empty(),
    {
        let pool = ServerPool { ids: Vec::new(), info: Vec::new() };
        assert(pool.ids() =~= Seq::<Seq<u8>>::empty());
        pool
    }

    /// The position of `id` in the pool, if it is there.
    fn find(&self, id: &ObjectId) -> (index: Option<usize>)
        requires
            self.wf(),
        ensures
            index matches Some(i) ==> i < self.ids().len() && self.ids()[i as int] == id.bytes@
                && self.index_of(id.bytes@) == i,
            index is None ==> !self.has(id.bytes@),
    {
        let mut i: usize = 0;
        while i < self.ids.len()
            invariant
                self.wf(),
                i <= self.ids@.len(),
                self.ids().len() == self.ids@.len(),
                forall|j: int| 0 <= j < i ==> self.ids()[j] != id.bytes@,
            decreases self.ids@.len() - i,
        {
            if same_id(&self.ids[i], id) {
                proof {
                    self.lemma_index_of(i as int);
                }
                return Some(i);
            }
            i += 1;
        }
        None
    }

    /// Whether a server with identifier `id` is in the pool.
    pub fn contains(&self, id: &ObjectId) -> (present: bool)
        requires
            self.wf(),
        ensures
            present == self.has(id.bytes@),
    {
        self.find(id).is_some()
    }

    /// Records a server under the identifier `id` as alive and not in use,
    /// replacing what was recorded under it before.
    pub fn insert_fresh(&mut self, id: ObjectId)
        requires
            old(self).wf(),
        ensures
            final(self).wf(),
            old(self).has(id.bytes@) ==> {
                &&& final(self).ids() == old(self).ids()
                &&& final(self).infos().len() == old(self).infos().len()
                &&& forall|j: int|
                    0 <= j < old(self).infos().len() && j != old(self).index_of(id.bytes@)
                        ==> #[trigger] final(self).infos()[j] == old(self).infos()[j]
                &&& final(self).infos()[old(self).index_of(id.bytes@)].is_free()
            },
            !old(self).has(id.bytes@) ==> {
                &&& final(self).ids() == old(self).ids().push(id.bytes@)
                &&& final(self).infos().len() == old(self).infos().len() + 1
                &&& forall|j: int|
                    0 <= j < old(self).infos().len() ==> #[trigger] final(self).infos()[j]
                        == old(self).infos()[j]
                &&& final(self).infos().last().is_free()
            },
    {
        match self.find(&id) {
            Some(i) => {
                self.info.set(i, ServerInfo::new());
            },
            None => {
                let ghost old_ids = self.ids();
                self.ids.push(id);
                self.info.push(ServerInfo::new());
                proof {
                    assert(self.ids() =~= old_ids.push(id.bytes@));
                    assert forall|i: int, j: int|
                        0 <= i < self.ids().len() && 0 <= j < self.ids().len() && i
                            != j implies self.ids()[i] != self.ids()[j] by {
                        if j == old_ids.len() as int && i < old_ids.len() {
                            assert(old_ids.contains(old_ids[i]));
                        }
                        if i == old_ids.len() as int && j < old_ids.len() {
                            assert(old_ids.contains(old_ids[j]));
                        }
                    }
                }
            },
        }
    }

    /// Adds a newly connected server under a fresh identifier, alive and not
    /// in use, and returns that identifier.
    pub fn add(&mut self) -> (id: ObjectId)
        requires
            old(self).wf(),
        ensures
            final(self).wf(),
            final(self).has(id.bytes@),
            final(self).infos()[final(self).index_of(id.bytes@)].is_free(),
            old(self).has(id.bytes@) ==> {
                &&& final(self).ids() == old(self).ids()
                &&& final(self).infos().len() == old(self).infos().len()
                &&& forall|j: int|
                    0 <= j < old(self).infos().len() && j != old(self).index_of(id.bytes@)
                        ==> #[trigger] final(self).infos()[j] == old(self).infos()[j]
                &&& final(self).infos()[old(self).index_of(id.bytes@)].is_free()
            },
            !old(self).has(id.bytes@) ==> {
                &&& final(self).ids() == old(self).ids().push(id.bytes@)
                &&& final(self).infos().len() == old(self).infos().len() + 1
                &&& forall|j: int|
                    0 <= j < old(self).infos().len() ==> #[trigger] final(self).infos()[j]
                        == old(self).infos()[j]
                &&& final(self).infos().last().is_free()
            },
    {
        let id = ObjectId::new();
        self.insert_fresh(id);
        proof {
            assert(self.ids().contains(id.bytes@)) by {
                if !old(self).has(id.bytes@) {
                    assert(self.ids()[self.ids().len() - 1] == id.bytes@);
                }
            }
            let i = choose|i: int| 0 <= i < self.ids().len() && self.ids()[i] == id.bytes@;
            self.lemma_index_of(i);
        }
        id
    }

    /// Hands out the first server that is alive and not in use, marking it as
    /// in use, or `None` when every server is dead or busy.
    pub fn get(&mut self) -> (chosen: Option<ObjectId>)
        requires
            old(self).wf(),
        ensures
            final(self).wf(),
            final(self).ids() == old(self).ids(),
            chosen is None ==> final(self).infos() == old(self).infos() && forall|j: int|
                0 <= j < old(self).infos().len() ==> !(#[trigger] old(self).infos()[j]).is_free(),
            chosen matches Some(id) ==> {
                let i = old(self).index_of(id.bytes@);
                &&& old(self).has(id.bytes@)
                &&& old(self).infos()[i].is_free()
                &&& forall|j: int| 0 <= j < i ==> !(#[trigger] old(self).infos()[j]).is_free()
                &&& final(self).infos().len() == old(self).infos().len()
                &&& final(self).infos()[i].is_alive() && final(self).infos()[i].is_using()
                &&& forall|j: int|
                    0 <= j < old(self).infos().len() && j != i ==> #[trigger] final(self).infos()[j]
                        == old(self).infos()[j]
            },
    {
        let mut i: usize = 0;
        while i < self.info.len()
            invariant
                self.wf(),
                self == old(self),
                i <= self.infos().len(),
                self.ids().len() == self.ids@.len(),
                forall|j: int| 0 <= j < i ==> !(#[trigger] self.infos()[j]).is_free(),
            decreases self.info@.len() - i,
        {
            let mut info = self.info[i];
            if info.get_alive() && !info.get_using() {
                info.set_using(true);
                self.info.set(i, info);
                let id = self.ids[i];
                proof {
                    old(self).lemma_index_of(i as int);
                    assert(old(self).ids()[i as int] == id.bytes@);
                }
                return Some(id);
            }
            i += 1;
        }
        None
    }

    /// Marks the server `key` as no longer in use.
    pub fn end(&mut self, key: ObjectId)
        requires
            old(self).wf(),
            old(self).has(key.bytes@),
        ensures
            final(self).wf(),
            final(self).ids() == old(self).ids(),
            final(self).infos().len() == old(self).infos().len(),
            !final(self).infos()[old(self).index_of(key.bytes@)].is_using(),
            final(self).infos()[old(self).index_of(key.bytes@)].is_alive() == old(self).infos()[old(
                self,
            ).index_of(key.bytes@)].is_alive(),
            forall|j: int|
                0 <= j < old(self).infos().len() && j != old(self).index_of(key.bytes@)
                    ==> #[trigger] final(self).infos()[j] == old(self).infos()[j],
    {
        let i = self.find(&key).unwrap();
        let mut info = self.info[i];
        info.set_using(false);
        self.info.set(i, info);
    }
}

} // verus!
