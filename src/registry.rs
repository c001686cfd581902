use vstd::prelude::*;
use std::collections::BTreeMap;
use crate::errors::BpfdError;
use crate::ids::new_random_id;
use crate::program::{BpfMap, Program, ProgramData, TcProgram, XdpProgram};

verus! {

/// The owner whose pinned maps a program reuses, if any.
pub open spec fn owner_of(p: Program) -> Option<u128> {
    p.spec_data()->Some_0.map_owner_id
}

/// A record as the registry stores it: its identifier filled in.
pub open spec fn stamped(p: Program, id: u128) -> Program {
    p.with_data(ProgramData { id: Some(id), maps_used_by: None, ..p.spec_data()->Some_0 })
}

/// A record without the list of programs sharing its maps: that list is
/// the registry's map-sharing index, which the registry copies into the
/// owner's record.
pub open spec fn without_users(p: Program) -> Program {
    match p.spec_data() {
        Some(d) => p.with_data(ProgramData { maps_used_by: None, ..d }),
        None => p,
    }
}

/// The users a record lists, if it lists any.
pub open spec fn listed_users(p: Program) -> Option<Seq<u128>> {
    match p.spec_data() {
        Some(d) => match d.maps_used_by {
            Some(v) => Some(v@),
            None => None,
        },
        None => None,
    }
}

/// The map-sharing index after program `id`, which names `owner` or no owner,
/// joins: a new owner gets an empty user list, a user is appended to its
/// owner's list.
pub open spec fn users_after_insert(users: Map<u128, Seq<u128>>, owner: Option<u128>, id: u128) -> Map<u128, Seq<u128>> {
    match owner {
        None => users.insert(id, Seq::empty()),
        Some(q) => users.insert(q, users[q].push(id)),
    }
}

/// The map-sharing index after program `id`, which names `owner` or no owner,
/// leaves: an owner's list goes, a user leaves its owner's list.
pub open spec fn users_after_remove(users: Map<u128, Seq<u128>>, owner: Option<u128>, id: u128) -> Map<u128, Seq<u128>> {
    match owner {
        None => users.remove(id),
        Some(q) => users.insert(q, users[q].remove(users[q].index_of(id))),
    }
}

/// Why the registry would refuse to file managed program `p` under `id`, if
/// it would: the identifier is taken, or the named map owner is unknown or
/// owns no maps.
pub open spec fn insert_refusal(progs: Map<u128, Program>, users: Map<u128, Seq<u128>>, p: Program, id: u128) -> Option<BpfdError> {
    if progs.contains_key(id) {
        Some(BpfdError::AlreadyExists(id))
    } else {
        match owner_of(p) {
            Some(q) => if !progs.contains_key(q) {
                Some(BpfdError::NotFound(q))
            } else if !users.contains_key(q) {
                Some(BpfdError::NotMapOwner(q))
            } else {
                None
            },
            None => None,
        }
    }
}

/// The identifier a persisted record carries.
pub open spec fn record_id(p: Program) -> u128 {
    p.spec_data()->Some_0.id->Some_0
}

/// Whether persisted records can be filed again: each is a managed record
/// carrying its identifier, no identifier repeats, and every owner a record
/// names is among the records and names no owner itself.
pub open spec fn restorable(s: Seq<Program>) -> bool {
    &&& forall|i: int| 0 <= i < s.len() ==> (#[trigger] s[i]).spec_data() is Some && s[i].spec_data()->Some_0.id is Some
    &&& forall|i: int, j: int| 0 <= i < j < s.len() ==> record_id(#[trigger] s[i]) != record_id(#[trigger] s[j])
    &&& forall|i: int| 0 <= i < s.len() && (#[trigger] owner_of(s[i])) is Some ==> exists|j: int|
        0 <= j < s.len() && record_id(#[trigger] s[j]) == owner_of(s[i])->Some_0 && owner_of(s[j]) is None
}

/// A program with its dispatcher position set, for the kinds that have one.
pub open spec fn positioned(p: Program, pos: Option<usize>) -> Program {
    match p {
        Program::Xdp(x) => Program::Xdp(XdpProgram { current_position: pos, ..x }),
        Program::Tc(t) => Program::Tc(TcProgram { current_position: pos, ..t }),
        other => other,
    }
}

/// `after` is `before` with the program at index `i` of `ids` positioned at
/// `i`, wherever it is registered, and every other record as it was.
pub open spec fn positions_stamped(before: Map<u128, Program>, after: Map<u128, Program>, ids: Seq<u128>) -> bool {
    &&& after.dom() == before.dom()
    &&& forall|i: int| 0 <= i < ids.len() && before.contains_key(#[trigger] ids[i])
        ==> after[ids[i]] == positioned(before[ids[i]], Some(i as usize))
    &&& forall|x: u128| before.contains_key(x) && !ids.contains(x) ==> #[trigger] after[x] == before[x]
}

/// Every program the daemon manages, by identifier, and for each program
/// that owns pinned maps the programs that share them.
pub struct Registry {
    pub programs: BTreeMap<u128, Program>,
    pub maps: BTreeMap<u128, BpfMap>,
}

impl Registry {
    /// The records, each without its list of map users (see `users`).
    pub open spec fn progs(&self) -> Map<u128, Program> {
        self.programs@.map_values(|p: Program| without_users(p))
    }

    /// Each record lists the users of its maps exactly when it owns maps,
    /// and then lists them as the map-sharing index has them.
    pub open spec fn users_listed(&self) -> bool {
        forall|x: u128| #[trigger] self.programs@.contains_key(x) ==> listed_users(self.programs@[x]) == (
            if self.users().contains_key(x) { Some(self.users()[x]) } else { None })
    }

    /// The users of each owner's maps.
    pub open spec fn users(&self) -> Map<u128, Seq<u128>> {
        self.maps@.map_values(|b: BpfMap| b.used_by@)
    }

    /// Records are managed programs filed under their own identifier; a
    /// program owns a map record exactly when it names no owner; every user
    /// of a map record names that owner, once; and every program that names
    /// an owner is among that owner's users.
    pub open spec fn wf(&self) -> bool {
        &&& self.index_wf()
        &&& self.users_listed()
    }

    /// The records and the map-sharing index agree (see `wf`).
    pub open spec fn index_wf(&self) -> bool {
        &&& forall|id: u128| #[trigger] self.progs().contains_key(id) ==> {
            let p = self.progs()[id];
            &&& p.spec_data() is Some
            &&& p.spec_data()->Some_0.id == Some(id)
            &&& (owner_of(p) is None <==> self.users().contains_key(id))
            &&& (owner_of(p) matches Some(q) ==> self.users().contains_key(q) && self.users()[q].contains(id))
        }
        &&& forall|q: u128| #[trigger] self.users().contains_key(q) ==> {
            &&& self.progs().contains_key(q)
            &&& self.users()[q].no_duplicates()
            &&& forall|i: int| 0 <= i < self.users()[q].len() ==> {
                let u = #[trigger] self.users()[q][i];
                self.progs().contains_key(u) && owner_of(self.progs()[u]) == Some(q)
            }
        }
    }

    /// An empty registry.
    pub fn new() -> (r: Registry)
        ensures
            r.wf(),
            r.progs() == Map::<u128, Program>::empty(),
            r.users() == Map::<u128, Seq<u128>>::empty(),
    {
        let r = Registry { programs: BTreeMap::new(), maps: BTreeMap::new() };
        proof {
            assert(r.users() =~= Map::<u128, Seq<u128>>::empty());
        }
        r
    }

    pub fn contains(&self, id: u128) -> (r: bool)
        ensures
            r == self.progs().contains_key(id),
    {
        self.programs.contains_key(&id)
    }

    pub fn get(&self, id: u128) -> (r: Option<&Program>)
        requires
            self.wf(),
        ensures
            match r {
                Some(p) => self.progs().contains_key(id) && without_users(*p) == self.progs()[id]
                    && listed_users(*p) == (if self.users().contains_key(id) { Some(self.users()[id]) } else { None }),
                None => !self.progs().contains_key(id),
            },
    {
        proof {
            assert(self.programs@.contains_key(id) ==> listed_users(self.programs@[id]) == (
                if self.users().contains_key(id) { Some(self.users()[id]) } else { None }));
        }
        self.programs.get(&id)
    }

    /// The programs that share the maps of `owner`, if it owns any.
    pub fn map_users(&self, owner: u128) -> (r: Option<&BpfMap>)
        ensures
            match r {
                Some(b) => self.users().contains_key(owner) && b.used_by@ == self.users()[owner],
                None => !self.users().contains_key(owner),
            },
    {
        self.maps.get(&owner)
    }
    /// A copy of a list of identifiers.
    fn copy_ids(v: &Vec<u128>) -> (r: Vec<u128>)
        ensures
            r@ == v@,
    {
        let mut out: Vec<u128> = Vec::new();
        let mut i: usize = 0;
        while i < v.len()
            invariant
                i <= v@.len(),
                out@ == v@.take(i as int),
            decreases v@.len() - i,
        {
            out.push(v[i]);
            i = i + 1;
            proof {
                assert(out@ =~= v@.take(i as int));
            }
        }
        proof {
            assert(v@.take(i as int) =~= v@);
        }
        out
    }

    /// Copies the users of owner `q`'s maps from the map-sharing index into
    /// its record.
    fn relist(&mut self, q: u128)
        requires
            old(self).index_wf(),
            old(self).programs@.contains_key(q),
            old(self).users().contains_key(q),
            forall|x: u128| #[trigger] old(self).programs@.contains_key(x) && x != q ==> listed_users(old(self).programs@[x]) == (
                if old(self).users().contains_key(x) { Some(old(self).users()[x]) } else { None }),
        ensures
            final(self).wf(),
            final(self).progs() == old(self).progs(),
            final(self).users() == old(self).users(),
    {
        let ghost raw0 = self.programs@;
        let ghost progs0 = self.progs();
        let users = match self.maps.get(&q) {
            Some(b) => Registry::copy_ids(&b.used_by),
            None => Vec::new(),
        };
        proof {
            assert(progs0.contains_key(q));
            assert(raw0[q].spec_data() is Some);
        }
        match self.programs.remove(&q) {
            Some(p) => {
                let mut p = p;
                match p.data_mut() {
                    Ok(d) => d.set_maps_used_by(Some(users)),
                    Err(_) => {},
                }
                self.programs.insert(q, p);
            },
            None => {},
        }
        proof {
            assert(without_users(self.programs@[q]) == without_users(raw0[q]));
            assert(self.progs() =~= progs0);
            assert forall|x: u128| #[trigger] self.programs@.contains_key(x) implies listed_users(self.programs@[x]) == (
                if self.users().contains_key(x) { Some(self.users()[x]) } else { None }) by {
                assert(raw0.contains_key(x));
            }
        }
    }

    /// Files `program` under `id`. Fails, changing nothing, for a program
    /// found only in the kernel, for an identifier already taken, and for a
    /// named map owner that is not registered or owns no maps. A program that
    /// names no owner gets its own, empty, map record; one that does joins
    /// its owner's users.
    pub fn insert_with_id(&mut self, program: Program, id: u128) -> (r: Result<u128, BpfdError>)
        requires
            old(self).wf(),
        ensures
            final(self).wf(),
            r is Err ==> final(self).progs() == old(self).progs() && final(self).users() == old(self).users(),
            program.spec_data() is None ==> r matches Err(BpfdError::Error(_)),
            program.spec_data() is Some && old(self).progs().contains_key(id)
                ==> r == Err::<u128, BpfdError>(BpfdError::AlreadyExists(id)),
            program.spec_data() is Some && !old(self).progs().contains_key(id) ==> match owner_of(program) {
                Some(q) => if !old(self).progs().contains_key(q) {
                    r == Err::<u128, BpfdError>(BpfdError::NotFound(q))
                } else if !old(self).users().contains_key(q) {
                    r == Err::<u128, BpfdError>(BpfdError::NotMapOwner(q))
                } else {
                    r == Ok::<u128, BpfdError>(id)
                },
                None => r == Ok::<u128, BpfdError>(id),
            },
            r is Ok ==> final(self).progs() == old(self).progs().insert(id, stamped(program, id))
                && final(self).users() == users_after_insert(old(self).users(), owner_of(program), id),
    {
        let ghost orig = program;
        let mut program = program;
        let owner = match program.data() {
            Ok(d) => d.map_owner_id,
            Err(e) => {
                return Err(e);
            },
        };
        if self.programs.contains_key(&id) {
            return Err(BpfdError::AlreadyExists(id));
        }
        let ghost users0 = self.users();
        match owner {
            Some(q) => {
                if !self.programs.contains_key(&q) {
                    return Err(BpfdError::NotFound(q));
                }
                if !self.maps.contains_key(&q) {
                    return Err(BpfdError::NotMapOwner(q));
                }
                match self.maps.remove(&q) {
                    None => {},
                    Some(b) => {
                        let mut b = b;
                        b.used_by.push(id);
                        self.maps.insert(q, b);
                    },
                }
            },
            None => {
                self.maps.insert(id, BpfMap { used_by: Vec::new() });
            },
        }
        proof {
            assert(self.users() =~= users_after_insert(users0, owner, id));
        }
        let ghost raw0 = self.programs@;
        match program.data_mut() {
            Ok(d) => {
                d.set_id(Some(id));
                match owner {
                    None => d.set_maps_used_by(Some(Vec::new())),
                    Some(_) => d.set_maps_used_by(None),
                }
            },
            Err(_) => {},
        }
        self.programs.insert(id, program);
        proof {
            assert(self.progs() =~= old(self).progs().insert(id, stamped(orig, id)));
            assert(!raw0.contains_key(id));
            assert(!users0.contains_key(id));
            assert forall|x: u128| #[trigger] self.programs@.contains_key(x) && owner != Some(x)
                implies listed_users(self.programs@[x]) == (
                if self.users().contains_key(x) { Some(self.users()[x]) } else { None }) by {
                if x != id {
                    assert(raw0.contains_key(x));
                } else if owner is None {
                    assert(self.users()[id] =~= Seq::<u128>::empty());
                }
            }
        }
        proof {
            let np = self.progs();
            let nu = self.users();
            assert forall|x: u128| #[trigger] np.contains_key(x) implies {
                let p = np[x];
                &&& p.spec_data() is Some
                &&& p.spec_data()->Some_0.id == Some(x)
                &&& (owner_of(p) is None <==> nu.contains_key(x))
                &&& (owner_of(p) matches Some(q) ==> nu.contains_key(q) && nu[q].contains(x))
            } by {
                if x != id {
                    assert(old(self).progs().contains_key(x));
                    let p = np[x];
                    if let Some(q) = owner_of(p) {
                        assert(users0[q].contains(x));
                        if owner == Some(q) {
                            let j = choose|j: int| 0 <= j < users0[q].len() && users0[q][j] == x;
                            assert(nu[q][j] == x);
                        }
                    }
                } else {
                    if let Some(q) = owner {
                        assert(nu[q][nu[q].len() - 1] == id);
                    }
                }
            }
            assert forall|q: u128| #[trigger] nu.contains_key(q) implies {
                &&& np.contains_key(q)
                &&& nu[q].no_duplicates()
                &&& forall|i: int| 0 <= i < nu[q].len() ==> {
                    let u = #[trigger] nu[q][i];
                    np.contains_key(u) && owner_of(np[u]) == Some(q)
                }
            } by {
                if owner == Some(q) {
                    assert(users0.contains_key(q));
                    assert forall|i: int| 0 <= i < users0[q].len() implies users0[q][i] != id by {
                        assert(old(self).progs().contains_key(users0[q][i]));
                    }
                    assert forall|i: int| 0 <= i < nu[q].len() implies {
                        let u = #[trigger] nu[q][i];
                        np.contains_key(u) && owner_of(np[u]) == Some(q)
                    } by {
                        if i < users0[q].len() {
                            assert(old(self).progs().contains_key(users0[q][i]));
                        }
                    }
                } else if q == id {
                } else {
                    assert(users0.contains_key(q));
                    assert forall|i: int| 0 <= i < nu[q].len() implies {
                        let u = #[trigger] nu[q][i];
                        np.contains_key(u) && owner_of(np[u]) == Some(q)
                    } by {
                        assert(old(self).progs().contains_key(users0[q][i]));
                    }
                }
            }
        }
        match owner {
            Some(q) => {
                proof {
                    assert(self.programs@.contains_key(q)) by {
                        assert(self.progs().contains_key(q));
                    }
                }
                self.relist(q);
            },
            None => {},
        }
        Ok(id)
    }
    /// The identifier a load of `program` files it under: the one it
    /// carries, or a fresh random one when it carries none.
    pub fn id_for(program: &Program) -> (r: u128)
        ensures
            program.spec_data() is Some && program.spec_data()->Some_0.id is Some ==> r == record_id(*program),
    {
        let given = match program.data() {
            Ok(d) => d.id,
            Err(_) => None,
        };
        match given {
            Some(id) => id,
            None => new_random_id(),
        }
    }

    /// Files `program` under the identifier `id_for` gives it; otherwise as
    /// `insert_with_id`.
    pub fn insert(&mut self, program: Program) -> (r: Result<u128, BpfdError>)
        requires
            old(self).wf(),
        ensures
            final(self).wf(),
            r is Err ==> final(self).progs() == old(self).progs() && final(self).users() == old(self).users(),
            program.spec_data() is None ==> r matches Err(BpfdError::Error(_)),
            program.spec_data() is Some && program.spec_data()->Some_0.id is Some ==> match insert_refusal(
                old(self).progs(),
                old(self).users(),
                program,
                record_id(program),
            ) {
                Some(e) => r == Err::<u128, BpfdError>(e),
                None => r == Ok::<u128, BpfdError>(record_id(program)),
            },
            r matches Ok(id) ==> !old(self).progs().contains_key(id)
                && final(self).progs() == old(self).progs().insert(id, stamped(program, id))
                && final(self).users() == users_after_insert(old(self).users(), owner_of(program), id),
    {
        let id = Registry::id_for(&program);
        self.insert_with_id(program, id)
    }

    /// Whether filing `program` under `id` would succeed, with the error that
    /// `insert_with_id` would give otherwise.
    pub fn check_insert(&self, program: &Program, id: u128) -> (r: Result<(), BpfdError>)
        requires
            self.wf(),
        ensures
            program.spec_data() is None ==> r matches Err(BpfdError::Error(_)),
            program.spec_data() is Some ==> match insert_refusal(self.progs(), self.users(), *program, id) {
                Some(e) => r == Err::<(), BpfdError>(e),
                None => r is Ok,
            },
    {
        let owner = match program.data() {
            Ok(d) => d.map_owner_id,
            Err(e) => {
                return Err(e);
            },
        };
        if self.programs.contains_key(&id) {
            return Err(BpfdError::AlreadyExists(id));
        }
        match owner {
            Some(q) => {
                if !self.programs.contains_key(&q) {
                    return Err(BpfdError::NotFound(q));
                }
                if !self.maps.contains_key(&q) {
                    return Err(BpfdError::NotMapOwner(q));
                }
                Ok(())
            },
            None => Ok(()),
        }
    }

    /// Whether removing `id` would succeed, with the error that `remove`
    /// would give otherwise.
    pub fn check_remove(&self, id: u128) -> (r: Result<(), BpfdError>)
        ensures
            !self.progs().contains_key(id) ==> r == Err::<(), BpfdError>(BpfdError::NotFound(id)),
            self.progs().contains_key(id) && self.users().contains_key(id) && self.users()[id].len() > 0
                ==> r == Err::<(), BpfdError>(BpfdError::InUse(id)),
            self.progs().contains_key(id) && !(self.users().contains_key(id) && self.users()[id].len() > 0)
                ==> r is Ok,
    {
        if !self.programs.contains_key(&id) {
            return Err(BpfdError::NotFound(id));
        }
        match self.maps.get(&id) {
            Some(b) => {
                if b.used_by.len() > 0 {
                    return Err(BpfdError::InUse(id));
                }
            },
            None => {},
        }
        Ok(())
    }

    /// The records, each in a slot of its own.
    fn to_slots(records: Vec<Program>) -> (r: (usize, Vec<Option<Program>>))
        ensures
            r.0 == records@.len(),
            r.1@.len() == records@.len(),
            forall|j: int| 0 <= j < records@.len() ==> (#[trigger] r.1@[j]) == Some(records@[j]),
    {
        let ghost s = records@;
        let n = records.len();
        let mut rest = records;
        let mut slots: Vec<Option<Program>> = Vec::new();
        while rest.len() > 0
            invariant
                slots@.len() + rest@.len() == n,
                s.len() == n,
                rest@ == s.skip(slots@.len() as int),
                forall|j: int| 0 <= j < slots@.len() ==> (#[trigger] slots@[j]) == Some(s[j]),
            decreases rest@.len(),
        {
            let p = rest.remove(0);
            slots.push(Some(p));
            proof {
                assert(rest@ =~= s.skip(slots@.len() as int));
            }
        }
        (n, slots)
    }

    /// Rebuilds the registry from persisted records: first every record that
    /// owns its maps, then every record that reuses another's. Each record is
    /// filed as it stands, under the identifier it carries. Records that
    /// can be filed again always are.
    pub fn restore(records: Vec<Program>) -> (r: Result<Registry, BpfdError>)
        ensures
            restorable(records@) ==> r is Ok,
            r matches Ok(reg) ==> {
                &&& reg.wf()
                &&& forall|x: u128| #[trigger] reg.progs().contains_key(x)
                    <==> exists|j: int| 0 <= j < records@.len() && record_id(#[trigger] records@[j]) == x
                &&& forall|j: int| 0 <= j < records@.len() ==> reg.progs()[record_id(#[trigger] records@[j])] == without_users(records@[j])
            },
    {
        let ghost s = records@;
        let (n, mut slots) = Registry::to_slots(records);
        let mut reg = Registry::new();
        let mut i: usize = 0;
        while i < n
            invariant
                i <= n,
                s == records@,
                s.len() == n,
                slots@.len() == n,
                reg.wf(),
                forall|j: int| 0 <= j < n ==> (#[trigger] slots@[j]) == (if j < i && owner_of(s[j]) is None {
                    None
                } else {
                    Some(s[j])
                }),
                forall|j: int| 0 <= j < i ==> (#[trigger] s[j]).spec_data() is Some && s[j].spec_data()->Some_0.id is Some,
                forall|x: u128| #[trigger] reg.progs().contains_key(x)
                    <==> exists|j: int| 0 <= j < i && owner_of(s[j]) is None && record_id(#[trigger] s[j]) == x,
                forall|j: int| 0 <= j < i && owner_of(s[j]) is None ==> reg.progs()[record_id(#[trigger] s[j])] == without_users(s[j]),
                restorable(s) ==> forall|j: int| 0 <= j < i && owner_of(s[j]) is None ==> reg.users().contains_key(
                    record_id(#[trigger] s[j])),
            decreases n - i,
        {
            proof {
                assert(restorable(s) ==> s[i as int].spec_data() is Some && s[i as int].spec_data()->Some_0.id is Some);
                assert(slots@[i as int] == Some(s[i as int]));
            }
            let (id, owns) = match &slots[i] {
                Some(p) => match p.data() {
                    Ok(d) => match d.id {
                        Some(id) => (id, d.map_owner_id.is_none()),
                        None => {
                            return Err(BpfdError::Error(String::from_str("record without identifier")));
                        },
                    },
                    Err(e) => {
                        return Err(e);
                    },
                },
                None => {
                    return Err(BpfdError::Error(String::from_str("record missing")));
                },
            };
            if owns {
                let mut taken: Option<Program> = None;
                std::mem::swap(&mut slots[i], &mut taken);
                match taken {
                    Some(p) => {
                        proof {
                            if restorable(s) {
                                assert forall|j: int| 0 <= j < i && owner_of(s[j]) is None implies record_id(s[j]) != id by {
                                    assert(record_id(s[j]) != record_id(s[i as int]));
                                }
                            }
                            assert(restorable(s) ==> !reg.progs().contains_key(id));
                        }
                        reg.insert_with_id(p, id)?;
                    },
                    None => {},
                }
            }
            i = i + 1;
        }
        proof {
            assert forall|x: u128| #[trigger] reg.progs().contains_key(x)
                <==> exists|j: int| 0 <= j < n && (j < 0 || owner_of(s[j]) is None) && record_id(#[trigger] s[j]) == x by {
                if reg.progs().contains_key(x) {
                    let j = choose|j: int| 0 <= j < n && owner_of(s[j]) is None && record_id(#[trigger] s[j]) == x;
                    assert(0 <= j < n && (j < 0 || owner_of(s[j]) is None) && record_id(s[j]) == x);
                }
                if exists|j: int| 0 <= j < n && (j < 0 || owner_of(s[j]) is None) && record_id(#[trigger] s[j]) == x {
                    let j = choose|j: int| 0 <= j < n && (j < 0 || owner_of(s[j]) is None) && record_id(#[trigger] s[j]) == x;
                    assert(0 <= j < n && owner_of(s[j]) is None && record_id(s[j]) == x);
                }
            }
        }
        let mut i: usize = 0;
        while i < n
            invariant
                i <= n,
                s == records@,
                s.len() == n,
                slots@.len() == n,
                reg.wf(),
                forall|j: int| 0 <= j < n ==> (#[trigger] slots@[j]) == (if j < i || owner_of(s[j]) is None {
                    None
                } else {
                    Some(s[j])
                }),
                forall|j: int| 0 <= j < n ==> (#[trigger] s[j]).spec_data() is Some && s[j].spec_data()->Some_0.id is Some,
                forall|x: u128| #[trigger] reg.progs().contains_key(x)
                    <==> exists|j: int| 0 <= j < n && (j < i || owner_of(s[j]) is None) && record_id(#[trigger] s[j]) == x,
                forall|j: int| 0 <= j < n && (j < i || owner_of(s[j]) is None) ==> reg.progs()[record_id(#[trigger] s[j])] == without_users(s[j]),
                restorable(s) ==> forall|j: int| 0 <= j < n && owner_of(s[j]) is None ==> reg.users().contains_key(
                    record_id(#[trigger] s[j])),
            decreases n - i,
        {
            let mut taken: Option<Program> = None;
            std::mem::swap(&mut slots[i], &mut taken);
            match taken {
                Some(p) => {
                    let id = match p.data() {
                        Ok(d) => match d.id {
                            Some(id) => id,
                            None => {
                                return Err(BpfdError::Error(String::from_str("record without identifier")));
                            },
                        },
                        Err(e) => {
                            return Err(e);
                        },
                    };
                    proof {
                        assert(p == s[i as int]);
                        assert(owner_of(p) is Some);
                        if restorable(s) {
                            assert forall|j: int| 0 <= j < n && (j < i || owner_of(s[j]) is None) implies record_id(s[j]) != id by {
                                assert(record_id(s[j]) != record_id(s[i as int]));
                            }
                            let q = owner_of(s[i as int])->Some_0;
                            let w = choose|w: int| 0 <= w < n && record_id(#[trigger] s[w]) == q && owner_of(s[w]) is None;
                            assert(reg.users().contains_key(record_id(s[w])));
                            assert(reg.progs().contains_key(q));
                        }
                        assert(restorable(s) ==> !reg.progs().contains_key(id)
                            && reg.progs().contains_key(owner_of(p)->Some_0) && reg.users().contains_key(owner_of(p)->Some_0));
                    }
                    reg.insert_with_id(p, id)?;
                },
                None => {},
            }
            i = i + 1;
        }
        Ok(reg)
    }

    /// Records the positions on a hook's dispatcher: the program at index `i`
    /// of `ids` gets position `i`.
    pub fn stamp_positions(&mut self, ids: &Vec<u128>)
        requires
            old(self).wf(),
            ids@.len() <= usize::MAX,
            forall|i: int, j: int| 0 <= i < j < ids@.len() ==> ids@[i] != ids@[j],
        ensures
            final(self).wf(),
            final(self).users() == old(self).users(),
            positions_stamped(old(self).progs(), final(self).progs(), ids@),
    {
        let ghost before = self.progs();
        let mut i: usize = 0;
        while i < ids.len()
            invariant
                i <= ids@.len(),
                forall|a: int, b: int| 0 <= a < b < ids@.len() ==> ids@[a] != ids@[b],
                self.wf(),
                self.users() == old(self).users(),
                before == old(self).progs(),
                positions_stamped(before, self.progs(), ids@.take(i as int)),
                forall|x: u128| before.contains_key(x) && !ids@.take(i as int).contains(x) ==> #[trigger] self.progs()[x] == before[x],
            decreases ids@.len() - i,
        {
            let id = ids[i];
            proof {
                assert(!ids@.take(i as int).contains(id)) by {
                    if ids@.take(i as int).contains(id) {
                        let k = choose|k: int| 0 <= k < i && #[trigger] ids@.take(i as int)[k] == id;
                        assert(ids@[k] == ids@[i as int]);
                    }
                }
            }
            let ghost cur = self.progs();
            match self.programs.remove(&id) {
                Some(p) => {
                    let mut p = p;
                    p.set_position(Some(i));
                    self.programs.insert(id, p);
                    proof {
                        let np = self.progs();
                        assert(np =~= cur.insert(id, positioned(cur[id], Some(i))));
                        assert(positioned(cur[id], Some(i)).spec_data() == cur[id].spec_data());
                        assert forall|x: u128| #[trigger] np.contains_key(x) implies {
                            let p = np[x];
                            &&& p.spec_data() is Some
                            &&& p.spec_data()->Some_0.id == Some(x)
                            &&& (owner_of(p) is None <==> self.users().contains_key(x))
                            &&& (owner_of(p) matches Some(q) ==> self.users().contains_key(q) && self.users()[q].contains(x))
                        } by {
                            assert(cur.contains_key(x));
                        }
                        assert forall|q: u128| #[trigger] self.users().contains_key(q) implies {
                            &&& np.contains_key(q)
                            &&& self.users()[q].no_duplicates()
                            &&& forall|k: int| 0 <= k < self.users()[q].len() ==> {
                                let u = #[trigger] self.users()[q][k];
                                np.contains_key(u) && owner_of(np[u]) == Some(q)
                            }
                        } by {
                            assert forall|k: int| 0 <= k < self.users()[q].len() implies {
                                let u = #[trigger] self.users()[q][k];
                                np.contains_key(u) && owner_of(np[u]) == Some(q)
                            } by {
                                assert(cur.contains_key(self.users()[q][k]));
                            }
                        }
                    }
                },
                None => {
                    proof {
                        assert(self.progs() =~= cur);
                    }
                },
            }
            i = i + 1;
            proof {
                let t = ids@.take(i as int);
                assert(t =~= ids@.take(i - 1).push(id));
                assert forall|x: u128| before.contains_key(x) && !t.contains(x) implies #[trigger] self.progs()[x] == before[x] by {
                    assert(!ids@.take(i - 1).contains(x)) by {
                        if ids@.take(i - 1).contains(x) {
                            let k = choose|k: int| 0 <= k < i - 1 && #[trigger] ids@.take(i - 1)[k] == x;
                            assert(t[k] == x);
                        }
                    }
                    assert(x != id) by {
                        assert(t[i - 1] == id);
                    }
                }
                assert forall|k: int| 0 <= k < t.len() && before.contains_key(#[trigger] t[k])
                    implies self.progs()[t[k]] == positioned(before[t[k]], Some(k as usize)) by {
                    if k < i - 1 {
                        assert(ids@.take(i - 1)[k] == t[k]);
                        assert(t[k] != id);
                    } else {
                        assert(!ids@.take(i - 1).contains(id));
                    }
                }
                assert(self.progs().dom() =~= before.dom());
            }
        }
        proof {
            assert(ids@.take(i as int) =~= ids@);
        }
    }

    /// The position of `x` in `v`, which holds it.
    fn find(v: &Vec<u128>, x: u128) -> (r: usize)
        requires
            v@.contains(x),
        ensures
            r < v@.len(),
            v@[r as int] == x,
    {
        let mut i: usize = 0;
        while i < v.len()
            invariant
                i <= v@.len(),
                forall|j: int| 0 <= j < i ==> v@[j] != x,
            decreases v@.len() - i,
        {
            if v[i] == x {
                return i;
            }
            i = i + 1;
        }
        i
    }

    /// Takes program `id` out of the registry and hands its record back. Fails,
    /// changing nothing, for an unknown identifier, and for an owner whose
    /// maps other programs still use. An owner's map record goes with it; a
    /// user leaves its owner's users.
    pub fn remove(&mut self, id: u128) -> (r: Result<Program, BpfdError>)
        requires
            old(self).wf(),
        ensures
            final(self).wf(),
            r is Err ==> final(self).progs() == old(self).progs() && final(self).users() == old(self).users(),
            !old(self).progs().contains_key(id) ==> r == Err::<Program, BpfdError>(BpfdError::NotFound(id)),
            old(self).progs().contains_key(id) && old(self).users().contains_key(id) && old(self).users()[id].len() > 0
                ==> r == Err::<Program, BpfdError>(BpfdError::InUse(id)),
            old(self).progs().contains_key(id) && !(old(self).users().contains_key(id) && old(self).users()[id].len() > 0)
                ==> (r matches Ok(p) && without_users(p) == old(self).progs()[id]
                && final(self).progs() == old(self).progs().remove(id)
                && final(self).users() == users_after_remove(old(self).users(), owner_of(p), id)),
    {
        let ghost users0 = self.users();
        let ghost progs0 = self.progs();
        let ghost raw0 = self.programs@;
        proof {
            assert(self.index_wf());
        }
        let owner = match self.programs.get(&id) {
            None => {
                return Err(BpfdError::NotFound(id));
            },
            Some(p) => match p.data() {
                Ok(d) => d.map_owner_id,
                Err(e) => {
                    return Err(e);
                },
            },
        };
        proof {
            assert(progs0.contains_key(id));
            assert(progs0[id] == without_users(raw0[id]));
            assert(owner == owner_of(progs0[id]));
        }
        match self.maps.get(&id) {
            Some(b) => {
                if b.used_by.len() > 0 {
                    return Err(BpfdError::InUse(id));
                }
            },
            None => {},
        }
        match owner {
            None => {
                self.maps.remove(&id);
            },
            Some(q) => {
                match self.maps.remove(&q) {
                    Some(b) => {
                        let mut b = b;
                        let k = Registry::find(&b.used_by, id);
                        proof {
                            assert(users0[q].no_duplicates());
                            assert(users0[q][users0[q].index_of(id)] == id);
                        }
                        b.used_by.remove(k);
                        self.maps.insert(q, b);
                    },
                    None => {},
                }
            },
        }
        proof {
            assert(self.users() =~= users_after_remove(users0, owner, id));
        }
        let removed = self.programs.remove(&id);
        proof {
            let np = self.progs();
            let nu = self.users();
            assert(np =~= progs0.remove(id));
            assert forall|x: u128| #[trigger] self.programs@.contains_key(x) && owner != Some(x)
                implies listed_users(self.programs@[x]) == (
                if nu.contains_key(x) { Some(nu[x]) } else { None }) by {
                assert(raw0.contains_key(x));
            }
            assert(np =~= progs0.remove(id));
            assert forall|x: u128| #[trigger] np.contains_key(x) implies {
                let p = np[x];
                &&& p.spec_data() is Some
                &&& p.spec_data()->Some_0.id == Some(x)
                &&& (owner_of(p) is None <==> nu.contains_key(x))
                &&& (owner_of(p) matches Some(q) ==> nu.contains_key(q) && nu[q].contains(x))
            } by {
                assert(progs0.contains_key(x));
                let p = np[x];
                if let Some(q) = owner_of(p) {
                    assert(users0[q].contains(x));
                    if owner == Some(q) {
                        let j = choose|j: int| 0 <= j < users0[q].len() && users0[q][j] == x;
                        let k = users0[q].index_of(id);
                        assert(users0[q][k] == id);
                        if j < k {
                            assert(nu[q][j] == x);
                        } else {
                            assert(j != k);
                            assert(nu[q][j - 1] == x);
                        }
                    }
                    if q == id {
                        assert(users0[id].len() > 0);
                    }
                }
            }
            assert forall|q: u128| #[trigger] nu.contains_key(q) implies {
                &&& np.contains_key(q)
                &&& nu[q].no_duplicates()
                &&& forall|i: int| 0 <= i < nu[q].len() ==> {
                    let u = #[trigger] nu[q][i];
                    np.contains_key(u) && owner_of(np[u]) == Some(q)
                }
            } by {
                assert(users0.contains_key(q));
                if owner == Some(q) {
                    let k = users0[q].index_of(id);
                    assert(users0[q][k] == id);
                    assert(nu[q] == users0[q].remove(k));
                    assert forall|i: int| 0 <= i < nu[q].len() implies {
                        let u = #[trigger] nu[q][i];
                        np.contains_key(u) && owner_of(np[u]) == Some(q)
                    } by {
                        if i < k {
                            assert(progs0.contains_key(users0[q][i]));
                            assert(users0[q][i] != id);
                        } else {
                            assert(progs0.contains_key(users0[q][i + 1]));
                            assert(users0[q][i + 1] != id);
                        }
                    }
                    assert forall|i: int, j: int| 0 <= i < j < nu[q].len() implies nu[q][i] != nu[q][j] by {
                        if j < k {
                        } else if i < k {
                            assert(users0[q][i] != users0[q][j + 1]);
                        } else {
                            assert(users0[q][i + 1] != users0[q][j + 1]);
                        }
                    }
                } else {
                    if q == id {
                        assert(!nu.contains_key(id));
                    }
                    assert forall|i: int| 0 <= i < nu[q].len() implies {
                        let u = #[trigger] nu[q][i];
                        np.contains_key(u) && owner_of(np[u]) == Some(q)
                    } by {
                        let u = users0[q][i];
                        assert(progs0.contains_key(u));
                        if u == id {
                            assert(owner == Some(q));
                        }
                    }
                }
            }
        }
        match owner {
            Some(q) => {
                proof {
                    assert(q != id);
                    assert(self.programs@.contains_key(q)) by {
                        assert(self.progs().contains_key(q));
                    }
                }
                self.relist(q);
            },
            None => {},
        }
        match removed {
            Some(p) => Ok(p),
            None => Err(BpfdError::NotFound(id)),
        }
    }
}

/// Every program that reuses another's maps finds that owner registered, with
/// itself among the owner's users.
pub proof fn lemma_map_user_has_owner(r: Registry, p: u128)
    requires
        r.wf(),
        r.progs().contains_key(p),
        owner_of(r.progs()[p]) is Some,
    ensures
        ({
            let q = owner_of(r.progs()[p])->Some_0;
            &&& r.progs().contains_key(q)
            &&& r.users().contains_key(q)
            &&& r.users()[q].contains(p)
            &&& r.programs@.contains_key(q)
            &&& listed_users(r.programs@[q]) matches Some(u) && u.contains(p)
        }),
{
    let q = owner_of(r.progs()[p])->Some_0;
    assert(r.programs@.contains_key(q)) by {
        assert(r.progs().contains_key(q));
    }
}

/// An unload of a registered program is refused as in use exactly when its
/// record lists programs that share its maps.
pub proof fn lemma_in_use_iff_listed(r: Registry, id: u128)
    requires
        r.wf(),
        r.progs().contains_key(id),
    ensures
        r.programs@.contains_key(id),
        (r.users().contains_key(id) && r.users()[id].len() > 0) <==> (listed_users(r.programs@[id]) matches Some(u) && u.len() > 0),
{
    assert(r.programs@.contains_key(id)) by {
        assert(r.progs().contains_key(id));
    }
}

/// Filing a record under its identifier keeps the map owner it names.
proof fn lemma_stamped_owner(p: Program, id: u128)
    requires
        p.spec_data() is Some,
    ensures
        stamped(p, id).spec_data() is Some,
        owner_of(stamped(p, id)) == owner_of(p),
{
}

/// Loading a program and unloading it again leaves the registry as it was:
/// the unload is allowed, and it takes away exactly the record and the map
/// bookkeeping that the load added.
pub proof fn lemma_load_unload_restores(before: Registry, program: Program, id: u128)
    requires
        before.wf(),
        program.spec_data() is Some,
        !before.progs().contains_key(id),
        owner_of(program) matches Some(q) ==> before.users().contains_key(q),
    ensures
        ({
            let progs = before.progs().insert(id, stamped(program, id));
            let users = users_after_insert(before.users(), owner_of(program), id);
            &&& progs.contains_key(id)
            &&& !(users.contains_key(id) && users[id].len() > 0)
            &&& progs.remove(id) == before.progs()
            &&& users_after_remove(users, owner_of(progs[id]), id) == before.users()
        }),
{
    let progs = before.progs().insert(id, stamped(program, id));
    let users = users_after_insert(before.users(), owner_of(program), id);
    lemma_stamped_owner(program, id);
    assert(progs.remove(id) =~= before.progs());
    assert(!before.users().contains_key(id));
    match owner_of(program) {
        None => {
            assert(users.remove(id) =~= before.users());
        },
        Some(q) => {
            let u = before.users()[q];
            let pushed = u.push(id);
            assert forall|i: int| 0 <= i < u.len() implies u[i] != id by {
                assert(before.progs().contains_key(u[i]));
            }
            assert(pushed[u.len() as int] == id);
            let k = pushed.index_of(id);
            assert(pushed[k] == id);
            assert(k == u.len());
            assert(pushed.remove(k) =~= u);
            assert(users.insert(q, u) =~= before.users());
        },
    }
}

/// Unloading twice: when the first unload of `id` is allowed, the registry
/// it leaves no longer holds `id`, so the second is refused as unknown.
pub proof fn lemma_second_unload_not_found(before: Registry, id: u128)
    requires
        before.wf(),
        before.progs().contains_key(id),
        !(before.users().contains_key(id) && before.users()[id].len() > 0),
    ensures
        !before.progs().remove(id).contains_key(id),
{
}

/// Saving a registry's records and restoring them, in any order, gives the
/// registry back: restoring succeeds, every identifier maps to the same
/// record, every owner keeps its map record, and each owner's users are the
/// same programs (their order follows the order of restoring).
pub proof fn lemma_restore_round_trip(before: Registry, records: Seq<Program>, after: Registry)
    requires
        before.wf(),
        forall|j: int| 0 <= j < records.len() ==> before.progs().contains_key(record_id(#[trigger] records[j]))
            && before.progs()[record_id(records[j])] == without_users(records[j]),
        forall|i: int, j: int| 0 <= i < j < records.len() ==> record_id(#[trigger] records[i]) != record_id(#[trigger] records[j]),
        forall|x: u128| #[trigger] before.progs().contains_key(x) ==> exists|j: int| 0 <= j < records.len() && record_id(#[trigger] records[j]) == x,
        restorable(records) ==> {
            &&& after.wf()
            &&& forall|x: u128| #[trigger] after.progs().contains_key(x)
                <==> exists|j: int| 0 <= j < records.len() && record_id(#[trigger] records[j]) == x
            &&& forall|j: int| 0 <= j < records.len() ==> after.progs()[record_id(#[trigger] records[j])] == without_users(records[j])
        },
    ensures
        restorable(records),
        after.progs() == before.progs(),
        forall|q: u128| #[trigger] after.users().contains_key(q) <==> before.users().contains_key(q),
        forall|q: u128| #[trigger] after.users().contains_key(q) ==> after.users()[q].to_set() == before.users()[q].to_set(),
{
    assert forall|i: int| 0 <= i < records.len() implies (#[trigger] records[i]).spec_data() is Some
        && records[i].spec_data()->Some_0.id is Some by {
        assert(before.progs().contains_key(record_id(records[i])));
    }
    assert forall|i: int| 0 <= i < records.len() && (#[trigger] owner_of(records[i])) is Some implies exists|j: int|
        0 <= j < records.len() && record_id(#[trigger] records[j]) == owner_of(records[i])->Some_0
        && owner_of(records[j]) is None by {
        let x = record_id(records[i]);
        assert(before.progs().contains_key(x));
        let q = owner_of(records[i])->Some_0;
        assert(before.users().contains_key(q));
        assert(before.progs().contains_key(q));
        let j = choose|j: int| 0 <= j < records.len() && record_id(#[trigger] records[j]) == q;
        assert(before.progs().contains_key(record_id(records[j])));
    }
    assert(restorable(records));
    assert forall|x: u128| #[trigger] after.progs().contains_key(x) == before.progs().contains_key(x) by {
        if before.progs().contains_key(x) {
            let j = choose|j: int| 0 <= j < records.len() && record_id(#[trigger] records[j]) == x;
            assert(after.progs().contains_key(record_id(records[j])));
        }
        if after.progs().contains_key(x) {
            let j = choose|j: int| 0 <= j < records.len() && record_id(#[trigger] records[j]) == x;
            assert(before.progs().contains_key(record_id(records[j])));
        }
    }
    assert forall|x: u128| #[trigger] after.progs().contains_key(x) implies after.progs()[x] == before.progs()[x] by {
        let j = choose|j: int| 0 <= j < records.len() && record_id(#[trigger] records[j]) == x;
        assert(after.progs()[record_id(records[j])] == without_users(records[j]));
    }
    assert(after.progs() =~= before.progs());
    assert forall|q: u128| #[trigger] after.users().contains_key(q) <==> before.users().contains_key(q) by {
        if after.users().contains_key(q) {
            assert(after.progs().contains_key(q));
        }
        if before.users().contains_key(q) {
            assert(before.progs().contains_key(q));
        }
    }
    assert forall|q: u128| #[trigger] after.users().contains_key(q) implies after.users()[q].to_set() == before.users()[q].to_set() by {
        assert(before.users().contains_key(q));
        assert forall|u: u128| #[trigger] after.users()[q].to_set().contains(u) == before.users()[q].to_set().contains(u) by {
            if after.users()[q].to_set().contains(u) {
                let i = choose|i: int| 0 <= i < after.users()[q].len() && after.users()[q][i] == u;
                assert(after.progs().contains_key(after.users()[q][i]));
                assert(before.users()[q].contains(u));
            }
            if before.users()[q].to_set().contains(u) {
                let i = choose|i: int| 0 <= i < before.users()[q].len() && before.users()[q][i] == u;
                assert(before.progs().contains_key(before.users()[q][i]));
                assert(after.progs().contains_key(u));
                assert(after.users()[q].contains(u));
            }
        }
        assert(after.users()[q].to_set() =~= before.users()[q].to_set());
    }
}

} // verus!
