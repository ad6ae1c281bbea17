//! Identity resolution: numeric user and group ids to display names,
//! through an identity table and a per-pass cache that queries the
//! table for each id at most once.

use std::collections::HashMap;

use vstd::prelude::*;

use crate::numeric::dec_str;
use crate::numeric::u32_to_dec;
use crate::ProcError;

verus! {

broadcast use vstd::std_specs::hash::group_hash_axioms;

/// Which identity namespace an id belongs to: the user database or the
/// group database.
#[derive(Clone, Copy, PartialEq, Eq, Structural, Debug)]
pub enum IdClass {
    User,
    Group,
}

/// View of one stored lookup outcome: the name found, or `None` for an
/// id the database does not know.
pub open spec fn name_view(v: Option<String>) -> Option<Seq<char>> {
    match v {
        Some(s) => Some(s@),
        None => None,
    }
}

/// The identity database as the enumeration pass sees it: one table
/// per namespace from numeric id to display name, plus a count of how
/// often the database has been queried. The caller fills the tables
/// from the system's user and group databases; the count makes the
/// cache's promise — at most one query per id — a stated contract.
pub struct TableLookup {
    users: HashMap<u32, String>,
    groups: HashMap<u32, String>,
    queries: Ghost<nat>,
}

impl TableLookup {
    /// The user-id table.
    pub closed spec fn users(&self) -> Map<u32, Seq<char>> {
        self.users@.map_values(|s: String| s@)
    }

    /// The group-id table.
    pub closed spec fn groups(&self) -> Map<u32, Seq<char>> {
        self.groups@.map_values(|s: String| s@)
    }

    /// How often the database has been queried.
    pub closed spec fn queries(&self) -> nat {
        self.queries@
    }

    /// The table of the given namespace.
    pub open spec fn table(&self, class: IdClass) -> Map<u32, Seq<char>> {
        match class {
            IdClass::User => self.users(),
            IdClass::Group => self.groups(),
        }
    }

    /// An empty identity table.
    pub fn new() -> (t: TableLookup)
        ensures
            t.users() == Map::<u32, Seq<char>>::empty(),
            t.groups() == Map::<u32, Seq<char>>::empty(),
            t.queries() == 0,
    {
        let t = TableLookup { users: HashMap::new(), groups: HashMap::new(), queries: Ghost(0) };
        proof {
            assert(t.users() =~= Map::<u32, Seq<char>>::empty());
            assert(t.groups() =~= Map::<u32, Seq<char>>::empty());
        }
        t
    }

    /// Registers an id's display name.
    pub fn insert(&mut self, class: IdClass, id: u32, name: String)
        ensures
            final(self).table(class) == old(self).table(class).insert(id, name@),
            forall|c: IdClass| c != class ==> final(self).table(c) == old(self).table(c),
            final(self).queries() == old(self).queries(),
    {
        let ghost nv = name@;
        match class {
            IdClass::User => {
                self.users.insert(id, name);
                proof {
                    assert(self.users() =~= old(self).users().insert(id, nv));
                }
            },
            IdClass::Group => {
                self.groups.insert(id, name);
                proof {
                    assert(self.groups() =~= old(self).groups().insert(id, nv));
                }
            },
        }
    }

    /// Whether the table already has a name for this id.
    pub fn contains(&self, class: IdClass, id: u32) -> (r: bool)
        ensures
            r == self.table(class).contains_key(id),
    {
        match class {
            IdClass::User => self.users.contains_key(&id),
            IdClass::Group => self.groups.contains_key(&id),
        }
    }

    /// One query of the identity database: returns the display name
    /// registered for `id`, or `None` when the database has no entry
    /// for it. Every invocation is counted.
    pub fn query(&mut self, class: IdClass, id: u32) -> (r: Option<String>)
        ensures
            final(self).users() == old(self).users(),
            final(self).groups() == old(self).groups(),
            final(self).queries() == old(self).queries() + 1,
            match r {
                Some(name) => old(self).table(class).contains_key(id) && name@ == old(self).table(
                    class,
                )[id],
                None => !old(self).table(class).contains_key(id),
            },
    {
        self.queries = Ghost(self.queries@ + 1);
        let found = match class {
            IdClass::User => self.users.get(&id),
            IdClass::Group => self.groups.get(&id),
        };
        match found {
            Some(s) => Some(s.clone()),
            None => None,
        }
    }
}

/// What a filled cache stores for `id`: the table's name, or `None`
/// recording that the table has no entry.
pub open spec fn cache_entry(table: Map<u32, Seq<char>>, id: u32) -> Option<Seq<char>> {
    if table.contains_key(id) {
        Some(table[id])
    } else {
        None
    }
}

/// How many database queries resolving `id` costs against this cache
/// state: none when the id is cached, one otherwise.
pub open spec fn resolve_cost(cmap: Map<u32, Option<Seq<char>>>, id: u32) -> nat {
    if cmap.contains_key(id) {
        0
    } else {
        1
    }
}

/// The per-pass resolution cache: one map per namespace from id to the
/// remembered lookup outcome, populated lazily, each id queried at
/// most once per pass.
pub struct IdentityCache {
    users: HashMap<u32, Option<String>>,
    groups: HashMap<u32, Option<String>>,
}

impl IdentityCache {
    /// The cached outcomes of the given namespace.
    pub closed spec fn map_for(&self, class: IdClass) -> Map<u32, Option<Seq<char>>> {
        match class {
            IdClass::User => self.users@.map_values(|v: Option<String>| name_view(v)),
            IdClass::Group => self.groups@.map_values(|v: Option<String>| name_view(v)),
        }
    }

    /// Every cached outcome agrees with what the table would answer:
    /// the cache is a memo of the table, never a divergent copy.
    pub open spec fn consistent_with(&self, t: TableLookup) -> bool {
        forall|c: IdClass, id: u32|
            #[trigger] self.map_for(c).contains_key(id) ==> self.map_for(c)[id] == cache_entry(
                t.table(c),
                id,
            )
    }

    /// An empty cache, consistent with any table.
    pub fn new() -> (c: IdentityCache)
        ensures
            c.map_for(IdClass::User) == Map::<u32, Option<Seq<char>>>::empty(),
            c.map_for(IdClass::Group) == Map::<u32, Option<Seq<char>>>::empty(),
            forall|t: TableLookup| c.consistent_with(t),
    {
        let c = IdentityCache { users: HashMap::new(), groups: HashMap::new() };
        proof {
            assert(c.map_for(IdClass::User) =~= Map::<u32, Option<Seq<char>>>::empty());
            assert(c.map_for(IdClass::Group) =~= Map::<u32, Option<Seq<char>>>::empty());
        }
        c
    }
}

/// Resolves an id to its display name through the cache: a cached id
/// is answered without touching the database; an uncached one costs
/// exactly one query, whose outcome — name or `UnknownIdentity` — is
/// cached either way. An id the database does not know is a signaled
/// condition, never an arbitrary name.
pub fn resolve(class: IdClass, id: u32, cache: &mut IdentityCache, lookup: &mut TableLookup) -> (r:
    Result<String, ProcError>)
    requires
        old(cache).consistent_with(*old(lookup)),
    ensures
        final(lookup).users() == old(lookup).users(),
        final(lookup).groups() == old(lookup).groups(),
        final(cache).consistent_with(*final(lookup)),
        final(cache).map_for(class) == old(cache).map_for(class).insert(
            id,
            cache_entry(old(lookup).table(class), id),
        ),
        forall|c: IdClass| c != class ==> final(cache).map_for(c) == old(cache).map_for(c),
        final(lookup).queries() == old(lookup).queries() + resolve_cost(
            old(cache).map_for(class),
            id,
        ),
        match r {
            Ok(name) => old(lookup).table(class).contains_key(id) && name@ == old(lookup).table(
                class,
            )[id],
            Err(e) => e == ProcError::UnknownIdentity && !old(lookup).table(class).contains_key(id),
        },
{
    let cached = match class {
        IdClass::User => cache.users.get(&id),
        IdClass::Group => cache.groups.get(&id),
    };
    match cached {
        Some(entry) => {
            proof {
                assert(old(cache).map_for(class).contains_key(id));
                assert(old(cache).map_for(class)[id] == name_view(*entry));
                assert(final(cache).map_for(class) =~= old(cache).map_for(class).insert(
                    id,
                    cache_entry(old(lookup).table(class), id),
                ));
            }
            match entry {
                Some(s) => Ok(s.clone()),
                None => Err(ProcError::UnknownIdentity),
            }
        },
        None => {
            let fetched = lookup.query(class, id);
            let stored = match &fetched {
                Some(s) => Some(s.clone()),
                None => None,
            };
            let ghost stored_view = name_view(stored);
            proof {
                assert(stored_view == cache_entry(old(lookup).table(class), id));
            }
            match class {
                IdClass::User => {
                    cache.users.insert(id, stored);
                    proof {
                        assert(cache.map_for(IdClass::User) =~= old(cache).map_for(
                            IdClass::User,
                        ).insert(id, stored_view));
                    }
                },
                IdClass::Group => {
                    cache.groups.insert(id, stored);
                    proof {
                        assert(cache.map_for(IdClass::Group) =~= old(cache).map_for(
                            IdClass::Group,
                        ).insert(id, stored_view));
                    }
                },
            }
            proof {
                assert forall|c: IdClass, id2: u32|
                    #[trigger] cache.map_for(c).contains_key(id2) implies cache.map_for(c)[id2]
                    == cache_entry(lookup.table(c), id2) by {
                    if !(c == class && id2 == id) {
                        assert(old(cache).map_for(c).contains_key(id2));
                    }
                }
            }
            match fetched {
                Some(name) => Ok(name),
                None => Err(ProcError::UnknownIdentity),
            }
        },
    }
}

/// Display name for an id: the table's name, or the id rendered in
/// decimal when the identity database does not know it — the
/// recommended placeholder policy for an enumeration pass, which must
/// not abort because one id is unknown.
pub open spec fn display_name(table: Map<u32, Seq<char>>, id: u32) -> Seq<char> {
    if table.contains_key(id) {
        table[id]
    } else {
        dec_str(id as nat)
    }
}

/// Resolves an id, substituting the decimal placeholder when the
/// database does not know it.
pub fn resolve_or_placeholder(
    class: IdClass,
    id: u32,
    cache: &mut IdentityCache,
    lookup: &mut TableLookup,
) -> (name: String)
    requires
        old(cache).consistent_with(*old(lookup)),
    ensures
        final(lookup).users() == old(lookup).users(),
        final(lookup).groups() == old(lookup).groups(),
        final(cache).consistent_with(*final(lookup)),
        final(cache).map_for(class) == old(cache).map_for(class).insert(
            id,
            cache_entry(old(lookup).table(class), id),
        ),
        forall|c: IdClass| c != class ==> final(cache).map_for(c) == old(cache).map_for(c),
        final(lookup).queries() == old(lookup).queries() + resolve_cost(
            old(cache).map_for(class),
            id,
        ),
        name@ == display_name(old(lookup).table(class), id),
{
    match resolve(class, id, cache, lookup) {
        Ok(name) => name,
        Err(_) => u32_to_dec(id),
    }
}

/// Resolving an id costs at most one database query, and a second
/// resolution of the same id costs none: after one resolution the id
/// is cached, whatever the outcome of the lookup was.
pub proof fn lemma_second_resolution_costs_nothing(
    cmap: Map<u32, Option<Seq<char>>>,
    table: Map<u32, Seq<char>>,
    id: u32,
)
    ensures
        resolve_cost(cmap, id) <= 1,
        resolve_cost(cmap.insert(id, cache_entry(table, id)), id) == 0,
{
}

/// The cache state after resolving the given ids in order.
pub open spec fn resolutions_map(
    cmap: Map<u32, Option<Seq<char>>>,
    table: Map<u32, Seq<char>>,
    ids: Seq<u32>,
) -> Map<u32, Option<Seq<char>>>
    decreases ids.len(),
{
    if ids.len() == 0 {
        cmap
    } else {
        resolutions_map(cmap.insert(ids[0], cache_entry(table, ids[0])), table, ids.drop_first())
    }
}

/// How many database queries resolving the given ids in order costs:
/// one for each id not already cached when its turn comes.
pub open spec fn resolutions_cost(
    cmap: Map<u32, Option<Seq<char>>>,
    table: Map<u32, Seq<char>>,
    ids: Seq<u32>,
) -> nat
    decreases ids.len(),
{
    if ids.len() == 0 {
        0
    } else {
        resolve_cost(cmap, ids[0]) + resolutions_cost(
            cmap.insert(ids[0], cache_entry(table, ids[0])),
            table,
            ids.drop_first(),
        )
    }
}

/// Resolving any number of copies of an already-cached id costs no
/// query at all.
proof fn lemma_cached_id_costs_nothing(
    cmap: Map<u32, Option<Seq<char>>>,
    table: Map<u32, Seq<char>>,
    ids: Seq<u32>,
    id: u32,
)
    requires
        forall|i: int| 0 <= i < ids.len() ==> ids[i] == id,
        cmap.contains_key(id),
    ensures
        resolutions_cost(cmap, table, ids) == 0,
    decreases ids.len(),
{
    if ids.len() > 0 {
        lemma_cached_id_costs_nothing(
            cmap.insert(id, cache_entry(table, id)),
            table,
            ids.drop_first(),
            id,
        );
    }
}

/// However often one id is resolved within a pass, the identity
/// database is queried for it at most once: the first resolution
/// caches the outcome and every later one is served from the cache.
pub proof fn lemma_repeated_id_costs_at_most_once(
    cmap: Map<u32, Option<Seq<char>>>,
    table: Map<u32, Seq<char>>,
    ids: Seq<u32>,
    id: u32,
)
    requires
        forall|i: int| 0 <= i < ids.len() ==> ids[i] == id,
    ensures
        resolutions_cost(cmap, table, ids) <= 1,
{
    if ids.len() > 0 {
        lemma_cached_id_costs_nothing(
            cmap.insert(id, cache_entry(table, id)),
            table,
            ids.drop_first(),
            id,
        );
    }
}

} // verus!
