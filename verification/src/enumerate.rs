//! One enumeration pass over the process-information root: filter the
//! listed entries to live processes, parse each survivor's status
//! record, and decode its credentials into a `ProcessRecord`.

use vstd::prelude::*;

use crate::cred::credential_set_matches;
use crate::cred::decode;
use crate::cred::decode_slots;
use crate::cred::CredentialSet;
use crate::identity::resolutions_cost;
use crate::identity::resolutions_map;
use crate::identity::IdClass;
use crate::identity::IdentityCache;
use crate::identity::TableLookup;
use crate::numeric::dec_value;
use crate::numeric::is_canonical_dec;
use crate::numeric::parse_pid;
use crate::status::parse_status;
use crate::status::status_fields;
use crate::status::RawFieldMap;
use crate::ProcError;

verus! {

/// One entry of the process-information root, as the caller listed it:
/// its name, whether it is a directory, and the content of its status
/// record — `None` when the entry vanished between listing and
/// reading, a race the pass must absorb.
#[derive(Debug)]
pub struct DirEntry {
    pub name: String,
    pub is_dir: bool,
    pub status: Option<String>,
}

/// Everything one pass records of a live process: its pid, its decoded
/// user and group credentials, and the full field map of its status
/// record.
#[derive(Debug)]
pub struct ProcessRecord {
    pub pid: u64,
    pub user_ids: CredentialSet,
    pub group_ids: CredentialSet,
    pub raw_fields: RawFieldMap,
}

/// The named credential field of a parsed record; a record without the
/// field decodes like an empty one, defaulting all four ids to 0.
pub open spec fn field_or_empty(fields: Map<Seq<char>, Seq<char>>, key: Seq<char>) -> Seq<char> {
    if fields.contains_key(key) {
        fields[key]
    } else {
        Seq::empty()
    }
}

/// The record owed for one process: the given pid, the full parsed
/// field map of its status text, and both credential sets decoded from
/// the `Uid` and `Gid` fields against the identity tables.
pub open spec fn record_matches(
    r: ProcessRecord,
    pid: u64,
    text: Seq<char>,
    users: Map<u32, Seq<char>>,
    groups: Map<u32, Seq<char>>,
) -> bool {
    &&& r.pid == pid
    &&& r.raw_fields@ == status_fields(text)
    &&& credential_set_matches(r.user_ids, field_or_empty(status_fields(text), "Uid"@), users)
    &&& credential_set_matches(r.group_ids, field_or_empty(status_fields(text), "Gid"@), groups)
}

/// The slot ids of a record's user credential field.
pub open spec fn uid_slots(text: Seq<char>) -> Seq<u32> {
    decode_slots(field_or_empty(status_fields(text), "Uid"@))
}

/// The slot ids of a record's group credential field.
pub open spec fn gid_slots(text: Seq<char>) -> Seq<u32> {
    decode_slots(field_or_empty(status_fields(text), "Gid"@))
}

/// Assembles the record of one process from its status text. This
/// never fails: an absent or malformed credential field only yields
/// default ids. The identity database is queried exactly once per slot
/// id that the pass had not resolved before.
pub fn process_info(pid: u64, status_text: &str, cache: &mut IdentityCache, lookup: &mut TableLookup) -> (r:
    ProcessRecord)
    requires
        old(cache).consistent_with(*old(lookup)),
    ensures
        final(lookup).users() == old(lookup).users(),
        final(lookup).groups() == old(lookup).groups(),
        final(cache).consistent_with(*final(lookup)),
        final(cache).map_for(IdClass::User) == resolutions_map(
            old(cache).map_for(IdClass::User),
            old(lookup).users(),
            uid_slots(status_text@),
        ),
        final(cache).map_for(IdClass::Group) == resolutions_map(
            old(cache).map_for(IdClass::Group),
            old(lookup).groups(),
            gid_slots(status_text@),
        ),
        final(lookup).queries() == old(lookup).queries() + resolutions_cost(
            old(cache).map_for(IdClass::User),
            old(lookup).users(),
            uid_slots(status_text@),
        ) + resolutions_cost(
            old(cache).map_for(IdClass::Group),
            old(lookup).groups(),
            gid_slots(status_text@),
        ),
        record_matches(r, pid, status_text@, old(lookup).users(), old(lookup).groups()),
{
    let raw_fields = parse_status(status_text);
    let uid_field: String = match raw_fields.get("Uid") {
        Some(v) => v.clone(),
        None => String::new(),
    };
    let gid_field: String = match raw_fields.get("Gid") {
        Some(v) => v.clone(),
        None => String::new(),
    };
    proof {
        assert(uid_field@ == field_or_empty(status_fields(status_text@), "Uid"@));
        assert(gid_field@ == field_or_empty(status_fields(status_text@), "Gid"@));
    }
    let user_ids = decode(IdClass::User, uid_field.as_str(), cache, lookup);
    let group_ids = decode(IdClass::Group, gid_field.as_str(), cache, lookup);
    ProcessRecord { pid: pid, user_ids: user_ids, group_ids: group_ids, raw_fields: raw_fields }
}

/// Which listed entries survive the filter: directories whose name is
/// a canonical decimal process id and whose status record could still
/// be read.
pub open spec fn entry_selected(e: DirEntry) -> bool {
    &&& e.is_dir
    &&& is_canonical_dec(e.name@)
    &&& dec_value(e.name@) <= u64::MAX
    &&& e.status is Some
}

/// The pid and status text of every surviving entry, in listing order.
pub open spec fn selected_entries(entries: Seq<DirEntry>) -> Seq<(u64, Seq<char>)>
    decreases entries.len(),
{
    if entries.len() == 0 {
        Seq::empty()
    } else {
        let rest = selected_entries(entries.drop_last());
        let e = entries.last();
        if entry_selected(e) {
            rest.push(((dec_value(e.name@) as u64), e.status.unwrap()@))
        } else {
            rest
        }
    }
}

/// What one pass does to its resolution cache, and what it costs the
/// identity database: the user and group cache maps after decoding
/// every surviving entry in order, and the total number of database
/// queries — one per slot id at its first appearance in the pass,
/// none afterwards.
pub open spec fn pass_resolutions(
    entries: Seq<DirEntry>,
    users: Map<u32, Seq<char>>,
    groups: Map<u32, Seq<char>>,
) -> (Map<u32, Option<Seq<char>>>, Map<u32, Option<Seq<char>>>, nat)
    decreases entries.len(),
{
    if entries.len() == 0 {
        (Map::empty(), Map::empty(), 0)
    } else {
        let (u, g, q) = pass_resolutions(entries.drop_last(), users, groups);
        let e = entries.last();
        if entry_selected(e) {
            let text = e.status.unwrap()@;
            (
                resolutions_map(u, users, uid_slots(text)),
                resolutions_map(g, groups, gid_slots(text)),
                q + resolutions_cost(u, users, uid_slots(text)) + resolutions_cost(
                    g,
                    groups,
                    gid_slots(text),
                ),
            )
        } else {
            (u, g, q)
        }
    }
}

/// One enumeration pass. A listing of `None` stands for a root that
/// could not be listed at all — the one fatal condition. Otherwise the
/// pass owes exactly one record per surviving entry, in listing order;
/// entries that are not directories, are not named by a process id, or
/// vanished before reading are skipped silently, never an error. The
/// pass owns its resolution cache, so each distinct id costs the
/// identity database at most one query, however many processes share
/// it — the stated query count.
pub fn enumerate(listing: Option<Vec<DirEntry>>, lookup: &mut TableLookup) -> (r: Result<
    Vec<ProcessRecord>,
    ProcError,
>)
    ensures
        final(lookup).users() == old(lookup).users(),
        final(lookup).groups() == old(lookup).groups(),
        match listing {
            None => r == Err::<Vec<ProcessRecord>, ProcError>(ProcError::RootUnreadable),
            Some(entries) => match r {
                Ok(records) => {
                    let sel = selected_entries(entries@);
                    &&& records@.len() == sel.len()
                    &&& forall|i: int|
                        0 <= i < sel.len() ==> record_matches(
                            #[trigger] records@[i],
                            sel[i].0,
                            sel[i].1,
                            old(lookup).users(),
                            old(lookup).groups(),
                        )
                    &&& final(lookup).queries() == old(lookup).queries() + pass_resolutions(
                        entries@,
                        old(lookup).users(),
                        old(lookup).groups(),
                    ).2
                },
                Err(_) => false,
            },
        },
{
    let entries = match listing {
        Some(es) => es,
        None => {
            return Err(ProcError::RootUnreadable);
        },
    };
    let mut records: Vec<ProcessRecord> = Vec::new();
    let mut cache = IdentityCache::new();
    let mut idx: usize = 0;
    while idx < entries.len()
        invariant
            0 <= idx <= entries@.len(),
            cache.consistent_with(*lookup),
            lookup.users() == old(lookup).users(),
            lookup.groups() == old(lookup).groups(),
            cache.map_for(IdClass::User) == pass_resolutions(
                entries@.take(idx as int),
                old(lookup).users(),
                old(lookup).groups(),
            ).0,
            cache.map_for(IdClass::Group) == pass_resolutions(
                entries@.take(idx as int),
                old(lookup).users(),
                old(lookup).groups(),
            ).1,
            lookup.queries() == old(lookup).queries() + pass_resolutions(
                entries@.take(idx as int),
                old(lookup).users(),
                old(lookup).groups(),
            ).2,
            records@.len() == selected_entries(entries@.take(idx as int)).len(),
            forall|i: int|
                0 <= i < records@.len() ==> record_matches(
                    #[trigger] records@[i],
                    selected_entries(entries@.take(idx as int))[i].0,
                    selected_entries(entries@.take(idx as int))[i].1,
                    old(lookup).users(),
                    old(lookup).groups(),
                ),
        decreases entries@.len() - idx,
    {
        proof {
            assert(entries@.take(idx + 1).drop_last() =~= entries@.take(idx as int));
            assert(entries@.take(idx + 1).last() == entries@[idx as int]);
        }
        let e = &entries[idx];
        if e.is_dir {
            match parse_pid(e.name.as_str()) {
                Some(pid) => {
                    match &e.status {
                        Some(text) => {
                            let rec = process_info(pid, text.as_str(), &mut cache, lookup);
                            records.push(rec);
                        },
                        None => {},
                    }
                },
                None => {},
            }
        }
        idx = idx + 1;
    }
    proof {
        assert(entries@.take(entries@.len() as int) =~= entries@);
    }
    Ok(records)
}

} // verus!
