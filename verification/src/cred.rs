//! Credential-field decoding: a field value carries up to four id
//! tokens separated by tabs, in the fixed order real, effective,
//! saved-set, filesystem. Tokens that are missing or fail to parse as
//! a decimal id default to 0 — the deliberate tolerant policy, since
//! not every kernel populates all four slots.

use vstd::prelude::*;

use crate::identity::cache_entry;
use crate::identity::display_name;
use crate::identity::resolutions_cost;
use crate::identity::resolutions_map;
use crate::identity::resolve_cost;
use crate::identity::resolve_or_placeholder;
use crate::identity::IdClass;
use crate::identity::IdentityCache;
use crate::identity::TableLookup;
use crate::numeric::all_dec_digits;
use crate::numeric::dec_value;
use crate::numeric::parse_u32_digits;
use crate::text;
use crate::text::char_pos;

verus! {

/// The tokens of a credential field: the field split at each tab. An
/// empty field yields one empty token.
pub open spec fn split_tabs(s: Seq<char>) -> Seq<Seq<char>>
    decreases s.len(),
{
    let p = char_pos(s, '\t');
    if p < s.len() {
        seq![s.take(p as int)] + split_tabs(s.skip(p as int + 1))
    } else {
        seq![s]
    }
}

/// The id token `i` denotes under the tolerant policy: its decimal
/// value when it is a nonempty digit string whose value fits in `u32`,
/// and 0 when the token is absent or unparsable.
pub open spec fn token_id(toks: Seq<Seq<char>>, i: int) -> u32 {
    if 0 <= i < toks.len() && toks[i].len() > 0 && all_dec_digits(toks[i]) && dec_value(toks[i])
        <= u32::MAX {
        dec_value(toks[i]) as u32
    } else {
        0
    }
}

/// The id in slot `i` of a credential field.
pub open spec fn slot_id(field: Seq<char>, i: int) -> u32 {
    token_id(split_tabs(field), i)
}

/// Splits a credential field at its tabs.
fn split_tabs_exec(s: &str) -> (toks: Vec<String>)
    ensures
        toks@.map_values(|t: String| t@) == split_tabs(s@),
{
    let mut toks: Vec<String> = Vec::new();
    let mut rest: &str = s;
    proof {
        assert(toks@.map_values(|t: String| t@) + split_tabs(rest@) =~= split_tabs(s@));
    }
    loop
        invariant_except_break
            toks@.map_values(|t: String| t@) + split_tabs(rest@) == split_tabs(s@),
        ensures
            toks@.map_values(|t: String| t@) == split_tabs(s@),
        decreases rest@.len(),
    {
        let n = rest.unicode_len();
        let mut p: usize = 0;
        loop
            invariant
                n == rest@.len(),
                0 <= p <= n,
                forall|j: int| 0 <= j < p ==> rest@[j] != '\t',
            ensures
                0 <= p <= n,
                forall|j: int| 0 <= j < p ==> rest@[j] != '\t',
                p < n ==> rest@[p as int] == '\t',
            decreases n - p,
        {
            if p >= n {
                break;
            }
            if rest.get_char(p) == '\t' {
                break;
            }
            p = p + 1;
        }
        proof {
            text::lemma_char_pos_from_scan(rest@, '\t', p as int);
        }
        let ghost prev_toks = toks@;
        let ghost prev_rest = rest@;
        if p < n {
            let tok = rest.substring_char(0, p).to_owned();
            proof {
                assert(tok@ =~= prev_rest.take(p as int));
            }
            toks.push(tok);
            rest = rest.substring_char(p + 1, n);
            proof {
                assert(rest@ =~= prev_rest.skip(p as int + 1));
                assert(split_tabs(prev_rest) =~= seq![prev_rest.take(p as int)] + split_tabs(
                    rest@,
                ));
                assert(toks@.map_values(|t: String| t@) =~= prev_toks.map_values(
                    |t: String| t@,
                ).push(prev_rest.take(p as int)));
                assert(toks@.map_values(|t: String| t@) + split_tabs(rest@) =~= split_tabs(s@));
            }
        } else {
            let tok = rest.to_owned();
            toks.push(tok);
            proof {
                assert(split_tabs(prev_rest) =~= seq![prev_rest]);
                assert(toks@.map_values(|t: String| t@) =~= prev_toks.map_values(
                    |t: String| t@,
                ).push(prev_rest));
                assert(toks@.map_values(|t: String| t@) =~= split_tabs(s@));
            }
            break;
        }
    }
    toks
}

/// Extracts the four id slots of a credential field, substituting 0
/// for every missing or unparsable token.
pub fn field_ids(field: &str) -> (ids: Vec<u32>)
    ensures
        ids@.len() == 4,
        forall|i: int| 0 <= i < 4 ==> ids@[i] == slot_id(field@, i),
{
    let toks = split_tabs_exec(field);
    let mut ids: Vec<u32> = Vec::new();
    let mut k: usize = 0;
    while k < 4
        invariant
            toks@.map_values(|t: String| t@) == split_tabs(field@),
            ids@.len() == k <= 4,
            forall|i: int| 0 <= i < k ==> ids@[i] == slot_id(field@, i),
        decreases 4 - k,
    {
        let id: u32 = if k < toks.len() {
            proof {
                assert(toks@.map_values(|t: String| t@)[k as int] == toks@[k as int]@);
            }
            match parse_u32_digits(toks[k].as_str()) {
                Some(v) => v,
                None => 0,
            }
        } else {
            0
        };
        assert(id == slot_id(field@, k as int));
        ids.push(id);
        k = k + 1;
    }
    ids
}

/// One resolved id slot: the numeric id and its display name.
#[derive(Debug)]
pub struct Credential {
    pub id: u32,
    pub name: String,
}

/// The four id slots of one namespace — real, effective, saved-set,
/// filesystem — each id carrying a resolved display name. All four
/// slots are always present; an id the identity database does not know
/// carries the decimal placeholder.
#[derive(Debug)]
pub struct CredentialSet {
    pub real: Credential,
    pub effective: Credential,
    pub saved_set: Credential,
    pub file_system: Credential,
}

/// The decoded set a credential field owes against an identity table:
/// slot ids per the tolerant token policy, each name the table's
/// display name for its id.
pub open spec fn credential_set_matches(
    c: CredentialSet,
    field: Seq<char>,
    table: Map<u32, Seq<char>>,
) -> bool {
    &&& c.real.id == slot_id(field, 0)
    &&& c.effective.id == slot_id(field, 1)
    &&& c.saved_set.id == slot_id(field, 2)
    &&& c.file_system.id == slot_id(field, 3)
    &&& c.real.name@ == display_name(table, slot_id(field, 0))
    &&& c.effective.name@ == display_name(table, slot_id(field, 1))
    &&& c.saved_set.name@ == display_name(table, slot_id(field, 2))
    &&& c.file_system.name@ == display_name(table, slot_id(field, 3))
}

/// The four slot ids a credential field decodes to, in slot order.
pub open spec fn decode_slots(field: Seq<char>) -> Seq<u32> {
    seq![slot_id(field, 0), slot_id(field, 1), slot_id(field, 2), slot_id(field, 3)]
}

/// Decodes a credential field: the four slot ids under the tolerant
/// policy, each resolved through the shared cache. Decoding never
/// fails, and it queries the identity database exactly once per slot
/// id that was not cached when its turn came — in particular at most
/// once for an id that fills several slots.
pub fn decode(class: IdClass, field: &str, cache: &mut IdentityCache, lookup: &mut TableLookup) -> (c:
    CredentialSet)
    requires
        old(cache).consistent_with(*old(lookup)),
    ensures
        final(lookup).users() == old(lookup).users(),
        final(lookup).groups() == old(lookup).groups(),
        final(cache).consistent_with(*final(lookup)),
        forall|cl: IdClass| cl != class ==> final(cache).map_for(cl) == old(cache).map_for(cl),
        final(cache).map_for(class) == resolutions_map(
            old(cache).map_for(class),
            old(lookup).table(class),
            decode_slots(field@),
        ),
        final(lookup).queries() == old(lookup).queries() + resolutions_cost(
            old(cache).map_for(class),
            old(lookup).table(class),
            decode_slots(field@),
        ),
        credential_set_matches(c, field@, old(lookup).table(class)),
{
    let ghost m0 = old(cache).map_for(class);
    let ghost table = old(lookup).table(class);
    let ghost slots = decode_slots(field@);
    let ids = field_ids(field);
    let ghost c0 = resolve_cost(m0, slot_id(field@, 0));
    let real_name = resolve_or_placeholder(class, ids[0], cache, lookup);
    let ghost m1 = cache.map_for(class);
    let ghost c1 = resolve_cost(m1, slot_id(field@, 1));
    let effective_name = resolve_or_placeholder(class, ids[1], cache, lookup);
    let ghost m2 = cache.map_for(class);
    let ghost c2 = resolve_cost(m2, slot_id(field@, 2));
    let saved_set_name = resolve_or_placeholder(class, ids[2], cache, lookup);
    let ghost m3 = cache.map_for(class);
    let ghost c3 = resolve_cost(m3, slot_id(field@, 3));
    let file_system_name = resolve_or_placeholder(class, ids[3], cache, lookup);
    proof {
        let ids1 = slots.drop_first();
        let ids2 = ids1.drop_first();
        let ids3 = ids2.drop_first();
        assert(ids1 =~= seq![slot_id(field@, 1), slot_id(field@, 2), slot_id(field@, 3)]);
        assert(ids2 =~= seq![slot_id(field@, 2), slot_id(field@, 3)]);
        assert(ids3 =~= seq![slot_id(field@, 3)]);
        assert(ids3.drop_first() =~= Seq::<u32>::empty());
        assert(m1 == m0.insert(slot_id(field@, 0), cache_entry(table, slot_id(field@, 0))));
        assert(resolutions_map(m0, table, slots) == resolutions_map(m1, table, ids1));
        assert(resolutions_map(m1, table, ids1) == resolutions_map(m2, table, ids2));
        assert(resolutions_map(m2, table, ids2) == resolutions_map(m3, table, ids3));
        let m4 = m3.insert(slot_id(field@, 3), cache_entry(table, slot_id(field@, 3)));
        assert(resolutions_map(m3, table, ids3) == resolutions_map(m4, table, ids3.drop_first()));
        assert(resolutions_map(m4, table, ids3.drop_first()) == m4);
        assert(resolutions_cost(m4, table, ids3.drop_first()) == 0);
        assert(resolutions_cost(m0, table, slots) == c0 + resolutions_cost(m1, table, ids1));
        assert(resolutions_cost(m1, table, ids1) == c1 + resolutions_cost(m2, table, ids2));
        assert(resolutions_cost(m2, table, ids2) == c2 + resolutions_cost(m3, table, ids3));
        assert(resolutions_cost(m3, table, ids3) == c3);
    }
    CredentialSet {
        real: Credential { id: ids[0], name: real_name },
        effective: Credential { id: ids[1], name: effective_name },
        saved_set: Credential { id: ids[2], name: saved_set_name },
        file_system: Credential { id: ids[3], name: file_system_name },
    }
}

} // verus!
