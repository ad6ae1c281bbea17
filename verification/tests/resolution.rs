use proclist::cred::decode;
use proclist::cred::field_ids;
use proclist::identity::resolve;
use proclist::identity::resolve_or_placeholder;
use proclist::identity::IdClass;
use proclist::identity::IdentityCache;
use proclist::identity::TableLookup;
use proclist::ProcError;

fn sample_table() -> TableLookup {
    let mut t = TableLookup::new();
    t.insert(IdClass::User, 0, String::from("root"));
    t.insert(IdClass::User, 1000, String::from("alice"));
    t.insert(IdClass::Group, 0, String::from("root"));
    t.insert(IdClass::Group, 1000, String::from("staff"));
    t
}

#[test]
fn table_membership_and_query() {
    let mut t = TableLookup::new();
    assert!(!t.contains(IdClass::User, 0));
    t.insert(IdClass::User, 0, String::from("root"));
    assert!(t.contains(IdClass::User, 0));
    assert!(!t.contains(IdClass::Group, 0));
    t.insert(IdClass::Group, 100, String::from("users"));
    assert_eq!(t.query(IdClass::Group, 100).unwrap().as_str(), "users");
    assert!(t.query(IdClass::User, 100).is_none());
}

#[test]
fn resolve_known_id() {
    let mut lookup = sample_table();
    let mut cache = IdentityCache::new();
    let name = resolve(IdClass::User, 1000, &mut cache, &mut lookup).unwrap();
    assert_eq!(name.as_str(), "alice");
    let gname = resolve(IdClass::Group, 1000, &mut cache, &mut lookup).unwrap();
    assert_eq!(gname.as_str(), "staff");
}

#[test]
fn resolve_twice_returns_identical_name() {
    let mut lookup = sample_table();
    let mut cache = IdentityCache::new();
    let first = resolve(IdClass::User, 1000, &mut cache, &mut lookup).unwrap();
    let second = resolve(IdClass::User, 1000, &mut cache, &mut lookup).unwrap();
    assert_eq!(first, second);
}

#[test]
fn unknown_id_is_signaled() {
    let mut lookup = sample_table();
    let mut cache = IdentityCache::new();
    let r = resolve(IdClass::User, 4242, &mut cache, &mut lookup);
    assert_eq!(r, Err(ProcError::UnknownIdentity));
    let again = resolve(IdClass::User, 4242, &mut cache, &mut lookup);
    assert_eq!(again, Err(ProcError::UnknownIdentity));
}

#[test]
fn unknown_id_gets_decimal_placeholder() {
    let mut lookup = sample_table();
    let mut cache = IdentityCache::new();
    let name = resolve_or_placeholder(IdClass::Group, 65534, &mut cache, &mut lookup);
    assert_eq!(name.as_str(), "65534");
}

#[test]
fn classes_resolve_independently() {
    let mut lookup = TableLookup::new();
    lookup.insert(IdClass::User, 7, String::from("seven"));
    let mut cache = IdentityCache::new();
    assert_eq!(
        resolve(IdClass::User, 7, &mut cache, &mut lookup).unwrap().as_str(),
        "seven"
    );
    assert_eq!(
        resolve(IdClass::Group, 7, &mut cache, &mut lookup),
        Err(ProcError::UnknownIdentity)
    );
}

#[test]
fn field_ids_all_four_tokens() {
    let ids = field_ids("1000\t1000\t1000\t1000");
    assert_eq!(ids, vec![1000, 1000, 1000, 1000]);
}

#[test]
fn field_ids_missing_tokens_default_to_zero() {
    assert_eq!(field_ids("0\t1000"), vec![0, 1000, 0, 0]);
    assert_eq!(field_ids(""), vec![0, 0, 0, 0]);
    assert_eq!(field_ids("5"), vec![5, 0, 0, 0]);
}

#[test]
fn field_ids_bad_tokens_default_to_zero() {
    assert_eq!(field_ids("x\t1000\t-3\t99999999999"), vec![0, 1000, 0, 0]);
}

#[test]
fn decode_full_field() {
    let mut lookup = sample_table();
    let mut cache = IdentityCache::new();
    let c = decode(IdClass::User, "1000\t1000\t1000\t1000", &mut cache, &mut lookup);
    assert_eq!(c.real.id, 1000);
    assert_eq!(c.effective.id, 1000);
    assert_eq!(c.saved_set.id, 1000);
    assert_eq!(c.file_system.id, 1000);
    assert_eq!(c.real.name.as_str(), "alice");
    assert_eq!(c.effective.name.as_str(), "alice");
    assert_eq!(c.saved_set.name.as_str(), "alice");
    assert_eq!(c.file_system.name.as_str(), "alice");
}

#[test]
fn decode_short_field() {
    let mut lookup = sample_table();
    let mut cache = IdentityCache::new();
    let c = decode(IdClass::User, "0\t1000", &mut cache, &mut lookup);
    assert_eq!(c.real.id, 0);
    assert_eq!(c.effective.id, 1000);
    assert_eq!(c.saved_set.id, 0);
    assert_eq!(c.file_system.id, 0);
    assert_eq!(c.real.name.as_str(), "root");
    assert_eq!(c.effective.name.as_str(), "alice");
    assert_eq!(c.saved_set.name.as_str(), "root");
    assert_eq!(c.file_system.name.as_str(), "root");
}
