use proclist::enumerate::enumerate;
use proclist::enumerate::process_info;
use proclist::enumerate::DirEntry;
use proclist::identity::IdClass;
use proclist::identity::IdentityCache;
use proclist::identity::TableLookup;
use proclist::ProcError;

fn root_table() -> TableLookup {
    let mut t = TableLookup::new();
    t.insert(IdClass::User, 0, String::from("root"));
    t.insert(IdClass::Group, 0, String::from("root"));
    t
}

fn entry(name: &str, is_dir: bool, status: Option<&str>) -> DirEntry {
    DirEntry {
        name: String::from(name),
        is_dir,
        status: status.map(String::from),
    }
}

#[test]
fn unreadable_root_is_fatal() {
    let mut lookup = root_table();
    let r = enumerate(None, &mut lookup);
    assert_eq!(r.unwrap_err(), ProcError::RootUnreadable);
}

#[test]
fn empty_root_yields_no_records() {
    let mut lookup = root_table();
    let r = enumerate(Some(Vec::new()), &mut lookup).unwrap();
    assert_eq!(r.len(), 0);
}

#[test]
fn mock_root_end_to_end() {
    let mut lookup = root_table();
    let entries = vec![
        entry("1", true, Some("Uid:\t0\t0\t0\t0\nGid:\t0\t0\t0\t0\n")),
        entry("self", true, Some("Uid:\t0\t0\t0\t0\nGid:\t0\t0\t0\t0\n")),
        entry("2", true, None),
    ];
    let records = enumerate(Some(entries), &mut lookup).unwrap();
    assert_eq!(records.len(), 1);
    let r = &records[0];
    assert_eq!(r.pid, 1);
    assert_eq!(r.user_ids.real.id, 0);
    assert_eq!(r.user_ids.effective.id, 0);
    assert_eq!(r.user_ids.saved_set.id, 0);
    assert_eq!(r.user_ids.file_system.id, 0);
    assert_eq!(r.user_ids.real.name.as_str(), "root");
    assert_eq!(r.user_ids.effective.name.as_str(), "root");
    assert_eq!(r.user_ids.saved_set.name.as_str(), "root");
    assert_eq!(r.user_ids.file_system.name.as_str(), "root");
    assert_eq!(r.group_ids.real.name.as_str(), "root");
    assert_eq!(r.group_ids.effective.name.as_str(), "root");
    assert_eq!(r.group_ids.saved_set.name.as_str(), "root");
    assert_eq!(r.group_ids.file_system.name.as_str(), "root");
}

#[test]
fn non_directories_and_bad_names_are_skipped() {
    let mut lookup = root_table();
    let entries = vec![
        entry("cmdline", false, Some("Uid:\t0\t0\t0\t0\n")),
        entry("007", true, Some("Uid:\t0\t0\t0\t0\n")),
        entry("-3", true, Some("Uid:\t0\t0\t0\t0\n")),
        entry("12", true, Some("Uid:\t0\t0\t0\t0\nGid:\t0\t0\t0\t0\n")),
    ];
    let records = enumerate(Some(entries), &mut lookup).unwrap();
    assert_eq!(records.len(), 1);
    assert_eq!(records[0].pid, 12);
}

#[test]
fn listing_order_is_preserved() {
    let mut lookup = root_table();
    let status = "Uid:\t0\t0\t0\t0\nGid:\t0\t0\t0\t0\n";
    let entries = vec![
        entry("30", true, Some(status)),
        entry("4", true, Some(status)),
        entry("200", true, Some(status)),
    ];
    let records = enumerate(Some(entries), &mut lookup).unwrap();
    let pids: Vec<u64> = records.iter().map(|r| r.pid).collect();
    assert_eq!(pids, vec![30, 4, 200]);
}

#[test]
fn record_keeps_raw_fields() {
    let mut lookup = root_table();
    let mut cache = IdentityCache::new();
    let r = process_info(
        9,
        "Name:\tbash\nUid:\t0\t0\t0\t0\nGid:\t0\t0\t0\t0\n",
        &mut cache,
        &mut lookup,
    );
    assert_eq!(r.pid, 9);
    assert_eq!(r.raw_fields.get("Name").unwrap().as_str(), "bash");
    assert_eq!(r.raw_fields.get("Uid").unwrap().as_str(), "0\t0\t0\t0");
}

#[test]
fn missing_credential_fields_default_to_zero() {
    let mut lookup = root_table();
    let mut cache = IdentityCache::new();
    let r = process_info(5, "Name:\tkthreadd\n", &mut cache, &mut lookup);
    assert_eq!(r.user_ids.real.id, 0);
    assert_eq!(r.user_ids.real.name.as_str(), "root");
    assert_eq!(r.group_ids.file_system.id, 0);
    assert_eq!(r.group_ids.file_system.name.as_str(), "root");
}

#[test]
fn unknown_ids_render_as_decimal_placeholders() {
    let mut lookup = root_table();
    let entries = vec![entry(
        "77",
        true,
        Some("Uid:\t1234\t1234\t1234\t1234\nGid:\t0\t0\t0\t0\n"),
    )];
    let records = enumerate(Some(entries), &mut lookup).unwrap();
    assert_eq!(records[0].user_ids.real.id, 1234);
    assert_eq!(records[0].user_ids.real.name.as_str(), "1234");
    assert_eq!(records[0].group_ids.real.name.as_str(), "root");
}
