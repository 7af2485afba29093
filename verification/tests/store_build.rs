use gb2260::Entry;
use gb2260::RevisionTable;
use gb2260::Store;

fn entry(code: &str, name: &str) -> Entry {
    Entry { code: code.to_string(), name: name.to_string() }
}

fn table(id: &str, entries: Vec<Entry>) -> RevisionTable {
    RevisionTable { id: id.to_string(), entries }
}

#[test]
fn empty_dataset_is_refused() {
    assert!(Store::from_tables(vec![]).is_none());
}

#[test]
fn empty_table_is_refused() {
    assert!(Store::from_tables(vec![table("202011", vec![])]).is_none());
}

#[test]
fn short_code_is_refused() {
    let t = table("202011", vec![entry("11000", "北京市")]);
    assert!(Store::from_tables(vec![t]).is_none());
}

#[test]
fn non_digit_code_is_refused() {
    let t = table("202011", vec![entry("11000a", "北京市")]);
    assert!(Store::from_tables(vec![t]).is_none());
}

#[test]
fn duplicate_code_is_refused() {
    let t = table(
        "202011",
        vec![entry("110000", "北京市"), entry("110000", "北京")],
    );
    assert!(Store::from_tables(vec![t]).is_none());
}

#[test]
fn missing_province_row_is_refused() {
    let t = table("202011", vec![entry("110101", "东城区")]);
    assert!(Store::from_tables(vec![t]).is_none());
}

#[test]
fn duplicate_revision_is_refused() {
    let a = table("202011", vec![entry("110000", "北京市")]);
    let b = table("202011", vec![entry("440000", "广东省")]);
    assert!(Store::from_tables(vec![a, b]).is_none());
}

#[test]
fn keyless_revision_is_refused() {
    // Two hyphens leave no plain numeric key.
    let t = table("20-10-1", vec![entry("110000", "北京市")]);
    assert!(Store::from_tables(vec![t]).is_none());
    // An empty suffix after the hyphen is no key either.
    let t = table("2020-", vec![entry("110000", "北京市")]);
    assert!(Store::from_tables(vec![t]).is_none());
    // A key too large for a 32-bit count is refused.
    let t = table("99999999999", vec![entry("110000", "北京市")]);
    assert!(Store::from_tables(vec![t]).is_none());
}

#[test]
fn consistent_dataset_is_admitted() {
    let t = table(
        "2020-11",
        vec![
            entry("110000", "北京市"),
            entry("110100", "市辖区"),
            entry("110101", "东城区"),
        ],
    );
    let store = Store::from_tables(vec![t]).unwrap();
    let d = gb2260::Division::get_by_revision(&store, "110101", "2020-11").unwrap();
    assert_eq!(d.name, "东城区");
    assert_eq!(d.revision, "2020-11");
}
