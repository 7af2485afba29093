use gb2260::Division;
use gb2260::Entry;
use gb2260::RevisionTable;
use gb2260::Store;

fn entry(code: &str, name: &str) -> Entry {
    Entry { code: code.to_string(), name: name.to_string() }
}

fn sample_store() -> Store {
    let tables = vec![RevisionTable {
        id: "202011".to_string(),
        entries: vec![
            entry("110000", "北京市"),
            entry("110100", "市辖区"),
            entry("110101", "东城区"),
            entry("440000", "广东省"),
            entry("440100", "广州市"),
            entry("440115", "南沙区"),
        ],
    }];
    Store::from_tables(tables).unwrap()
}

#[test]
fn test_division() {
    let store = sample_store();

    let division = Division::get(&store, "440000").unwrap();
    assert_eq!(division.code, "440000");
    assert_eq!(division.name, "广东省");
    assert_eq!(division.revision, "202011");
    assert!(division.is_province(&store));
    assert!(!division.is_prefecture(&store));
    assert!(!division.is_county(&store));
    assert_eq!(division.stack(&store).len(), 1);

    let division = Division::get(&store, "440100").unwrap();
    assert_eq!(division.code, "440100");
    assert_eq!(division.name, "广州市");
    assert_eq!(division.revision, "202011");
    assert!(!division.is_province(&store));
    assert!(division.is_prefecture(&store));
    assert!(!division.is_county(&store));
    assert_eq!(division.stack(&store).len(), 2);

    let division = Division::get(&store, "440115").unwrap();
    assert_eq!(division.code, "440115");
    assert_eq!(division.name, "南沙区");
    assert_eq!(division.revision, "202011");
    assert!(!division.is_province(&store));
    assert!(!division.is_prefecture(&store));
    assert!(division.is_county(&store));
    assert_eq!(division.stack(&store).len(), 3);

    let division_search = Division::search(&store, "110000").unwrap();
    let division_get = Division::get(&store, "110000").unwrap();
    assert_eq!(division_search, division_get);
}

#[test]
fn province_scenario() {
    let store = sample_store();
    let d = Division::get(&store, "110000").unwrap();
    assert_eq!(d.code, "110000");
    assert_eq!(d.name, "北京市");
    assert!(d.is_province(&store));
    assert_eq!(d.stack(&store).len(), 1);
    let stack = d.stack(&store);
    assert_eq!(stack[0], d);
}

#[test]
fn prefecture_scenario() {
    let store = sample_store();
    let d = Division::get(&store, "110100").unwrap();
    assert_eq!(d.name, "市辖区");
    assert!(d.is_prefecture(&store));
    assert!(!d.is_province(&store));
    assert!(!d.is_county(&store));
    let stack = d.stack(&store);
    assert_eq!(stack.len(), 2);
    assert_eq!(stack[0], Division::get(&store, "110000").unwrap());
    assert_eq!(stack[1], d);
}

#[test]
fn county_scenario() {
    let store = sample_store();
    let d = Division::get(&store, "110101").unwrap();
    assert!(d.is_county(&store));
    assert!(d.county(&store).is_some());
    assert_eq!(d.county(&store).unwrap(), &d);
    let province = d.province(&store);
    assert_eq!(province, Division::get(&store, "110000").unwrap());
    let prefecture = d.prefecture(&store).unwrap();
    assert_eq!(prefecture, Division::get(&store, "110100").unwrap());
    let stack = d.stack(&store);
    assert_eq!(stack.len(), 3);
    assert_eq!(stack[0], Division::get(&store, "110000").unwrap());
    assert_eq!(stack[1], prefecture);
    assert_eq!(stack[2], d);
}

#[test]
fn absent_code_is_a_miss() {
    let store = sample_store();
    assert!(Division::get_by_revision(&store, "999999", "202011").is_none());
    assert!(Division::get(&store, "999999").is_none());
    assert!(Division::get_by_revision(&store, "110000", "190001").is_none());
    assert!(Division::search(&store, "999999").is_none());
}

#[test]
fn province_of_province_is_itself() {
    let store = sample_store();
    let d = Division::get(&store, "440115").unwrap();
    let p = d.province(&store);
    let pp = p.province(&store);
    assert_eq!(p, pp);
}

#[test]
fn revisions_all_resolve() {
    let store = sample_store();
    let revs = Division::revisions(&store);
    assert!(!revs.is_empty());
    assert_eq!(revs, vec!["202011".to_string()]);
    for rev in revs {
        assert!(Division::get_by_revision(&store, "110000", &rev).is_some());
    }
}
