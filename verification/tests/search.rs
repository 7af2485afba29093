use gb2260::Division;
use gb2260::Entry;
use gb2260::RevisionTable;
use gb2260::Store;

fn entry(code: &str, name: &str) -> Entry {
    Entry { code: code.to_string(), name: name.to_string() }
}

fn multi_store() -> Store {
    // The oldest table first, so that search has to rank by recency key
    // rather than by store order.
    let tables = vec![
        RevisionTable {
            id: "201607".to_string(),
            entries: vec![
                entry("110000", "北京市"),
                entry("330000", "浙江省"),
                entry("330100", "杭州市"),
            ],
        },
        RevisionTable {
            id: "202011".to_string(),
            entries: vec![entry("110000", "北京市"), entry("440000", "广东省")],
        },
        RevisionTable {
            id: "contrib-201801".to_string(),
            entries: vec![entry("110000", "北京市"), entry("120000", "天津市")],
        },
    ];
    Store::from_tables(tables).unwrap()
}

#[test]
fn search_picks_most_recent_revision() {
    let store = multi_store();
    // Present in every revision: the one with the greatest key wins.
    let d = Division::search(&store, "110000").unwrap();
    assert_eq!(d.revision, "202011");
    // Present only in the oldest revision.
    let d = Division::search(&store, "330100").unwrap();
    assert_eq!(d.revision, "201607");
    assert_eq!(d.name, "杭州市");
    // Present only in the hyphenated revision, whose key is the part after
    // the hyphen.
    let d = Division::search(&store, "120000").unwrap();
    assert_eq!(d.revision, "contrib-201801");
}

#[test]
fn search_agrees_with_get_on_current_revision() {
    let store = multi_store();
    let by_search = Division::search(&store, "110000").unwrap();
    let by_get = Division::get(&store, "110000").unwrap();
    assert_eq!(by_search, by_get);
}

#[test]
fn hyphenated_key_ranks_by_suffix() {
    // "contrib-209901" would outrank "202011" because only the suffix counts.
    let tables = vec![
        RevisionTable {
            id: "202011".to_string(),
            entries: vec![entry("110000", "北京市")],
        },
        RevisionTable {
            id: "contrib-209901".to_string(),
            entries: vec![entry("110000", "北京")],
        },
    ];
    let store = Store::from_tables(tables).unwrap();
    let d = Division::search(&store, "110000").unwrap();
    assert_eq!(d.revision, "contrib-209901");
    assert_eq!(d.name, "北京");
}

#[test]
fn revisions_lists_store_order() {
    let store = multi_store();
    let revs = Division::revisions(&store);
    assert_eq!(
        revs,
        vec![
            "201607".to_string(),
            "202011".to_string(),
            "contrib-201801".to_string(),
        ]
    );
}
