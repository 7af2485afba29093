use gb2260::str_eq;
use gb2260::tabular::parse_table;
use gb2260::Division;
use gb2260::RevisionTable;
use gb2260::Store;

#[test]
fn parse_table_reads_third_and_fourth_columns() {
    let content = "seq\tsource\tcode\tname\n1\tmca\t110000\t北京市\n2\tmca\t110101\t东城区\n";
    let entries = parse_table(content).unwrap();
    assert_eq!(entries.len(), 2);
    assert_eq!(entries[0].code, "110000");
    assert_eq!(entries[0].name, "北京市");
    assert_eq!(entries[1].code, "110101");
    assert_eq!(entries[1].name, "东城区");
}

#[test]
fn parse_table_strips_carriage_returns() {
    let content = "h1\th2\th3\th4\r\n1\tmca\t440000\t广东省\r\n";
    let entries = parse_table(content).unwrap();
    assert_eq!(entries.len(), 1);
    assert_eq!(entries[0].code, "440000");
    assert_eq!(entries[0].name, "广东省");
}

#[test]
fn parse_table_without_final_newline() {
    let content = "h1\th2\th3\th4\n1\tmca\t440000\t广东省";
    let entries = parse_table(content).unwrap();
    assert_eq!(entries.len(), 1);
    assert_eq!(entries[0].name, "广东省");
}

#[test]
fn parse_table_refuses_short_rows() {
    let content = "h1\th2\th3\th4\n1\tmca\t440000\n";
    assert!(parse_table(content).is_none());
}

#[test]
fn parse_table_of_header_alone_is_empty() {
    assert_eq!(parse_table("h1\th2\th3\th4\n").unwrap().len(), 0);
    assert_eq!(parse_table("").unwrap().len(), 0);
}

#[test]
fn parsed_table_feeds_the_store() {
    let content = "seq\tsource\tcode\tname\n1\tmca\t110000\t北京市\n2\tmca\t110100\t市辖区\n";
    let entries = parse_table(content).unwrap();
    let store = Store::from_tables(vec![RevisionTable {
        id: "202011".to_string(),
        entries,
    }])
    .unwrap();
    let d = Division::get(&store, "110100").unwrap();
    assert_eq!(d.name, "市辖区");
    assert!(d.is_prefecture(&store));
}

#[test]
fn str_eq_compares_by_characters() {
    assert!(str_eq("110000", "110000"));
    assert!(!str_eq("110000", "110001"));
    assert!(!str_eq("110000", "11000"));
    assert!(str_eq("", ""));
    assert!(str_eq("北京", "北京"));
    assert!(!str_eq("北京", "北京市"));
}
