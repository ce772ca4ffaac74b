use translate::language::{LanguageEntry, LanguageTable, MAX_LABEL_CHARS};

fn entry(code: &str, name: &str) -> LanguageEntry {
    LanguageEntry::new(code, name)
}

#[test]
fn standard_table_holds_english_and_ukrainian() {
    let table = LanguageTable::standard();
    assert_eq!(table.len(), 2);
    let entries = table.entries();
    assert_eq!(entries[0].code, "en");
    assert_eq!(entries[0].name, "English");
    assert_eq!(entries[1].code, "uk");
    assert_eq!(entries[1].name, "Ukrainian");
}

#[test]
fn table_keeps_the_order_of_its_entries() {
    let table = LanguageTable::new(vec![entry("uk", "Ukrainian"), entry("de", "German"), entry("en", "English")])
        .unwrap();
    let codes: Vec<&str> = table.entries().iter().map(|e| e.code.as_str()).collect();
    assert_eq!(codes, vec!["uk", "de", "en"]);
}

#[test]
fn empty_table_is_a_table() {
    let table = LanguageTable::new(Vec::new()).unwrap();
    assert_eq!(table.len(), 0);
    assert_eq!(table.display_name("en"), None);
}

#[test]
fn duplicate_codes_are_refused() {
    assert!(LanguageTable::new(vec![entry("en", "English"), entry("en", "Anglais")]).is_none());
    assert!(LanguageTable::new(vec![
        entry("en", "English"),
        entry("uk", "Ukrainian"),
        entry("de", "German"),
        entry("uk", "Other"),
    ])
    .is_none());
}

#[test]
fn equal_names_are_accepted() {
    assert!(LanguageTable::new(vec![entry("zh-CN", "Chinese"), entry("zh-TW", "Chinese")]).is_some());
}

#[test]
fn codes_differing_in_case_are_distinct() {
    assert!(LanguageTable::new(vec![entry("en", "English"), entry("EN", "English")]).is_some());
}

#[test]
fn overlong_labels_are_refused() {
    let long = "x".repeat(MAX_LABEL_CHARS + 1);
    let longest = "x".repeat(MAX_LABEL_CHARS);
    assert!(LanguageTable::new(vec![entry(&long, "Name")]).is_none());
    assert!(LanguageTable::new(vec![entry("xx", &long)]).is_none());
    assert!(LanguageTable::new(vec![entry(&longest, &longest)]).is_some());
}

#[test]
fn label_length_is_counted_in_characters() {
    let name = "я".repeat(MAX_LABEL_CHARS);
    assert!(name.len() > MAX_LABEL_CHARS);
    assert!(LanguageTable::new(vec![entry("ua", &name)]).is_some());
}

#[test]
fn display_name_of_a_code() {
    let table = LanguageTable::standard();
    assert_eq!(table.display_name("en"), Some("English"));
    assert_eq!(table.display_name("uk"), Some("Ukrainian"));
    assert_eq!(table.display_name("de"), None);
    assert_eq!(table.display_name("EN"), None);
    assert_eq!(table.display_name(""), None);
    assert_eq!(table.display_name("English"), None);
}
