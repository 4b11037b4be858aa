use guild_forge::localization::StringTable;

fn table() -> StringTable {
    StringTable::from_ron(
        r#"{
            "test.probe": "probe value",
            "test.greet": "Hello {name}, you have {n} quests",
        }"#,
    )
    .unwrap()
}

#[test]
fn table_parses_and_lookup_works() {
    assert_eq!(table().tr("test.probe"), "probe value");
}

#[test]
fn missing_key_returns_key() {
    assert_eq!(table().tr("no.such.key"), "no.such.key");
}

#[test]
fn trf_interpolates() {
    assert_eq!(
        table().trf("test.greet", &[("name", "Sera"), ("n", "3")]),
        "Hello Sera, you have 3 quests"
    );
}

#[test]
fn malformed_table_is_refused() {
    assert!(StringTable::from_ron("[1, 2").is_err());
}

#[test]
fn trf_replaces_every_occurrence_and_leaves_unknown_placeholders() {
    let t = StringTable::from_ron(r#"{"k": "{a}-{a}-{b}"}"#).unwrap();
    assert_eq!(t.trf("k", &[("a", "x")]), "x-x-{b}");
}
