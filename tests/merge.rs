use hollowknight_autosplit::commit::SettingsStore;
use hollowknight_autosplit::document::XMLSettings;
use hollowknight_autosplit::merge::{settings_map_merge, settings_value_merge};
use hollowknight_autosplit::object::SettingsObject;
use hollowknight_autosplit::settings::Settings;
use hollowknight_autosplit::store::{SettingsMap, SettingsValue};

fn text(s: &str) -> SettingsValue {
    SettingsValue::Str(s.to_string())
}

fn texts(items: &[&str]) -> SettingsValue {
    SettingsValue::List(items.iter().map(|s| text(s)).collect())
}

fn map_of(entries: Vec<(&str, SettingsValue)>) -> SettingsMap {
    let mut m = SettingsMap::new();
    for (k, v) in entries {
        m.insert(k, v);
    }
    m
}

fn doc(xml: &str, list_items: &[(&str, &str)]) -> XMLSettings {
    XMLSettings::from_xml_string(xml, list_items).unwrap()
}

#[test]
fn end_to_end_splits_replaced_theme_kept() {
    let start = map_of(vec![("Splits", texts(&["StartNewGame"])), ("Theme", text("dark"))]);
    let mut store = SettingsStore::new(start);
    let d = doc(
        "<Splits><Split>StartNewGame</Split><Split>Menu</Split><Split>EndingSplit</Split></Splits>",
        &[("Splits", "Split")],
    );
    let r = SettingsObject::load_merge_store(&mut store, &d, &["Splits"], &[]).unwrap();
    let expected = map_of(vec![
        ("Splits", texts(&["StartNewGame", "Menu", "EndingSplit"])),
        ("Theme", text("dark")),
    ]);
    assert_eq!(r, SettingsObject::Dict(expected));
    let now = SettingsObject::load(&store);
    assert_eq!(now, r);
}

#[test]
fn commit_race_one_wins_other_retries() {
    let mut store = SettingsStore::new(map_of(vec![("Theme", text("dark"))]));
    let d1 = doc("<Theme>light</Theme>", &[]);
    let d2 = doc("<Mode>fast</Mode>", &[]);
    let first = store.load();
    let second = store.load();
    let m1 = settings_map_merge(Some(first.map.copy()), &d1, &["Theme"], &[]);
    let m2 = settings_map_merge(Some(second.map.copy()), &d2, &["Mode"], &[]);
    assert!(store.store_if_unchanged(&first, m1));
    assert!(!store.store_if_unchanged(&second, m2));
    assert_eq!(SettingsObject::load(&store), SettingsObject::Dict(map_of(vec![("Theme", text("light"))])));
    let retry = SettingsObject::load_merge_store(&mut store, &d2, &["Mode"], &[]).unwrap();
    let expected = map_of(vec![("Theme", text("light")), ("Mode", text("fast"))]);
    assert_eq!(retry, SettingsObject::Dict(expected));
}

#[test]
fn wait_load_merge_store_commits() {
    let mut store = SettingsStore::new(SettingsMap::new());
    let d = doc("<Theme>dark</Theme>", &[]);
    let r = SettingsObject::wait_load_merge_store(&mut store, &d, &["Theme"], &[]);
    assert_eq!(r, SettingsObject::Dict(map_of(vec![("Theme", text("dark"))])));
    assert_eq!(SettingsObject::load(&store), r);
}

#[test]
fn unlisted_keys_are_preserved() {
    let old = map_of(vec![
        ("Theme", text("dark")),
        ("Volume", SettingsValue::Bool(true)),
        ("Splits", texts(&["Menu"])),
    ]);
    let d = doc("<Theme>light</Theme><Volume>False</Volume><Splits/>", &[("Splits", "Split")]);
    let merged = settings_map_merge(Some(old), &d, &["Splits"], &[]);
    assert_eq!(merged.get("Theme"), Some(&text("dark")));
    assert_eq!(merged.get("Volume"), Some(&SettingsValue::Bool(true)));
    assert_eq!(merged.get("Splits"), Some(&text("")));
    assert_eq!(merged.len(), 3);
}

#[test]
fn merging_twice_changes_nothing() {
    let old = map_of(vec![("Theme", text("dark")), ("Splits", texts(&["Menu", "Lurien"]))]);
    let d = doc(
        "<Splits><Split>StartNewGame</Split><Split>EndingSplit</Split></Splits><Opts><Fast>True</Fast></Opts>",
        &[("Splits", "Split")],
    );
    let keys = ["Splits", "Opts", "Fast"];
    let once = settings_map_merge(Some(old), &d, &keys, &[]);
    let twice = settings_map_merge(Some(once.copy()), &d, &keys, &[]);
    assert_eq!(once, twice);
    let opts = map_of(vec![("Fast", SettingsValue::Bool(true))]);
    assert_eq!(once.get("Opts"), Some(&SettingsValue::Dict(opts)));
}

#[test]
fn true_and_false_text_merge_as_booleans() {
    let d = doc("<A>True</A><B> False </B><C>true</C>", &[("A", "A"), ("B", "B"), ("C", "C")]);
    let merged = settings_map_merge(None, &d, &["A", "B", "C"], &["A", "B", "C"]);
    assert_eq!(merged.get("A"), Some(&SettingsValue::Bool(true)));
    assert_eq!(merged.get("B"), Some(&SettingsValue::Bool(false)));
    assert_eq!(merged.get("C"), Some(&text("true")));
}

fn named(name: &str, extra: &str) -> SettingsValue {
    SettingsValue::Dict(map_of(vec![("Name", text(name)), ("Extra", text(extra))]))
}

#[test]
fn same_length_list_merges_element_by_element() {
    let old = SettingsValue::List(vec![named("a", "x"), named("b", "y"), named("c", "z")]);
    let d = doc(
        "<L><I><Name>p</Name></I><I><Name>q</Name></I><I><Name>r</Name></I></L>",
        &[("L", "I")],
    );
    let l = d.dict_get("L").unwrap();
    let r = settings_value_merge(Some(old), &l, &["Name"], &[]);
    assert_eq!(r, SettingsValue::List(vec![named("p", "x"), named("q", "y"), named("r", "z")]));
}

fn fresh(name: &str) -> SettingsValue {
    SettingsValue::Dict(map_of(vec![("Name", text(name))]))
}

#[test]
fn shorter_list_is_built_afresh() {
    let old = SettingsValue::List(vec![named("a", "x"), named("b", "y"), named("c", "z")]);
    let d = doc("<L><I><Name>p</Name></I><I><Name>q</Name></I></L>", &[("L", "I")]);
    let l = d.dict_get("L").unwrap();
    let r = settings_value_merge(Some(old), &l, &["Name"], &[]);
    assert_eq!(r, SettingsValue::List(vec![fresh("p"), fresh("q")]));
}

#[test]
fn longer_list_is_built_afresh() {
    let old = SettingsValue::List(vec![named("a", "x"), named("b", "y"), named("c", "z")]);
    let d = doc(
        "<L><I><Name>p</Name></I><I><Name>q</Name></I><I><Name>r</Name></I><I><Name>s</Name></I></L>",
        &[("L", "I")],
    );
    let l = d.dict_get("L").unwrap();
    let r = settings_value_merge(Some(old), &l, &["Name"], &[]);
    assert_eq!(r, SettingsValue::List(vec![fresh("p"), fresh("q"), fresh("r"), fresh("s")]));
}

#[test]
fn node_with_a_key_child_merges_as_map() {
    let d = doc("<L><I>one</I><Name>n</Name></L>", &[("L", "I")]);
    let l = d.dict_get("L").unwrap();
    assert!(l.as_list().is_some());
    let r = settings_value_merge(None, &l, &["Name"], &[]);
    assert_eq!(r, SettingsValue::Dict(map_of(vec![("Name", text("n"))])));
}

#[test]
fn hint_child_is_unwrapped() {
    let d = doc("<L><I><Split>Menu</Split></I><I><Split>Lurien</Split></I></L>", &[("L", "I")]);
    let l = d.dict_get("L").unwrap();
    let r = settings_value_merge(None, &l, &["L"], &["Split"]);
    assert_eq!(r, texts(&["Menu", "Lurien"]));
    let bare = settings_value_merge(None, &l, &["L"], &[]);
    assert_eq!(bare, SettingsValue::List(vec![SettingsValue::Dict(SettingsMap::new()), SettingsValue::Dict(SettingsMap::new())]));
}

#[test]
fn index_keyed_child_is_unwrapped() {
    let new = SettingsObject::Value(SettingsValue::List(vec![
        SettingsValue::Dict(map_of(vec![("0", text("a"))])),
        SettingsValue::Dict(map_of(vec![("1", text("b"))])),
        text("c"),
    ]));
    let r = settings_value_merge(None, &new, &[], &[]);
    assert_eq!(r, texts(&["a", "b", "c"]));
}

#[test]
fn positional_map_document_merges_as_list() {
    let new = SettingsObject::Dict(map_of(vec![("0", text("x")), ("1", text("y"))]));
    let r = settings_value_merge(Some(text("old")), &new, &["0"], &[]);
    assert_eq!(r, texts(&["x", "y"]));
}

#[test]
fn empty_element_merges_as_empty_string() {
    let d = doc("<Theme/>", &[]);
    let old = map_of(vec![("Theme", texts(&["a"]))]);
    let merged = settings_map_merge(Some(old), &d, &["Theme"], &[]);
    assert_eq!(merged.get("Theme"), Some(&text("")));
}

#[test]
fn nested_map_merge_keeps_old_entries() {
    let inner = map_of(vec![("Fast", SettingsValue::Bool(false)), ("Keep", text("k"))]);
    let old = map_of(vec![("Opts", SettingsValue::Dict(inner))]);
    let d = doc("<Opts><Fast>True</Fast><Other>o</Other></Opts>", &[]);
    let merged = settings_map_merge(Some(old), &d, &["Opts", "Fast"], &[]);
    let expected = map_of(vec![("Fast", SettingsValue::Bool(true)), ("Keep", text("k"))]);
    assert_eq!(merged.get("Opts"), Some(&SettingsValue::Dict(expected)));
}

#[test]
fn missing_key_in_document_leaves_store() {
    let old = map_of(vec![("Splits", texts(&["Menu"]))]);
    let d = doc("<Other>x</Other>", &[]);
    let merged = settings_map_merge(Some(old), &d, &["Splits"], &[]);
    assert_eq!(merged, map_of(vec![("Splits", texts(&["Menu"]))]));
}
