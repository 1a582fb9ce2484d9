use hollowknight_autosplit::object::SettingsObject;
use hollowknight_autosplit::settings::Settings;
use hollowknight_autosplit::store::{copy_value, SettingsMap, SettingsValue};
use hollowknight_autosplit::text::{index_key, parse_flag};

fn text(s: &str) -> SettingsValue {
    SettingsValue::Str(s.to_string())
}

#[test]
fn positional_map_stops_at_first_gap() {
    let mut m = SettingsMap::new();
    m.insert("0", text("x"));
    m.insert("1", text("y"));
    let l = SettingsObject::Dict(m.copy()).as_list().unwrap();
    assert_eq!(l.len(), 2);
    assert_eq!(l[1], SettingsObject::Value(text("y")));
    m.insert("3", text("z"));
    let l2 = SettingsObject::Dict(m).as_list().unwrap();
    assert_eq!(l2.len(), 2);
}

#[test]
fn empty_map_is_an_empty_list() {
    let l = SettingsObject::Dict(SettingsMap::new()).as_list();
    assert_eq!(l, Some(vec![]));
    let v = SettingsObject::Value(SettingsValue::Dict(SettingsMap::new())).as_list();
    assert_eq!(v, Some(vec![]));
}

#[test]
fn scalars_are_no_lists_or_maps() {
    let s = SettingsObject::Value(text("a"));
    assert!(s.as_list().is_none());
    assert!(s.dict_get("a").is_none());
    assert_eq!(s.as_string(), Some("a".to_string()));
    assert_eq!(s.as_bool(), None);
    let b = SettingsObject::Value(SettingsValue::Bool(true));
    assert_eq!(b.as_bool(), Some(true));
    assert_eq!(b.as_string(), None);
}

#[test]
fn native_list_reads_in_order() {
    let v = SettingsObject::Value(SettingsValue::List(vec![text("a"), SettingsValue::Bool(false)]));
    let l = v.as_list().unwrap();
    assert_eq!(l, vec![SettingsObject::Value(text("a")), SettingsObject::Value(SettingsValue::Bool(false))]);
}

#[test]
fn map_handle_is_no_scalar() {
    let mut m = SettingsMap::new();
    m.insert("k", text("v"));
    let o = SettingsObject::Dict(m);
    assert_eq!(o.as_string(), None);
    assert_eq!(o.dict_get("k"), Some(SettingsObject::Value(text("v"))));
    assert_eq!(o.dict_get("q"), None);
}

#[test]
fn insert_replaces_in_place() {
    let mut m = SettingsMap::new();
    m.insert("a", text("1"));
    m.insert("b", text("2"));
    m.insert("a", text("3"));
    assert_eq!(m.len(), 2);
    assert_eq!(m.get("a"), Some(&text("3")));
    assert_eq!(m.get("b"), Some(&text("2")));
    assert_eq!(m.get("c"), None);
    assert_eq!(m.entries[0].0, "a".to_string());
}

#[test]
fn copies_are_equal() {
    let mut m = SettingsMap::new();
    m.insert("l", SettingsValue::List(vec![text("x")]));
    let v = SettingsValue::Dict(m);
    assert_eq!(copy_value(&v), v);
}

#[test]
fn index_keys_are_decimal() {
    assert_eq!(index_key(0), "0");
    assert_eq!(index_key(7), "7");
    assert_eq!(index_key(42), "42");
    assert_eq!(index_key(1234567), "1234567");
}

#[test]
fn flags_are_trimmed_and_case_sensitive() {
    assert_eq!(parse_flag(" True\n"), Some(true));
    assert_eq!(parse_flag("\tFalse "), Some(false));
    assert_eq!(parse_flag("TRUE"), None);
    assert_eq!(parse_flag("Tr ue"), None);
    assert_eq!(parse_flag(""), None);
}
