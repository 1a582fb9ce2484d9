use hollowknight_autosplit::combo_box::ListItemAction;
use hollowknight_autosplit::radio_button::{
    options_str, options_value, selection_after_toggle, single_from_bool_map, RadioButtonArgs,
    RadioButtonOption, RadioButtonOptions, SetHeadingLevel,
};

#[test]
fn options_map_both_ways() {
    assert_eq!(options_str(ListItemAction::MoveAfter), "MoveAfter");
    assert_eq!(options_str(ListItemAction::NoAction), "None");
    assert_eq!(options_value::<ListItemAction>("InsertBefore"), ListItemAction::InsertBefore);
    assert_eq!(options_value::<ListItemAction>("Nope"), ListItemAction::NoAction);
    assert_eq!(ListItemAction::radio_button_options().len(), 6);
}

#[test]
fn args_default_value() {
    let mut args = RadioButtonArgs::default();
    args.default = "Remove";
    args.set_heading_level(2);
    assert_eq!(args.heading_level, 2);
    assert_eq!(args.default_value::<ListItemAction>(), ListItemAction::Remove);
}

#[test]
fn bool_key_joins_with_underscore() {
    let o = RadioButtonOption { value: 1u8, key: "Remove", description: "Remove", tooltip: None };
    assert_eq!(o.bool_key("lia"), "lia_Remove");
}

#[test]
fn single_true_entry() {
    assert_eq!(single_from_bool_map(&[("a", false), ("b", true)]), Some("b"));
    assert_eq!(single_from_bool_map(&[("a", true), ("b", true)]), None);
    assert_eq!(single_from_bool_map(&[("a", false)]), None);
    assert_eq!(single_from_bool_map(&[]), None);
}

#[test]
fn toggle_picks_new_option() {
    let keys = ["None", "Remove", "MoveBefore"];
    assert_eq!(selection_after_toggle(&keys, &[true, true, false], "None", "None"), "Remove");
    assert_eq!(selection_after_toggle(&keys, &[false, true, false], "Remove", "None"), "Remove");
    assert_eq!(selection_after_toggle(&keys, &[false, false, false], "Remove", "None"), "None");
    assert_eq!(selection_after_toggle(&keys, &[false, false, true], "Remove", "None"), "Remove");
}
