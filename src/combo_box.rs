use vstd::prelude::*;
use crate::radio_button::{RadioButtonOption, RadioButtonOptions};

verus! {

/// What to do with an item of an editable list.
#[derive(Clone, Copy, Debug, Eq)]
pub enum ListItemAction {
    NoAction,
    Remove,
    MoveBefore,
    MoveAfter,
    InsertBefore,
    InsertAfter,
}

impl ListItemAction {
    /// The position of the action in the order the radio button offers it.
    pub fn index(&self) -> (r: u8)
        ensures
            r == self.index_spec(),
    {
        match self {
            ListItemAction::NoAction => 0,
            ListItemAction::Remove => 1,
            ListItemAction::MoveBefore => 2,
            ListItemAction::MoveAfter => 3,
            ListItemAction::InsertBefore => 4,
            ListItemAction::InsertAfter => 5,
        }
    }

    pub open spec fn index_spec(&self) -> u8 {
        match self {
            ListItemAction::NoAction => 0,
            ListItemAction::Remove => 1,
            ListItemAction::MoveBefore => 2,
            ListItemAction::MoveAfter => 3,
            ListItemAction::InsertBefore => 4,
            ListItemAction::InsertAfter => 5,
        }
    }
}

impl PartialEq for ListItemAction {
    fn eq(&self, o: &ListItemAction) -> (r: bool) {
        let r = self.index() == o.index();
        assert(r == (*self == *o)) by {
            if r {
                match *self {
                    ListItemAction::NoAction => {},
                    ListItemAction::Remove => {},
                    ListItemAction::MoveBefore => {},
                    ListItemAction::MoveAfter => {},
                    ListItemAction::InsertBefore => {},
                    ListItemAction::InsertAfter => {},
                }
            }
        }
        r
    }
}

impl vstd::std_specs::cmp::PartialEqSpecImpl for ListItemAction {
    open spec fn obeys_eq_spec() -> bool {
        true
    }

    open spec fn eq_spec(&self, o: &ListItemAction) -> bool {
        *self == *o
    }
}

impl Default for ListItemAction {
    fn default() -> (r: ListItemAction)
        ensures
            r == ListItemAction::NoAction,
    {
        ListItemAction::NoAction
    }
}

impl RadioButtonOptions for ListItemAction {
    open spec fn options_spec() -> Seq<RadioButtonOption<'static, ListItemAction>> {
        seq![
            RadioButtonOption { value: ListItemAction::NoAction, key: "None", description: "None", tooltip: None },
            RadioButtonOption { value: ListItemAction::Remove, key: "Remove", description: "Remove", tooltip: None },
            RadioButtonOption { value: ListItemAction::MoveBefore, key: "MoveBefore", description: "Move before", tooltip: None },
            RadioButtonOption { value: ListItemAction::MoveAfter, key: "MoveAfter", description: "Move after", tooltip: None },
            RadioButtonOption { value: ListItemAction::InsertBefore, key: "InsertBefore", description: "Insert before", tooltip: None },
            RadioButtonOption { value: ListItemAction::InsertAfter, key: "InsertAfter", description: "Insert after", tooltip: None },
        ]
    }

    fn radio_button_options() -> (r: Vec<RadioButtonOption<'static, ListItemAction>>) {
        let r = vec![
            RadioButtonOption { value: ListItemAction::NoAction, key: "None", description: "None", tooltip: None },
            RadioButtonOption { value: ListItemAction::Remove, key: "Remove", description: "Remove", tooltip: None },
            RadioButtonOption { value: ListItemAction::MoveBefore, key: "MoveBefore", description: "Move before", tooltip: None },
            RadioButtonOption { value: ListItemAction::MoveAfter, key: "MoveAfter", description: "Move after", tooltip: None },
            RadioButtonOption { value: ListItemAction::InsertBefore, key: "InsertBefore", description: "Insert before", tooltip: None },
            RadioButtonOption { value: ListItemAction::InsertAfter, key: "InsertAfter", description: "Insert after", tooltip: None },
        ];
        assert(r@ =~= Self::options_spec());
        r
    }
}

} // verus!
