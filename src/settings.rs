use vstd::prelude::*;

verus! {

/// The views of a sequence of values.
pub open spec fn views_of<T: View>(s: Seq<T>) -> Seq<T::V> {
    s.map_values(|x: T| x@)
}

/// The text that an optional `String` holds, as a sequence of characters.
pub open spec fn opt_text(r: Option<String>) -> Option<Seq<char>> {
    match r {
        Some(s) => Some(s@),
        None => None,
    }
}

/// A settings tree: a node may read as a string, a boolean, a list of
/// nodes, or a map from keys to nodes. Several readings may succeed for
/// one node; callers decide which counts.
///
/// Each reading is stated over the node's view, so that two nodes with one
/// view read alike. `height_of` measures a node, and every node reached by
/// one reading is lower than the node read.
pub trait Settings: Sized + View {
    spec fn string_of(v: Self::V) -> Option<Seq<char>>;

    spec fn bool_of(v: Self::V) -> Option<bool>;

    spec fn list_of(v: Self::V) -> Option<Seq<Self::V>>;

    spec fn get_of(v: Self::V, key: Seq<char>) -> Option<Self::V>;

    spec fn height_of(v: Self::V) -> nat;

    proof fn lemma_parts_lower(v: Self::V)
        ensures
            forall|k: Seq<char>| #[trigger] Self::get_of(v, k) is Some
                ==> Self::height_of(Self::get_of(v, k)->Some_0) < Self::height_of(v),
            Self::list_of(v) is Some ==> forall|i: int| 0 <= i < Self::list_of(v)->Some_0.len()
                ==> Self::height_of(#[trigger] Self::list_of(v)->Some_0[i]) < Self::height_of(v),
    ;

    fn as_string(&self) -> (r: Option<String>)
        ensures
            opt_text(r) == Self::string_of(self@),
    ;

    fn as_bool(&self) -> (r: Option<bool>)
        ensures
            r == Self::bool_of(self@),
    ;

    fn as_list(&self) -> (r: Option<Vec<Self>>)
        ensures
            match r {
                Some(l) => Self::list_of(self@) == Some(views_of(l@)),
                None => Self::list_of(self@) is None,
            },
    ;

    fn dict_get(&self, key: &str) -> (r: Option<Self>)
        ensures
            match r {
                Some(n) => Self::get_of(self@, key@) == Some(n@),
                None => Self::get_of(self@, key@) is None,
            },
    ;
}

} // verus!
