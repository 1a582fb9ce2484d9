use vstd::prelude::*;
use crate::settings::{opt_text, views_of, Settings};
use crate::store::{
    cells_view, copy_value, dict_lookup, lemma_find_key, lemma_list_view, SettingsMap,
    SettingsValue, StoreVal, value_view,
};
use crate::text::{decimal, index_key};

verus! {

/// The number of cells in a value, counting the value itself.
pub open spec fn val_size(v: StoreVal) -> nat
    decreases v, 0nat,
{
    match v {
        StoreVal::List(s) => 1 + vals_size(s, s.len()),
        StoreVal::Dict(ps) => 1 + entries_size(ps, ps.len()),
        _ => 1,
    }
}

pub open spec fn vals_size(s: Seq<StoreVal>, n: nat) -> nat
    decreases s, n,
{
    if n == 0 || n > s.len() {
        0
    } else {
        vals_size(s, (n - 1) as nat) + val_size(s[n - 1])
    }
}

pub open spec fn entries_size(ps: Seq<(Seq<char>, StoreVal)>, n: nat) -> nat
    decreases ps, n,
{
    if n == 0 || n > ps.len() {
        0
    } else {
        entries_size(ps, (n - 1) as nat) + val_size(ps[n - 1].1)
    }
}

pub proof fn lemma_vals_size(s: Seq<StoreVal>, n: nat)
    requires
        n <= s.len(),
    ensures
        forall|i: int| 0 <= i < n ==> val_size(#[trigger] s[i]) <= vals_size(s, n),
    decreases n,
{
    if n > 0 {
        lemma_vals_size(s, (n - 1) as nat);
    }
}

pub proof fn lemma_entries_size(ps: Seq<(Seq<char>, StoreVal)>, n: nat)
    requires
        n <= ps.len(),
    ensures
        forall|i: int| 0 <= i < n ==> val_size(#[trigger] ps[i].1) <= entries_size(ps, n),
    decreases n,
{
    if n > 0 {
        lemma_entries_size(ps, (n - 1) as nat);
    }
}

/// How many of the keys `0`, `1`, ... a map holds in a row from index `i`
/// on, counting no further than its number of entries.
pub open spec fn index_run(ps: Seq<(Seq<char>, StoreVal)>, i: nat) -> nat
    decreases ps.len() - i,
{
    if i < ps.len() && dict_lookup(ps, decimal(i)) is Some {
        index_run(ps, i + 1)
    } else {
        i
    }
}

/// A map read as a positional list: the cells under `0`, `1`, ... up to
/// the first index that it does not hold.
pub open spec fn positional_list(ps: Seq<(Seq<char>, StoreVal)>) -> Seq<StoreVal> {
    Seq::new(index_run(ps, 0), |i: int| dict_lookup(ps, decimal(i as nat))->Some_0)
}

pub proof fn lemma_index_run(ps: Seq<(Seq<char>, StoreVal)>, i: nat)
    ensures
        i <= index_run(ps, i),
        forall|j: nat| i <= j < index_run(ps, i) ==> #[trigger] dict_lookup(ps, decimal(j)) is Some,
    decreases ps.len() - i,
{
    if i < ps.len() && dict_lookup(ps, decimal(i)) is Some {
        lemma_index_run(ps, i + 1);
    }
}

/// A node of the live store, read as a settings tree: a whole map, or a
/// single cell.
#[derive(Debug, PartialEq)]
pub enum SettingsObject {
    Dict(SettingsMap),
    Value(SettingsValue),
}

impl View for SettingsObject {
    type V = StoreVal;

    open spec fn view(&self) -> StoreVal {
        match self {
            SettingsObject::Dict(m) => StoreVal::Dict(m@),
            SettingsObject::Value(v) => value_view(v),
        }
    }
}

impl SettingsObject {
    fn as_map(&self) -> (r: Option<&SettingsMap>)
        ensures
            match r {
                Some(m) => self@ == StoreVal::Dict(m@),
                None => !(self@ is Dict),
            },
    {
        match self {
            SettingsObject::Dict(m) => Some(m),
            SettingsObject::Value(SettingsValue::Dict(m)) => Some(m),
            SettingsObject::Value(_) => None,
        }
    }
}

impl Settings for SettingsObject {
    open spec fn string_of(v: StoreVal) -> Option<Seq<char>> {
        match v {
            StoreVal::Str(s) => Some(s),
            _ => None,
        }
    }

    open spec fn bool_of(v: StoreVal) -> Option<bool> {
        match v {
            StoreVal::Bool(b) => Some(b),
            _ => None,
        }
    }

    open spec fn list_of(v: StoreVal) -> Option<Seq<StoreVal>> {
        match v {
            StoreVal::List(s) => Some(s),
            StoreVal::Dict(ps) => Some(positional_list(ps)),
            _ => None,
        }
    }

    open spec fn get_of(v: StoreVal, key: Seq<char>) -> Option<StoreVal> {
        match v {
            StoreVal::Dict(ps) => dict_lookup(ps, key),
            _ => None,
        }
    }

    open spec fn height_of(v: StoreVal) -> nat {
        val_size(v)
    }

    proof fn lemma_parts_lower(v: StoreVal) {
        match v {
            StoreVal::List(s) => {
                lemma_vals_size(s, s.len());
            },
            StoreVal::Dict(ps) => {
                lemma_entries_size(ps, ps.len());
                assert forall|k: Seq<char>| #[trigger] Self::get_of(v, k) is Some
                    implies Self::height_of(Self::get_of(v, k)->Some_0) < Self::height_of(v) by {
                    lemma_find_key(ps, k);
                }
                lemma_index_run(ps, 0);
                let l = positional_list(ps);
                assert forall|i: int| 0 <= i < l.len() implies Self::height_of(#[trigger] l[i]) < Self::height_of(v) by {
                    assert(dict_lookup(ps, decimal(i as nat)) is Some);
                    lemma_find_key(ps, decimal(i as nat));
                }
            },
            _ => {},
        }
    }

    fn as_string(&self) -> (r: Option<String>) {
        match self {
            SettingsObject::Value(SettingsValue::Str(s)) => Some(s.clone()),
            _ => None,
        }
    }

    fn as_bool(&self) -> (r: Option<bool>) {
        match self {
            SettingsObject::Value(SettingsValue::Bool(b)) => Some(*b),
            _ => None,
        }
    }

    fn as_list(&self) -> (r: Option<Vec<SettingsObject>>) {
        if let SettingsObject::Value(SettingsValue::List(l)) = self {
            proof {
                lemma_list_view(l, l.len() as nat);
            }
            let mut out: Vec<SettingsObject> = Vec::new();
            let mut i: usize = 0;
            while i < l.len()
                invariant
                    i <= l.len(),
                    out.len() == i,
                    forall|j: int| 0 <= j < i ==> (#[trigger] out@[j])@ == value_view(&l[j]),
                decreases l.len() - i,
            {
                out.push(SettingsObject::Value(copy_value(&l[i])));
                i = i + 1;
            }
            assert(views_of(out@) =~= cells_view(l));
            return Some(out);
        }
        let m = match self.as_map() {
            Some(m) => m,
            None => return None,
        };
        let ghost ps = m@;
        let n = m.len();
        let mut out: Vec<SettingsObject> = Vec::new();
        let mut i: usize = 0;
        while i < n
            invariant
                i <= n,
                n == ps.len(),
                ps == m@,
                out.len() == i,
                index_run(ps, 0) == index_run(ps, i as nat),
                forall|j: int| 0 <= j < i ==> dict_lookup(ps, decimal(j as nat)) == Some(#[trigger] out@[j]@),
            ensures
                out.len() == i,
                index_run(ps, i as nat) == i as nat,
                index_run(ps, 0) == i as nat,
                forall|j: int| 0 <= j < i ==> dict_lookup(ps, decimal(j as nat)) == Some(#[trigger] out@[j]@),
            decreases n - i,
        {
            let key = index_key(i);
            match m.get(key.as_str()) {
                Some(v) => {
                    out.push(SettingsObject::Value(copy_value(v)));
                },
                None => {
                    break;
                },
            }
            i = i + 1;
        }
        assert(views_of(out@) =~= positional_list(ps));
        Some(out)
    }

    fn dict_get(&self, key: &str) -> (r: Option<SettingsObject>) {
        let m = match self.as_map() {
            Some(m) => m,
            None => return None,
        };
        match m.get(key) {
            Some(v) => Some(SettingsObject::Value(copy_value(v))),
            None => None,
        }
    }
}

} // verus!
