use vstd::prelude::*;
use crate::settings::{views_of, Settings};
use crate::store::{
    cells_view, dict_insert, dict_lookup, lemma_dict_insert_other, lemma_dict_insert_same,
    lemma_dict_insert_unchanged, lemma_list_view, SettingsMap, SettingsValue, StoreVal,
    value_view,
};
use crate::text::{decimal, index_key};

verus! {

/// The names of a slice of string slices, as sequences of characters.
pub open spec fn strs_view(s: Seq<&str>) -> Seq<Seq<char>> {
    s.map_values(|x: &str| x@)
}

/// The key of the first element of a positional list.
pub open spec fn zero_key() -> Seq<char> {
    seq!['0']
}

/// Whether some name among `names` reads a child of `v`.
pub open spec fn any_child<S: Settings>(v: S::V, names: Seq<Seq<char>>) -> bool {
    exists|j: int| 0 <= j < names.len() && #[trigger] S::get_of(v, names[j]) is Some
}

/// Whether a node that reads as a list is to be merged as one: it has a
/// child keyed `0`, or a child named by a wrapper hint, or no child named
/// by a map key.
pub open spec fn list_signaled<S: Settings>(v: S::V, keys: Seq<Seq<char>>, elems: Seq<Seq<char>>) -> bool {
    S::get_of(v, zero_key()) is Some || any_child::<S>(v, elems) || !any_child::<S>(v, keys)
}

/// The child of `v` under the first of `elems[0..n]` that reads one.
pub open spec fn first_hint<S: Settings>(v: S::V, elems: Seq<Seq<char>>, n: nat) -> Option<S::V>
    decreases n,
{
    if n == 0 || n > elems.len() {
        None
    } else {
        match first_hint::<S>(v, elems, (n - 1) as nat) {
            Some(w) => Some(w),
            None => S::get_of(v, elems[n - 1]),
        }
    }
}

/// A list element with a singleton wrapper peeled: its child keyed by its
/// own index, else its child under the first wrapper hint that reads one,
/// else the element itself.
pub open spec fn unwrap_item<S: Settings>(i: nat, v: S::V, elems: Seq<Seq<char>>) -> S::V {
    match S::get_of(v, decimal(i)) {
        Some(w) => w,
        None => match first_hint::<S>(v, elems, elems.len()) {
            Some(w) => w,
            None => v,
        },
    }
}

/// The elements of a list node, each unwrapped.
pub open spec fn list_items<S: Settings>(v: S::V, elems: Seq<Seq<char>>) -> Seq<S::V> {
    let l = S::list_of(v)->Some_0;
    Seq::new(l.len(), |i: int| unwrap_item::<S>(i as nat, l[i], elems))
}

/// The elements of an old cell that is a list; none for any other cell.
pub open spec fn old_list(old: Option<StoreVal>) -> Seq<StoreVal> {
    match old {
        Some(StoreVal::List(s)) => s,
        _ => Seq::empty(),
    }
}

/// The entries of an old cell that is a map; none for any other cell.
pub open spec fn old_dict(old: Option<StoreVal>) -> Seq<(Seq<char>, StoreVal)> {
    match old {
        Some(StoreVal::Dict(ps)) => ps,
        _ => Seq::empty(),
    }
}

/// The cell that merging document node `new` into the old cell gives.
pub open spec fn merge_value<S: Settings>(old: Option<StoreVal>, new: S::V, keys: Seq<Seq<char>>, elems: Seq<Seq<char>>) -> StoreVal
    decreases S::height_of(new), 2nat, 0nat,
{
    match S::bool_of(new) {
        Some(b) => StoreVal::Bool(b),
        None => match S::string_of(new) {
            Some(s) => StoreVal::Str(s),
            None => if S::list_of(new) is Some && list_signaled::<S>(new, keys, elems) {
                StoreVal::List(merge_items::<S>(old_list(old), new, keys, elems, list_items::<S>(new, elems).len()))
            } else {
                StoreVal::Dict(merge_dict::<S>(old_dict(old), new, keys, elems, keys.len()))
            },
        },
    }
}

/// The first `n` elements of the list that merging list node `new` into
/// the old elements gives: element by element where the lengths agree,
/// each from nothing where they do not.
pub open spec fn merge_items<S: Settings>(old: Seq<StoreVal>, new: S::V, keys: Seq<Seq<char>>, elems: Seq<Seq<char>>, n: nat) -> Seq<StoreVal>
    decreases S::height_of(new), 1nat, n,
{
    let items = list_items::<S>(new, elems);
    if n == 0 || n > items.len() || S::list_of(new) is None {
        Seq::empty()
    } else {
        proof {
            lemma_item_lower::<S>(new, elems, n - 1);
        }
        merge_items::<S>(old, new, keys, elems, (n - 1) as nat).push(
            merge_value::<S>(if old.len() == items.len() { Some(old[n - 1]) } else { None }, items[n - 1], keys, elems),
        )
    }
}

/// The map that merging node `new` into the map `base` gives, for the
/// first `n` keys: each key that `new` has a child under is merged in
/// turn; every other entry stays.
pub open spec fn merge_dict<S: Settings>(base: Seq<(Seq<char>, StoreVal)>, new: S::V, keys: Seq<Seq<char>>, elems: Seq<Seq<char>>, n: nat) -> Seq<(Seq<char>, StoreVal)>
    decreases S::height_of(new), 1nat, n,
{
    if n == 0 || n > keys.len() {
        base
    } else {
        let acc = merge_dict::<S>(base, new, keys, elems, (n - 1) as nat);
        match S::get_of(new, keys[n - 1]) {
            Some(c) => {
                proof {
                    S::lemma_parts_lower(new);
                }
                dict_insert(acc, keys[n - 1], merge_value::<S>(dict_lookup(acc, keys[n - 1]), c, keys, elems))
            },
            None => acc,
        }
    }
}

pub proof fn lemma_first_hint<S: Settings>(v: S::V, elems: Seq<Seq<char>>, n: nat)
    ensures
        first_hint::<S>(v, elems, n) is Some ==> exists|j: int| 0 <= j < elems.len()
            && S::get_of(v, elems[j]) == first_hint::<S>(v, elems, n),
    decreases n,
{
    if n > 0 && n <= elems.len() {
        lemma_first_hint::<S>(v, elems, (n - 1) as nat);
        if first_hint::<S>(v, elems, (n - 1) as nat) is None {
            let j = n - 1;
            assert(S::get_of(v, elems[j]) == first_hint::<S>(v, elems, n));
        }
    }
}

/// Every unwrapped element of a list node is lower than the node.
pub proof fn lemma_item_lower<S: Settings>(v: S::V, elems: Seq<Seq<char>>, i: int)
    requires
        S::list_of(v) is Some,
        0 <= i < S::list_of(v)->Some_0.len(),
    ensures
        S::height_of(list_items::<S>(v, elems)[i]) < S::height_of(v),
{
    let e = S::list_of(v)->Some_0[i];
    S::lemma_parts_lower(v);
    S::lemma_parts_lower(e);
    lemma_first_hint::<S>(e, elems, elems.len());
    assert(S::height_of(e) < S::height_of(v));
    if S::get_of(e, decimal(i as nat)) is None && first_hint::<S>(e, elems, elems.len()) is Some {
        let j = choose|j: int| 0 <= j < elems.len() && S::get_of(e, elems[j]) == first_hint::<S>(e, elems, elems.len());
        assert(S::get_of(e, elems[j]) is Some);
    }
}

/// The cell that an optional exec cell holds.
pub open spec fn opt_value_view(o: Option<SettingsValue>) -> Option<StoreVal> {
    match o {
        Some(v) => Some(value_view(&v)),
        None => None,
    }
}

fn has_any_child<S: Settings>(v: &S, names: &[&str]) -> (r: bool)
    ensures
        r == any_child::<S>(v@, strs_view(names@)),
{
    let ghost ns = strs_view(names@);
    let mut i: usize = 0;
    while i < names.len()
        invariant
            i <= names.len(),
            ns == strs_view(names@),
            forall|j: int| 0 <= j < i ==> #[trigger] S::get_of(v@, ns[j]) is None,
        decreases names.len() - i,
    {
        if v.dict_get(names[i]).is_some() {
            assert(S::get_of(v@, ns[i as int]) is Some);
            return true;
        }
        i = i + 1;
    }
    false
}

fn first_hint_child<S: Settings>(v: &S, elems: &[&str]) -> (r: Option<S>)
    ensures
        match r {
            Some(w) => first_hint::<S>(v@, strs_view(elems@), elems.len() as nat) == Some(w@),
            None => first_hint::<S>(v@, strs_view(elems@), elems.len() as nat) is None,
        },
{
    let ghost es = strs_view(elems@);
    let mut i: usize = 0;
    while i < elems.len()
        invariant
            i <= elems.len(),
            es == strs_view(elems@),
            first_hint::<S>(v@, es, i as nat) is None,
        decreases elems.len() - i,
    {
        match v.dict_get(elems[i]) {
            Some(w) => {
                proof {
                    lemma_first_hint_stays::<S>(v@, es, (i + 1) as nat, elems.len() as nat);
                }
                return Some(w);
            },
            None => {},
        }
        i = i + 1;
    }
    None
}

pub proof fn lemma_first_hint_stays<S: Settings>(v: S::V, elems: Seq<Seq<char>>, n: nat, m: nat)
    requires
        n <= m <= elems.len(),
        first_hint::<S>(v, elems, n) is Some,
    ensures
        first_hint::<S>(v, elems, m) == first_hint::<S>(v, elems, n),
    decreases m,
{
    if m > n {
        lemma_first_hint_stays::<S>(v, elems, n, (m - 1) as nat);
    }
}

fn unwrap_list<S: Settings>(l: Vec<S>, elems: &[&str], Ghost(parent): Ghost<S::V>) -> (r: Vec<S>)
    requires
        S::list_of(parent) == Some(views_of(l@)),
    ensures
        views_of(r@) == list_items::<S>(parent, strs_view(elems@)),
{
    let ghost es = strs_view(elems@);
    let ghost orig = l@;
    let ghost target = list_items::<S>(parent, es);
    let n = l.len();
    let mut rest = l;
    let mut out: Vec<S> = Vec::new();
    let mut i: usize = 0;
    while i < n
        invariant
            i <= n,
            n == orig.len(),
            target.len() == n,
            es == strs_view(elems@),
            target == list_items::<S>(parent, es),
            S::list_of(parent) == Some(views_of(orig)),
            rest@ == orig.subrange(i as int, n as int),
            out.len() == i,
            forall|j: int| 0 <= j < i ==> (#[trigger] out@[j])@ == target[j],
        decreases n - i,
    {
        let v = rest.remove(0);
        assert(v == orig[i as int]);
        assert(views_of(orig)[i as int] == v@);
        assert(target[i as int] == unwrap_item::<S>(i as nat, v@, es));
        let key = index_key(i);
        let w = match v.dict_get(key.as_str()) {
            Some(w) => w,
            None => match first_hint_child(&v, elems) {
                Some(w) => w,
                None => v,
            },
        };
        out.push(w);
        i = i + 1;
    }
    assert(views_of(out@) =~= target);
    out
}

fn is_settings_list_length(l: &Vec<SettingsValue>, n: usize) -> (r: bool)
    ensures
        r == (l.len() == n),
{
    l.len() == n
}

fn settings_list_merge<S: Settings>(old: Option<Vec<SettingsValue>>, new: Vec<S>, keys: &[&str], elems: &[&str], Ghost(parent): Ghost<S::V>) -> (r: Vec<SettingsValue>)
    requires
        S::list_of(parent) is Some,
        views_of(new@) == list_items::<S>(parent, strs_view(elems@)),
    ensures
        cells_view(&r) == merge_items::<S>(
            match old { Some(v) => cells_view(&v), None => Seq::empty() },
            parent, strs_view(keys@), strs_view(elems@), new.len() as nat),
    decreases S::height_of(parent), 1nat,
{
    let ghost ks = strs_view(keys@);
    let ghost es = strs_view(elems@);
    let ghost items = list_items::<S>(parent, es);
    let mut ol = match old {
        Some(v) => v,
        None => Vec::new(),
    };
    let ghost old_cells = cells_view(&ol);
    proof {
        lemma_list_view(&ol, ol.len() as nat);
    }
    let ghost orig_old = ol@;
    let ghost orig_new = new@;
    let nn = new.len();
    let same = is_settings_list_length(&ol, nn);
    let mut rest = new;
    let mut ml: Vec<SettingsValue> = Vec::new();
    let mut i: usize = 0;
    while i < nn
        invariant
            i <= nn,
            nn == orig_new.len(),
            items.len() == nn,
            items == list_items::<S>(parent, es),
            views_of(orig_new) == items,
            S::list_of(parent) is Some,
            ks == strs_view(keys@),
            es == strs_view(elems@),
            same == (orig_old.len() == nn),
            old_cells.len() == orig_old.len(),
            forall|j: int| 0 <= j < orig_old.len() ==> #[trigger] old_cells[j] == value_view(&orig_old[j]),
            rest@ == orig_new.subrange(i as int, nn as int),
            same ==> ol@ == orig_old.subrange(i as int, nn as int),
            cells_view(&ml) == merge_items::<S>(old_cells, parent, ks, es, i as nat),
            ml.len() == i,
        decreases nn - i,
    {
        let ne = rest.remove(0);
        assert(ne@ == items[i as int]);
        let prev = if same {
            let o = ol.remove(0);
            assert(o == orig_old[i as int]);
            Some(o)
        } else {
            None
        };
        proof {
            lemma_item_lower::<S>(parent, es, i as int);
            lemma_list_view(&ml, ml.len() as nat);
        }
        let merged = settings_value_merge(prev, &ne, keys, elems);
        let ghost before = ml@;
        ml.push(merged);
        proof {
            lemma_list_view(&ml, ml.len() as nat);
            assert(cells_view(&ml) =~= merge_items::<S>(old_cells, parent, ks, es, (i + 1) as nat));
        }
        i = i + 1;
    }
    ml
}

/// Merges document node `new` into the old cell: a boolean or a string
/// replaces it; a list node that the hints mark as one is merged as a list;
/// any other node is merged as a map.
pub fn settings_value_merge<S: Settings>(old: Option<SettingsValue>, new: &S, keys: &[&str], elems: &[&str]) -> (r: SettingsValue)
    ensures
        value_view(&r) == merge_value::<S>(opt_value_view(old), new@, strs_view(keys@), strs_view(elems@)),
    decreases S::height_of(new@), 2nat,
{
    if let Some(b) = new.as_bool() {
        return SettingsValue::Bool(b);
    }
    if let Some(s) = new.as_string() {
        return SettingsValue::Str(s);
    }
    if let Some(l) = new.as_list() {
        proof {
            reveal_strlit("0");
            assert("0"@ =~= zero_key());
        }
        let signaled = new.dict_get("0").is_some() || has_any_child(new, elems) || !has_any_child(new, keys);
        if signaled {
            let l2 = unwrap_list(l, elems, Ghost(new@));
            let old_l = match old {
                Some(SettingsValue::List(v)) => Some(v),
                _ => None,
            };
            return SettingsValue::List(settings_list_merge(old_l, l2, keys, elems, Ghost(new@)));
        }
    }
    let old_m = match old {
        Some(SettingsValue::Dict(m)) => Some(m),
        _ => None,
    };
    SettingsValue::Dict(settings_map_merge(old_m, new, keys, elems))
}

/// Merges document node `new` into the old map: for each key in turn under
/// which `new` has a child, the child is merged into what the map holds
/// there. Entries under other keys stay as they were.
pub fn settings_map_merge<S: Settings>(old: Option<SettingsMap>, new: &S, keys: &[&str], elems: &[&str]) -> (r: SettingsMap)
    ensures
        r@ == merge_dict::<S>(
            match old { Some(m) => m@, None => Seq::empty() },
            new@, strs_view(keys@), strs_view(elems@), keys.len() as nat),
    decreases S::height_of(new@), 1nat,
{
    let ghost ks = strs_view(keys@);
    let ghost es = strs_view(elems@);
    let mut om = match old {
        Some(m) => m,
        None => SettingsMap::new(),
    };
    let ghost base = om@;
    let mut i: usize = 0;
    while i < keys.len()
        invariant
            i <= keys.len(),
            ks == strs_view(keys@),
            es == strs_view(elems@),
            om@ == merge_dict::<S>(base, new@, ks, es, i as nat),
        decreases keys.len() - i,
    {
        let key = keys[i];
        match new.dict_get(key) {
            Some(c) => {
                proof {
                    S::lemma_parts_lower(new@);
                }
                let ghost acc = om@;
                let prev = om.detach(key);
                let merged = settings_value_merge(prev, &c, keys, elems);
                om.insert(key, merged);
                proof {
                    crate::store::lemma_dict_insert_twice(acc, key@, StoreVal::Bool(false), value_view(&merged));
                }
            },
            None => {},
        }
        i = i + 1;
    }
    om
}

pub proof fn lemma_merge_dict_other<S: Settings>(base: Seq<(Seq<char>, StoreVal)>, new: S::V, keys: Seq<Seq<char>>, elems: Seq<Seq<char>>, n: nat, k: Seq<char>)
    requires
        n <= keys.len(),
        forall|j: int| 0 <= j < n ==> keys[j] != k,
    ensures
        dict_lookup(merge_dict::<S>(base, new, keys, elems, n), k) == dict_lookup(base, k),
    decreases n,
{
    if n > 0 {
        lemma_merge_dict_other::<S>(base, new, keys, elems, (n - 1) as nat, k);
        let acc = merge_dict::<S>(base, new, keys, elems, (n - 1) as nat);
        if let Some(c) = S::get_of(new, keys[n - 1]) {
            lemma_dict_insert_other(acc, keys[n - 1], merge_value::<S>(dict_lookup(acc, keys[n - 1]), c, keys, elems), k);
        }
    }
}

/// Preservation: a merge leaves every entry under a name that is not
/// among the keys exactly as it was.
pub proof fn law_preservation<S: Settings>(base: Seq<(Seq<char>, StoreVal)>, new: S::V, keys: Seq<Seq<char>>, elems: Seq<Seq<char>>, k: Seq<char>)
    requires
        !keys.contains(k),
    ensures
        dict_lookup(merge_dict::<S>(base, new, keys, elems, keys.len()), k) == dict_lookup(base, k),
{
    assert forall|j: int| 0 <= j < keys.len() implies keys[j] != k by {
        if keys[j] == k {
            assert(keys.contains(k));
        }
    }
    lemma_merge_dict_other::<S>(base, new, keys, elems, keys.len(), k);
}

/// The first `n` elements of a merged list, one by one.
pub proof fn lemma_merge_items<S: Settings>(old: Seq<StoreVal>, new: S::V, keys: Seq<Seq<char>>, elems: Seq<Seq<char>>, n: nat)
    requires
        S::list_of(new) is Some,
        n <= list_items::<S>(new, elems).len(),
    ensures
        merge_items::<S>(old, new, keys, elems, n).len() == n,
        forall|i: int| 0 <= i < n ==> #[trigger] merge_items::<S>(old, new, keys, elems, n)[i] == merge_value::<S>(
            if old.len() == list_items::<S>(new, elems).len() { Some(old[i]) } else { None },
            list_items::<S>(new, elems)[i], keys, elems),
    decreases n,
{
    if n > 0 {
        lemma_merge_items::<S>(old, new, keys, elems, (n - 1) as nat);
    }
}

/// List length policy: where the old list has as many elements as the new
/// one, element `i` is merged into old element `i`; where it does not,
/// every element is built afresh and no old element is used.
pub proof fn law_list_length_policy<S: Settings>(old: Seq<StoreVal>, new: S::V, keys: Seq<Seq<char>>, elems: Seq<Seq<char>>)
    requires
        S::bool_of(new) is None,
        S::string_of(new) is None,
        S::list_of(new) is Some,
        list_signaled::<S>(new, keys, elems),
    ensures
        ({
            let items = list_items::<S>(new, elems);
            merge_value::<S>(Some(StoreVal::List(old)), new, keys, elems) == StoreVal::List(Seq::new(items.len(), |i: int|
                merge_value::<S>(if old.len() == items.len() { Some(old[i]) } else { None }, items[i], keys, elems)))
        }),
{
    let items = list_items::<S>(new, elems);
    lemma_merge_items::<S>(old, new, keys, elems, items.len());
    assert(merge_items::<S>(old, new, keys, elems, items.len()) =~= Seq::new(items.len(), |i: int|
        merge_value::<S>(if old.len() == items.len() { Some(old[i]) } else { None }, items[i], keys, elems)));
}

/// Ambiguity fallback: a node that reads as neither a boolean nor a string,
/// has no child keyed `0` and none named by a wrapper hint, but has a child
/// under one of the keys, is merged as a map.
pub proof fn law_ambiguity_fallback<S: Settings>(old: Option<StoreVal>, new: S::V, keys: Seq<Seq<char>>, elems: Seq<Seq<char>>)
    requires
        S::bool_of(new) is None,
        S::string_of(new) is None,
        S::get_of(new, zero_key()) is None,
        !any_child::<S>(new, elems),
        any_child::<S>(new, keys),
    ensures
        merge_value::<S>(old, new, keys, elems) == StoreVal::Dict(merge_dict::<S>(old_dict(old), new, keys, elems, keys.len())),
{
}

/// Where a key is among the first `n` and the node has a child under it,
/// the merged map holds under that key a merge of that child.
pub proof fn lemma_last_write<S: Settings>(base: Seq<(Seq<char>, StoreVal)>, new: S::V, keys: Seq<Seq<char>>, elems: Seq<Seq<char>>, n: nat, j: int)
    requires
        n <= keys.len(),
        0 <= j < n,
        S::get_of(new, keys[j]) is Some,
    ensures
        exists|y: Option<StoreVal>| dict_lookup(merge_dict::<S>(base, new, keys, elems, n), keys[j])
            == Some(merge_value::<S>(y, S::get_of(new, keys[j])->Some_0, keys, elems)),
    decreases n,
{
    let k = keys[j];
    let c = S::get_of(new, k)->Some_0;
    let acc = merge_dict::<S>(base, new, keys, elems, (n - 1) as nat);
    let last = keys[n - 1];
    if last == k {
        let y = dict_lookup(acc, k);
        lemma_dict_insert_same(acc, k, merge_value::<S>(y, c, keys, elems));
        assert(dict_lookup(merge_dict::<S>(base, new, keys, elems, n), k) == Some(merge_value::<S>(y, c, keys, elems)));
    } else {
        lemma_last_write::<S>(base, new, keys, elems, (n - 1) as nat, j);
        let y = choose|y: Option<StoreVal>| dict_lookup(acc, k) == Some(merge_value::<S>(y, c, keys, elems));
        if let Some(c2) = S::get_of(new, last) {
            lemma_dict_insert_other(acc, last, merge_value::<S>(dict_lookup(acc, last), c2, keys, elems), k);
        }
        assert(dict_lookup(merge_dict::<S>(base, new, keys, elems, n), k) == Some(merge_value::<S>(y, c, keys, elems)));
    }
}

/// Whether merging `new` into the cell that merging it into `old` gave
/// gives that cell again.
pub open spec fn merges_twice_alike<S: Settings>(old: Option<StoreVal>, new: S::V, keys: Seq<Seq<char>>, elems: Seq<Seq<char>>) -> bool {
    merge_value::<S>(Some(merge_value::<S>(old, new, keys, elems)), new, keys, elems) == merge_value::<S>(old, new, keys, elems)
}

/// Merging the node again into a map it was merged into, over the first
/// `j` keys, leaves the map as it is.
pub proof fn lemma_dict_fixed<S: Settings>(base: Seq<(Seq<char>, StoreVal)>, new: S::V, keys: Seq<Seq<char>>, elems: Seq<Seq<char>>, j: nat)
    requires
        j <= keys.len(),
        forall|y: Option<StoreVal>, k: Seq<char>| S::get_of(new, k) is Some ==>
            #[trigger] merges_twice_alike::<S>(y, S::get_of(new, k)->Some_0, keys, elems),
    ensures
        merge_dict::<S>(merge_dict::<S>(base, new, keys, elems, keys.len()), new, keys, elems, j)
            == merge_dict::<S>(base, new, keys, elems, keys.len()),
    decreases j,
{
    let p = merge_dict::<S>(base, new, keys, elems, keys.len());
    if j > 0 {
        lemma_dict_fixed::<S>(base, new, keys, elems, (j - 1) as nat);
        let k = keys[j - 1];
        if let Some(c) = S::get_of(new, k) {
            lemma_last_write::<S>(base, new, keys, elems, keys.len(), j - 1);
            let y = choose|y: Option<StoreVal>| dict_lookup(p, k) == Some(merge_value::<S>(y, c, keys, elems));
            assert(merges_twice_alike::<S>(y, c, keys, elems));
            assert(merge_value::<S>(dict_lookup(p, k), c, keys, elems) == merge_value::<S>(y, c, keys, elems));
            lemma_dict_insert_unchanged(p, k, merge_value::<S>(y, c, keys, elems));
        }
    }
}

/// Idempotence: merging a node into the cell that merging it gave changes
/// nothing.
pub proof fn law_idempotent<S: Settings>(old: Option<StoreVal>, new: S::V, keys: Seq<Seq<char>>, elems: Seq<Seq<char>>)
    ensures
        merge_value::<S>(Some(merge_value::<S>(old, new, keys, elems)), new, keys, elems)
            == merge_value::<S>(old, new, keys, elems),
    decreases S::height_of(new),
{
    S::lemma_parts_lower(new);
    if S::bool_of(new) is None && S::string_of(new) is None {
        if S::list_of(new) is Some && list_signaled::<S>(new, keys, elems) {
            let items = list_items::<S>(new, elems);
            let n = items.len();
            let m = merge_items::<S>(old_list(old), new, keys, elems, n);
            lemma_merge_items::<S>(old_list(old), new, keys, elems, n);
            lemma_merge_items::<S>(m, new, keys, elems, n);
            assert forall|i: int| 0 <= i < n implies #[trigger] merge_items::<S>(m, new, keys, elems, n)[i] == m[i] by {
                lemma_item_lower::<S>(new, elems, i);
                let x = if old_list(old).len() == n { Some(old_list(old)[i]) } else { None };
                law_idempotent::<S>(x, items[i], keys, elems);
            }
            assert(merge_items::<S>(m, new, keys, elems, n) =~= m);
        } else {
            assert forall|y: Option<StoreVal>, k: Seq<char>| S::get_of(new, k) is Some implies
                #[trigger] merges_twice_alike::<S>(y, S::get_of(new, k)->Some_0, keys, elems) by {
                law_idempotent::<S>(y, S::get_of(new, k)->Some_0, keys, elems);
            }
            lemma_dict_fixed::<S>(old_dict(old), new, keys, elems, keys.len());
        }
    }
}

/// Idempotence of a whole-map merge: merging a node a second time into the
/// map that the first merge gave changes nothing.
pub proof fn law_map_merge_idempotent<S: Settings>(base: Seq<(Seq<char>, StoreVal)>, new: S::V, keys: Seq<Seq<char>>, elems: Seq<Seq<char>>)
    ensures
        merge_dict::<S>(merge_dict::<S>(base, new, keys, elems, keys.len()), new, keys, elems, keys.len())
            == merge_dict::<S>(base, new, keys, elems, keys.len()),
{
    S::lemma_parts_lower(new);
    assert forall|y: Option<StoreVal>, k: Seq<char>| S::get_of(new, k) is Some implies
        #[trigger] merges_twice_alike::<S>(y, S::get_of(new, k)->Some_0, keys, elems) by {
        law_idempotent::<S>(y, S::get_of(new, k)->Some_0, keys, elems);
    }
    lemma_dict_fixed::<S>(base, new, keys, elems, keys.len());
}

} // verus!
