use vstd::prelude::*;

verus! {

/// The mathematical value of a store cell. A map is an association list
/// whose first entry for a key is the one that counts; the store's own
/// maps never hold a key twice.
pub enum StoreVal {
    Bool(bool),
    Str(Seq<char>),
    List(Seq<StoreVal>),
    Dict(Seq<(Seq<char>, StoreVal)>),
}

/// The index of the first entry of `ps` under key `k`, if any.
pub open spec fn find_key(ps: Seq<(Seq<char>, StoreVal)>, k: Seq<char>) -> Option<nat>
    decreases ps.len(),
{
    if ps.len() == 0 {
        None
    } else if ps[0].0 == k {
        Some(0)
    } else {
        match find_key(ps.drop_first(), k) {
            Some(i) => Some(i + 1),
            None => None,
        }
    }
}

/// What a map holds under `k`.
pub open spec fn dict_lookup(ps: Seq<(Seq<char>, StoreVal)>, k: Seq<char>) -> Option<StoreVal> {
    match find_key(ps, k) {
        Some(i) => Some(ps[i as int].1),
        None => None,
    }
}

/// The map after writing `v` under `k`: in place where `k` is present,
/// as a new last entry where it is not.
pub open spec fn dict_insert(ps: Seq<(Seq<char>, StoreVal)>, k: Seq<char>, v: StoreVal) -> Seq<(Seq<char>, StoreVal)> {
    match find_key(ps, k) {
        Some(i) => ps.update(i as int, (k, v)),
        None => ps.push((k, v)),
    }
}

pub proof fn lemma_find_key(ps: Seq<(Seq<char>, StoreVal)>, k: Seq<char>)
    ensures
        match find_key(ps, k) {
            Some(i) => i < ps.len() && ps[i as int].0 == k
                && forall|j: int| 0 <= j < i ==> ps[j].0 != k,
            None => forall|j: int| 0 <= j < ps.len() ==> ps[j].0 != k,
        },
    decreases ps.len(),
{
    if ps.len() > 0 {
        lemma_find_key(ps.drop_first(), k);
        if ps[0].0 != k {
            match find_key(ps.drop_first(), k) {
                Some(i) => {
                    assert forall|j: int| 0 <= j < i + 1 implies ps[j].0 != k by {
                        if j > 0 {
                            assert(ps[j] == ps.drop_first()[j - 1]);
                        }
                    }
                },
                None => {
                    assert forall|j: int| 0 <= j < ps.len() implies ps[j].0 != k by {
                        if j > 0 {
                            assert(ps[j] == ps.drop_first()[j - 1]);
                        }
                    }
                },
            }
        }
    }
}

/// `find_key` is determined by the position of the first entry with the key.
pub proof fn lemma_find_key_at(ps: Seq<(Seq<char>, StoreVal)>, k: Seq<char>, i: int)
    requires
        0 <= i < ps.len(),
        ps[i].0 == k,
        forall|j: int| 0 <= j < i ==> ps[j].0 != k,
    ensures
        find_key(ps, k) == Some(i as nat),
{
    lemma_find_key(ps, k);
}

pub proof fn lemma_find_key_absent(ps: Seq<(Seq<char>, StoreVal)>, k: Seq<char>)
    requires
        forall|j: int| 0 <= j < ps.len() ==> ps[j].0 != k,
    ensures
        find_key(ps, k) is None,
{
    lemma_find_key(ps, k);
}

/// Writing under one key leaves what every other key holds.
pub proof fn lemma_dict_insert_other(ps: Seq<(Seq<char>, StoreVal)>, k: Seq<char>, v: StoreVal, other: Seq<char>)
    requires
        other != k,
    ensures
        dict_lookup(dict_insert(ps, k, v), other) == dict_lookup(ps, other),
{
    let qs = dict_insert(ps, k, v);
    lemma_find_key(ps, k);
    lemma_find_key(ps, other);
    lemma_find_key(qs, other);
    match find_key(ps, other) {
        Some(i) => {
            lemma_find_key_at(qs, other, i as int);
        },
        None => {
            lemma_find_key_absent(qs, other);
        },
    }
}

/// Writing under a key, then reading it, gives what was written.
pub proof fn lemma_dict_insert_same(ps: Seq<(Seq<char>, StoreVal)>, k: Seq<char>, v: StoreVal)
    ensures
        dict_lookup(dict_insert(ps, k, v), k) == Some(v),
{
    let qs = dict_insert(ps, k, v);
    lemma_find_key(ps, k);
    match find_key(ps, k) {
        Some(i) => {
            lemma_find_key_at(qs, k, i as int);
        },
        None => {
            lemma_find_key_at(qs, k, ps.len() as int);
        },
    }
}

/// Writing back what a key already holds changes nothing.
pub proof fn lemma_dict_insert_unchanged(ps: Seq<(Seq<char>, StoreVal)>, k: Seq<char>, v: StoreVal)
    requires
        dict_lookup(ps, k) == Some(v),
    ensures
        dict_insert(ps, k, v) == ps,
{
    lemma_find_key(ps, k);
    let i = find_key(ps, k)->Some_0 as int;
    assert(dict_insert(ps, k, v) =~= ps);
}

/// A second write under a key overrides the first.
pub proof fn lemma_dict_insert_twice(ps: Seq<(Seq<char>, StoreVal)>, k: Seq<char>, x: StoreVal, y: StoreVal)
    ensures
        dict_insert(dict_insert(ps, k, x), k, y) == dict_insert(ps, k, y),
{
    let qs = dict_insert(ps, k, x);
    lemma_find_key(ps, k);
    match find_key(ps, k) {
        Some(i) => {
            lemma_find_key_at(qs, k, i as int);
            assert(dict_insert(qs, k, y) =~= dict_insert(ps, k, y));
        },
        None => {
            lemma_find_key_at(qs, k, ps.len() as int);
            assert(dict_insert(qs, k, y) =~= dict_insert(ps, k, y));
        },
    }
}

/// A cell of the live settings store.
#[derive(Debug, PartialEq)]
pub enum SettingsValue {
    Bool(bool),
    Str(String),
    List(Vec<SettingsValue>),
    Dict(SettingsMap),
}

/// A map of the live settings store, from names to cells.
#[derive(Debug, PartialEq)]
pub struct SettingsMap {
    pub entries: Vec<(String, SettingsValue)>,
}

pub open spec fn value_view(v: &SettingsValue) -> StoreVal
    decreases v, 0nat,
{
    match v {
        SettingsValue::Bool(b) => StoreVal::Bool(*b),
        SettingsValue::Str(s) => StoreVal::Str(s@),
        SettingsValue::List(l) => StoreVal::List(list_view(l, l.len() as nat)),
        SettingsValue::Dict(m) => StoreVal::Dict(entries_view(&m.entries, m.entries.len() as nat)),
    }
}

/// The values of the first `n` cells of `l`.
pub open spec fn list_view(l: &Vec<SettingsValue>, n: nat) -> Seq<StoreVal>
    decreases l, n,
{
    if n == 0 || n > l.len() {
        Seq::empty()
    } else {
        list_view(l, (n - 1) as nat).push(value_view(&l[n - 1]))
    }
}

/// The values of the first `n` entries of `l`.
pub open spec fn entries_view(l: &Vec<(String, SettingsValue)>, n: nat) -> Seq<(Seq<char>, StoreVal)>
    decreases l, n,
{
    if n == 0 || n > l.len() {
        Seq::empty()
    } else {
        entries_view(l, (n - 1) as nat).push((l[n - 1].0@, value_view(&l[n - 1].1)))
    }
}

pub proof fn lemma_list_view(l: &Vec<SettingsValue>, n: nat)
    requires
        n <= l.len(),
    ensures
        list_view(l, n).len() == n,
        forall|i: int| 0 <= i < n ==> #[trigger] list_view(l, n)[i] == value_view(&l[i]),
    decreases n,
{
    if n > 0 {
        lemma_list_view(l, (n - 1) as nat);
    }
}

pub proof fn lemma_entries_view(l: &Vec<(String, SettingsValue)>, n: nat)
    requires
        n <= l.len(),
    ensures
        entries_view(l, n).len() == n,
        forall|i: int| 0 <= i < n ==> #[trigger] entries_view(l, n)[i] == (l[i].0@, value_view(&l[i].1)),
    decreases n,
{
    if n > 0 {
        lemma_entries_view(l, (n - 1) as nat);
    }
}

/// The values of all cells of `l`.
pub open spec fn cells_view(l: &Vec<SettingsValue>) -> Seq<StoreVal> {
    list_view(l, l.len() as nat)
}

impl View for SettingsMap {
    type V = Seq<(Seq<char>, StoreVal)>;

    open spec fn view(&self) -> Seq<(Seq<char>, StoreVal)> {
        entries_view(&self.entries, self.entries.len() as nat)
    }
}

impl SettingsMap {
    /// An empty map.
    pub fn new() -> (r: SettingsMap)
        ensures
            r@ == Seq::<(Seq<char>, StoreVal)>::empty(),
    {
        SettingsMap { entries: Vec::new() }
    }

    /// The number of keys.
    pub fn len(&self) -> (r: usize)
        ensures
            r == self@.len(),
    {
        proof {
            lemma_entries_view(&self.entries, self.entries.len() as nat);
        }
        self.entries.len()
    }

    fn position(&self, key: &str) -> (r: Option<usize>)
        ensures
            r matches Some(i) ==> i < self.entries.len(),
            match r {
                Some(i) => find_key(self@, key@) == Some(i as nat),
                None => find_key(self@, key@) is None,
            },
    {
        proof {
            lemma_entries_view(&self.entries, self.entries.len() as nat);
        }
        let k = key.to_string();
        let mut i: usize = 0;
        while i < self.entries.len()
            invariant
                i <= self.entries.len(),
                k@ == key@,
                self@.len() == self.entries.len(),
                forall|j: int| 0 <= j < i ==> self@[j].0 != key@,
                forall|j: int| 0 <= j < self.entries.len() ==> #[trigger] self@[j] == (self.entries[j].0@, value_view(&self.entries[j].1)),
            decreases self.entries.len() - i,
        {
            if self.entries[i].0 == k {
                proof {
                    lemma_find_key_at(self@, key@, i as int);
                }
                return Some(i);
            }
            i = i + 1;
        }
        proof {
            lemma_find_key_absent(self@, key@);
        }
        None
    }

    /// The cell under `key`, if any.
    pub fn get(&self, key: &str) -> (r: Option<&SettingsValue>)
        ensures
            match r {
                Some(v) => dict_lookup(self@, key@) == Some(value_view(v)),
                None => dict_lookup(self@, key@) is None,
            },
    {
        proof {
            lemma_entries_view(&self.entries, self.entries.len() as nat);
        }
        match self.position(key) {
            Some(i) => Some(&self.entries[i].1),
            None => None,
        }
    }

    /// Writes `value` under `key`, replacing what was there.
    pub fn insert(&mut self, key: &str, value: SettingsValue)
        ensures
            final(self)@ == dict_insert(old(self)@, key@, value_view(&value)),
    {
        proof {
            lemma_entries_view(&self.entries, self.entries.len() as nat);
        }
        let k = key.to_string();
        match self.position(key) {
            Some(i) => {
                self.entries.set(i, (k, value));
            },
            None => {
                self.entries.push((k, value));
            },
        }
        proof {
            lemma_entries_view(&self.entries, self.entries.len() as nat);
            assert(self@ =~= dict_insert(old(self)@, key@, value_view(&value)));
        }
    }

    /// Moves the cell under `key` out of the map and leaves `false` in its
    /// place, so that a following `insert` writes it back where it stood.
    pub(crate) fn detach(&mut self, key: &str) -> (r: Option<SettingsValue>)
        ensures
            match r {
                Some(v) => dict_lookup(old(self)@, key@) == Some(value_view(&v))
                    && final(self)@ == dict_insert(old(self)@, key@, StoreVal::Bool(false)),
                None => dict_lookup(old(self)@, key@) is None && final(self)@ == old(self)@,
            },
    {
        proof {
            lemma_entries_view(&self.entries, self.entries.len() as nat);
        }
        match self.position(key) {
            Some(i) => {
                let k = key.to_string();
                let (_, v) = self.entries.remove(i);
                self.entries.insert(i, (k, SettingsValue::Bool(false)));
                proof {
                    lemma_entries_view(&self.entries, self.entries.len() as nat);
                    assert(self@ =~= dict_insert(old(self)@, key@, StoreVal::Bool(false)));
                }
                Some(v)
            },
            None => None,
        }
    }
}

/// Copies a cell with all that lies below it.
pub fn copy_value(v: &SettingsValue) -> (r: SettingsValue)
    ensures
        value_view(&r) == value_view(v),
    decreases v, 0nat,
{
    match v {
        SettingsValue::Bool(b) => SettingsValue::Bool(*b),
        SettingsValue::Str(s) => SettingsValue::Str(s.clone()),
        SettingsValue::List(l) => SettingsValue::List(copy_cells(l)),
        SettingsValue::Dict(m) => SettingsValue::Dict(SettingsMap { entries: copy_entries(&m.entries) }),
    }
}

fn copy_cells(l: &Vec<SettingsValue>) -> (r: Vec<SettingsValue>)
    ensures
        cells_view(&r) == cells_view(l),
    decreases l, 1nat,
{
    let mut r: Vec<SettingsValue> = Vec::new();
    let mut i: usize = 0;
    while i < l.len()
        invariant
            i <= l.len(),
            r.len() == i,
            forall|j: int| 0 <= j < i ==> value_view(&r[j]) == value_view(&l[j]),
        decreases l.len() - i,
    {
        let c = copy_value(&l[i]);
        r.push(c);
        i = i + 1;
    }
    proof {
        lemma_list_view(&r, r.len() as nat);
        lemma_list_view(l, l.len() as nat);
        assert(cells_view(&r) =~= cells_view(l));
    }
    r
}

fn copy_entries(l: &Vec<(String, SettingsValue)>) -> (r: Vec<(String, SettingsValue)>)
    ensures
        entries_view(&r, r.len() as nat) == entries_view(l, l.len() as nat),
    decreases l, 1nat,
{
    let mut r: Vec<(String, SettingsValue)> = Vec::new();
    let mut i: usize = 0;
    while i < l.len()
        invariant
            i <= l.len(),
            r.len() == i,
            forall|j: int| 0 <= j < i ==> r[j].0@ == l[j].0@ && value_view(&r[j].1) == value_view(&l[j].1),
        decreases l.len() - i,
    {
        let k = l[i].0.clone();
        let c = copy_value(&l[i].1);
        r.push((k, c));
        i = i + 1;
    }
    proof {
        lemma_entries_view(&r, r.len() as nat);
        lemma_entries_view(l, l.len() as nat);
        assert(entries_view(&r, r.len() as nat) =~= entries_view(l, l.len() as nat));
    }
    r
}

impl SettingsMap {
    /// Copies the map with all that lies below it.
    pub fn copy(&self) -> (r: SettingsMap)
        ensures
            r@ == self@,
    {
        SettingsMap { entries: copy_entries(&self.entries) }
    }
}

} // verus!
