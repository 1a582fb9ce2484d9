use vstd::prelude::*;
use vstd::std_specs::cmp::PartialEqSpec;

verus! {

/// A widget's arguments whose heading level can be set.
pub trait SetHeadingLevel {
    fn set_heading_level(&mut self, heading_level: u32);
}

/// One choice of a radio button: its value, the key it is stored under,
/// and what the user sees.
#[derive(Clone)]
pub struct RadioButtonOption<'a, T> {
    pub value: T,
    pub key: &'a str,
    pub description: &'a str,
    pub tooltip: Option<&'a str>,
}

/// The arguments of a radio button: its heading level and the key of the
/// option chosen by default.
#[derive(Default)]
#[non_exhaustive]
pub struct RadioButtonArgs<'a> {
    pub heading_level: u32,
    pub default: &'a str,
}

impl SetHeadingLevel for RadioButtonArgs<'_> {
    fn set_heading_level(&mut self, heading_level: u32) {
        self.heading_level = heading_level;
    }
}

/// A type whose values a radio button offers, as a list of options.
pub trait RadioButtonOptions: Default + PartialEq + Sized {
    spec fn options_spec() -> Seq<RadioButtonOption<'static, Self>>;

    fn radio_button_options() -> (r: Vec<RadioButtonOption<'static, Self>>)
        ensures
            r@ == Self::options_spec(),
    ;
}

/// A radio button holding the value currently chosen.
pub struct RadioButton<T>(pub T);

/// Whether two string slices hold the same text.
pub fn str_eq(a: &str, b: &str) -> (r: bool)
    ensures
        r == (a@ == b@),
{
    a.to_string() == b.to_string()
}

impl<T> RadioButtonOption<'_, T> {
    /// The key of the checkbox that stands for this option in the
    /// radio button stored under `key`: `key`, an underscore, the option's key.
    pub fn bool_key(&self, key: &str) -> (r: String)
        ensures
            r@ == key@ + seq!['_'] + self.key@,
    {
        let mut s = key.to_string();
        proof {
            reveal_strlit("_");
        }
        s.append("_");
        s.append(self.key);
        s
    }
}

/// The index of the first option among the first `n` whose key is `key`.
pub open spec fn first_with_key<T>(opts: Seq<RadioButtonOption<'static, T>>, key: Seq<char>, n: nat) -> Option<nat>
    decreases n,
{
    if n == 0 || n > opts.len() {
        None
    } else {
        match first_with_key(opts, key, (n - 1) as nat) {
            Some(i) => Some(i),
            None => if opts[n - 1].key@ == key { Some((n - 1) as nat) } else { None },
        }
    }
}

/// The index of the first option among the first `n` whose value is `v`.
pub open spec fn first_with_value<T: PartialEq>(opts: Seq<RadioButtonOption<'static, T>>, v: T, n: nat) -> Option<nat>
    decreases n,
{
    if n == 0 || n > opts.len() {
        None
    } else {
        match first_with_value(opts, v, (n - 1) as nat) {
            Some(i) => Some(i),
            None => if opts[n - 1].value.eq_spec(&v) { Some((n - 1) as nat) } else { None },
        }
    }
}

pub proof fn lemma_first_with_key_stays<T>(opts: Seq<RadioButtonOption<'static, T>>, key: Seq<char>, n: nat, m: nat)
    requires
        n <= m <= opts.len(),
        first_with_key(opts, key, n) is Some,
    ensures
        first_with_key(opts, key, m) == first_with_key(opts, key, n),
    decreases m,
{
    if m > n {
        lemma_first_with_key_stays(opts, key, n, (m - 1) as nat);
    }
}

pub proof fn lemma_first_with_value_stays<T: PartialEq>(opts: Seq<RadioButtonOption<'static, T>>, v: T, n: nat, m: nat)
    requires
        n <= m <= opts.len(),
        first_with_value(opts, v, n) is Some,
    ensures
        first_with_value(opts, v, m) == first_with_value(opts, v, n),
    decreases m,
{
    if m > n {
        lemma_first_with_value_stays(opts, v, n, (m - 1) as nat);
    }
}

/// The key of the first option whose value is `v`, or the empty string.
pub fn options_str<T: RadioButtonOptions>(v: T) -> (r: &'static str)
    ensures
        T::obeys_eq_spec() ==> match first_with_value(T::options_spec(), v, T::options_spec().len()) {
            Some(i) => r@ == T::options_spec()[i as int].key@,
            None => r@ == Seq::<char>::empty(),
        },
{
    let opts = T::radio_button_options();
    let mut i: usize = 0;
    while i < opts.len()
        invariant
            i <= opts.len(),
            opts@ == T::options_spec(),
            T::obeys_eq_spec() ==> first_with_value(opts@, v, i as nat) is None,
        decreases opts.len() - i,
    {
        if opts[i].value == v {
            proof {
                if T::obeys_eq_spec() {
                    lemma_first_with_value_stays(opts@, v, (i + 1) as nat, opts@.len());
                }
            }
            return opts[i].key;
        }
        i = i + 1;
    }
    proof {
        reveal_strlit("");
    }
    ""
}

/// The value of the first option whose key is `s`, or the default value.
pub fn options_value<T: RadioButtonOptions>(s: &str) -> (r: T)
    ensures
        first_with_key(T::options_spec(), s@, T::options_spec().len()) matches Some(i)
            ==> r == T::options_spec()[i as int].value,
{
    let mut opts = T::radio_button_options();
    let mut i: usize = 0;
    while i < opts.len()
        invariant
            i <= opts.len(),
            opts@ == T::options_spec(),
            first_with_key(opts@, s@, i as nat) is None,
        decreases opts.len() - i,
    {
        if str_eq(opts[i].key, s) {
            proof {
                lemma_first_with_key_stays(opts@, s@, (i + 1) as nat, opts@.len());
            }
            let o = opts.remove(i);
            return o.value;
        }
        i = i + 1;
    }
    T::default()
}

impl RadioButtonArgs<'_> {
    /// The value of the option chosen by default.
    pub fn default_value<T: RadioButtonOptions>(&self) -> (r: T)
        ensures
            first_with_key(T::options_spec(), self.default@, T::options_spec().len()) matches Some(i)
                ==> r == T::options_spec()[i as int].value,
    {
        options_value::<T>(self.default)
    }
}

/// How many of the first `n` entries are set.
pub open spec fn count_true(m: Seq<(&str, bool)>, n: nat) -> nat
    decreases n,
{
    if n == 0 || n > m.len() {
        0
    } else {
        count_true(m, (n - 1) as nat) + if m[n - 1].1 { 1nat } else { 0nat }
    }
}

/// The key of the one entry that is set, where exactly one is.
pub fn single_from_bool_map<'a>(bool_map: &[(&'a str, bool)]) -> (r: Option<&'a str>)
    ensures
        match r {
            Some(k) => count_true(bool_map@, bool_map@.len()) == 1
                && exists|i: int| 0 <= i < bool_map@.len() && bool_map@[i].1 && bool_map@[i].0 == k,
            None => count_true(bool_map@, bool_map@.len()) != 1,
        },
{
    let mut found: Option<&'a str> = None;
    let mut count: usize = 0;
    let mut i: usize = 0;
    while i < bool_map.len()
        invariant
            i <= bool_map.len(),
            count == count_true(bool_map@, i as nat),
            count <= i,
            count >= 1 ==> (found matches Some(k) && exists|j: int| 0 <= j < i && bool_map@[j].1 && bool_map@[j].0 == k),
        decreases bool_map.len() - i,
    {
        if bool_map[i].1 {
            if count == 0 {
                found = Some(bool_map[i].0);
            }
            count = count + 1;
        }
        i = i + 1;
    }
    if count == 1 {
        found
    } else {
        None
    }
}

/// The number of options among the first `n` whose checkbox disagrees with
/// the stored choice `old`.
pub open spec fn toggled_count(keys: Seq<&str>, checked: Seq<bool>, old: Seq<char>, n: nat) -> nat
    decreases n,
{
    if n == 0 || n > keys.len() {
        0
    } else {
        toggled_count(keys, checked, old, (n - 1) as nat)
            + if checked[n - 1] != (keys[n - 1]@ == old) { 1nat } else { 0nat }
    }
}

/// The choice after the user clicked checkboxes: where exactly one checkbox
/// disagrees with the stored choice `old`, the option it belongs to if it is
/// now set, else the default; where none or several disagree, `old` stays.
pub fn selection_after_toggle<'a>(keys: &[&'a str], checked: &[bool], old: &'a str, default_key: &'a str) -> (r: &'a str)
    requires
        checked.len() == keys.len(),
    ensures
        toggled_count(keys@, checked@, old@, keys@.len()) != 1 ==> r == old,
        toggled_count(keys@, checked@, old@, keys@.len()) == 1 ==> exists|i: int| 0 <= i < keys@.len()
            && checked@[i] != (keys@[i]@ == old@)
            && r == (if checked@[i] { keys@[i] } else { default_key }),
{
    let mut pick: &'a str = old;
    let mut count: usize = 0;
    let mut i: usize = 0;
    while i < keys.len()
        invariant
            i <= keys.len(),
            checked.len() == keys.len(),
            count == toggled_count(keys@, checked@, old@, i as nat),
            count <= i,
            count == 0 ==> pick == old,
            count >= 1 ==> exists|j: int| 0 <= j < i && checked@[j] != (keys@[j]@ == old@)
                && pick == (if checked@[j] { keys@[j] } else { default_key }),
        decreases keys.len() - i,
    {
        let is_old = str_eq(keys[i], old);
        if checked[i] != is_old {
            if count == 0 {
                pick = if checked[i] { keys[i] } else { default_key };
            }
            count = count + 1;
        }
        i = i + 1;
    }
    if count == 1 {
        pick
    } else {
        old
    }
}

} // verus!
