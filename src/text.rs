use vstd::prelude::*;

verus! {

/// The character that writes the decimal digit `d`.
pub open spec fn digit_char(d: nat) -> char {
    if d == 0 { '0' }
    else if d == 1 { '1' }
    else if d == 2 { '2' }
    else if d == 3 { '3' }
    else if d == 4 { '4' }
    else if d == 5 { '5' }
    else if d == 6 { '6' }
    else if d == 7 { '7' }
    else if d == 8 { '8' }
    else { '9' }
}

/// The decimal notation of `n`, without sign or leading zeros.
pub open spec fn decimal(n: nat) -> Seq<char>
    decreases n,
{
    if n < 10 {
        seq![digit_char(n)]
    } else {
        decimal(n / 10).push(digit_char(n % 10))
    }
}

/// Whether `c` has Unicode's White_Space property.
pub open spec fn is_white_space(c: char) -> bool {
    ('\u{9}' <= c && c <= '\u{d}') || c == ' ' || c == '\u{85}' || c == '\u{a0}'
        || c == '\u{1680}' || ('\u{2000}' <= c && c <= '\u{200a}') || c == '\u{2028}'
        || c == '\u{2029}' || c == '\u{202f}' || c == '\u{205f}' || c == '\u{3000}'
}

pub open spec fn trim_start(s: Seq<char>) -> Seq<char>
    decreases s.len(),
{
    if s.len() > 0 && is_white_space(s[0]) {
        trim_start(s.drop_first())
    } else {
        s
    }
}

pub open spec fn trim_end(s: Seq<char>) -> Seq<char>
    decreases s.len(),
{
    if s.len() > 0 && is_white_space(s.last()) {
        trim_end(s.drop_last())
    } else {
        s
    }
}

/// `s` without the white space at either end.
pub open spec fn trimmed(s: Seq<char>) -> Seq<char> {
    trim_end(trim_start(s))
}

pub open spec fn true_word() -> Seq<char> {
    seq!['T', 'r', 'u', 'e']
}

pub open spec fn false_word() -> Seq<char> {
    seq!['F', 'a', 'l', 's', 'e']
}

/// The boolean that a text spells, once trimmed: exactly `True` or `False`.
pub open spec fn flag_of(s: Seq<char>) -> Option<bool> {
    if trimmed(s) == true_word() {
        Some(true)
    } else if trimmed(s) == false_word() {
        Some(false)
    } else {
        None
    }
}

/// Relies on str::trim: removes the leading and trailing characters
/// for which char::is_whitespace holds, that is the White_Space ones.
#[verifier::external_body]
fn trim(s: &str) -> (r: &str)
    ensures
        r@ == trimmed(s@),
{
    s.trim()
}

fn digit_str(d: usize) -> (r: &'static str)
    requires
        d < 10,
    ensures
        r@ == seq![digit_char(d as nat)],
{
    proof {
        reveal_strlit("0");
        reveal_strlit("1");
        reveal_strlit("2");
        reveal_strlit("3");
        reveal_strlit("4");
        reveal_strlit("5");
        reveal_strlit("6");
        reveal_strlit("7");
        reveal_strlit("8");
        reveal_strlit("9");
    }
    let r = if d == 0 { "0" }
    else if d == 1 { "1" }
    else if d == 2 { "2" }
    else if d == 3 { "3" }
    else if d == 4 { "4" }
    else if d == 5 { "5" }
    else if d == 6 { "6" }
    else if d == 7 { "7" }
    else if d == 8 { "8" }
    else { "9" };
    assert(r@ =~= seq![digit_char(d as nat)]);
    r
}

/// The key under which a positional map stores the element at index `i`.
pub fn index_key(i: usize) -> (r: String)
    ensures
        r@ == decimal(i as nat),
    decreases i,
{
    if i < 10 {
        digit_str(i).to_string()
    } else {
        let mut s = index_key(i / 10);
        s.append(digit_str(i % 10));
        s
    }
}

/// Reads `True` or `False`, with white space allowed around the word.
pub fn parse_flag(s: &str) -> (r: Option<bool>)
    ensures
        r == flag_of(s@),
{
    let t = trim(s).to_string();
    proof {
        reveal_strlit("True");
        reveal_strlit("False");
    }
    let yes = "True".to_string();
    let no = "False".to_string();
    assert(yes@ =~= true_word());
    assert(no@ =~= false_word());
    if t == yes {
        Some(true)
    } else if t == no {
        Some(false)
    } else {
        None
    }
}

} // verus!
