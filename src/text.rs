//! Small string utilities with exact specifications.
use vstd::prelude::*;
use vstd::string::*;

verus! {

/// The character of a decimal digit.
pub open spec fn digit_char(d: nat) -> char {
    if d == 0 { '0' }
    else if d == 1 { '1' }
    else if d == 2 { '2' }
    else if d == 3 { '3' }
    else if d == 4 { '4' }
    else if d == 5 { '5' }
    else if d == 6 { '6' }
    else if d == 7 { '7' }
    else if d == 8 { '8' }
    else { '9' }
}

/// The decimal notation of `n`, without leading zeros.
pub open spec fn decimal(n: nat) -> Seq<char>
    decreases n,
{
    if n < 10 {
        seq![digit_char(n)]
    } else {
        decimal(n / 10).push(digit_char(n % 10))
    }
}

fn digit_str(d: u128) -> (r: &'static str)
    requires
        d < 10,
    ensures
        r@ == seq![digit_char(d as nat)],
{
    proof {
        reveal_strlit("0");
        reveal_strlit("1");
        reveal_strlit("2");
        reveal_strlit("3");
        reveal_strlit("4");
        reveal_strlit("5");
        reveal_strlit("6");
        reveal_strlit("7");
        reveal_strlit("8");
        reveal_strlit("9");
    }
    if d == 0 { "0" }
    else if d == 1 { "1" }
    else if d == 2 { "2" }
    else if d == 3 { "3" }
    else if d == 4 { "4" }
    else if d == 5 { "5" }
    else if d == 6 { "6" }
    else if d == 7 { "7" }
    else if d == 8 { "8" }
    else { "9" }
}

/// Writes `n` in decimal notation.
pub fn decimal_string(n: u128) -> (r: String)
    ensures
        r@ == decimal(n as nat),
    decreases n,
{
    if n < 10 {
        String::from_str(digit_str(n))
    } else {
        let mut r = decimal_string(n / 10);
        r.append(digit_str(n % 10));
        r
    }
}

/// Whether two strings hold the same characters.
pub fn same_text(a: &str, b: &str) -> (r: bool)
    ensures
        r == (a@ == b@),
{
    a.to_owned() == b.to_owned()
}

/// The characters of each string of a list.
pub open spec fn names_of(v: Seq<String>) -> Seq<Seq<char>> {
    v.map_values(|s: String| s@)
}

/// Linear search for a name among the first `upto` strings of a list.
pub fn contains_name(names: &[String], upto: usize, name: &str) -> (r: bool)
    requires
        upto <= names@.len(),
    ensures
        r == names_of(names@).take(upto as int).contains(name@),
{
    let mut i: usize = 0;
    while i < upto
        invariant
            upto <= names@.len(),
            i <= upto,
            forall|j: int| 0 <= j < i ==> names@[j]@ != name@,
        decreases upto - i,
    {
        if same_text(names[i].as_str(), name) {
            proof {
                assert(names_of(names@).take(upto as int)[i as int] == name@);
            }
            return true;
        }
        i = i + 1;
    }
    proof {
        let t = names_of(names@).take(upto as int);
        assert forall|j: int| 0 <= j < t.len() implies t[j] != name@ by {
            assert(t[j] == names@[j]@);
        }
    }
    false
}

/// Unicode White_Space: the characters that `char::is_whitespace` accepts.
pub open spec fn is_white_space(c: char) -> bool {
    let v = c as u32;
    (0x9 <= v && v <= 0xd) || v == 0x20 || v == 0x85 || v == 0xa0 || v == 0x1680 || (0x2000 <= v
        && v <= 0x200a) || v == 0x2028 || v == 0x2029 || v == 0x202f || v == 0x205f || v == 0x3000
}

pub fn white_space(c: char) -> (r: bool)
    ensures
        r == is_white_space(c),
{
    let v = c as u32;
    (0x9 <= v && v <= 0xd) || v == 0x20 || v == 0x85 || v == 0xa0 || v == 0x1680 || (0x2000 <= v
        && v <= 0x200a) || v == 0x2028 || v == 0x2029 || v == 0x202f || v == 0x205f || v == 0x3000
}

/// The text without its leading white space.
pub open spec fn trim_start(s: Seq<char>) -> Seq<char>
    decreases s.len(),
{
    if s.len() > 0 && is_white_space(s[0]) {
        trim_start(s.drop_first())
    } else {
        s
    }
}

/// The text without its trailing white space.
pub open spec fn trim_end(s: Seq<char>) -> Seq<char>
    decreases s.len(),
{
    if s.len() > 0 && is_white_space(s.last()) {
        trim_end(s.drop_last())
    } else {
        s
    }
}

/// The text with leading and trailing white space removed, as `str::trim` does.
pub open spec fn trim_of(s: Seq<char>) -> Seq<char> {
    trim_end(trim_start(s))
}

/// Removes leading and trailing white space.
pub fn trim(s: &str) -> (r: String)
    ensures
        r@ == trim_of(s@),
{
    let n = s.unicode_len();
    let mut i: usize = 0;
    assert(s@.subrange(0, n as int) =~= s@);
    while i < n && white_space(s.get_char(i))
        invariant
            n == s@.len(),
            i <= n,
            trim_start(s@) == trim_start(s@.subrange(i as int, n as int)),
        decreases n - i,
    {
        assert(s@.subrange(i as int, n as int).drop_first() =~= s@.subrange(i as int + 1, n as int));
        i = i + 1;
    }
    let mut j: usize = n;
    while j > i && white_space(s.get_char(j - 1))
        invariant
            n == s@.len(),
            i <= j <= n,
            trim_start(s@) == s@.subrange(i as int, n as int),
            trim_of(s@) == trim_end(s@.subrange(i as int, j as int)),
        decreases j,
    {
        assert(s@.subrange(i as int, j as int).drop_last() =~= s@.subrange(i as int, j as int - 1));
        j = j - 1;
    }
    String::from_str(s.substring_char(i, j))
}

/// The text in lower case.
pub uninterp spec fn lower_of(s: Seq<char>) -> Seq<char>;

/// Relies on `str::to_lowercase`, which maps each character to its Unicode
/// lower-case form; the result depends on the characters alone.
#[verifier::external_body]
pub(crate) fn lowercase(s: &str) -> (r: String)
    ensures
        r@ == lower_of(s@),
{
    s.to_lowercase()
}

/// `s` with each space replaced by `sep`.
pub open spec fn spaces_replaced(s: Seq<char>, sep: Seq<char>) -> Seq<char>
    decreases s.len(),
{
    if s.len() == 0 {
        seq![]
    } else {
        spaces_replaced(s.drop_last(), sep) + (if s.last() == ' ' {
            sep
        } else {
            seq![s.last()]
        })
    }
}

/// Replaces each space of `s` by `sep`.
pub fn replace_spaces(s: &str, sep: &str) -> (r: String)
    ensures
        r@ == spaces_replaced(s@, sep@),
{
    let n = s.unicode_len();
    let mut r = String::new();
    let mut i: usize = 0;
    while i < n
        invariant
            n == s@.len(),
            i <= n,
            r@ == spaces_replaced(s@.take(i as int), sep@),
        decreases n - i,
    {
        proof {
            assert(s@.take(i as int + 1).drop_last() =~= s@.take(i as int));
        }
        if s.get_char(i) == ' ' {
            r.append(sep);
        } else {
            r.append(s.substring_char(i, i + 1));
            assert(s@.subrange(i as int, i as int + 1) =~= seq![s@[i as int]]);
        }
        i = i + 1;
    }
    assert(s@.take(n as int) =~= s@);
    r
}

/// Whether a character is upper case.
pub uninterp spec fn is_upper(c: char) -> bool;

/// Relies on `char::is_uppercase`, the Unicode `Uppercase` property of the character.
#[verifier::external_body]
pub(crate) fn char_is_uppercase(c: char) -> (r: bool)
    ensures
        r == is_upper(c),
{
    c.is_uppercase()
}

/// The lower-case mapping of a character, one or more characters long.
pub uninterp spec fn char_lower_of(c: char) -> Seq<char>;

/// Relies on `char::to_lowercase`: the characters of the Unicode lower-case
/// mapping of `c`, collected into a string.
#[verifier::external_body]
pub(crate) fn char_lowercase(c: char) -> (r: String)
    ensures
        r@ == char_lower_of(c),
{
    c.to_lowercase().to_string()
}

/// The first character of the upper-case mapping of a character.
pub uninterp spec fn upper_first_of(c: char) -> char;

/// Relies on `char::to_uppercase`, whose mapping is never empty: its first
/// character, as a string of one character.
#[verifier::external_body]
pub(crate) fn char_upper_first(c: char) -> (r: String)
    ensures
        r@ == seq![upper_first_of(c)],
{
    c.to_uppercase().next().unwrap_or(c).to_string()
}

} // verus!
