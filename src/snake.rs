//! Naive conversion of a CamelCase service name to snake_case.
use vstd::prelude::*;
use vstd::string::*;
use crate::text::push_char;

verus! {

/// What `char::is_uppercase` returns for `c`: whether `c` has the Unicode
/// `Uppercase` property.
pub uninterp spec fn uppercase_of(c: char) -> bool;

/// Relies on `char::is_uppercase`. For ASCII characters the `Uppercase`
/// property holds exactly of `A` to `Z`.
#[verifier::external_body]
fn is_uppercase(c: char) -> (r: bool)
    ensures
        r == uppercase_of(c),
        ('A' <= c && c <= 'Z') ==> r,
        (c as u32) < 128 && !('A' <= c && c <= 'Z') ==> !r,
{
    c.is_uppercase()
}

/// ASCII lower case: `A` to `Z` map to `a` to `z`, every other character is kept.
pub open spec fn ascii_lower(c: char) -> char {
    if 'A' <= c && c <= 'Z' {
        ((c as u8) + 32) as char
    } else {
        c
    }
}

pub fn to_ascii_lower(c: char) -> (r: char)
    ensures
        r == ascii_lower(c),
{
    if 'A' <= c && c <= 'Z' {
        ((c as u8) + 32) as char
    } else {
        c
    }
}

/// What character `i` of `s` contributes, where `up[j]` tells whether
/// character `j` is upper case: itself in ASCII lower case, then an
/// underscore when the next character is upper case.
pub open spec fn snake_piece(s: Seq<char>, up: Seq<bool>, i: int) -> Seq<char> {
    if i + 1 < s.len() && up[i + 1] {
        seq![ascii_lower(s[i]), '_']
    } else {
        seq![ascii_lower(s[i])]
    }
}

/// The pieces of the first `n` characters of `s`, in order.
pub open spec fn snake_prefix(s: Seq<char>, up: Seq<bool>, n: nat) -> Seq<char>
    decreases n,
{
    if n == 0 {
        Seq::empty()
    } else {
        snake_prefix(s, up, (n - 1) as nat) + snake_piece(s, up, n - 1)
    }
}

/// Which characters of `s` are upper case.
pub open spec fn upper_flags(s: Seq<char>) -> Seq<bool> {
    Seq::new(s.len(), |i: int| uppercase_of(s[i]))
}

/// The snake_case form of `s`.
pub open spec fn snake_case(s: Seq<char>) -> Seq<char> {
    snake_prefix(s, upper_flags(s), s.len())
}

/// The snake_case form of `name`, given for each character whether it is
/// upper case.
pub fn snake_case_with_flags(name: &str, upper: &Vec<bool>) -> (r: String)
    requires
        upper@.len() == name@.len(),
    ensures
        r@ == snake_prefix(name@, upper@, name@.len()),
{
    let n = name.unicode_len();
    let mut s = String::new();
    let mut i: usize = 0;
    while i < n
        invariant
            n == name@.len(),
            upper@.len() == n,
            i <= n,
            s@ == snake_prefix(name@, upper@, i as nat),
        decreases n - i,
    {
        push_char(&mut s, to_ascii_lower(name.get_char(i)));
        if i + 1 < n && upper[i + 1] {
            push_char(&mut s, '_');
        }
        assert(s@ =~= snake_prefix(name@, upper@, (i + 1) as nat));
        i = i + 1;
    }
    s
}

/// Lower-cases each character and puts an underscore before each upper-case
/// character that is not the first (`OrderService` gives `order_service`).
pub fn naive_snake_case(name: &str) -> (r: String)
    ensures
        r@ == snake_case(name@),
{
    let n = name.unicode_len();
    let mut upper: Vec<bool> = Vec::new();
    let mut i: usize = 0;
    while i < n
        invariant
            n == name@.len(),
            i <= n,
            upper@ == upper_flags(name@).take(i as int),
        decreases n - i,
    {
        upper.push(is_uppercase(name.get_char(i)));
        assert(upper@ =~= upper_flags(name@).take(i + 1));
        i = i + 1;
    }
    assert(upper@ =~= upper_flags(name@));
    snake_case_with_flags(name, &upper)
}

} // verus!
