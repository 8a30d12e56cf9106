//! Splitting dotted package names into their segments.
use vstd::prelude::*;
use vstd::string::*;
use crate::text::push_char;

verus! {

/// The views of a sequence of strings.
pub open spec fn texts(v: Seq<String>) -> Seq<Seq<char>> {
    v.map_values(|s: String| s@)
}

/// The dot-separated segments of the first `n` characters of `s`; there is
/// always at least one, possibly empty.
pub open spec fn split_prefix(s: Seq<char>, n: nat) -> Seq<Seq<char>>
    decreases n,
{
    if n == 0 {
        seq![Seq::empty()]
    } else {
        let p = split_prefix(s, (n - 1) as nat);
        if s[n - 1] == '.' {
            p.push(Seq::empty())
        } else {
            p.update(p.len() - 1, p.last().push(s[n - 1]))
        }
    }
}

/// The dot-separated segments of `s` (`a.b.c` gives `a`, `b`, `c`).
pub open spec fn split_dots(s: Seq<char>) -> Seq<Seq<char>> {
    split_prefix(s, s.len())
}

/// Splits a dotted package name into its segments.
pub fn split_package(name: &str) -> (r: Vec<String>)
    ensures
        texts(r@) == split_dots(name@),
{
    let n = name.unicode_len();
    let mut parts: Vec<String> = Vec::new();
    let mut cur = String::new();
    let mut i: usize = 0;
    while i < n
        invariant
            n == name@.len(),
            i <= n,
            split_prefix(name@, i as nat) == texts(parts@).push(cur@),
        decreases n - i,
    {
        let c = name.get_char(i);
        if c == '.' {
            let mut done = String::new();
            std::mem::swap(&mut cur, &mut done);
            parts.push(done);
        } else {
            push_char(&mut cur, c);
        }
        assert(split_prefix(name@, (i + 1) as nat) =~= texts(parts@).push(cur@));
        i = i + 1;
    }
    parts.push(cur);
    assert(texts(parts@) =~= split_dots(name@));
    parts
}

} // verus!
