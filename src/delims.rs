//! Structural well-formedness of generated code: balanced delimiters.
use vstd::prelude::*;
use vstd::string::*;

verus! {

pub open spec fn is_opener(c: char) -> bool {
    c == '(' || c == '[' || c == '{'
}

pub open spec fn is_closer(c: char) -> bool {
    c == ')' || c == ']' || c == '}'
}

/// The opening delimiter that a closing one matches.
pub open spec fn opener_of(c: char) -> char {
    if c == ')' {
        '('
    } else if c == ']' {
        '['
    } else {
        '{'
    }
}

/// The delimiters left open after the first `n` characters of `s`, or `None`
/// when a closing delimiter there matches no open one.
pub open spec fn open_after(s: Seq<char>, n: nat) -> Option<Seq<char>>
    decreases n,
{
    if n == 0 {
        Some(Seq::empty())
    } else {
        match open_after(s, (n - 1) as nat) {
            None => None,
            Some(st) => {
                let c = s[n - 1];
                if is_opener(c) {
                    Some(st.push(c))
                } else if is_closer(c) {
                    if st.len() > 0 && st.last() == opener_of(c) {
                        Some(st.drop_last())
                    } else {
                        None
                    }
                } else {
                    Some(st)
                }
            }
        }
    }
}

/// Every closing delimiter of `s` closes the latest open one of its kind,
/// and none is left open.
pub open spec fn balanced(s: Seq<char>) -> bool {
    open_after(s, s.len()) == Some(Seq::<char>::empty())
}

proof fn lemma_mismatch_stays(s: Seq<char>, n: nat, m: nat)
    requires
        n <= m,
        open_after(s, n) is None,
    ensures
        open_after(s, m) is None,
    decreases m - n,
{
    if n < m {
        lemma_mismatch_stays(s, n, (m - 1) as nat);
    }
}

/// Whether the delimiters of `s` are balanced.
pub fn is_balanced(s: &str) -> (r: bool)
    ensures
        r == balanced(s@),
{
    let n = s.unicode_len();
    let mut open: Vec<char> = Vec::new();
    let mut i: usize = 0;
    while i < n
        invariant
            n == s@.len(),
            i <= n,
            open_after(s@, i as nat) == Some(open@),
        decreases n - i,
    {
        let c = s.get_char(i);
        if c == '(' || c == '[' || c == '{' {
            open.push(c);
        } else if c == ')' || c == ']' || c == '}' {
            let want = if c == ')' {
                '('
            } else if c == ']' {
                '['
            } else {
                '{'
            };
            if open.len() > 0 && open[open.len() - 1] == want {
                open.pop();
            } else {
                proof {
                    lemma_mismatch_stays(s@, (i + 1) as nat, n as nat);
                }
                return false;
            }
        }
        proof {
            assert(open_after(s@, (i + 1) as nat) == Some(open@));
        }
        i = i + 1;
    }
    proof {
        if open@.len() == 0 {
            assert(open@ =~= Seq::<char>::empty());
        }
    }
    open.len() == 0
}

} // verus!
