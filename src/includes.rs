//! The aggregation artifact: every generated unit reachable from one root,
//! nested by package.
use vstd::prelude::*;
use vstd::string::*;
use vstd::multiset::Multiset;
use crate::split::texts;
use crate::text::same_text;
use crate::tree::{node_text, tree_of, PackageTree};

verus! {

/// The order `slice::sort` puts a list of names in. A sort puts equal names
/// side by side, so the order depends only on how often each name occurs.
pub uninterp spec fn sorted_of(names: Multiset<Seq<char>>) -> Seq<Seq<char>>;

/// Relies on `slice::sort` over `String`s: the result is a permutation of
/// the input that depends on the input's multiset alone.
#[verifier::external_body]
fn sort_names(v: &mut Vec<String>)
    ensures
        texts(final(v)@) == sorted_of(texts(old(v)@).to_multiset()),
        texts(final(v)@).to_multiset() == texts(old(v)@).to_multiset(),
{
    v.sort()
}

/// The package of a file in the output directory: the stem of a `.rs` file,
/// except the aggregation file `__.rs` itself.
pub open spec fn package_of(f: Seq<char>) -> Option<Seq<char>> {
    let n = f.len();
    if n > 3 && f[n - 3] == '.' && f[n - 2] == 'r' && f[n - 1] == 's' && f.subrange(0, n - 3)
        != "__"@ {
        Some(f.subrange(0, n - 3))
    } else {
        None
    }
}

/// The packages of the files `fs`, in order.
pub open spec fn packages_of(fs: Seq<Seq<char>>) -> Seq<Seq<char>>
    decreases fs.len(),
{
    if fs.len() == 0 {
        Seq::empty()
    } else {
        let p = packages_of(fs.drop_last());
        match package_of(fs.last()) {
            Some(u) => p.push(u),
            None => p,
        }
    }
}

/// The aggregation text for the packages `names`, in whatever order they
/// were listed.
pub open spec fn includes_text(names: Seq<Seq<char>>) -> Seq<char> {
    node_text(tree_of(sorted_of(names.to_multiset())), 0)
}

/// The package of the output file `file_name`, if it is a generated unit.
pub fn package_of_file_name(file_name: &str) -> (r: Option<String>)
    ensures
        r matches Some(s) ==> package_of(file_name@) == Some(s@),
        r is None ==> package_of(file_name@) is None,
{
    let n = file_name.unicode_len();
    if n > 3 && file_name.get_char(n - 3) == '.' && file_name.get_char(n - 2) == 'r'
        && file_name.get_char(n - 1) == 's' {
        let stem = file_name.substring_char(0, n - 3);
        if same_text(stem, "__") {
            None
        } else {
            Some(String::from_str(stem))
        }
    } else {
        None
    }
}

/// The packages of the output files `file_names`, in order.
pub fn packages_of_files(file_names: &Vec<String>) -> (r: Vec<String>)
    ensures
        texts(r@) == packages_of(texts(file_names@)),
{
    let ghost fv = texts(file_names@);
    let mut r: Vec<String> = Vec::new();
    let mut i: usize = 0;
    assert(fv.take(0) =~= Seq::<Seq<char>>::empty());
    while i < file_names.len()
        invariant
            fv == texts(file_names@),
            i <= file_names@.len(),
            texts(r@) == packages_of(fv.take(i as int)),
        decreases file_names@.len() - i,
    {
        let p = package_of_file_name(file_names[i].as_str());
        proof {
            assert(fv.take(i + 1).drop_last() =~= fv.take(i as int));
        }
        match p {
            Some(u) => {
                r.push(u);
                assert(texts(r@) =~= packages_of(fv.take(i + 1)));
            },
            None => {},
        }
        i = i + 1;
    }
    assert(fv.take(i as int) =~= fv);
    r
}

/// The aggregation text for the packages `names`: the tree of the names in
/// sorted order, so that the text does not depend on how they were listed.
pub fn generate_includes(names: &Vec<String>) -> (r: String)
    ensures
        r@ == includes_text(texts(names@)),
{
    let mut sorted = names.clone();
    assert(sorted@ == names@);
    sort_names(&mut sorted);
    let tree = PackageTree::from_names(&sorted);
    tree.includes_source()
}

/// Listing the same packages in another order gives the same text.
pub proof fn lemma_listing_order_irrelevant(a: Seq<Seq<char>>, b: Seq<Seq<char>>)
    requires
        a.to_multiset() == b.to_multiset(),
    ensures
        includes_text(a) == includes_text(b),
{
}

} // verus!
