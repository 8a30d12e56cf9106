//! The build-system contract: which inputs make the generated code stale.
use vstd::prelude::*;
use vstd::string::*;
use crate::split::texts;

verus! {

/// The directive that asks the build system to rerun when `path` changes.
pub open spec fn directive(path: Seq<char>) -> Seq<char> {
    "cargo:rerun-if-changed="@ + path
}

pub open spec fn directives(paths: Seq<Seq<char>>) -> Seq<Seq<char>> {
    paths.map_values(|p: Seq<char>| directive(p))
}

/// One directive per schema file, then one per include directory; none when
/// `emit` is off.
pub open spec fn rerun_text(protos: Seq<Seq<char>>, includes: Seq<Seq<char>>, emit: bool) -> Seq<
    Seq<char>,
> {
    if emit {
        directives(protos) + directives(includes)
    } else {
        Seq::empty()
    }
}

fn push_directives(out: &mut Vec<String>, paths: &Vec<String>)
    ensures
        texts(final(out)@) == texts(old(out)@) + directives(texts(paths@)),
{
    let ghost start = texts(out@);
    let mut i: usize = 0;
    while i < paths.len()
        invariant
            i <= paths@.len(),
            texts(out@) == start + directives(texts(paths@).take(i as int)),
        decreases paths@.len() - i,
    {
        let mut d = String::from_str("cargo:rerun-if-changed=");
        d.append(paths[i].as_str());
        assert(d@ == directive(paths@[i as int]@));
        assert(directives(texts(paths@).take(i + 1)) =~= directives(texts(paths@).take(i as int)).push(
            directive(paths@[i as int]@),
        ));
        let ghost prev = out@;
        out.push(d);
        assert(texts(out@) =~= texts(prev).push(directive(paths@[i as int]@)));
        assert(texts(out@) =~= start + directives(texts(paths@).take(i + 1)));
        i = i + 1;
    }
    assert(texts(paths@).take(i as int) =~= texts(paths@));
}

/// The rerun directives for the schema files `protos` and the include
/// directories `includes`.
pub fn rerun_directives(protos: &Vec<String>, includes: &Vec<String>, emit: bool) -> (r: Vec<
    String,
>)
    ensures
        texts(r@) == rerun_text(texts(protos@), texts(includes@), emit),
{
    let mut r: Vec<String> = Vec::new();
    if emit {
        push_directives(&mut r, protos);
        push_directives(&mut r, includes);
        assert(texts(r@) =~= rerun_text(texts(protos@), texts(includes@), emit));
    } else {
        assert(texts(r@) =~= Seq::<Seq<char>>::empty());
    }
    r
}

proof fn lemma_directive_injective(p: Seq<char>, q: Seq<char>)
    requires
        directive(p) == directive(q),
    ensures
        p == q,
{
    let n = "cargo:rerun-if-changed="@.len() as int;
    assert(directive(p).subrange(n, directive(p).len() as int) =~= p);
    assert(directive(q).subrange(n, directive(q).len() as int) =~= q);
}

/// With directives on, a change to a path makes the build stale exactly
/// when the path is a declared schema file or include directory.
pub proof fn lemma_stale_exactly_on_inputs(
    protos: Seq<Seq<char>>,
    includes: Seq<Seq<char>>,
    p: Seq<char>,
)
    ensures
        rerun_text(protos, includes, true).contains(directive(p)) <==> (protos.contains(p)
            || includes.contains(p)),
{
    let r = rerun_text(protos, includes, true);
    if r.contains(directive(p)) {
        let j = choose|j: int| 0 <= j < r.len() && r[j] == directive(p);
        if j < protos.len() {
            lemma_directive_injective(protos[j], p);
        } else {
            lemma_directive_injective(includes[j - protos.len()], p);
        }
    }
    if protos.contains(p) {
        let j = choose|j: int| 0 <= j < protos.len() && protos[j] == p;
        assert(r[j] == directive(p));
    }
    if includes.contains(p) {
        let j = choose|j: int| 0 <= j < includes.len() && includes[j] == p;
        assert(r[protos.len() + j] == directive(p));
    }
}

} // verus!
