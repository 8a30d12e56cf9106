//! The package tree: one node per package path segment, holding the
//! generated unit of the package whose full path it is.
//!
//! Nodes live in an arena; node 0 is the root and each node lists the
//! indices of its children in the order they were created.
use vstd::prelude::*;
use vstd::string::*;
use crate::split::{split_dots, split_package, texts};
use crate::text::same_text;

verus! {

/// A node as the contracts see it.
pub struct NodeModel {
    pub name: Seq<char>,
    pub file: Option<Seq<char>>,
    pub children: Seq<int>,
}

pub struct PackageNode {
    pub name: String,
    pub file_name: Option<String>,
    pub children: Vec<usize>,
}

impl PackageNode {
    pub open spec fn model(&self) -> NodeModel {
        NodeModel {
            name: self.name@,
            file: match self.file_name {
                Some(f) => Some(f@),
                None => None,
            },
            children: self.children@.map_values(|c: usize| c as int),
        }
    }
}

pub struct PackageTree {
    pub nodes: Vec<PackageNode>,
}

impl View for PackageTree {
    type V = Seq<NodeModel>;

    open spec fn view(&self) -> Seq<NodeModel> {
        self.nodes@.map_values(|n: PackageNode| n.model())
    }
}

/// The root exists and every child index points past its parent and into
/// the arena.
pub open spec fn well_formed(t: Seq<NodeModel>) -> bool {
    &&& t.len() >= 1
    &&& forall|i: int, k: int|
        0 <= i < t.len() && 0 <= k < t[i].children.len() ==> i < #[trigger] t[i].children[k]
            < t.len()
}

/// No node has two children of the same name.
pub open spec fn unique_children(t: Seq<NodeModel>) -> bool {
    forall|i: int, k1: int, k2: int|
        0 <= i < t.len() && 0 <= k1 < t[i].children.len() && 0 <= k2 < t[i].children.len()
            && k1 != k2 ==> t[#[trigger] t[i].children[k1] as int].name != t[#[trigger] t[i].children[k2] as int].name
}

/// The first of the children `cs[k..]` named `seg`.
pub open spec fn child_from(t: Seq<NodeModel>, cs: Seq<int>, seg: Seq<char>, k: int) -> Option<int>
    decreases cs.len() - k,
{
    if k < 0 || k >= cs.len() {
        None
    } else if cs[k] < t.len() && t[cs[k] as int].name == seg {
        Some(cs[k])
    } else {
        child_from(t, cs, seg, k + 1)
    }
}

/// The child of node `i` named `seg`, if there is one.
pub open spec fn find_child(t: Seq<NodeModel>, i: int, seg: Seq<char>) -> Option<int> {
    child_from(t, t[i].children, seg, 0)
}

pub open spec fn fresh_node(name: Seq<char>) -> NodeModel {
    NodeModel { name, file: None, children: Seq::empty() }
}

/// The tree after making sure node `i` has a child `seg`, and that child.
pub open spec fn with_child(t: Seq<NodeModel>, i: int, seg: Seq<char>) -> (Seq<NodeModel>, int) {
    match find_child(t, i, seg) {
        Some(c) => (t, c),
        None => (
            t.update(
                i,
                NodeModel {
                    name: t[i].name,
                    file: t[i].file,
                    children: t[i].children.push(t.len() as int),
                },
            ).push(fresh_node(seg)),
            t.len() as int,
        ),
    }
}

/// The tree after walking `segs` down from node `i`, creating missing nodes,
/// and the node reached.
pub open spec fn descend(t: Seq<NodeModel>, i: int, segs: Seq<Seq<char>>) -> (Seq<NodeModel>, int)
    decreases segs.len(),
{
    if segs.len() == 0 {
        (t, i)
    } else {
        let (t2, c) = with_child(t, i, segs[0]);
        descend(t2, c as int, segs.skip(1))
    }
}

/// The node reached by walking `segs` down from node `i`, if every step exists.
pub open spec fn walk(t: Seq<NodeModel>, i: int, segs: Seq<Seq<char>>) -> Option<int>
    decreases segs.len(),
{
    if segs.len() == 0 {
        Some(i)
    } else {
        match find_child(t, i, segs[0]) {
            Some(c) => walk(t, c as int, segs.skip(1)),
            None => None,
        }
    }
}

pub open spec fn with_file(t: Seq<NodeModel>, i: int, f: Seq<char>) -> Seq<NodeModel> {
    t.update(i, NodeModel { name: t[i].name, file: Some(f), children: t[i].children })
}

/// The name of the package without one: its unit belongs to the root.
pub open spec fn root_package() -> Seq<char> {
    "_"@
}

/// The tree after attaching the unit of package `name`.
pub open spec fn inserted(t: Seq<NodeModel>, name: Seq<char>) -> Seq<NodeModel> {
    if name == root_package() {
        with_file(t, 0, name)
    } else {
        let (t2, leaf) = descend(t, 0, split_dots(name));
        with_file(t2, leaf as int, name)
    }
}

pub open spec fn root_only() -> Seq<NodeModel> {
    seq![fresh_node("_"@)]
}

/// The tree of the packages `names`, attached in order.
pub open spec fn tree_of(names: Seq<Seq<char>>) -> Seq<NodeModel>
    decreases names.len(),
{
    if names.len() == 0 {
        root_only()
    } else {
        inserted(tree_of(names.drop_last()), names.last())
    }
}

/// The include directive of a node's unit, if it has one.
pub open spec fn include_text(n: NodeModel) -> Seq<char> {
    match n.file {
        Some(f) => "tonic::include_proto!(\""@ + f + "\");\n"@,
        None => Seq::empty(),
    }
}

/// The text of node `i`: its include directive, then a module per child
/// holding that child's text.
pub open spec fn node_text(t: Seq<NodeModel>, i: int) -> Seq<char>
    decreases t.len() - i, t[i].children.len() + 1,
{
    if 0 <= i < t.len() {
        include_text(t[i]) + children_text(t, i, t[i].children.len() as int)
    } else {
        Seq::empty()
    }
}

/// The modules of the first `n` children of node `i`.
pub open spec fn children_text(t: Seq<NodeModel>, i: int, n: int) -> Seq<char>
    decreases t.len() - i, n,
{
    if 0 <= i < t.len() && 0 < n <= t[i].children.len() {
        let c = t[i].children[n - 1];
        children_text(t, i, n - 1) + if i < c < t.len() {
            "pub mod "@ + t[c].name + " {\n"@ + node_text(t, c) + "}\n"@
        } else {
            Seq::empty()
        }
    } else {
        Seq::empty()
    }
}

proof fn lemma_child_from_found(t: Seq<NodeModel>, cs: Seq<int>, seg: Seq<char>, k: int)
    requires
        0 <= k,
    ensures
        child_from(t, cs, seg, k) matches Some(c) ==> c < t.len() && t[c as int].name == seg
            && exists|j: int| k <= j < cs.len() && cs[j] == c,
        child_from(t, cs, seg, k) is None ==> forall|j: int|
            k <= j < cs.len() && cs[j] < t.len() ==> t[cs[j] as int].name != seg,
    decreases cs.len() - k,
{
    if k < cs.len() {
        lemma_child_from_found(t, cs, seg, k + 1);
    }
}

proof fn lemma_with_child(t: Seq<NodeModel>, i: int, seg: Seq<char>)
    requires
        well_formed(t),
        unique_children(t),
        0 <= i < t.len(),
    ensures
        well_formed(with_child(t, i, seg).0),
        unique_children(with_child(t, i, seg).0),
        0 <= with_child(t, i, seg).1 < with_child(t, i, seg).0.len(),
        with_child(t, i, seg).0[with_child(t, i, seg).1 as int].name == seg,
{
    lemma_child_from_found(t, t[i].children, seg, 0);
    if find_child(t, i, seg) is None {
        let n = t[i].children.len() as int;
        let ni = NodeModel {
            name: t[i].name,
            file: t[i].file,
            children: t[i].children.push(t.len() as int),
        };
        let t2 = t.update(i, ni).push(fresh_node(seg));
        assert(with_child(t, i, seg).0 == t2);
        assert forall|a: int, k: int|
            0 <= a < t2.len() && 0 <= k < t2[a].children.len() implies a < #[trigger] t2[a].children[k]
                < t2.len() by {
            if a == i {
                if k < n {
                    assert(t2[a].children[k] == t[a].children[k]);
                }
            } else if a < t.len() {
                assert(t2[a] == t[a]);
            }
        }
        assert forall|a: int, k1: int, k2: int|
            0 <= a < t2.len() && 0 <= k1 < t2[a].children.len() && 0 <= k2 < t2[a].children.len()
                && k1 != k2 implies t2[#[trigger] t2[a].children[k1] as int].name != t2[#[trigger] t2[a].children[k2] as int].name by {
            if a < t.len() {
                if a != i {
                    assert(t2[a] == t[a]);
                }
                if k1 < n {
                    assert(t2[a].children[k1] == t[a].children[k1]);
                    let x = t[a].children[k1];
                    assert(t2[x as int].name == t[x as int].name);
                }
                if k2 < n || a != i {
                    assert(t2[a].children[k2] == t[a].children[k2]);
                    let y = t[a].children[k2];
                    assert(t2[y as int].name == t[y as int].name);
                }
                if a == i && k1 == n {
                    assert(t[i].children[k2] < t.len());
                }
                if a == i && k2 == n {
                    assert(t[i].children[k1] < t.len());
                }
            }
        }
    }
}

proof fn lemma_with_file(t: Seq<NodeModel>, i: int, f: Seq<char>)
    requires
        well_formed(t),
        unique_children(t),
        0 <= i < t.len(),
    ensures
        well_formed(with_file(t, i, f)),
        unique_children(with_file(t, i, f)),
{
    let t2 = with_file(t, i, f);
    assert forall|a: int| 0 <= a < t.len() implies #[trigger] t2[a].children == t[a].children
        && t2[a].name == t[a].name by {}
}

/// `t2` keeps every node of `t` with its name, extends its child list, and
/// keeps its unit attached if it had one.
pub open spec fn extends(t: Seq<NodeModel>, t2: Seq<NodeModel>) -> bool {
    &&& t.len() <= t2.len()
    &&& forall|a: int|
        0 <= a < t.len() ==> #[trigger] t2[a].name == t[a].name && t[a].children.len()
            <= t2[a].children.len() && t2[a].children.subrange(0, t[a].children.len() as int)
            == t[a].children && (t[a].file is Some ==> t2[a].file is Some)
}

proof fn lemma_extends_refl(t: Seq<NodeModel>)
    ensures
        extends(t, t),
{
    assert forall|a: int| 0 <= a < t.len() implies #[trigger] t[a].children.subrange(
        0,
        t[a].children.len() as int,
    ) == t[a].children by {
        assert(t[a].children.subrange(0, t[a].children.len() as int) =~= t[a].children);
    }
}

proof fn lemma_extends_trans(t1: Seq<NodeModel>, t2: Seq<NodeModel>, t3: Seq<NodeModel>)
    requires
        extends(t1, t2),
        extends(t2, t3),
    ensures
        extends(t1, t3),
{
    assert forall|a: int| 0 <= a < t1.len() implies #[trigger] t3[a].name == t1[a].name
        && t1[a].children.len() <= t3[a].children.len() && t3[a].children.subrange(
        0,
        t1[a].children.len() as int,
    ) == t1[a].children && (t1[a].file is Some ==> t3[a].file is Some) by {
        assert(t2[a].name == t1[a].name);
        assert(t3[a].name == t2[a].name);
        let n1 = t1[a].children.len() as int;
        let n2 = t2[a].children.len() as int;
        assert(t3[a].children.subrange(0, n2) == t2[a].children);
        assert(t2[a].children.subrange(0, n1) == t1[a].children);
        assert(t3[a].children.subrange(0, n1) =~= t3[a].children.subrange(0, n2).subrange(0, n1));
    }
}

proof fn lemma_child_from_stable(
    t: Seq<NodeModel>,
    t2: Seq<NodeModel>,
    cs: Seq<int>,
    cs2: Seq<int>,
    seg: Seq<char>,
    k: int,
)
    requires
        extends(t, t2),
        0 <= k,
        cs.len() <= cs2.len(),
        cs2.subrange(0, cs.len() as int) == cs,
        forall|j: int| 0 <= j < cs.len() ==> 0 <= #[trigger] cs[j] < t.len(),
        child_from(t, cs, seg, k) is Some,
    ensures
        child_from(t2, cs2, seg, k) == child_from(t, cs, seg, k),
    decreases cs.len() - k,
{
    assert(cs2[k] == cs.subrange(0, cs.len() as int)[k]);
    assert(t2[cs[k]].name == t[cs[k]].name);
    if !(t[cs[k]].name == seg) {
        lemma_child_from_stable(t, t2, cs, cs2, seg, k + 1);
    }
}

proof fn lemma_child_from_append(
    t: Seq<NodeModel>,
    t2: Seq<NodeModel>,
    cs: Seq<int>,
    seg: Seq<char>,
    k: int,
    x: int,
)
    requires
        extends(t, t2),
        0 <= k <= cs.len(),
        forall|j: int| 0 <= j < cs.len() ==> 0 <= #[trigger] cs[j] < t.len(),
        child_from(t, cs, seg, k) is None,
        0 <= x < t2.len(),
        t2[x].name == seg,
    ensures
        child_from(t2, cs.push(x), seg, k) == Some(x),
    decreases cs.len() - k,
{
    let cs2 = cs.push(x);
    if k < cs.len() {
        assert(cs2[k] == cs[k]);
        assert(t2[cs[k]].name == t[cs[k]].name);
        lemma_child_from_append(t, t2, cs, seg, k + 1, x);
    } else {
        assert(cs2[k] == x);
    }
}

proof fn lemma_walk_stable(t: Seq<NodeModel>, t2: Seq<NodeModel>, i: int, segs: Seq<Seq<char>>)
    requires
        well_formed(t),
        extends(t, t2),
        0 <= i < t.len(),
        walk(t, i, segs) is Some,
    ensures
        walk(t2, i, segs) == walk(t, i, segs),
        0 <= walk(t, i, segs).unwrap() < t.len(),
    decreases segs.len(),
{
    if segs.len() > 0 {
        let cs = t[i].children;
        lemma_child_from_found(t, cs, segs[0], 0);
        assert(forall|j: int| 0 <= j < cs.len() ==> 0 <= #[trigger] cs[j] < t.len());
        assert(t2[i].name == t[i].name);
        lemma_child_from_stable(t, t2, cs, t2[i].children, segs[0], 0);
        let c = find_child(t, i, segs[0]).unwrap();
        lemma_walk_stable(t, t2, c, segs.skip(1));
    }
}

proof fn lemma_with_child_extends(t: Seq<NodeModel>, i: int, seg: Seq<char>)
    requires
        well_formed(t),
        unique_children(t),
        0 <= i < t.len(),
    ensures
        extends(t, with_child(t, i, seg).0),
        find_child(with_child(t, i, seg).0, i, seg) == Some(with_child(t, i, seg).1),
{
    lemma_child_from_found(t, t[i].children, seg, 0);
    lemma_extends_refl(t);
    if find_child(t, i, seg) is None {
        let t2 = with_child(t, i, seg).0;
        assert forall|a: int| 0 <= a < t.len() implies #[trigger] t2[a].name == t[a].name
            && t[a].children.len() <= t2[a].children.len() && t2[a].children.subrange(
            0,
            t[a].children.len() as int,
        ) == t[a].children && (t[a].file is Some ==> t2[a].file is Some) by {
            assert(t2[a].children.subrange(0, t[a].children.len() as int) =~= t[a].children);
        }
        let cs = t[i].children;
        assert(forall|j: int| 0 <= j < cs.len() ==> 0 <= #[trigger] cs[j] < t.len());
        lemma_child_from_append(t, t2, cs, seg, 0, t.len() as int);
    }
}

proof fn lemma_descend(t: Seq<NodeModel>, i: int, segs: Seq<Seq<char>>)
    requires
        well_formed(t),
        unique_children(t),
        0 <= i < t.len(),
    ensures
        well_formed(descend(t, i, segs).0),
        unique_children(descend(t, i, segs).0),
        extends(t, descend(t, i, segs).0),
        0 <= descend(t, i, segs).1 < descend(t, i, segs).0.len(),
        walk(descend(t, i, segs).0, i, segs) == Some(descend(t, i, segs).1),
    decreases segs.len(),
{
    if segs.len() == 0 {
        lemma_extends_refl(t);
    } else {
        lemma_with_child(t, i, segs[0]);
        lemma_with_child_extends(t, i, segs[0]);
        let (t1, c) = with_child(t, i, segs[0]);
        lemma_descend(t1, c, segs.skip(1));
        let t2 = descend(t1, c, segs.skip(1)).0;
        lemma_extends_trans(t, t1, t2);
        let cs = t1[i].children;
        lemma_child_from_found(t1, cs, segs[0], 0);
        assert(forall|j: int| 0 <= j < cs.len() ==> 0 <= #[trigger] cs[j] < t1.len());
        assert(t2[i].name == t1[i].name);
        lemma_child_from_stable(t1, t2, cs, t2[i].children, segs[0], 0);
    }
}

proof fn lemma_with_file_extends(t: Seq<NodeModel>, i: int, f: Seq<char>)
    requires
        well_formed(t),
        unique_children(t),
        0 <= i < t.len(),
    ensures
        extends(t, with_file(t, i, f)),
        well_formed(with_file(t, i, f)),
        unique_children(with_file(t, i, f)),
{
    lemma_with_file(t, i, f);
    lemma_extends_refl(t);
    let t2 = with_file(t, i, f);
    assert forall|a: int| 0 <= a < t.len() implies #[trigger] t2[a].name == t[a].name
        && t[a].children.len() <= t2[a].children.len() && t2[a].children.subrange(
        0,
        t[a].children.len() as int,
    ) == t[a].children && (t[a].file is Some ==> t2[a].file is Some) by {
        assert(t2[a].children.subrange(0, t[a].children.len() as int) =~= t[a].children);
    }
}

proof fn lemma_inserted(t: Seq<NodeModel>, name: Seq<char>)
    requires
        well_formed(t),
        unique_children(t),
    ensures
        well_formed(inserted(t, name)),
        unique_children(inserted(t, name)),
        extends(t, inserted(t, name)),
        name == root_package() ==> inserted(t, name)[0].file == Some(name),
        name != root_package() ==> (walk(inserted(t, name), 0, split_dots(name)) matches Some(j)
            && inserted(t, name)[j].file == Some(name)),
{
    if name == root_package() {
        lemma_with_file_extends(t, 0, name);
    } else {
        let segs = split_dots(name);
        lemma_descend(t, 0, segs);
        let (t2, leaf) = descend(t, 0, segs);
        lemma_with_file_extends(t2, leaf, name);
        lemma_extends_trans(t, t2, inserted(t, name));
        lemma_walk_stable(t2, inserted(t, name), 0, segs);
    }
}

proof fn lemma_tree_of(names: Seq<Seq<char>>, k: int)
    requires
        0 <= k <= names.len(),
    ensures
        well_formed(tree_of(names)),
        unique_children(tree_of(names)),
        well_formed(tree_of(names.take(k))),
        extends(tree_of(names.take(k)), tree_of(names)),
    decreases names.len(),
{
    if names.len() == 0 {
        assert(names.take(k) =~= names);
        assert(tree_of(names) == root_only());
        assert forall|i: int, kk: int|
            0 <= i < root_only().len() && 0 <= kk < root_only()[i].children.len() implies i
                < #[trigger] root_only()[i].children[kk] < root_only().len() by {}
        lemma_extends_refl(tree_of(names));
    } else {
        let d = names.drop_last();
        if k == names.len() {
            lemma_tree_of(d, 0);
            assert(names.take(k) =~= names);
            lemma_inserted(tree_of(d), names.last());
            lemma_extends_refl(tree_of(names));
        } else {
            lemma_tree_of(d, k);
            assert(names.take(k) =~= d.take(k));
            lemma_inserted(tree_of(d), names.last());
            lemma_extends_trans(tree_of(d.take(k)), tree_of(d), tree_of(names));
        }
    }
}

/// For any list of packages, the package without a name has its unit on the
/// root; every other package is reached from the root by walking its dotted
/// segments, one child per segment, to a node that holds a unit; and no node
/// has two children of the same name, so packages sharing a prefix share the
/// nodes of that prefix.
pub proof fn lemma_tree_correct(names: Seq<Seq<char>>, k: int)
    requires
        0 <= k < names.len(),
    ensures
        unique_children(tree_of(names)),
        names[k] == root_package() ==> tree_of(names)[0].file is Some,
        names[k] != root_package() ==> (walk(tree_of(names), 0, split_dots(names[k])) matches Some(
            j,
        ) && tree_of(names)[j].file is Some),
{
    lemma_tree_of(names, k + 1);
    let pre = names.take(k + 1);
    assert(pre.drop_last() =~= names.take(k));
    assert(pre.last() == names[k]);
    lemma_tree_of(names.take(k), 0);
    lemma_inserted(tree_of(names.take(k)), names[k]);
    let t1 = tree_of(pre);
    let t2 = tree_of(names);
    assert(t1 == inserted(tree_of(names.take(k)), names[k]));
    if names[k] != root_package() {
        let segs = split_dots(names[k]);
        assert(walk(t1, 0, segs) is Some);
        assert(well_formed(t1));
        lemma_walk_stable(t1, t2, 0, segs);
        let j = walk(t1, 0, segs).unwrap();
        assert(t2[j].name == t1[j].name);
    } else {
        assert(t2[0].name == t1[0].name);
    }
}

/// The package without a name attaches its unit to the root and adds no node.
pub proof fn lemma_root_package(t: Seq<NodeModel>)
    requires
        well_formed(t),
    ensures
        inserted(t, root_package()).len() == t.len(),
        inserted(t, root_package())[0].file == Some(root_package()),
        forall|a: int| 0 <= a < t.len() ==> #[trigger] inserted(t, root_package())[a].children == t[a].children,
{
}

impl PackageTree {
    fn set_file(&mut self, i: usize, f: String)
        requires
            well_formed(old(self)@),
            unique_children(old(self)@),
            i < old(self)@.len(),
        ensures
            final(self)@ == with_file(old(self)@, i as int, f@),
            well_formed(final(self)@),
            unique_children(final(self)@),
    {
        proof {
            lemma_with_file(self@, i as int, f@);
        }
        let ghost t = self@;
        self.nodes[i].file_name = Some(f);
        assert(self@[i as int] == with_file(t, i as int, f@)[i as int]);
        assert(self@ =~= with_file(t, i as int, f@));
    }

    /// Attaches the unit of package `name`: to the root for the package
    /// without a name, otherwise to the node reached by its dotted segments,
    /// creating the nodes that are missing.
    pub fn insert(&mut self, name: &String)
        requires
            well_formed(old(self)@),
            unique_children(old(self)@),
        ensures
            final(self)@ == inserted(old(self)@, name@),
            well_formed(final(self)@),
            unique_children(final(self)@),
    {
        if same_text(name.as_str(), "_") {
            self.set_file(0, name.clone());
            return;
        }
        let ghost t0 = self@;
        let segs = split_package(name.as_str());
        let ghost sv = texts(segs@);
        let mut cur: usize = 0;
        let mut k: usize = 0;
        assert(sv.skip(0) =~= sv);
        while k < segs.len()
            invariant
                sv == texts(segs@),
                k <= segs@.len(),
                well_formed(self@),
                unique_children(self@),
                cur < self@.len(),
                descend(t0, 0, sv) == descend(self@, cur as int, sv.skip(k as int)),
            decreases segs@.len() - k,
        {
            let seg = segs[k].clone();
            proof {
                assert(sv.skip(k as int).skip(1) =~= sv.skip(k + 1));
                assert(sv.skip(k as int)[0] == sv[k as int]);
            }
            cur = self.child_for(cur, seg);
            k = k + 1;
        }
        assert(sv.skip(k as int).len() == 0);
        self.set_file(cur, name.clone());
    }

    fn emit_node(&self, i: usize, out: &mut String)
        requires
            well_formed(self@),
            i < self@.len(),
        ensures
            final(out)@ == old(out)@ + node_text(self@, i as int),
        decreases self@.len() - i,
    {
        let ghost start = out@;
        let ghost t = self@;
        match &self.nodes[i].file_name {
            Some(f) => {
                out.append("tonic::include_proto!(\"");
                out.append(f.as_str());
                out.append("\");\n");
            },
            None => {},
        }
        assert(out@ =~= start + include_text(t[i as int]) + children_text(t, i as int, 0));
        let n = self.nodes[i].children.len();
        let mut k: usize = 0;
        while k < n
            invariant
                t == self@,
                well_formed(t),
                i < t.len(),
                n == t[i as int].children.len(),
                k <= n,
                out@ == start + include_text(t[i as int]) + children_text(t, i as int, k as int),
            decreases n - k,
        {
            let c = self.nodes[i].children[k];
            assert(c as int == t[i as int].children[k as int]);
            let ghost before = out@;
            out.append("pub mod ");
            out.append(self.nodes[c].name.as_str());
            out.append(" {\n");
            self.emit_node(c, out);
            out.append("}\n");
            assert(out@ =~= start + include_text(t[i as int]) + children_text(t, i as int, k + 1));
            k = k + 1;
        }
    }

    /// The aggregation text: the root's include directive, if any, and a
    /// nested module for each child, recursively.
    pub fn includes_source(&self) -> (r: String)
        requires
            well_formed(self@),
        ensures
            r@ == node_text(self@, 0),
    {
        let mut out = String::new();
        self.emit_node(0, &mut out);
        assert(out@ =~= node_text(self@, 0));
        out
    }

    /// The tree of the packages `names`, attached in order.
    pub fn from_names(names: &Vec<String>) -> (r: PackageTree)
        ensures
            r@ == tree_of(texts(names@)),
            well_formed(r@),
            unique_children(r@),
    {
        let mut r = PackageTree::new();
        let ghost nv = texts(names@);
        assert(nv.take(0) =~= Seq::<Seq<char>>::empty());
        let mut i: usize = 0;
        while i < names.len()
            invariant
                nv == texts(names@),
                i <= names@.len(),
                r@ == tree_of(nv.take(i as int)),
                well_formed(r@),
                unique_children(r@),
            decreases names@.len() - i,
        {
            r.insert(&names[i]);
            proof {
                assert(nv.take(i + 1).drop_last() =~= nv.take(i as int));
            }
            i = i + 1;
        }
        assert(nv.take(i as int) =~= nv);
        r
    }

    pub fn new() -> (r: PackageTree)
        ensures
            r@ == root_only(),
    {
        let root = PackageNode { name: String::from_str("_"), file_name: None, children: Vec::new() };
        let mut nodes: Vec<PackageNode> = Vec::new();
        nodes.push(root);
        let r = PackageTree { nodes };
        assert(r.nodes@[0].children@.map_values(|c: usize| c as int) =~= Seq::<int>::empty());
        assert(r@[0] == root_only()[0]);
        assert(r@ =~= root_only());
        r
    }

    /// The child of node `i` named `seg`, creating it when missing.
    fn child_for(&mut self, i: usize, seg: String) -> (c: usize)
        requires
            well_formed(old(self)@),
            unique_children(old(self)@),
            i < old(self)@.len(),
        ensures
            (final(self)@, c as int) == with_child(old(self)@, i as int, seg@),
            well_formed(final(self)@),
            unique_children(final(self)@),
            c < final(self)@.len(),
    {
        proof {
            lemma_with_child(self@, i as int, seg@);
        }
        let ghost t = self@;
        let n = self.nodes[i].children.len();
        let mut k: usize = 0;
        while k < n
            invariant
                self@ == t,
                i < t.len(),
                n == t[i as int].children.len(),
                k <= n,
                well_formed(t),
                unique_children(t),
                child_from(t, t[i as int].children, seg@, 0) == child_from(
                    t,
                    t[i as int].children,
                    seg@,
                    k as int,
                ),
            decreases n - k,
        {
            let c = self.nodes[i].children[k];
            assert(c as int == t[i as int].children[k as int]);
            if same_text(self.nodes[c].name.as_str(), seg.as_str()) {
                return c;
            }
            k = k + 1;
        }
        let c = self.nodes.len();
        self.nodes[i].children.push(c);
        self.nodes.push(PackageNode { name: seg, file_name: None, children: Vec::new() });
        assert(self.nodes@[i as int].children@.map_values(|x: usize| x as int) =~= t[i as int].children.push(
            c as int,
        ));
        assert(self.nodes@[c as int].children@.map_values(|x: usize| x as int) =~= Seq::<int>::empty());
        assert(self@[i as int] == with_child(t, i as int, seg@).0[i as int]);
        assert(self@[c as int] == with_child(t, i as int, seg@).0[c as int]);
        assert(self@ =~= with_child(t, i as int, seg@).0);
        c
    }
}

} // verus!
