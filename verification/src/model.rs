//! The configuration tree: an executable node type and its mathematical view.
use vstd::prelude::*;

verus! {

/// A configuration section as a mathematical value: a name, an ordered list
/// of key/value properties and an ordered list of nested sections.
#[verifier::ext_equal]
pub struct Section {
    pub name: Seq<char>,
    pub props: Seq<(Seq<char>, Seq<char>)>,
    pub children: Seq<Section>,
}

/// In-memory representation of a configuration section; every fixture
/// format is rendered from the same tree, so all of them describe the same
/// structure.
pub struct ConfigNode {
    pub name: String,
    pub props: Vec<(String, String)>,
    pub children: Vec<ConfigNode>,
}

/// A section with no name, properties or children.
pub open spec fn empty_section() -> Section {
    Section { name: Seq::empty(), props: Seq::empty(), children: Seq::empty() }
}

/// The views of a sequence of properties.
pub open spec fn props_view(props: Seq<(String, String)>) -> Seq<(Seq<char>, Seq<char>)> {
    props.map_values(|p: (String, String)| (p.0@, p.1@))
}

impl View for ConfigNode {
    type V = Section;

    open spec fn view(&self) -> Section
        decreases self,
    {
        Section {
            name: self.name@,
            props: props_view(self.props@),
            children: Seq::new(
                self.children@.len(),
                |i: int|
                    if 0 <= i < self.children@.len() {
                        self.children@[i].view()
                    } else {
                        empty_section()
                    },
            ),
        }
    }
}

/// The views of a sequence of nodes.
pub open spec fn nodes_view(nodes: Seq<ConfigNode>) -> Seq<Section> {
    nodes.map_values(|n: ConfigNode| n@)
}

/// Nesting depth below a section: 0 for a section without children,
/// otherwise one more than the deepest child.
pub open spec fn depth(s: Section) -> nat
    decreases s, s.children.len() + 1,
{
    kids_depth(s, s.children.len())
}

/// The largest `1 + depth(c)` over the first `n` children of `s`.
pub open spec fn kids_depth(s: Section, n: nat) -> nat
    decreases s, n,
{
    if n == 0 || n > s.children.len() {
        0
    } else {
        let rest = kids_depth(s, (n - 1) as nat);
        let here = 1 + depth(s.children[n - 1]);
        if rest >= here {
            rest
        } else {
            here
        }
    }
}

/// Each child is at least one level shallower than its parent.
pub proof fn lemma_child_depth(s: Section, i: int)
    requires
        0 <= i < s.children.len(),
    ensures
        depth(s.children[i]) + 1 <= depth(s),
{
    lemma_kids_depth_bound(s, s.children.len(), i);
}

proof fn lemma_kids_depth_bound(s: Section, n: nat, i: int)
    requires
        0 <= i < n <= s.children.len(),
    ensures
        depth(s.children[i]) + 1 <= kids_depth(s, n),
    decreases n,
{
    if i < n - 1 {
        lemma_kids_depth_bound(s, (n - 1) as nat, i);
    }
}

/// No two properties of `s` share a key.
pub open spec fn distinct_keys(s: Section) -> bool {
    forall|i: int, j: int| 0 <= i < j < s.props.len() ==> s.props[i].0 != s.props[j].0
}

/// No two sections of `ss` share a name.
pub open spec fn distinct_names(ss: Seq<Section>) -> bool {
    forall|i: int, j: int| 0 <= i < j < ss.len() ==> ss[i].name != ss[j].name
}

/// Within `s` and every section below it, property keys are unique and
/// sibling sections have unique names, so every key and every section is
/// addressed by exactly one path.
pub open spec fn uniquely_keyed(s: Section) -> bool
    decreases s,
{
    &&& distinct_keys(s)
    &&& distinct_names(s.children)
    &&& forall|i: int| 0 <= i < s.children.len() ==> uniquely_keyed(#[trigger] s.children[i])
}

/// When every one of the first `n > 0` children has depth `d`, they
/// contribute exactly `d + 1`.
pub proof fn lemma_kids_depth_uniform(s: Section, n: nat, d: nat)
    requires
        0 < n <= s.children.len(),
        forall|i: int| 0 <= i < n ==> depth(#[trigger] s.children[i]) == d,
    ensures
        kids_depth(s, n) == d + 1,
    decreases n,
{
    assert(depth(s.children[n - 1]) == d);
    if n > 1 {
        lemma_kids_depth_uniform(s, (n - 1) as nat, d);
    } else {
        assert(kids_depth(s, 0) == 0);
    }
}

/// Every section of the tree below and including `s`, in document order
/// (a section before its children, children in order), each paired with
/// the names on its path: `above`, then the names from `s` down to it.
pub open spec fn preorder(s: Section, above: Seq<Seq<char>>) -> Seq<(Section, Seq<Seq<char>>)>
    decreases s, s.children.len() + 1,
{
    seq![(s, above.push(s.name))] + preorder_kids(s, s.children.len(), above.push(s.name))
}

/// The walks of the first `n` children of `s`, whose path is `path`.
pub open spec fn preorder_kids(s: Section, n: nat, path: Seq<Seq<char>>) -> Seq<
    (Section, Seq<Seq<char>>),
>
    decreases s, n,
{
    if n == 0 || n > s.children.len() {
        Seq::empty()
    } else {
        preorder_kids(s, (n - 1) as nat, path) + preorder(s.children[n - 1], path)
    }
}

/// Every section in the tree has a non-empty name.
pub open spec fn named(s: Section) -> bool
    decreases s,
{
    &&& s.name.len() > 0
    &&& forall|i: int| 0 <= i < s.children.len() ==> named(#[trigger] s.children[i])
}

/// The steps of a depth-first walk over the tree of `s`, which sits at
/// nesting `level`: `(section, level, true)` on entering a section and
/// `(section, level, false)` on leaving it, children walked in order one
/// level deeper in between.
pub open spec fn walk(s: Section, level: nat) -> Seq<(Section, nat, bool)>
    decreases s, s.children.len() + 1,
{
    seq![(s, level, true)] + walk_kids(s, s.children.len(), level + 1) + seq![(s, level, false)]
}

/// The walks of the first `n` children of `s`, at nesting `level`.
pub open spec fn walk_kids(s: Section, n: nat, level: nat) -> Seq<(Section, nat, bool)>
    decreases s, n,
{
    if n == 0 || n > s.children.len() {
        Seq::empty()
    } else {
        walk_kids(s, (n - 1) as nat, level) + walk(s.children[n - 1], level)
    }
}

/// The walks of the first `n` roots, one after the other, each at nesting 0.
pub open spec fn forest_walk(roots: Seq<Section>, n: nat) -> Seq<(Section, nat, bool)>
    decreases n,
{
    if n == 0 || n > roots.len() {
        Seq::empty()
    } else {
        forest_walk(roots, (n - 1) as nat) + walk(roots[n - 1], 0)
    }
}

/// The sections of the first `n` roots' trees in document order, each with
/// the names on its path from its root.
pub open spec fn forest_preorder(roots: Seq<Section>, n: nat) -> Seq<(Section, Seq<Seq<char>>)>
    decreases n,
{
    if n == 0 || n > roots.len() {
        Seq::empty()
    } else {
        forest_preorder(roots, (n - 1) as nat) + preorder(roots[n - 1], Seq::empty())
    }
}

} // verus!
