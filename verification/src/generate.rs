//! The benchmark topologies: wide, lopsided, recursive matrix and
//! single-section scaling trees, each with numbered names and properties.
use vstd::prelude::*;
use crate::model::{
    depth, distinct_keys, distinct_names, kids_depth, lemma_kids_depth_uniform, nodes_view,
    uniquely_keyed, ConfigNode, Section,
};
use crate::text::{decimal, lemma_decimal_injective, push_decimal};

verus! {

/// `text` followed by the decimal numeral of `n`.
pub open spec fn numbered(text: Seq<char>, n: nat) -> Seq<char> {
    text + decimal(n)
}

/// Name of the `i`-th child of a wide tree.
pub open spec fn wide_child_name(prefix: Seq<char>, i: nat) -> Seq<char> {
    numbered(prefix + "_child_"@, i)
}

/// The `i`-th child of a wide tree: `count` properties
/// `key_<name>_<p>` = `val_<p>` and no children.
pub open spec fn wide_child(prefix: Seq<char>, i: nat, count: nat) -> Section {
    let name = wide_child_name(prefix, i);
    Section {
        name: name,
        props: Seq::new(
            count,
            |p: int| (numbered("key_"@ + name + "_"@, p as nat), numbered("val_"@, p as nat)),
        ),
        children: Seq::empty(),
    }
}

/// A wide tree: one root `<prefix>_root` with the single property
/// `root_key` = `root_val` and `children` children.
pub open spec fn wide_tree(children: nat, count: nat, prefix: Seq<char>) -> Section {
    Section {
        name: prefix + "_root"@,
        props: seq![("root_key"@, "root_val"@)],
        children: Seq::new(children, |i: int| wide_child(prefix, i as nat, count)),
    }
}

/// The lopsided forest: one section `<prefix>_heavy` with `heavy` properties
/// `heavy_key_<p>` = `heavy_value`, then `empties` sections
/// `<prefix>_empty_<i>` without properties or children.
pub open spec fn lopsided_forest(heavy: nat, empties: nat, prefix: Seq<char>) -> Seq<Section> {
    seq![
        Section {
            name: prefix + "_heavy"@,
            props: Seq::new(heavy, |p: int| (numbered("heavy_key_"@, p as nat), "heavy_value"@)),
            children: Seq::empty(),
        },
    ] + Seq::new(
        empties,
        |i: int|
            Section {
                name: numbered(prefix + "_empty_"@, i as nat),
                props: Seq::empty(),
                children: Seq::empty(),
            },
    )
}

/// Name of the `i`-th section at `level` of a matrix tree.
pub open spec fn matrix_name(prefix: Seq<char>, level: nat, i: nat) -> Seq<char> {
    numbered(numbered(prefix + "_L"@, level) + "_N"@, i)
}

/// The `count` properties of a matrix section: `key_<name>_<p>` =
/// `value_<name>_<p>_` followed by a ten-byte payload.
pub open spec fn matrix_props(name: Seq<char>, count: nat) -> Seq<(Seq<char>, Seq<char>)> {
    Seq::new(
        count,
        |p: int|
            (
                numbered("key_"@ + name + "_"@, p as nat),
                numbered("value_"@ + name + "_"@, p as nat) + "_"@ + "xxxxxxxxxx"@,
            ),
    )
}

/// The matrix forest: `depth` levels, `breadth` sections per parent (and at
/// the top), each with `count` properties; empty when `depth` is 0.
pub open spec fn matrix_forest(
    depth: nat,
    breadth: nat,
    count: nat,
    prefix: Seq<char>,
    level: nat,
) -> Seq<Section>
    decreases depth,
{
    if depth == 0 {
        Seq::empty()
    } else {
        Seq::new(
            breadth,
            |i: int|
                Section {
                    name: matrix_name(prefix, level, i as nat),
                    props: matrix_props(matrix_name(prefix, level, i as nat), count),
                    children: matrix_forest((depth - 1) as nat, breadth, count, prefix, level + 1),
                },
        )
    }
}

/// The scaling section: `scale_<count>` with `count` properties
/// `key_<p>` = `val_<p>` and no children.
pub open spec fn scale_section(count: nat) -> Section {
    Section {
        name: numbered("scale_"@, count),
        props: Seq::new(
            count,
            |p: int| (numbered("key_"@, p as nat), numbered("val_"@, p as nat)),
        ),
        children: Seq::empty(),
    }
}

/// The same text followed by different numbers gives different names.
pub proof fn lemma_numbered_injective(text: Seq<char>, a: nat, b: nat)
    requires
        numbered(text, a) == numbered(text, b),
    ensures
        a == b,
{
    assert(numbered(text, a).skip(text.len() as int) =~= decimal(a));
    assert(numbered(text, b).skip(text.len() as int) =~= decimal(b));
    lemma_decimal_injective(a, b);
}

/// A wide tree is uniquely keyed: the children of the root have pairwise
/// different names and every section has pairwise different keys.
pub proof fn lemma_wide_tree_unique(children: nat, count: nat, prefix: Seq<char>)
    ensures
        uniquely_keyed(wide_tree(children, count, prefix)),
{
    let t = wide_tree(children, count, prefix);
    assert forall|i: int, j: int| 0 <= i < j < t.children.len() implies t.children[i].name
        != t.children[j].name by {
        if t.children[i].name == t.children[j].name {
            lemma_numbered_injective(prefix + "_child_"@, i as nat, j as nat);
        }
    }
    assert forall|i: int| 0 <= i < t.children.len() implies uniquely_keyed(
        #[trigger] t.children[i],
    ) by {
        let c = t.children[i];
        let key = "key_"@ + c.name + "_"@;
        assert forall|p: int, q: int| 0 <= p < q < c.props.len() implies c.props[p].0
            != c.props[q].0 by {
            if c.props[p].0 == c.props[q].0 {
                lemma_numbered_injective(key, p as nat, q as nat);
            }
        }
    }
}

/// The scaling section has pairwise different keys.
pub proof fn lemma_scale_section_unique(count: nat)
    ensures
        uniquely_keyed(scale_section(count)),
{
    let s = scale_section(count);
    assert forall|p: int, q: int| 0 <= p < q < s.props.len() implies s.props[p].0
        != s.props[q].0 by {
        if s.props[p].0 == s.props[q].0 {
            lemma_numbered_injective("key_"@, p as nat, q as nat);
        }
    }
}

/// The lopsided forest is uniquely keyed: its sections have pairwise
/// different names and the heavy section has pairwise different keys.
pub proof fn lemma_lopsided_forest_unique(heavy: nat, empties: nat, prefix: Seq<char>)
    ensures
        distinct_names(lopsided_forest(heavy, empties, prefix)),
        forall|i: int|
            0 <= i < lopsided_forest(heavy, empties, prefix).len() ==> uniquely_keyed(
                #[trigger] lopsided_forest(heavy, empties, prefix)[i],
            ),
{
    let f = lopsided_forest(heavy, empties, prefix);
    reveal_strlit("_heavy");
    reveal_strlit("_empty_");
    assert forall|i: int, j: int| 0 <= i < j < f.len() implies f[i].name != f[j].name by {
        if i == 0 {
            assert(f[i].name[prefix.len() + 1int] == 'h');
            assert(f[j].name[prefix.len() + 1int] == 'e');
        } else if f[i].name == f[j].name {
            lemma_numbered_injective(prefix + "_empty_"@, (i - 1) as nat, (j - 1) as nat);
        }
    }
    let h = f[0];
    assert forall|p: int, q: int| 0 <= p < q < h.props.len() implies h.props[p].0
        != h.props[q].0 by {
        if h.props[p].0 == h.props[q].0 {
            lemma_numbered_injective("heavy_key_"@, p as nat, q as nat);
        }
    }
    assert forall|i: int| 0 <= i < f.len() implies uniquely_keyed(#[trigger] f[i]) by {
        if i == 0 {
            assert(distinct_keys(h));
        }
    }
}

/// The matrix forest is uniquely keyed at every level: siblings have
/// pairwise different names and every section has pairwise different keys.
pub proof fn lemma_matrix_forest_unique(
    levels: nat,
    breadth: nat,
    count: nat,
    prefix: Seq<char>,
    level: nat,
)
    ensures
        distinct_names(matrix_forest(levels, breadth, count, prefix, level)),
        forall|i: int|
            0 <= i < matrix_forest(levels, breadth, count, prefix, level).len() ==> uniquely_keyed(
                #[trigger] matrix_forest(levels, breadth, count, prefix, level)[i],
            ),
    decreases levels,
{
    let f = matrix_forest(levels, breadth, count, prefix, level);
    if levels > 0 {
        lemma_matrix_forest_unique((levels - 1) as nat, breadth, count, prefix, level + 1);
        let row = numbered(prefix + "_L"@, level) + "_N"@;
        assert forall|i: int, j: int| 0 <= i < j < f.len() implies f[i].name != f[j].name by {
            if f[i].name == f[j].name {
                lemma_numbered_injective(row, i as nat, j as nat);
            }
        }
        assert forall|i: int| 0 <= i < f.len() implies uniquely_keyed(#[trigger] f[i]) by {
            let s = f[i];
            let key = "key_"@ + s.name + "_"@;
            assert forall|p: int, q: int| 0 <= p < q < s.props.len() implies s.props[p].0
                != s.props[q].0 by {
                if s.props[p].0 == s.props[q].0 {
                    lemma_numbered_injective(key, p as nat, q as nat);
                }
            }
        }
    }
}

/// Every section at the top of a matrix forest of `levels` levels has
/// exactly `levels - 1` levels of sections below it.
pub proof fn lemma_matrix_forest_depth(
    levels: nat,
    breadth: nat,
    count: nat,
    prefix: Seq<char>,
    level: nat,
)
    ensures
        forall|i: int|
            0 <= i < matrix_forest(levels, breadth, count, prefix, level).len() ==> #[trigger] depth(
                matrix_forest(levels, breadth, count, prefix, level)[i],
            ) == levels - 1,
    decreases levels,
{
    let f = matrix_forest(levels, breadth, count, prefix, level);
    if levels > 0 {
        lemma_matrix_forest_depth((levels - 1) as nat, breadth, count, prefix, level + 1);
        assert forall|i: int| 0 <= i < f.len() implies #[trigger] depth(f[i]) == levels - 1 by {
            let s = f[i];
            let below = matrix_forest((levels - 1) as nat, breadth, count, prefix, level + 1);
            assert(s.children == below);
            if levels == 1 {
                assert(below.len() == 0);
                assert(kids_depth(s, 0) == 0);
            } else {
                assert(below.len() == breadth);
                lemma_kids_depth_uniform(s, s.children.len(), (levels - 2) as nat);
            }
        }
    }
}

/// The sections of a matrix forest: `breadth` of them when there is a level
/// left, none otherwise; section `i` at `level` is named
/// `<prefix>_L<level>_N<i>` and holds `count` properties
/// `key_<name>_<p>` = `value_<name>_<p>_xxxxxxxxxx`, all values distinct,
/// and its children are the forest one level further down.
pub proof fn lemma_matrix_forest_sections(
    levels: nat,
    breadth: nat,
    count: nat,
    prefix: Seq<char>,
    level: nat,
)
    ensures
        levels == 0 ==> matrix_forest(levels, breadth, count, prefix, level).len() == 0,
        levels > 0 ==> matrix_forest(levels, breadth, count, prefix, level).len() == breadth,
        forall|i: int|
            0 <= i < matrix_forest(levels, breadth, count, prefix, level).len() ==> {
                let s = #[trigger] matrix_forest(levels, breadth, count, prefix, level)[i];
                &&& s.name == prefix + "_L"@ + decimal(level) + "_N"@ + decimal(i as nat)
                &&& s.props.len() == count
                &&& forall|p: int|
                    0 <= p < count ==> #[trigger] s.props[p] == (
                        "key_"@ + s.name + "_"@ + decimal(p as nat),
                        "value_"@ + s.name + "_"@ + decimal(p as nat) + "_xxxxxxxxxx"@,
                    )
                &&& forall|p: int, q: int| 0 <= p < q < count ==> s.props[p].1 != s.props[q].1
                &&& s.children == matrix_forest(
                    (levels - 1) as nat,
                    breadth,
                    count,
                    prefix,
                    level + 1,
                )
            },
{
    reveal_strlit("_");
    reveal_strlit("xxxxxxxxxx");
    reveal_strlit("_xxxxxxxxxx");
    let f = matrix_forest(levels, breadth, count, prefix, level);
    assert("_"@ + "xxxxxxxxxx"@ =~= "_xxxxxxxxxx"@);
    assert forall|i: int| 0 <= i < f.len() implies {
        let s = #[trigger] f[i];
        &&& s.name == prefix + "_L"@ + decimal(level) + "_N"@ + decimal(i as nat)
        &&& s.props.len() == count
        &&& forall|p: int|
            0 <= p < count ==> #[trigger] s.props[p] == (
                "key_"@ + s.name + "_"@ + decimal(p as nat),
                "value_"@ + s.name + "_"@ + decimal(p as nat) + "_xxxxxxxxxx"@,
            )
        &&& forall|p: int, q: int| 0 <= p < q < count ==> s.props[p].1 != s.props[q].1
        &&& s.children == matrix_forest((levels - 1) as nat, breadth, count, prefix, level + 1)
    } by {
        let s = f[i];
        let head = "value_"@ + s.name + "_"@;
        assert forall|p: int| 0 <= p < count implies #[trigger] s.props[p] == (
            "key_"@ + s.name + "_"@ + decimal(p as nat),
            "value_"@ + s.name + "_"@ + decimal(p as nat) + "_xxxxxxxxxx"@,
        ) by {
            assert(numbered(head, p as nat) + "_"@ + "xxxxxxxxxx"@ =~= head + decimal(p as nat)
                + "_xxxxxxxxxx"@);
        }
        assert forall|p: int, q: int| 0 <= p < q < count implies s.props[p].1 != s.props[q].1 by {
            if s.props[p].1 == s.props[q].1 {
                lemma_suffixed_numbers(head, p as nat, q as nat, "_xxxxxxxxxx"@);
            }
        }
    }
}

/// A wide tree: root `<prefix>_root` with the one property
/// `root_key` = `root_val` and `children` leaf children; child `i` is named
/// `<prefix>_child_<i>` and holds `count` properties `key_<name>_<p>` =
/// `val_<p>`, all values distinct.
pub proof fn lemma_wide_tree_sections(children: nat, count: nat, prefix: Seq<char>)
    ensures
        ({
            let t = wide_tree(children, count, prefix);
            &&& t.name == prefix + "_root"@
            &&& t.props == seq![("root_key"@, "root_val"@)]
            &&& t.children.len() == children
            &&& forall|i: int|
                0 <= i < children ==> {
                    let c = #[trigger] t.children[i];
                    &&& c.name == prefix + "_child_"@ + decimal(i as nat)
                    &&& c.props.len() == count
                    &&& c.children.len() == 0
                    &&& forall|p: int|
                        0 <= p < count ==> #[trigger] c.props[p] == (
                            "key_"@ + c.name + "_"@ + decimal(p as nat),
                            "val_"@ + decimal(p as nat),
                        )
                    &&& forall|p: int, q: int|
                        0 <= p < q < count ==> c.props[p].1 != c.props[q].1
                }
        }),
{
    let t = wide_tree(children, count, prefix);
    assert forall|i: int| 0 <= i < children implies {
        let c = #[trigger] t.children[i];
        &&& c.name == prefix + "_child_"@ + decimal(i as nat)
        &&& c.props.len() == count
        &&& c.children.len() == 0
        &&& forall|p: int|
            0 <= p < count ==> #[trigger] c.props[p] == (
                "key_"@ + c.name + "_"@ + decimal(p as nat),
                "val_"@ + decimal(p as nat),
            )
        &&& forall|p: int, q: int| 0 <= p < q < count ==> c.props[p].1 != c.props[q].1
    } by {
        let c = t.children[i];
        assert forall|p: int, q: int| 0 <= p < q < count implies c.props[p].1 != c.props[q].1 by {
            if c.props[p].1 == c.props[q].1 {
                lemma_numbered_injective("val_"@, p as nat, q as nat);
            }
        }
    }
}

/// A lopsided forest: `empties + 1` sections; the first is
/// `<prefix>_heavy` with `heavy` properties `heavy_key_<p>` = `heavy_value`,
/// then section `i + 1` is `<prefix>_empty_<i>` with nothing in it; no
/// section has children.
pub proof fn lemma_lopsided_forest_sections(heavy: nat, empties: nat, prefix: Seq<char>)
    ensures
        ({
            let f = lopsided_forest(heavy, empties, prefix);
            &&& f.len() == empties + 1
            &&& f[0].name == prefix + "_heavy"@
            &&& f[0].props.len() == heavy
            &&& forall|p: int|
                0 <= p < heavy ==> #[trigger] f[0].props[p] == (
                    "heavy_key_"@ + decimal(p as nat),
                    "heavy_value"@,
                )
            &&& forall|i: int|
                0 <= i < empties ==> (#[trigger] f[i + 1]).name == prefix + "_empty_"@ + decimal(
                    i as nat,
                ) && f[i + 1].props.len() == 0
            &&& forall|i: int| 0 <= i < f.len() ==> (#[trigger] f[i]).children.len() == 0
        }),
{
    let f = lopsided_forest(heavy, empties, prefix);
    assert forall|i: int| 0 <= i < f.len() implies (#[trigger] f[i]).children.len() == 0 by {
        if i > 0 {
            assert(f[i] == f[(i - 1) + 1]);
        }
    }
}

/// The scaling section: `scale_<count>` with `count` properties `key_<p>` =
/// `val_<p>`, all values distinct, and no children.
pub proof fn lemma_scale_section_sections(count: nat)
    ensures
        ({
            let s = scale_section(count);
            &&& s.name == "scale_"@ + decimal(count)
            &&& s.props.len() == count
            &&& s.children.len() == 0
            &&& forall|p: int|
                0 <= p < count ==> #[trigger] s.props[p] == (
                    "key_"@ + decimal(p as nat),
                    "val_"@ + decimal(p as nat),
                )
            &&& forall|p: int, q: int| 0 <= p < q < count ==> s.props[p].1 != s.props[q].1
        }),
{
    let s = scale_section(count);
    assert forall|p: int, q: int| 0 <= p < q < count implies s.props[p].1 != s.props[q].1 by {
        if s.props[p].1 == s.props[q].1 {
            lemma_numbered_injective("val_"@, p as nat, q as nat);
        }
    }
}

/// The same text and suffix around different numbers give different texts.
pub proof fn lemma_suffixed_numbers(head: Seq<char>, a: nat, b: nat, tail: Seq<char>)
    requires
        head + decimal(a) + tail == head + decimal(b) + tail,
    ensures
        a == b,
{
    let x = head + decimal(a) + tail;
    let y = head + decimal(b) + tail;
    assert(x.subrange(head.len() as int, x.len() - tail.len()) =~= decimal(a));
    assert(y.subrange(head.len() as int, y.len() - tail.len()) =~= decimal(b));
    lemma_decimal_injective(a, b);
}

/// `text` followed by the decimal numeral of `n`.
fn number_text(text: &str, n: usize) -> (s: String)
    ensures
        s@ == numbered(text@, n as nat),
{
    let mut s = text.to_owned();
    push_decimal(&mut s, n);
    s
}

/// `head`, `name` and `tail`, followed by the decimal numeral of `n`.
fn named_number_text(head: &str, name: &String, tail: &str, n: usize) -> (s: String)
    ensures
        s@ == numbered(head@ + name@ + tail@, n as nat),
{
    let mut s = head.to_owned();
    s.append(name.as_str());
    s.append(tail);
    push_decimal(&mut s, n);
    s
}

/// `text` followed by `suffix`.
fn suffixed(text: &str, suffix: &str) -> (s: String)
    ensures
        s@ == text@ + suffix@,
{
    let mut s = text.to_owned();
    s.append(suffix);
    s
}

impl ConfigNode {
    /// Generates a wide structure: one root node with `children_count`
    /// children, each having `props_per_child` properties. Exercises
    /// directory/child lookup scalability.
    pub fn generate_wide(children_count: usize, props_per_child: usize, prefix: &str) -> (node:
        ConfigNode)
        ensures
            node@ == wide_tree(children_count as nat, props_per_child as nat, prefix@),
    {
        let mut children: Vec<ConfigNode> = Vec::new();
        let mut i: usize = 0;
        while i < children_count
            invariant
                i <= children_count,
                children@.len() == i,
                forall|k: int|
                    0 <= k < i ==> #[trigger] children@[k]@ == wide_child(
                        prefix@,
                        k as nat,
                        props_per_child as nat,
                    ),
            decreases children_count - i,
        {
            let name = number_text(&suffixed(prefix, "_child_"), i);
            let mut props: Vec<(String, String)> = Vec::new();
            let mut p: usize = 0;
            while p < props_per_child
                invariant
                    p <= props_per_child,
                    props@.len() == p,
                    forall|q: int|
                        0 <= q < p ==> #[trigger] props@[q].0@ == numbered(
                            "key_"@ + name@ + "_"@,
                            q as nat,
                        ) && props@[q].1@ == numbered("val_"@, q as nat),
                decreases props_per_child - p,
            {
                let key = named_number_text("key_", &name, "_", p);
                let val = number_text("val_", p);
                props.push((key, val));
                p = p + 1;
            }
            let child = ConfigNode { name, props, children: Vec::new() };
            let ghost want = wide_child(prefix@, i as nat, props_per_child as nat);
            assert(child@.props =~= want.props);
            assert(child@.children =~= want.children);
            assert(child@ =~= want);
            children.push(child);
            i = i + 1;
        }
        let mut root_props: Vec<(String, String)> = Vec::new();
        root_props.push(("root_key".to_owned(), "root_val".to_owned()));
        let node = ConfigNode { name: suffixed(prefix, "_root"), props: root_props, children };
        let ghost spec = wide_tree(children_count as nat, props_per_child as nat, prefix@);
        assert(node@.props =~= spec.props);
        assert forall|k: int| 0 <= k < children_count implies node@.children[k] == spec.children[k] by {
            assert(node.children@[k]@ == wide_child(prefix@, k as nat, props_per_child as nat));
        }
        assert(node@.children =~= spec.children);
        assert(node@ =~= spec);
        node
    }

    /// Generates a lopsided forest: one massive section alongside many empty
    /// sections. Exercises contiguous storage and worst-case linear scanning.
    pub fn generate_lopsided(heavy_props: usize, empty_sections: usize, prefix: &str) -> (nodes:
        Vec<ConfigNode>)
        requires
            empty_sections < usize::MAX,
        ensures
            nodes_view(nodes@) == lopsided_forest(heavy_props as nat, empty_sections as nat, prefix@),
    {
        let mut nodes: Vec<ConfigNode> = Vec::new();
        let ghost spec = lopsided_forest(heavy_props as nat, empty_sections as nat, prefix@);

        let mut heavy: Vec<(String, String)> = Vec::new();
        let mut p: usize = 0;
        while p < heavy_props
            invariant
                p <= heavy_props,
                heavy@.len() == p,
                forall|q: int|
                    0 <= q < p ==> #[trigger] heavy@[q].0@ == numbered("heavy_key_"@, q as nat)
                        && heavy@[q].1@ == "heavy_value"@,
            decreases heavy_props - p,
        {
            heavy.push((number_text("heavy_key_", p), "heavy_value".to_owned()));
            p = p + 1;
        }
        let heavy_node = ConfigNode {
            name: suffixed(prefix, "_heavy"),
            props: heavy,
            children: Vec::new(),
        };
        assert(heavy_node@.props =~= spec[0].props);
        assert(heavy_node@.children =~= spec[0].children);
        assert(heavy_node@ =~= spec[0]);
        nodes.push(heavy_node);

        let mut i: usize = 0;
        while i < empty_sections
            invariant
                i <= empty_sections,
                empty_sections < usize::MAX,
                spec == lopsided_forest(heavy_props as nat, empty_sections as nat, prefix@),
                nodes@.len() == i + 1,
                forall|k: int| 0 <= k <= i ==> #[trigger] nodes@[k]@ == spec[k],
            decreases empty_sections - i,
        {
            let node = ConfigNode {
                name: number_text(&suffixed(prefix, "_empty_"), i),
                props: Vec::new(),
                children: Vec::new(),
            };
            assert(node@.props =~= spec[i + 1].props);
            assert(node@.children =~= spec[i + 1].children);
            assert(node@ =~= spec[i + 1]);
            nodes.push(node);
            i = i + 1;
        }
        assert(nodes_view(nodes@) =~= spec);
        nodes
    }

    /// Recursively builds the matrix topologies: `depth_left` levels with
    /// `breadth` sections per parent, each with `props_count` properties.
    pub fn generate(
        depth_left: usize,
        breadth: usize,
        props_count: usize,
        prefix: &str,
        level: usize,
    ) -> (nodes: Vec<ConfigNode>)
        requires
            breadth == 0 || level + depth_left <= usize::MAX,
        ensures
            nodes_view(nodes@) == matrix_forest(
                depth_left as nat,
                breadth as nat,
                props_count as nat,
                prefix@,
                level as nat,
            ),
        decreases depth_left,
    {
        let ghost spec = matrix_forest(
            depth_left as nat,
            breadth as nat,
            props_count as nat,
            prefix@,
            level as nat,
        );
        if depth_left == 0 {
            let empty: Vec<ConfigNode> = Vec::new();
            assert(nodes_view(empty@) =~= spec);
            return empty;
        }
        let mut nodes: Vec<ConfigNode> = Vec::new();
        let mut i: usize = 0;
        while i < breadth
            invariant
                i <= breadth,
                0 < depth_left,
                breadth == 0 || level + depth_left <= usize::MAX,
                spec == matrix_forest(
                    depth_left as nat,
                    breadth as nat,
                    props_count as nat,
                    prefix@,
                    level as nat,
                ),
                nodes@.len() == i,
                forall|k: int| 0 <= k < i ==> #[trigger] nodes@[k]@ == spec[k],
            decreases breadth - i,
        {
            let mut name = suffixed(prefix, "_L");
            push_decimal(&mut name, level);
            name.append("_N");
            push_decimal(&mut name, i);
            assert(name@ =~= matrix_name(prefix@, level as nat, i as nat));

            let mut props: Vec<(String, String)> = Vec::new();
            let mut p: usize = 0;
            while p < props_count
                invariant
                    p <= props_count,
                    props@.len() == p,
                    forall|q: int|
                        0 <= q < p ==> #[trigger] props@[q].0@ == matrix_props(name@, props_count as nat)[q].0
                            && props@[q].1@ == matrix_props(name@, props_count as nat)[q].1,
                decreases props_count - p,
            {
                let key = named_number_text("key_", &name, "_", p);
                let mut value = named_number_text("value_", &name, "_", p);
                value.append("_");
                value.append("xxxxxxxxxx");
                props.push((key, value));
                p = p + 1;
            }

            let children = Self::generate(depth_left - 1, breadth, props_count, prefix, level + 1);
            let node = ConfigNode { name, props, children };
            assert(node@.props =~= spec[i as int].props);
            assert(node@.children =~= spec[i as int].children);
            assert(node@ =~= spec[i as int]);
            nodes.push(node);
            i = i + 1;
        }
        assert(nodes_view(nodes@) =~= spec);
        nodes
    }

    /// Generates the scaling section: a single section with `prop_count`
    /// properties and no children.
    pub fn generate_exact_scale(prop_count: usize) -> (node: ConfigNode)
        ensures
            node@ == scale_section(prop_count as nat),
    {
        let mut props: Vec<(String, String)> = Vec::new();
        let mut p: usize = 0;
        while p < prop_count
            invariant
                p <= prop_count,
                props@.len() == p,
                forall|q: int|
                    0 <= q < p ==> #[trigger] props@[q].0@ == numbered("key_"@, q as nat)
                        && props@[q].1@ == numbered("val_"@, q as nat),
            decreases prop_count - p,
        {
            props.push((number_text("key_", p), number_text("val_", p)));
            p = p + 1;
        }
        let node = ConfigNode {
            name: number_text("scale_", prop_count),
            props,
            children: Vec::new(),
        };
        assert(node@.props =~= scale_section(prop_count as nat).props);
        assert(node@.children =~= scale_section(prop_count as nat).children);
        assert(node@ =~= scale_section(prop_count as nat));
        node
    }
}

} // verus!
