//! The XML fixture format: one element per section, one `<key>value</key>`
//! element per property, nested sections indented one step deeper.
use vstd::prelude::*;
use crate::model::{depth, lemma_child_depth, walk, walk_kids, ConfigNode, Section};
use crate::text::{pad, push_pad};

verus! {

/// Opening tag line of a section element.
pub open spec fn xml_head(s: Section, indent: nat) -> Seq<char> {
    pad(indent) + "<"@ + s.name + ">\n"@
}

/// Element line of the `i`-th property of a section.
pub open spec fn xml_prop(s: Section, i: int, indent: nat) -> Seq<char> {
    pad(indent) + "  <"@ + s.props[i].0 + ">"@ + s.props[i].1 + "</"@ + s.props[i].0 + ">\n"@
}

/// Element lines of the first `n` properties of a section.
pub open spec fn xml_props(s: Section, n: nat, indent: nat) -> Seq<char>
    decreases n,
{
    if n == 0 {
        Seq::empty()
    } else {
        xml_props(s, (n - 1) as nat, indent) + xml_prop(s, n - 1, indent)
    }
}

/// A section element: opening tag, properties, nested elements, closing tag.
pub open spec fn xml_text(s: Section, indent: nat) -> Seq<char>
    decreases s, s.children.len() + 1,
{
    xml_head(s, indent) + xml_props(s, s.props.len(), indent) + xml_kids(
        s,
        s.children.len(),
        indent,
    ) + pad(indent) + "</"@ + s.name + ">\n"@
}

/// Elements of the first `n` children of a section, one step deeper.
pub open spec fn xml_kids(s: Section, n: nat, indent: nat) -> Seq<char>
    decreases s, n,
{
    if n == 0 || n > s.children.len() {
        Seq::empty()
    } else {
        xml_kids(s, (n - 1) as nat, indent) + xml_text(s.children[n - 1], indent + 1)
    }
}

/// The `<key>value</key>` lines of the first `n` properties, each indented
/// by `margin` and two more spaces.
pub open spec fn xml_element_lines(
    props: Seq<(Seq<char>, Seq<char>)>,
    n: nat,
    margin: Seq<char>,
) -> Seq<char>
    decreases n,
{
    if n == 0 || n > props.len() {
        Seq::empty()
    } else {
        xml_element_lines(props, (n - 1) as nat, margin) + margin + "  <"@ + props[n - 1].0 + ">"@
            + props[n - 1].1 + "</"@ + props[n - 1].0 + ">\n"@
    }
}

/// The text of walk steps in order: entering a section at nesting `d`
/// writes its `<name>` line and its property lines at indentation
/// `indent + d`; leaving it writes `</name>` at the same indentation.
pub open spec fn xml_steps(steps: Seq<(Section, nat, bool)>, indent: nat) -> Seq<char>
    decreases steps.len(),
{
    if steps.len() == 0 {
        Seq::empty()
    } else {
        let (s, d, entering) = steps.last();
        let margin = pad(indent + d);
        xml_steps(steps.drop_last(), indent) + if entering {
            margin + "<"@ + s.name + ">\n"@ + xml_element_lines(
                s.props,
                s.props.len(),
                margin,
            )
        } else {
            margin + "</"@ + s.name + ">\n"@
        }
    }
}

pub proof fn lemma_xml_steps_concat(a: Seq<(Section, nat, bool)>, b: Seq<(Section, nat, bool)>, indent: nat)
    ensures
        xml_steps(a + b, indent) == xml_steps(a, indent) + xml_steps(b, indent),
    decreases b.len(),
{
    if b.len() == 0 {
        assert(a + b =~= a);
        assert(xml_steps(a, indent) + xml_steps(b, indent) =~= xml_steps(a, indent));
    } else {
        assert((a + b).drop_last() =~= a + b.drop_last());
        lemma_xml_steps_concat(a, b.drop_last(), indent);
        assert(xml_steps(a + b, indent) =~= xml_steps(a, indent) + xml_steps(b, indent));
    }
}

proof fn lemma_xml_steps_one(s: Section, d: nat, entering: bool, indent: nat)
    ensures
        xml_steps(seq![(s, d, entering)], indent) == if entering {
            pad(indent + d) + "<"@ + s.name + ">\n"@ + xml_element_lines(
                s.props,
                s.props.len(),
                pad(indent + d),
            )
        } else {
            pad(indent + d) + "</"@ + s.name + ">\n"@
        },
{
    let one = seq![(s, d, entering)];
    assert(one.drop_last() =~= Seq::<(Section, nat, bool)>::empty());
    assert(one.last() == (s, d, entering));
    assert(xml_steps(one.drop_last(), indent) =~= Seq::<char>::empty());
    assert(xml_steps(one, indent) =~= if entering {
        pad(indent + d) + "<"@ + s.name + ">\n"@ + xml_element_lines(
            s.props,
            s.props.len(),
            pad(indent + d),
        )
    } else {
        pad(indent + d) + "</"@ + s.name + ">\n"@
    });
}

proof fn lemma_xml_props_quoted(s: Section, n: nat, indent: nat)
    requires
        n <= s.props.len(),
    ensures
        xml_props(s, n, indent) == xml_element_lines(s.props, n, pad(indent)),
    decreases n,
{
    if n > 0 {
        lemma_xml_props_quoted(s, (n - 1) as nat, indent);
        assert(xml_props(s, n, indent) =~= xml_element_lines(s.props, n, pad(indent)));
    }
}

/// The XML text of a section is its depth-first walk written step by
/// step: every section of the tree opens with `<name>` and its property
/// elements and closes with `</name>`, both indented by its nesting below `s`.
pub proof fn lemma_xml_walk(s: Section, indent: nat)
    ensures
        xml_text(s, indent) == xml_steps(walk(s, 0), indent),
{
    lemma_xml_walk_at(s, indent, 0);
}

proof fn lemma_xml_walk_at(s: Section, indent: nat, d: nat)
    ensures
        xml_text(s, indent + d) == xml_steps(walk(s, d), indent),
    decreases s, s.children.len() + 1,
{
    let open = seq![(s, d, true)];
    let kids = walk_kids(s, s.children.len(), d + 1);
    let close = seq![(s, d, false)];
    lemma_xml_kids_walk(s, s.children.len(), indent, d);
    lemma_xml_steps_concat(open + kids, close, indent);
    lemma_xml_steps_concat(open, kids, indent);
    lemma_xml_steps_one(s, d, true, indent);
    lemma_xml_steps_one(s, d, false, indent);
    lemma_xml_props_quoted(s, s.props.len(), indent + d);
    assert(xml_text(s, indent + d) =~= xml_steps(open, indent) + xml_steps(kids, indent)
        + xml_steps(close, indent));
}

proof fn lemma_xml_kids_walk(s: Section, n: nat, indent: nat, d: nat)
    requires
        n <= s.children.len(),
    ensures
        xml_kids(s, n, indent + d) == xml_steps(walk_kids(s, n, d + 1), indent),
    decreases s, n,
{
    if n == 0 {
        assert(xml_steps(Seq::empty(), indent) =~= Seq::<char>::empty());
    } else {
        lemma_xml_kids_walk(s, (n - 1) as nat, indent, d);
        lemma_xml_walk_at(s.children[n - 1], indent, d + 1);
        lemma_xml_steps_concat(
            walk_kids(s, (n - 1) as nat, d + 1),
            walk(s.children[n - 1], d + 1),
            indent,
        );
    }
}

impl ConfigNode {
    /// Appends this section, and all sections below it, as XML elements.
    pub fn to_xml(&self, buffer: &mut String, indent: usize)
        requires
            indent + depth(self@) <= usize::MAX,
        ensures
            final(buffer)@ == old(buffer)@ + xml_text(self@, indent as nat),
        decreases self,
    {
        let ghost start = buffer@;
        let ghost s = self@;
        let mut pad_str = String::new();
        push_pad(&mut pad_str, indent);
        let margin = pad_str.as_str();

        buffer.append(margin);
        buffer.append("<");
        buffer.append(self.name.as_str());
        buffer.append(">\n");
        let ghost head = buffer@;
        assert(head =~= start + xml_head(s, indent as nat));

        let mut i: usize = 0;
        while i < self.props.len()
            invariant
                s == self@,
                margin@ == pad(indent as nat),
                i <= self.props.len(),
                buffer@ =~= head + xml_props(s, i as nat, indent as nat),
            decreases self.props.len() - i,
        {
            let prop = &self.props[i];
            buffer.append(margin);
            buffer.append("  <");
            buffer.append(prop.0.as_str());
            buffer.append(">");
            buffer.append(prop.1.as_str());
            buffer.append("</");
            buffer.append(prop.0.as_str());
            buffer.append(">\n");
            i = i + 1;
        }
        let ghost after_props = buffer@;

        let mut j: usize = 0;
        while j < self.children.len()
            invariant
                s == self@,
                indent + depth(s) <= usize::MAX,
                j <= self.children.len(),
                buffer@ =~= after_props + xml_kids(s, j as nat, indent as nat),
            decreases self.children.len() - j,
        {
            let child = &self.children[j];
            proof {
                lemma_child_depth(s, j as int);
            }
            child.to_xml(buffer, indent + 1);
            j = j + 1;
        }

        buffer.append(margin);
        buffer.append("</");
        buffer.append(self.name.as_str());
        buffer.append(">\n");
    }
}

} // verus!
