//! The TOML fixture format: one `[dotted.path]` table per section, one
//! `key = "value"` line per property, a blank line after each table.
use vstd::prelude::*;
use crate::model::{named, preorder, preorder_kids, ConfigNode, Section};
use crate::text::{dotted_path, join, join_path, lemma_dotted_path_join};

verus! {

/// Line of the `i`-th property of a section.
pub open spec fn toml_prop(s: Section, i: int) -> Seq<char> {
    s.props[i].0 + " = \""@ + s.props[i].1 + "\"\n"@
}

/// Lines of the first `n` properties of a section.
pub open spec fn toml_props(s: Section, n: nat) -> Seq<char>
    decreases n,
{
    if n == 0 {
        Seq::empty()
    } else {
        toml_props(s, (n - 1) as nat) + toml_prop(s, n - 1)
    }
}

/// The table of a section below the table at `parent`, followed by the
/// tables of all sections below it.
pub open spec fn toml_text(s: Section, parent: Seq<char>) -> Seq<char>
    decreases s, s.children.len() + 1,
{
    let path = dotted_path(parent, s.name);
    "["@ + path + "]\n"@ + toml_props(s, s.props.len()) + "\n"@ + toml_kids(
        s,
        s.children.len(),
        path,
    )
}

/// Tables of the first `n` children of a section whose path is `path`.
pub open spec fn toml_kids(s: Section, n: nat, path: Seq<char>) -> Seq<char>
    decreases s, n,
{
    if n == 0 || n > s.children.len() {
        Seq::empty()
    } else {
        toml_kids(s, (n - 1) as nat, path) + toml_text(s.children[n - 1], path)
    }
}

/// One table per entry, in order: the header `[a.b.c]` joins the entry's
/// path names with dots, then the section's property lines and a blank line.
pub open spec fn toml_tables(entries: Seq<(Section, Seq<Seq<char>>)>) -> Seq<char>
    decreases entries.len(),
{
    if entries.len() == 0 {
        Seq::empty()
    } else {
        let e = entries.last();
        toml_tables(entries.drop_last()) + "["@ + join(e.1, "."@) + "]\n"@ + toml_props(
            e.0,
            e.0.props.len(),
        ) + "\n"@
    }
}

pub proof fn lemma_toml_tables_concat(
    a: Seq<(Section, Seq<Seq<char>>)>,
    b: Seq<(Section, Seq<Seq<char>>)>,
)
    ensures
        toml_tables(a + b) == toml_tables(a) + toml_tables(b),
    decreases b.len(),
{
    if b.len() == 0 {
        assert(a + b =~= a);
        assert(toml_tables(a) + toml_tables(b) =~= toml_tables(a));
    } else {
        assert((a + b).drop_last() =~= a + b.drop_last());
        lemma_toml_tables_concat(a, b.drop_last());
        assert(toml_tables(a + b) =~= toml_tables(a) + toml_tables(b));
    }
}

/// The TOML text of a root section holds one table per section of the
/// tree, in document order, and the header of each is the dotted join of
/// all names from the root down to that section.
pub proof fn lemma_toml_root_tables(s: Section)
    requires
        named(s),
    ensures
        toml_text(s, Seq::empty()) == toml_tables(preorder(s, Seq::empty())),
{
    assert(join(Seq::<Seq<char>>::empty(), "."@) =~= Seq::<char>::empty());
    lemma_toml_tables_walk(s, Seq::empty());
}

/// Below a non-empty path of non-empty names, the TOML text of a section is
/// one table per section of its tree, headed by the full dotted path.
pub proof fn lemma_toml_tables_walk(s: Section, above: Seq<Seq<char>>)
    requires
        named(s),
        forall|i: int| 0 <= i < above.len() ==> (#[trigger] above[i]).len() > 0,
    ensures
        toml_text(s, join(above, "."@)) == toml_tables(preorder(s, above)),
    decreases s, s.children.len() + 1,
{
    let names = above.push(s.name);
    lemma_dotted_path_join(above, s.name);
    assert forall|i: int| 0 <= i < names.len() implies (#[trigger] names[i]).len() > 0 by {
        if i < above.len() {
            assert(names[i] == above[i]);
        }
    }
    lemma_toml_tables_kids(s, s.children.len(), names);
    let head = seq![(s, names)];
    lemma_toml_tables_concat(head, preorder_kids(s, s.children.len(), names));
    assert(head.drop_last() =~= Seq::<(Section, Seq<Seq<char>>)>::empty());
    assert(toml_tables(head.drop_last()) =~= Seq::<char>::empty());
    assert(head.last() == (s, names));
    assert(toml_tables(head) =~= "["@ + join(names, "."@) + "]\n"@ + toml_props(
        s,
        s.props.len(),
    ) + "\n"@);
}

proof fn lemma_toml_tables_kids(s: Section, n: nat, names: Seq<Seq<char>>)
    requires
        named(s),
        n <= s.children.len(),
        forall|i: int| 0 <= i < names.len() ==> (#[trigger] names[i]).len() > 0,
    ensures
        toml_kids(s, n, join(names, "."@)) == toml_tables(preorder_kids(s, n, names)),
    decreases s, n,
{
    if n == 0 {
        assert(toml_tables(Seq::empty()) =~= Seq::<char>::empty());
    } else {
        lemma_toml_tables_kids(s, (n - 1) as nat, names);
        assert(named(s.children[n - 1]));
        lemma_toml_tables_walk(s.children[n - 1], names);
        lemma_toml_tables_concat(
            preorder_kids(s, (n - 1) as nat, names),
            preorder(s.children[n - 1], names),
        );
    }
}

impl ConfigNode {
    /// Appends the TOML tables of this section and of all sections below it.
    pub fn to_toml(&self, buffer: &mut String, parent_path: &str)
        ensures
            final(buffer)@ == old(buffer)@ + toml_text(self@, parent_path@),
        decreases self,
    {
        let ghost start = buffer@;
        let ghost s = self@;
        let current_path = join_path(parent_path, &self.name);

        buffer.append("[");
        buffer.append(current_path.as_str());
        buffer.append("]\n");
        let ghost head = buffer@;

        let mut i: usize = 0;
        while i < self.props.len()
            invariant
                s == self@,
                i <= self.props.len(),
                buffer@ =~= head + toml_props(s, i as nat),
            decreases self.props.len() - i,
        {
            let prop = &self.props[i];
            buffer.append(prop.0.as_str());
            buffer.append(" = \"");
            buffer.append(prop.1.as_str());
            buffer.append("\"\n");
            i = i + 1;
        }
        buffer.append("\n");
        let ghost after_props = buffer@;

        let mut j: usize = 0;
        while j < self.children.len()
            invariant
                s == self@,
                j <= self.children.len(),
                buffer@ =~= after_props + toml_kids(s, j as nat, current_path@),
            decreases self.children.len() - j,
        {
            self.children[j].to_toml(buffer, current_path.as_str());
            j = j + 1;
        }
        assert(buffer@ =~= start + toml_text(s, parent_path@));
    }
}

} // verus!
