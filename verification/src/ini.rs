//! The INI fixture format. INI has no real nesting, so each section is a
//! `[dotted.path]` header; one `key=value` line per property and a blank
//! line after each section.
use vstd::prelude::*;
use crate::model::{named, preorder, preorder_kids, ConfigNode, Section};
use crate::text::{dotted_path, join, join_path, lemma_dotted_path_join};

verus! {

/// Line of the `i`-th property of a section.
pub open spec fn ini_prop(s: Section, i: int) -> Seq<char> {
    s.props[i].0 + "="@ + s.props[i].1 + "\n"@
}

/// Lines of the first `n` properties of a section.
pub open spec fn ini_props(s: Section, n: nat) -> Seq<char>
    decreases n,
{
    if n == 0 {
        Seq::empty()
    } else {
        ini_props(s, (n - 1) as nat) + ini_prop(s, n - 1)
    }
}

/// The section block of a section below the section at `parent`, followed
/// by the blocks of all sections below it.
pub open spec fn ini_text(s: Section, parent: Seq<char>) -> Seq<char>
    decreases s, s.children.len() + 1,
{
    let path = dotted_path(parent, s.name);
    "["@ + path + "]\n"@ + ini_props(s, s.props.len()) + "\n"@ + ini_kids(
        s,
        s.children.len(),
        path,
    )
}

/// Blocks of the first `n` children of a section whose path is `path`.
pub open spec fn ini_kids(s: Section, n: nat, path: Seq<char>) -> Seq<char>
    decreases s, n,
{
    if n == 0 || n > s.children.len() {
        Seq::empty()
    } else {
        ini_kids(s, (n - 1) as nat, path) + ini_text(s.children[n - 1], path)
    }
}

/// One section per entry, in order: the header `[a.b.c]` joins the entry's
/// path names with dots, then the section's property lines and a blank line.
pub open spec fn ini_blocks(entries: Seq<(Section, Seq<Seq<char>>)>) -> Seq<char>
    decreases entries.len(),
{
    if entries.len() == 0 {
        Seq::empty()
    } else {
        let e = entries.last();
        ini_blocks(entries.drop_last()) + "["@ + join(e.1, "."@) + "]\n"@ + ini_props(
            e.0,
            e.0.props.len(),
        ) + "\n"@
    }
}

pub proof fn lemma_ini_blocks_concat(
    a: Seq<(Section, Seq<Seq<char>>)>,
    b: Seq<(Section, Seq<Seq<char>>)>,
)
    ensures
        ini_blocks(a + b) == ini_blocks(a) + ini_blocks(b),
    decreases b.len(),
{
    if b.len() == 0 {
        assert(a + b =~= a);
        assert(ini_blocks(a) + ini_blocks(b) =~= ini_blocks(a));
    } else {
        assert((a + b).drop_last() =~= a + b.drop_last());
        lemma_ini_blocks_concat(a, b.drop_last());
        assert(ini_blocks(a + b) =~= ini_blocks(a) + ini_blocks(b));
    }
}

/// The INI text of a root section holds one block per section of the
/// tree, in document order, and the header of each is the dotted join of
/// all names from the root down to that section.
pub proof fn lemma_ini_root_blocks(s: Section)
    requires
        named(s),
    ensures
        ini_text(s, Seq::empty()) == ini_blocks(preorder(s, Seq::empty())),
{
    assert(join(Seq::<Seq<char>>::empty(), "."@) =~= Seq::<char>::empty());
    lemma_ini_blocks_walk(s, Seq::empty());
}

/// Below a non-empty path of non-empty names, the INI text of a section is
/// one block per section of its tree, headed by the full dotted path.
pub proof fn lemma_ini_blocks_walk(s: Section, above: Seq<Seq<char>>)
    requires
        named(s),
        forall|i: int| 0 <= i < above.len() ==> (#[trigger] above[i]).len() > 0,
    ensures
        ini_text(s, join(above, "."@)) == ini_blocks(preorder(s, above)),
    decreases s, s.children.len() + 1,
{
    let names = above.push(s.name);
    lemma_dotted_path_join(above, s.name);
    assert forall|i: int| 0 <= i < names.len() implies (#[trigger] names[i]).len() > 0 by {
        if i < above.len() {
            assert(names[i] == above[i]);
        }
    }
    lemma_ini_blocks_kids(s, s.children.len(), names);
    let head = seq![(s, names)];
    lemma_ini_blocks_concat(head, preorder_kids(s, s.children.len(), names));
    assert(head.drop_last() =~= Seq::<(Section, Seq<Seq<char>>)>::empty());
    assert(ini_blocks(head.drop_last()) =~= Seq::<char>::empty());
    assert(head.last() == (s, names));
    assert(ini_blocks(head) =~= "["@ + join(names, "."@) + "]\n"@ + ini_props(
        s,
        s.props.len(),
    ) + "\n"@);
}

proof fn lemma_ini_blocks_kids(s: Section, n: nat, names: Seq<Seq<char>>)
    requires
        named(s),
        n <= s.children.len(),
        forall|i: int| 0 <= i < names.len() ==> (#[trigger] names[i]).len() > 0,
    ensures
        ini_kids(s, n, join(names, "."@)) == ini_blocks(preorder_kids(s, n, names)),
    decreases s, n,
{
    if n == 0 {
        assert(ini_blocks(Seq::empty()) =~= Seq::<char>::empty());
    } else {
        lemma_ini_blocks_kids(s, (n - 1) as nat, names);
        assert(named(s.children[n - 1]));
        lemma_ini_blocks_walk(s.children[n - 1], names);
        lemma_ini_blocks_concat(
            preorder_kids(s, (n - 1) as nat, names),
            preorder(s.children[n - 1], names),
        );
    }
}

impl ConfigNode {
    /// Appends the INI blocks of this section and of all sections below it.
    pub fn to_ini(&self, buffer: &mut String, parent_path: &str)
        ensures
            final(buffer)@ == old(buffer)@ + ini_text(self@, parent_path@),
        decreases self,
    {
        let ghost start = buffer@;
        let ghost s = self@;
        let current_path = join_path(parent_path, &self.name);

        buffer.append("[");
        buffer.append(current_path.as_str());
        buffer.append("]\n");
        let ghost head = buffer@;

        let mut i: usize = 0;
        while i < self.props.len()
            invariant
                s == self@,
                i <= self.props.len(),
                buffer@ =~= head + ini_props(s, i as nat),
            decreases self.props.len() - i,
        {
            let prop = &self.props[i];
            buffer.append(prop.0.as_str());
            buffer.append("=");
            buffer.append(prop.1.as_str());
            buffer.append("\n");
            i = i + 1;
        }
        buffer.append("\n");
        let ghost after_props = buffer@;

        let mut j: usize = 0;
        while j < self.children.len()
            invariant
                s == self@,
                j <= self.children.len(),
                buffer@ =~= after_props + ini_kids(s, j as nat, current_path@),
            decreases self.children.len() - j,
        {
            self.children[j].to_ini(buffer, current_path.as_str());
            j = j + 1;
        }
        assert(buffer@ =~= start + ini_text(s, parent_path@));
    }
}

} // verus!
