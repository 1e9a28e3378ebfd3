//! The JSON fixture format: each section is a `"name": { ... }` member whose
//! object holds its properties as string members, then its child sections.
use vstd::prelude::*;
use crate::model::{depth, lemma_child_depth, ConfigNode, Section};
use crate::text::{join, lemma_join_take, pad, push_pad};

verus! {

/// Opening line of a section member.
pub open spec fn json_head(s: Section, indent: nat) -> Seq<char> {
    pad(indent) + "\""@ + s.name + "\": {\n"@
}

/// The separator after the `i`-th member (properties first, then children,
/// counted from 0): a comma unless it is the last member of the object.
pub open spec fn json_comma(s: Section, i: int) -> Seq<char> {
    if i + 1 < s.props.len() + s.children.len() {
        ","@
    } else {
        ""@
    }
}

/// Line of the `i`-th property of a section.
pub open spec fn json_prop(s: Section, i: int, indent: nat) -> Seq<char> {
    pad(indent) + "  \""@ + s.props[i].0 + "\": \""@ + s.props[i].1 + "\""@ + json_comma(s, i)
        + "\n"@
}

/// Lines of the first `n` properties of a section.
pub open spec fn json_props(s: Section, n: nat, indent: nat) -> Seq<char>
    decreases n,
{
    if n == 0 {
        Seq::empty()
    } else {
        json_props(s, (n - 1) as nat, indent) + json_prop(s, n - 1, indent)
    }
}

/// A section member: opening line, properties, child members and the
/// closing brace, which ends without a newline.
pub open spec fn json_text(s: Section, indent: nat) -> Seq<char>
    decreases s, s.children.len() + 1,
{
    json_head(s, indent) + json_props(s, s.props.len(), indent) + json_kids(
        s,
        s.children.len(),
        indent,
    ) + pad(indent) + "}"@
}

/// Members of the first `n` children of a section, one step deeper, each
/// followed by `,\n`, or by `\n` after the last member of the object.
pub open spec fn json_kids(s: Section, n: nat, indent: nat) -> Seq<char>
    decreases s, n,
{
    if n == 0 || n > s.children.len() {
        Seq::empty()
    } else {
        json_kids(s, (n - 1) as nat, indent) + json_text(s.children[n - 1], indent + 1) + json_comma(
            s,
            s.props.len() + n - 1,
        ) + "\n"@
    }
}

/// The members of a section's JSON object, in order: one
/// `"key": "value"` member per property, then one object member per child.
pub open spec fn json_member_texts(s: Section, indent: nat) -> Seq<Seq<char>> {
    Seq::new(
        s.props.len() + s.children.len(),
        |i: int|
            if i < s.props.len() {
                pad(indent) + "  \""@ + s.props[i].0 + "\": \""@ + s.props[i].1 + "\""@
            } else {
                json_text(s.children[i - s.props.len()], indent + 1)
            },
    )
}

/// The JSON text of a section is its quoted name and an object whose
/// members (properties first, then children) are separated by `,` and a
/// line break: a comma follows every member but the last.
#[verifier::rlimit(30)]
pub proof fn lemma_json_object(s: Section, indent: nat)
    ensures
        json_text(s, indent) == pad(indent) + "\""@ + s.name + "\": {\n"@ + (if s.props.len()
            + s.children.len() == 0 {
            Seq::<char>::empty()
        } else {
            join(json_member_texts(s, indent), ",\n"@) + "\n"@
        }) + pad(indent) + "}"@,
{
    let m = json_member_texts(s, indent);
    let total = s.props.len() + s.children.len();
    let body = json_props(s, s.props.len(), indent) + json_kids(s, s.children.len(), indent);
    if total == 0 {
        assert(body =~= Seq::<char>::empty());
    } else {
        if s.children.len() == 0 {
            lemma_json_props_join(s, indent, total);
            assert(json_kids(s, 0, indent) =~= Seq::<char>::empty());
        } else {
            lemma_json_kids_join(s, indent, s.children.len());
        }
        assert(m.take(total as int) =~= m);
        reveal_strlit("");
        assert(member_end(total, total) =~= "\n"@);
    }
    assert(json_text(s, indent) =~= json_head(s, indent) + body + pad(indent) + "}"@);
}

/// What follows the `n`-th member (counted from 1) of an object with
/// `total` members: a comma unless it is the last, then a line break.
spec fn member_end(total: nat, n: nat) -> Seq<char> {
    (if n < total {
        ","@
    } else {
        ""@
    }) + "\n"@
}

/// The property lines up to member `n` are the first `n` members joined by
/// `,\n`, then the end of member `n`.
proof fn lemma_json_props_join(s: Section, indent: nat, n: nat)
    requires
        1 <= n <= s.props.len(),
    ensures
        json_props(s, n, indent) == join(json_member_texts(s, indent).take(n as int), ",\n"@)
            + member_end(s.props.len() + s.children.len(), n),
    decreases n,
{
    let m = json_member_texts(s, indent);
    let sep = ",\n"@;
    let total = s.props.len() + s.children.len();
    reveal_strlit(",\n");
    reveal_strlit(",");
    reveal_strlit("");
    reveal_strlit("\n");
    lemma_join_take(m, sep, n - 1);
    assert(json_comma(s, n - 1) + "\n"@ == member_end(total, n));
    if n == 1 {
        assert(json_props(s, 0, indent) =~= Seq::<char>::empty());
        assert(json_props(s, 1, indent) =~= m[0] + member_end(total, n));
    } else {
        lemma_json_props_join(s, indent, (n - 1) as nat);
        let prev = join(m.take(n - 1), sep);
        assert(member_end(total, (n - 1) as nat) =~= sep);
        assert(json_props(s, n, indent) =~= (prev + sep) + (m[n - 1] + member_end(total, n)));
    }
}

/// The property lines and the first `k` child members are the first
/// `props.len() + k` members joined by `,\n`, then the end of the last one.
proof fn lemma_json_kids_join(s: Section, indent: nat, k: nat)
    requires
        1 <= k <= s.children.len(),
    ensures
        json_props(s, s.props.len(), indent) + json_kids(s, k, indent) == join(
            json_member_texts(s, indent).take((s.props.len() + k) as int),
            ",\n"@,
        ) + member_end(s.props.len() + s.children.len(), s.props.len() + k),
    decreases k,
{
    let m = json_member_texts(s, indent);
    let sep = ",\n"@;
    let total = s.props.len() + s.children.len();
    let n = s.props.len() + k;
    reveal_strlit(",\n");
    reveal_strlit(",");
    reveal_strlit("");
    reveal_strlit("\n");
    lemma_join_take(m, sep, n - 1);
    let a = json_props(s, s.props.len(), indent);
    let b = json_kids(s, (k - 1) as nat, indent);
    assert(m[n - 1] == json_text(s.children[k - 1], indent + 1));
    let tail = m[n - 1] + member_end(total, n);
    assert(json_comma(s, n - 1) + "\n"@ == member_end(total, n));
    assert(json_kids(s, k, indent) =~= b + tail);
    assert(a + (b + tail) =~= (a + b) + tail);
    if k == 1 {
        assert(b =~= Seq::<char>::empty());
        if s.props.len() == 0 {
            assert(a =~= Seq::<char>::empty());
            assert(m.take(1)[0] == m[0]);
        } else {
            lemma_json_props_join(s, indent, s.props.len());
            assert(member_end(total, s.props.len()) =~= sep);
            assert(a + b =~= join(m.take(n - 1), sep) + sep);
        }
    } else {
        lemma_json_kids_join(s, indent, (k - 1) as nat);
        assert(member_end(total, (n - 1) as nat) =~= sep);
    }
}

impl ConfigNode {
    /// Appends this section, and all sections below it, as a JSON object
    /// member. The separator after the member is the caller's to write, so
    /// the text does not depend on `is_last`.
    pub fn to_json(&self, buffer: &mut String, indent: usize, is_last: bool)
        requires
            indent + depth(self@) <= usize::MAX,
        ensures
            final(buffer)@ == old(buffer)@ + json_text(self@, indent as nat),
        decreases self,
    {
        let ghost start = buffer@;
        let ghost s = self@;
        let mut pad_str = String::new();
        push_pad(&mut pad_str, indent);
        let margin = pad_str.as_str();

        buffer.append(margin);
        buffer.append("\"");
        buffer.append(self.name.as_str());
        buffer.append("\": {\n");
        let ghost head = buffer@;
        assert(head =~= start + json_head(s, indent as nat));

        let mut i: usize = 0;
        while i < self.props.len()
            invariant
                s == self@,
                margin@ == pad(indent as nat),
                i <= self.props.len(),
                buffer@ =~= head + json_props(s, i as nat, indent as nat),
            decreases self.props.len() - i,
        {
            let prop = &self.props[i];
            let comma = if i + 1 < self.props.len() || self.children.len() > 0 {
                ","
            } else {
                ""
            };
            buffer.append(margin);
            buffer.append("  \"");
            buffer.append(prop.0.as_str());
            buffer.append("\": \"");
            buffer.append(prop.1.as_str());
            buffer.append("\"");
            buffer.append(comma);
            buffer.append("\n");
            i = i + 1;
        }
        let ghost after_props = buffer@;

        let mut j: usize = 0;
        while j < self.children.len()
            invariant
                s == self@,
                indent + depth(s) <= usize::MAX,
                j <= self.children.len(),
                buffer@ =~= after_props + json_kids(s, j as nat, indent as nat),
            decreases self.children.len() - j,
        {
            let child = &self.children[j];
            let more = j + 1 < self.children.len();
            proof {
                lemma_child_depth(s, j as int);
            }
            child.to_json(buffer, indent + 1, !more);
            if more {
                buffer.append(",\n");
            } else {
                buffer.append("\n");
            }
            j = j + 1;
            proof {
                reveal_strlit(",\n");
                reveal_strlit(",");
                reveal_strlit("\n");
                reveal_strlit("");
            }
        }

        buffer.append(margin);
        buffer.append("}");
    }
}

} // verus!
