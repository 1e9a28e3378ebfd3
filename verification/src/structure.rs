//! Structural agreement of the fixture formats: rendered from the same
//! tree, every format spends the same number of lines on it.
use vstd::prelude::*;
use crate::exlex::{exlex_kids, exlex_props, exlex_text};
use crate::generate::{lopsided_forest, matrix_forest, numbered, scale_section, wide_tree};
use crate::ini::{ini_kids, ini_props, ini_text};
use crate::json::{json_kids, json_props, json_text};
use crate::matrix::{exlex_doc, ini_doc, json_doc, json_members, toml_doc, xml_doc, xml_members};
use crate::model::Section;
use crate::text::{decimal, dotted_path, lemma_decimal_digits, pad};
use crate::toml::{toml_kids, toml_props, toml_text};
use crate::xml::{xml_kids, xml_props, xml_text};

verus! {

/// How many times `c` occurs in `t`.
pub open spec fn occurrences(t: Seq<char>, c: char) -> nat
    decreases t.len(),
{
    if t.len() == 0 {
        0
    } else {
        occurrences(t.drop_last(), c) + if t.last() == c {
            1nat
        } else {
            0nat
        }
    }
}

/// Number of line breaks in `t`.
pub open spec fn line_breaks(t: Seq<char>) -> nat {
    occurrences(t, '\n')
}

/// Lines a section tree takes in every fixture format: an opening and a
/// closing line per section (header and blank line in the table formats)
/// plus one line per property.
pub open spec fn tree_lines(s: Section) -> nat
    decreases s, s.children.len() + 1,
{
    2 + s.props.len() + kids_lines(s, s.children.len())
}

/// Lines of the trees of the first `n` children of `s`.
pub open spec fn kids_lines(s: Section, n: nat) -> nat
    decreases s, n,
{
    if n == 0 || n > s.children.len() {
        0
    } else {
        kids_lines(s, (n - 1) as nat) + tree_lines(s.children[n - 1])
    }
}

/// No name, key or value in the tree holds a line break.
pub open spec fn single_line(s: Section) -> bool
    decreases s,
{
    &&& line_breaks(s.name) == 0
    &&& forall|i: int|
        0 <= i < s.props.len() ==> line_breaks(#[trigger] s.props[i].0) == 0 && line_breaks(
            s.props[i].1,
        ) == 0
    &&& forall|i: int| 0 <= i < s.children.len() ==> single_line(#[trigger] s.children[i])
}

/// Occurrences in a concatenation add up.
pub broadcast proof fn lemma_occurrences_concat(a: Seq<char>, b: Seq<char>, c: char)
    ensures
        #[trigger] occurrences(a + b, c) == occurrences(a, c) + occurrences(b, c),
    decreases b.len(),
{
    if b.len() == 0 {
        assert(a + b =~= a);
    } else {
        assert((a + b).drop_last() =~= a + b.drop_last());
        lemma_occurrences_concat(a, b.drop_last(), c);
    }
}

proof fn lemma_pad_breaks(n: nat)
    ensures
        line_breaks(pad(n)) == 0,
    decreases n,
{
    broadcast use lemma_occurrences_concat;

    if n > 0 {
        lemma_pad_breaks((n - 1) as nat);
        reveal_with_fuel(occurrences, 3);
    }
}

proof fn lemma_literal_breaks()
    ensures
        line_breaks("sect \""@) == 0,
        line_breaks("\" {\n"@) == 1,
        line_breaks("  \""@) == 0,
        line_breaks("\": \""@) == 0,
        line_breaks("\"\n"@) == 1,
        line_breaks("}\n"@) == 1,
        line_breaks("<"@) == 0,
        line_breaks(">\n"@) == 1,
        line_breaks("  <"@) == 0,
        line_breaks(">"@) == 0,
        line_breaks("</"@) == 0,
        line_breaks("["@) == 0,
        line_breaks("]\n"@) == 1,
        line_breaks(" = \""@) == 0,
        line_breaks("="@) == 0,
        line_breaks("\n"@) == 1,
        line_breaks("\""@) == 0,
        line_breaks("\": {\n"@) == 1,
        line_breaks(","@) == 0,
        line_breaks(""@) == 0,
        line_breaks("}"@) == 0,
        line_breaks(",\n"@) == 1,
        line_breaks("."@) == 0,
{
    reveal_strlit("sect \"");
    reveal_strlit("\" {\n");
    reveal_strlit("  \"");
    reveal_strlit("\": \"");
    reveal_strlit("\"\n");
    reveal_strlit("}\n");
    reveal_strlit("<");
    reveal_strlit(">\n");
    reveal_strlit("  <");
    reveal_strlit(">");
    reveal_strlit("</");
    reveal_strlit("[");
    reveal_strlit("]\n");
    reveal_strlit(" = \"");
    reveal_strlit("=");
    reveal_strlit("\n");
    reveal_strlit("\"");
    reveal_strlit("\": {\n");
    reveal_strlit(",");
    reveal_strlit("");
    reveal_strlit("}");
    reveal_strlit(",\n");
    reveal_strlit(".");
    reveal_with_fuel(occurrences, 8);
}

/// exlex spends `tree_lines` lines on a tree: a header and a closing line
/// per section and one line per property.
pub proof fn lemma_exlex_lines(s: Section, indent: nat)
    requires
        single_line(s),
    ensures
        line_breaks(exlex_text(s, indent)) == tree_lines(s),
    decreases s, s.children.len() + 1,
{
    broadcast use lemma_occurrences_concat;

    lemma_literal_breaks();
    lemma_pad_breaks(indent);
    lemma_exlex_props_lines(s, s.props.len(), indent);
    lemma_exlex_kids_lines(s, s.children.len(), indent);
}

proof fn lemma_exlex_props_lines(s: Section, n: nat, indent: nat)
    requires
        single_line(s),
        n <= s.props.len(),
    ensures
        line_breaks(exlex_props(s, n, indent)) == n,
    decreases n,
{
    broadcast use lemma_occurrences_concat;

    if n > 0 {
        lemma_literal_breaks();
        lemma_pad_breaks(indent);
        lemma_exlex_props_lines(s, (n - 1) as nat, indent);
        assert(line_breaks(s.props[n - 1].0) == 0);
    } else {
        reveal_with_fuel(occurrences, 1);
    }
}

proof fn lemma_exlex_kids_lines(s: Section, n: nat, indent: nat)
    requires
        single_line(s),
        n <= s.children.len(),
    ensures
        line_breaks(exlex_kids(s, n, indent)) == kids_lines(s, n),
    decreases s, n,
{
    broadcast use lemma_occurrences_concat;

    if n > 0 {
        lemma_exlex_kids_lines(s, (n - 1) as nat, indent);
        assert(single_line(s.children[n - 1]));
        lemma_exlex_lines(s.children[n - 1], indent + 1);
    }
}


/// XML spends `tree_lines` lines on a tree: an opening and a closing tag line
/// per section and one line per property.
pub proof fn lemma_xml_lines(s: Section, indent: nat)
    requires
        single_line(s),
    ensures
        line_breaks(xml_text(s, indent)) == tree_lines(s),
    decreases s, s.children.len() + 1,
{
    broadcast use lemma_occurrences_concat;

    lemma_literal_breaks();
    lemma_pad_breaks(indent);
    lemma_xml_props_lines(s, s.props.len(), indent);
    lemma_xml_kids_lines(s, s.children.len(), indent);
}

proof fn lemma_xml_props_lines(s: Section, n: nat, indent: nat)
    requires
        single_line(s),
        n <= s.props.len(),
    ensures
        line_breaks(xml_props(s, n, indent)) == n,
    decreases n,
{
    broadcast use lemma_occurrences_concat;

    if n > 0 {
        lemma_literal_breaks();
        lemma_pad_breaks(indent);
        lemma_xml_props_lines(s, (n - 1) as nat, indent);
        assert(line_breaks(s.props[n - 1].0) == 0);
    } else {
        reveal_with_fuel(occurrences, 1);
    }
}

proof fn lemma_xml_kids_lines(s: Section, n: nat, indent: nat)
    requires
        single_line(s),
        n <= s.children.len(),
    ensures
        line_breaks(xml_kids(s, n, indent)) == kids_lines(s, n),
    decreases s, n,
{
    broadcast use lemma_occurrences_concat;

    if n > 0 {
        lemma_literal_breaks();
        lemma_xml_kids_lines(s, (n - 1) as nat, indent);
        assert(single_line(s.children[n - 1]));
        lemma_xml_lines(s.children[n - 1], indent + 1);
    }
}

/// JSON spends one line less than `tree_lines` on a tree: the closing brace of
/// a member ends without a line break, which the enclosing object supplies.
pub proof fn lemma_json_lines(s: Section, indent: nat)
    requires
        single_line(s),
    ensures
        line_breaks(json_text(s, indent)) + 1 == tree_lines(s),
    decreases s, s.children.len() + 1,
{
    broadcast use lemma_occurrences_concat;

    lemma_literal_breaks();
    lemma_pad_breaks(indent);
    lemma_json_props_lines(s, s.props.len(), indent);
    lemma_json_kids_lines(s, s.children.len(), indent);
}

proof fn lemma_json_props_lines(s: Section, n: nat, indent: nat)
    requires
        single_line(s),
        n <= s.props.len(),
    ensures
        line_breaks(json_props(s, n, indent)) == n,
    decreases n,
{
    broadcast use lemma_occurrences_concat;

    if n > 0 {
        lemma_literal_breaks();
        lemma_pad_breaks(indent);
        lemma_json_props_lines(s, (n - 1) as nat, indent);
        assert(line_breaks(s.props[n - 1].0) == 0);
    } else {
        reveal_with_fuel(occurrences, 1);
    }
}

proof fn lemma_json_kids_lines(s: Section, n: nat, indent: nat)
    requires
        single_line(s),
        n <= s.children.len(),
    ensures
        line_breaks(json_kids(s, n, indent)) == kids_lines(s, n),
    decreases s, n,
{
    broadcast use lemma_occurrences_concat;

    if n > 0 {
        lemma_literal_breaks();
        lemma_json_kids_lines(s, (n - 1) as nat, indent);
        assert(single_line(s.children[n - 1]));
        lemma_json_lines(s.children[n - 1], indent + 1);
    }
}

/// TOML spends `tree_lines` lines on a tree: a header and a blank line per
/// section and one line per property.
pub proof fn lemma_toml_lines(s: Section, parent: Seq<char>)
    requires
        single_line(s),
        line_breaks(parent) == 0,
    ensures
        line_breaks(toml_text(s, parent)) == tree_lines(s),
    decreases s, s.children.len() + 1,
{
    broadcast use lemma_occurrences_concat;

    lemma_literal_breaks();
    lemma_toml_props_lines(s, s.props.len());
    lemma_toml_kids_lines(s, s.children.len(), dotted_path(parent, s.name));
}

proof fn lemma_toml_props_lines(s: Section, n: nat)
    requires
        single_line(s),
        n <= s.props.len(),
    ensures
        line_breaks(toml_props(s, n)) == n,
    decreases n,
{
    broadcast use lemma_occurrences_concat;

    if n > 0 {
        lemma_literal_breaks();
        lemma_toml_props_lines(s, (n - 1) as nat);
        assert(line_breaks(s.props[n - 1].0) == 0);
    } else {
        reveal_with_fuel(occurrences, 1);
    }
}

proof fn lemma_toml_kids_lines(s: Section, n: nat, path: Seq<char>)
    requires
        single_line(s),
        n <= s.children.len(),
        line_breaks(path) == 0,
    ensures
        line_breaks(toml_kids(s, n, path)) == kids_lines(s, n),
    decreases s, n,
{
    broadcast use lemma_occurrences_concat;

    if n > 0 {
        lemma_toml_kids_lines(s, (n - 1) as nat, path);
        assert(single_line(s.children[n - 1]));
        lemma_toml_lines(s.children[n - 1], path);
    }
}

/// INI spends `tree_lines` lines on a tree: a header and a blank line per
/// section and one line per property.
pub proof fn lemma_ini_lines(s: Section, parent: Seq<char>)
    requires
        single_line(s),
        line_breaks(parent) == 0,
    ensures
        line_breaks(ini_text(s, parent)) == tree_lines(s),
    decreases s, s.children.len() + 1,
{
    broadcast use lemma_occurrences_concat;

    lemma_literal_breaks();
    lemma_ini_props_lines(s, s.props.len());
    lemma_ini_kids_lines(s, s.children.len(), dotted_path(parent, s.name));
}

proof fn lemma_ini_props_lines(s: Section, n: nat)
    requires
        single_line(s),
        n <= s.props.len(),
    ensures
        line_breaks(ini_props(s, n)) == n,
    decreases n,
{
    broadcast use lemma_occurrences_concat;

    if n > 0 {
        lemma_literal_breaks();
        lemma_ini_props_lines(s, (n - 1) as nat);
        assert(line_breaks(s.props[n - 1].0) == 0);
    } else {
        reveal_with_fuel(occurrences, 1);
    }
}

proof fn lemma_ini_kids_lines(s: Section, n: nat, path: Seq<char>)
    requires
        single_line(s),
        n <= s.children.len(),
        line_breaks(path) == 0,
    ensures
        line_breaks(ini_kids(s, n, path)) == kids_lines(s, n),
    decreases s, n,
{
    broadcast use lemma_occurrences_concat;

    if n > 0 {
        lemma_ini_kids_lines(s, (n - 1) as nat, path);
        assert(single_line(s.children[n - 1]));
        lemma_ini_lines(s.children[n - 1], path);
    }
}

/// Lines of the trees of the first `n` roots.
pub open spec fn forest_lines(roots: Seq<Section>, n: nat) -> nat
    decreases n,
{
    if n == 0 || n > roots.len() {
        0
    } else {
        forest_lines(roots, (n - 1) as nat) + tree_lines(roots[n - 1])
    }
}

/// The five files of a fixture matrix describe the same forest line for
/// line: TOML and INI take `forest_lines` lines, JSON and XML two more for
/// the enclosing object or element, and exlex one blank line per root more.
pub proof fn lemma_matrix_lines(roots: Seq<Section>)
    requires
        forall|i: int| 0 <= i < roots.len() ==> single_line(#[trigger] roots[i]),
    ensures
        line_breaks(exlex_doc(roots, roots.len())) == forest_lines(roots, roots.len())
            + roots.len(),
        line_breaks(json_doc(roots)) == forest_lines(roots, roots.len()) + 2,
        line_breaks(toml_doc(roots, roots.len())) == forest_lines(roots, roots.len()),
        line_breaks(ini_doc(roots, roots.len())) == forest_lines(roots, roots.len()),
        line_breaks(xml_doc(roots)) == forest_lines(roots, roots.len()) + 2,
{
    broadcast use lemma_occurrences_concat;

    lemma_literal_breaks();
    lemma_wrapper_breaks();
    lemma_docs_lines(roots, roots.len());
}

proof fn lemma_wrapper_breaks()
    ensures
        line_breaks("{\n"@) == 1,
        line_breaks("<config>\n"@) == 1,
        line_breaks("</config>\n"@) == 1,
{
    reveal_strlit("{\n");
    reveal_strlit("<config>\n");
    reveal_strlit("</config>\n");
    reveal_with_fuel(occurrences, 11);
}

proof fn lemma_docs_lines(roots: Seq<Section>, n: nat)
    requires
        forall|i: int| 0 <= i < roots.len() ==> single_line(#[trigger] roots[i]),
        n <= roots.len(),
    ensures
        line_breaks(exlex_doc(roots, n)) == forest_lines(roots, n) + n,
        line_breaks(json_members(roots, n)) == forest_lines(roots, n),
        line_breaks(toml_doc(roots, n)) == forest_lines(roots, n),
        line_breaks(ini_doc(roots, n)) == forest_lines(roots, n),
        line_breaks(xml_members(roots, n)) == forest_lines(roots, n),
    decreases n,
{
    broadcast use lemma_occurrences_concat;

    if n > 0 {
        lemma_literal_breaks();
        lemma_docs_lines(roots, (n - 1) as nat);
        let r = roots[n - 1];
        lemma_exlex_lines(r, 0);
        lemma_json_lines(r, 1);
        lemma_toml_lines(r, Seq::empty());
        lemma_ini_lines(r, Seq::empty());
        lemma_xml_lines(r, 1);
    } else {
        reveal_with_fuel(occurrences, 1);
    }
}

/// A character that does not occur in `t` is counted zero times.
pub proof fn lemma_occurrences_absent(t: Seq<char>, c: char)
    requires
        forall|i: int| 0 <= i < t.len() ==> t[i] != c,
    ensures
        occurrences(t, c) == 0,
    decreases t.len(),
{
    if t.len() > 0 {
        lemma_occurrences_absent(t.drop_last(), c);
    }
}

proof fn lemma_numbered_breaks(text: Seq<char>, n: nat)
    ensures
        line_breaks(numbered(text, n)) == line_breaks(text),
{
    broadcast use lemma_occurrences_concat;

    lemma_decimal_digits(n);
    lemma_occurrences_absent(decimal(n), '\n');
}

proof fn lemma_name_literal_breaks()
    ensures
        line_breaks("_root"@) == 0,
        line_breaks("root_key"@) == 0,
        line_breaks("root_val"@) == 0,
        line_breaks("_child_"@) == 0,
        line_breaks("key_"@) == 0,
        line_breaks("_"@) == 0,
        line_breaks("val_"@) == 0,
        line_breaks("_heavy"@) == 0,
        line_breaks("heavy_key_"@) == 0,
        line_breaks("heavy_value"@) == 0,
        line_breaks("_empty_"@) == 0,
        line_breaks("_L"@) == 0,
        line_breaks("_N"@) == 0,
        line_breaks("value_"@) == 0,
        line_breaks("xxxxxxxxxx"@) == 0,
        line_breaks("scale_"@) == 0,
{
    reveal_strlit("_root");
    reveal_strlit("root_key");
    reveal_strlit("root_val");
    reveal_strlit("_child_");
    reveal_strlit("key_");
    reveal_strlit("_");
    reveal_strlit("val_");
    reveal_strlit("_heavy");
    reveal_strlit("heavy_key_");
    reveal_strlit("heavy_value");
    reveal_strlit("_empty_");
    reveal_strlit("_L");
    reveal_strlit("_N");
    reveal_strlit("value_");
    reveal_strlit("xxxxxxxxxx");
    reveal_strlit("scale_");
    reveal_with_fuel(occurrences, 12);
}

/// A wide tree with a single-line prefix has no line break in any name,
/// key or value, so every format renders it in `tree_lines` lines.
pub proof fn lemma_wide_tree_single_line(children: nat, count: nat, prefix: Seq<char>)
    requires
        line_breaks(prefix) == 0,
    ensures
        single_line(wide_tree(children, count, prefix)),
{
    broadcast use lemma_occurrences_concat;

    lemma_name_literal_breaks();
    let t = wide_tree(children, count, prefix);
    assert(line_breaks(t.props[0].0) == 0 && line_breaks(t.props[0].1) == 0);
    assert forall|i: int| 0 <= i < t.children.len() implies single_line(#[trigger] t.children[i]) by {
        let c = t.children[i];
        lemma_numbered_breaks(prefix + "_child_"@, i as nat);
        assert forall|p: int| 0 <= p < c.props.len() implies line_breaks(#[trigger] c.props[p].0)
            == 0 && line_breaks(c.props[p].1) == 0 by {
            lemma_numbered_breaks("key_"@ + c.name + "_"@, p as nat);
            lemma_numbered_breaks("val_"@, p as nat);
        }
    }
}

/// The scaling section has no line break in any name, key or value.
pub proof fn lemma_scale_section_single_line(count: nat)
    ensures
        single_line(scale_section(count)),
{
    broadcast use lemma_occurrences_concat;

    lemma_name_literal_breaks();
    let s = scale_section(count);
    lemma_numbered_breaks("scale_"@, count);
    assert forall|p: int| 0 <= p < s.props.len() implies line_breaks(#[trigger] s.props[p].0) == 0
        && line_breaks(s.props[p].1) == 0 by {
        lemma_numbered_breaks("key_"@, p as nat);
        lemma_numbered_breaks("val_"@, p as nat);
    }
}

/// A lopsided forest with a single-line prefix has no line break in any
/// name, key or value.
pub proof fn lemma_lopsided_forest_single_line(heavy: nat, empties: nat, prefix: Seq<char>)
    requires
        line_breaks(prefix) == 0,
    ensures
        forall|i: int|
            0 <= i < lopsided_forest(heavy, empties, prefix).len() ==> single_line(
                #[trigger] lopsided_forest(heavy, empties, prefix)[i],
            ),
{
    broadcast use lemma_occurrences_concat;

    lemma_name_literal_breaks();
    let f = lopsided_forest(heavy, empties, prefix);
    assert forall|i: int| 0 <= i < f.len() implies single_line(#[trigger] f[i]) by {
        if i == 0 {
            let h = f[0];
            assert forall|p: int| 0 <= p < h.props.len() implies line_breaks(
                #[trigger] h.props[p].0,
            ) == 0 && line_breaks(h.props[p].1) == 0 by {
                lemma_numbered_breaks("heavy_key_"@, p as nat);
            }
        } else {
            lemma_numbered_breaks(prefix + "_empty_"@, (i - 1) as nat);
        }
    }
}

/// A matrix forest with a single-line prefix has no line break in any name,
/// key or value, at any level.
pub proof fn lemma_matrix_forest_single_line(
    levels: nat,
    breadth: nat,
    count: nat,
    prefix: Seq<char>,
    level: nat,
)
    requires
        line_breaks(prefix) == 0,
    ensures
        forall|i: int|
            0 <= i < matrix_forest(levels, breadth, count, prefix, level).len() ==> single_line(
                #[trigger] matrix_forest(levels, breadth, count, prefix, level)[i],
            ),
    decreases levels,
{
    broadcast use lemma_occurrences_concat;

    let f = matrix_forest(levels, breadth, count, prefix, level);
    if levels > 0 {
        lemma_name_literal_breaks();
        lemma_matrix_forest_single_line((levels - 1) as nat, breadth, count, prefix, level + 1);
        assert forall|i: int| 0 <= i < f.len() implies single_line(#[trigger] f[i]) by {
            let s = f[i];
            assert(s.children == matrix_forest((levels - 1) as nat, breadth, count, prefix, level + 1));
            lemma_numbered_breaks(prefix + "_L"@, level);
            lemma_numbered_breaks(numbered(prefix + "_L"@, level) + "_N"@, i as nat);
            assert forall|p: int| 0 <= p < s.props.len() implies line_breaks(
                #[trigger] s.props[p].0,
            ) == 0 && line_breaks(s.props[p].1) == 0 by {
                lemma_numbered_breaks("key_"@ + s.name + "_"@, p as nat);
                lemma_numbered_breaks("value_"@ + s.name + "_"@, p as nat);
            }
        }
    }
}

} // verus!
