//! A fixture matrix: the same forest of root sections rendered in all five
//! formats, and the naming of the scaling fixtures.
use vstd::prelude::*;
use crate::exlex::{exlex_steps, exlex_text, lemma_exlex_walk};
use crate::ini::{ini_blocks, ini_text, lemma_ini_blocks_concat, lemma_ini_root_blocks};
use crate::json::json_text;
use crate::model::{
    depth, forest_preorder, forest_walk, named, nodes_view, preorder, walk, ConfigNode, Section,
};
use crate::text::{
    decimal, join, lemma_decimal_injective, lemma_decimal_leading, lemma_decimal_len,
    lemma_join_take, push_decimal,
};
use crate::toml::{lemma_toml_root_tables, lemma_toml_tables_concat, toml_tables, toml_text};
use crate::xml::{lemma_xml_steps_concat, lemma_xml_walk, xml_steps, xml_text};

verus! {

/// The five renderings of one forest of root sections.
pub struct FixtureTexts {
    pub exlex: String,
    pub json: String,
    pub toml: String,
    pub ini: String,
    pub xml: String,
}

/// exlex blocks of the first `n` roots, each followed by a blank line.
pub open spec fn exlex_doc(roots: Seq<Section>, n: nat) -> Seq<char>
    decreases n,
{
    if n == 0 || n > roots.len() {
        Seq::empty()
    } else {
        exlex_doc(roots, (n - 1) as nat) + exlex_text(roots[n - 1], 0) + "\n"@
    }
}

/// JSON members of the first `n` roots at indentation 1, separated by
/// `,\n` and ended by `\n` after the last root.
pub open spec fn json_members(roots: Seq<Section>, n: nat) -> Seq<char>
    decreases n,
{
    if n == 0 || n > roots.len() {
        Seq::empty()
    } else {
        json_members(roots, (n - 1) as nat) + json_text(roots[n - 1], 1) + if n < roots.len() {
            ",\n"@
        } else {
            "\n"@
        }
    }
}

/// The JSON document: one object holding every root as a member.
pub open spec fn json_doc(roots: Seq<Section>) -> Seq<char> {
    "{\n"@ + json_members(roots, roots.len()) + "}\n"@
}

/// The root members of the JSON document, in order.
pub open spec fn json_root_texts(roots: Seq<Section>) -> Seq<Seq<char>> {
    Seq::new(roots.len(), |i: int| json_text(roots[i], 1))
}

/// The JSON document is one object whose members are the roots, in order,
/// separated by `,` and a line break: a comma follows every root but the last.
pub proof fn lemma_json_document(roots: Seq<Section>)
    ensures
        json_doc(roots) == "{\n"@ + (if roots.len() == 0 {
            Seq::<char>::empty()
        } else {
            join(json_root_texts(roots), ",\n"@) + "\n"@
        }) + "}\n"@,
{
    let m = json_root_texts(roots);
    if roots.len() == 0 {
        assert(json_members(roots, 0) =~= Seq::<char>::empty());
    } else {
        lemma_json_root_members(roots, roots.len());
        assert(m.take(roots.len() as int) =~= m);
    }
}

proof fn lemma_json_root_members(roots: Seq<Section>, n: nat)
    requires
        1 <= n <= roots.len(),
    ensures
        json_members(roots, n) == join(json_root_texts(roots).take(n as int), ",\n"@) + if n
            < roots.len() {
            ",\n"@
        } else {
            "\n"@
        },
    decreases n,
{
    let m = json_root_texts(roots);
    let sep = ",\n"@;
    lemma_join_take(m, sep, n - 1);
    assert(m[n - 1] == json_text(roots[n - 1], 1));
    if n == 1 {
        assert(json_members(roots, 0) =~= Seq::<char>::empty());
        assert(json_members(roots, 1) =~= m[0] + if n < roots.len() {
            sep
        } else {
            "\n"@
        });
    } else {
        lemma_json_root_members(roots, (n - 1) as nat);
        let prev = join(m.take(n - 1), sep);
        let tail = if n < roots.len() {
            sep
        } else {
            "\n"@
        };
        assert(json_members(roots, n) =~= (prev + sep) + (m[n - 1] + tail));
    }
}

/// TOML tables of the first `n` roots and of everything below them.
pub open spec fn toml_doc(roots: Seq<Section>, n: nat) -> Seq<char>
    decreases n,
{
    if n == 0 || n > roots.len() {
        Seq::empty()
    } else {
        toml_doc(roots, (n - 1) as nat) + toml_text(roots[n - 1], Seq::empty())
    }
}

/// INI sections of the first `n` roots and of everything below them.
pub open spec fn ini_doc(roots: Seq<Section>, n: nat) -> Seq<char>
    decreases n,
{
    if n == 0 || n > roots.len() {
        Seq::empty()
    } else {
        ini_doc(roots, (n - 1) as nat) + ini_text(roots[n - 1], Seq::empty())
    }
}

/// XML elements of the first `n` roots at indentation 1.
pub open spec fn xml_members(roots: Seq<Section>, n: nat) -> Seq<char>
    decreases n,
{
    if n == 0 || n > roots.len() {
        Seq::empty()
    } else {
        xml_members(roots, (n - 1) as nat) + xml_text(roots[n - 1], 1)
    }
}

/// The XML document: every root inside one `<config>` element.
pub open spec fn xml_doc(roots: Seq<Section>) -> Seq<char> {
    "<config>\n"@ + xml_members(roots, roots.len()) + "</config>\n"@
}

/// The exlex document is the depth-first walk of each root, written from
/// indentation 0, each root's blocks followed by one blank line.
pub proof fn lemma_exlex_document(roots: Seq<Section>, n: nat)
    requires
        n <= roots.len(),
    ensures
        n > 0 ==> exlex_doc(roots, n) == exlex_doc(roots, (n - 1) as nat) + exlex_steps(
            walk(roots[n - 1], 0),
            0,
        ) + "\n"@,
        n == 0 ==> exlex_doc(roots, n) == Seq::<char>::empty(),
{
    if n > 0 {
        lemma_exlex_walk(roots[n - 1], 0);
    }
}

/// The XML document is the depth-first walk of all roots in order, written
/// from indentation 1 inside one `<config>` element.
pub proof fn lemma_xml_document(roots: Seq<Section>)
    ensures
        xml_doc(roots) == "<config>\n"@ + xml_steps(forest_walk(roots, roots.len()), 1)
            + "</config>\n"@,
{
    lemma_xml_forest(roots, roots.len());
}

proof fn lemma_xml_forest(roots: Seq<Section>, n: nat)
    requires
        n <= roots.len(),
    ensures
        xml_members(roots, n) == xml_steps(forest_walk(roots, n), 1),
    decreases n,
{
    if n == 0 {
        assert(xml_steps(Seq::empty(), 1) =~= Seq::<char>::empty());
    } else {
        lemma_xml_forest(roots, (n - 1) as nat);
        lemma_xml_walk(roots[n - 1], 1);
        lemma_xml_steps_concat(forest_walk(roots, (n - 1) as nat), walk(roots[n - 1], 0), 1);
    }
}

/// The TOML document of roots whose sections all have names holds one
/// table per section of every root's tree, in document order, each headed
/// by the dotted join of the names from its root down to it.
pub proof fn lemma_toml_document(roots: Seq<Section>, n: nat)
    requires
        n <= roots.len(),
        forall|i: int| 0 <= i < roots.len() ==> named(#[trigger] roots[i]),
    ensures
        toml_doc(roots, n) == toml_tables(forest_preorder(roots, n)),
    decreases n,
{
    if n == 0 {
        assert(toml_tables(Seq::empty()) =~= Seq::<char>::empty());
    } else {
        lemma_toml_document(roots, (n - 1) as nat);
        lemma_toml_root_tables(roots[n - 1]);
        lemma_toml_tables_concat(
            forest_preorder(roots, (n - 1) as nat),
            preorder(roots[n - 1], Seq::empty()),
        );
    }
}

/// The INI document of roots whose sections all have names holds one
/// block per section of every root's tree, in document order, each headed
/// by the dotted join of the names from its root down to it.
pub proof fn lemma_ini_document(roots: Seq<Section>, n: nat)
    requires
        n <= roots.len(),
        forall|i: int| 0 <= i < roots.len() ==> named(#[trigger] roots[i]),
    ensures
        ini_doc(roots, n) == ini_blocks(forest_preorder(roots, n)),
    decreases n,
{
    if n == 0 {
        assert(ini_blocks(Seq::empty()) =~= Seq::<char>::empty());
    } else {
        lemma_ini_document(roots, (n - 1) as nat);
        lemma_ini_root_blocks(roots[n - 1]);
        lemma_ini_blocks_concat(
            forest_preorder(roots, (n - 1) as nat),
            preorder(roots[n - 1], Seq::empty()),
        );
    }
}

/// `digits` preceded by as many `0` as it takes to reach `width` characters.
pub open spec fn zero_padded(digits: Seq<char>, width: nat) -> Seq<char> {
    if digits.len() < width {
        Seq::new((width - digits.len()) as nat, |i: int| '0') + digits
    } else {
        digits
    }
}

/// Name of the scaling fixture with `count` properties: `scale_` and the
/// count written with at least three digits.
pub open spec fn scale_fixture(count: nat) -> Seq<char> {
    "scale_"@ + zero_padded(decimal(count), 3)
}

/// Scaling fixture names tell counts apart, and below 1000 every name is
/// `scale_` and exactly three digits long.
pub proof fn lemma_scale_fixture_names(a: nat, b: nat)
    ensures
        a < 1000 ==> scale_fixture(a).len() == 9,
        scale_fixture(a) == scale_fixture(b) ==> a == b,
{
    lemma_decimal_len(a);
    lemma_decimal_len(b);
    if a < 1000 {
        lemma_decimal_len_below_1000(a);
    }
    reveal_strlit("scale_");
    if scale_fixture(a) == scale_fixture(b) {
        let za = zero_padded(decimal(a), 3);
        let zb = zero_padded(decimal(b), 3);
        assert(scale_fixture(a).skip(6) =~= za);
        assert(scale_fixture(b).skip(6) =~= zb);
        let la = decimal(a).len();
        let lb = decimal(b).len();
        if la == lb {
            assert(za.skip(za.len() - la) =~= decimal(a));
            assert(zb.skip(zb.len() - lb) =~= decimal(b));
            lemma_decimal_injective(a, b);
        } else if la < lb {
            lemma_decimal_leading(b);
            let p = 3 - lb;
            assert(zb[p] == decimal(b)[0]);
            assert(za[p] == '0');
        } else {
            lemma_decimal_leading(a);
            let p = 3 - la;
            assert(za[p] == decimal(a)[0]);
            assert(zb[p] == '0');
        }
    }
}

proof fn lemma_decimal_len_below_1000(n: nat)
    requires
        n < 1000,
    ensures
        decimal(n).len() <= 3,
{
    lemma_decimal_len(n);
    if n >= 100 {
        lemma_decimal_len(n / 10);
        assert(decimal(n).len() == decimal(n / 10).len() + 1);
    }
}

/// Renders `roots` in every fixture format: exlex blocks separated by blank
/// lines, one JSON object, TOML tables, INI sections and one XML document.
pub fn render_matrix(roots: &[ConfigNode]) -> (texts: FixtureTexts)
    requires
        forall|i: int| 0 <= i < roots@.len() ==> depth(#[trigger] roots@[i]@) < usize::MAX,
    ensures
        texts.exlex@ == exlex_doc(nodes_view(roots@), roots@.len()),
        texts.json@ == json_doc(nodes_view(roots@)),
        texts.toml@ == toml_doc(nodes_view(roots@), roots@.len()),
        texts.ini@ == ini_doc(nodes_view(roots@), roots@.len()),
        texts.xml@ == xml_doc(nodes_view(roots@)),
{
    let ghost views = nodes_view(roots@);
    let mut exlex_buf = String::new();
    let mut json_buf = "{\n".to_owned();
    let mut toml_buf = String::new();
    let mut ini_buf = String::new();

    let mut i: usize = 0;
    while i < roots.len()
        invariant
            views == nodes_view(roots@),
            forall|k: int| 0 <= k < roots@.len() ==> depth(#[trigger] roots@[k]@) < usize::MAX,
            i <= roots@.len(),
            exlex_buf@ == exlex_doc(views, i as nat),
            json_buf@ == "{\n"@ + json_members(views, i as nat),
            toml_buf@ == toml_doc(views, i as nat),
            ini_buf@ == ini_doc(views, i as nat),
        decreases roots@.len() - i,
    {
        let root = &roots[i];
        assert(views[i as int] == root@);
        root.to_exlex(&mut exlex_buf, 0);
        exlex_buf.append("\n");
        let is_last = i + 1 == roots.len();
        root.to_json(&mut json_buf, 1, is_last);
        if !is_last {
            json_buf.append(",\n");
        } else {
            json_buf.append("\n");
        }
        root.to_toml(&mut toml_buf, "");
        root.to_ini(&mut ini_buf, "");
        i = i + 1;
        proof {
            reveal_strlit("");
            assert(exlex_buf@ =~= exlex_doc(views, i as nat));
            assert(json_buf@ =~= "{\n"@ + json_members(views, i as nat));
            assert(toml_buf@ =~= toml_doc(views, i as nat));
            assert(ini_buf@ =~= ini_doc(views, i as nat));
        }
    }
    json_buf.append("}\n");

    let mut xml_buf = "<config>\n".to_owned();
    let mut j: usize = 0;
    while j < roots.len()
        invariant
            views == nodes_view(roots@),
            forall|k: int| 0 <= k < roots@.len() ==> depth(#[trigger] roots@[k]@) < usize::MAX,
            j <= roots@.len(),
            xml_buf@ == "<config>\n"@ + xml_members(views, j as nat),
        decreases roots@.len() - j,
    {
        let root = &roots[j];
        assert(views[j as int] == root@);
        root.to_xml(&mut xml_buf, 1);
        j = j + 1;
        assert(xml_buf@ =~= "<config>\n"@ + xml_members(views, j as nat));
    }
    xml_buf.append("</config>\n");
    FixtureTexts { exlex: exlex_buf, json: json_buf, toml: toml_buf, ini: ini_buf, xml: xml_buf }
}

/// The file stem of the scaling fixture with `count` properties, such as
/// `scale_005` for 5.
pub fn scale_fixture_name(count: usize) -> (name: String)
    ensures
        name@ == scale_fixture(count as nat),
{
    let mut name = "scale_".to_owned();
    proof {
        lemma_decimal_len(count as nat);
        reveal_strlit("00");
        reveal_strlit("0");
    }
    if count < 10 {
        name.append("00");
    } else if count < 100 {
        name.append("0");
    }
    push_decimal(&mut name, count);
    assert(name@ =~= scale_fixture(count as nat));
    name
}

} // verus!
