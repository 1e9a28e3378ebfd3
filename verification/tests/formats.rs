use lib::matrix::{render_matrix, scale_fixture_name};
use lib::model::ConfigNode;

fn leaf(name: &str, props: &[(&str, &str)]) -> ConfigNode {
    ConfigNode {
        name: name.to_string(),
        props: props.iter().map(|(k, v)| (k.to_string(), v.to_string())).collect(),
        children: Vec::new(),
    }
}

/// `a` with one property and two children `b` (two properties) and `c`.
fn sample() -> ConfigNode {
    let mut a = leaf("a", &[("k", "v")]);
    a.children.push(leaf("b", &[("x", "1"), ("y", "2")]));
    a.children.push(leaf("c", &[]));
    a
}

fn lines(text: &str) -> usize {
    text.matches('\n').count()
}

#[test]
fn exlex_nests_blocks() {
    let mut out = String::new();
    sample().to_exlex(&mut out, 0);
    let expected = "sect \"a\" {\n  \"k\": \"v\"\n  sect \"b\" {\n    \"x\": \"1\"\n    \"y\": \"2\"\n  }\n  sect \"c\" {\n  }\n}\n";
    assert_eq!(out, expected);
}

#[test]
fn exlex_appends_to_existing_text() {
    let mut out = String::from("# head\n");
    leaf("z", &[]).to_exlex(&mut out, 2);
    assert_eq!(out, "# head\n    sect \"z\" {\n    }\n");
}

#[test]
fn json_places_commas_between_members() {
    let mut out = String::new();
    sample().to_json(&mut out, 1, true);
    let expected = "  \"a\": {\n    \"k\": \"v\",\n    \"b\": {\n      \"x\": \"1\",\n      \"y\": \"2\"\n    },\n    \"c\": {\n    }\n  }";
    assert_eq!(out, expected);
}

#[test]
fn json_text_ignores_last_flag() {
    let mut first = String::new();
    let mut second = String::new();
    sample().to_json(&mut first, 0, true);
    sample().to_json(&mut second, 0, false);
    assert_eq!(first, second);
}

#[test]
fn json_last_property_has_no_comma_without_children() {
    let mut out = String::new();
    leaf("p", &[("a", "1"), ("b", "2")]).to_json(&mut out, 0, false);
    assert_eq!(out, "\"p\": {\n  \"a\": \"1\",\n  \"b\": \"2\"\n}");
}

#[test]
fn toml_uses_dotted_table_paths() {
    let mut out = String::new();
    sample().to_toml(&mut out, "");
    let expected = "[a]\nk = \"v\"\n\n[a.b]\nx = \"1\"\ny = \"2\"\n\n[a.c]\n\n";
    assert_eq!(out, expected);
}

#[test]
fn toml_below_a_parent_path() {
    let mut out = String::new();
    leaf("leaf", &[("q", "r")]).to_toml(&mut out, "top.mid");
    assert_eq!(out, "[top.mid.leaf]\nq = \"r\"\n\n");
}

#[test]
fn ini_uses_dotted_section_names() {
    let mut out = String::new();
    sample().to_ini(&mut out, "");
    let expected = "[a]\nk=v\n\n[a.b]\nx=1\ny=2\n\n[a.c]\n\n";
    assert_eq!(out, expected);
}

#[test]
fn ini_below_a_parent_path() {
    let mut out = String::new();
    leaf("leaf", &[("q", "r")]).to_ini(&mut out, "top");
    assert_eq!(out, "[top.leaf]\nq=r\n\n");
}

#[test]
fn xml_nests_elements() {
    let mut out = String::new();
    sample().to_xml(&mut out, 1);
    let expected = "  <a>\n    <k>v</k>\n    <b>\n      <x>1</x>\n      <y>2</y>\n    </b>\n    <c>\n    </c>\n  </a>\n";
    assert_eq!(out, expected);
}

#[test]
fn matrix_renders_every_format() {
    let roots = vec![sample(), leaf("d", &[])];
    let texts = render_matrix(&roots);

    let mut exlex = String::new();
    roots[0].to_exlex(&mut exlex, 0);
    exlex.push_str("\nsect \"d\" {\n}\n\n");
    assert_eq!(texts.exlex, exlex);

    let mut json = String::from("{\n");
    roots[0].to_json(&mut json, 1, false);
    json.push_str(",\n  \"d\": {\n  }\n}\n");
    assert_eq!(texts.json, json);

    let mut toml = String::new();
    roots[0].to_toml(&mut toml, "");
    toml.push_str("[d]\n\n");
    assert_eq!(texts.toml, toml);

    let mut ini = String::new();
    roots[0].to_ini(&mut ini, "");
    ini.push_str("[d]\n\n");
    assert_eq!(texts.ini, ini);

    let mut xml = String::from("<config>\n");
    roots[0].to_xml(&mut xml, 1);
    xml.push_str("  <d>\n  </d>\n</config>\n");
    assert_eq!(texts.xml, xml);
}

#[test]
fn matrix_of_no_roots() {
    let texts = render_matrix(&[]);
    assert_eq!(texts.exlex, "");
    assert_eq!(texts.json, "{\n}\n");
    assert_eq!(texts.toml, "");
    assert_eq!(texts.ini, "");
    assert_eq!(texts.xml, "<config>\n</config>\n");
}

#[test]
fn formats_spend_equal_lines_on_a_tree() {
    // 2 lines per section, 1 per property.
    let tree = sample();
    let expected = 2 * 3 + 3;
    let mut exlex = String::new();
    tree.to_exlex(&mut exlex, 0);
    let mut json = String::new();
    tree.to_json(&mut json, 0, true);
    let mut toml = String::new();
    tree.to_toml(&mut toml, "");
    let mut ini = String::new();
    tree.to_ini(&mut ini, "");
    let mut xml = String::new();
    tree.to_xml(&mut xml, 0);
    assert_eq!(lines(&exlex), expected);
    assert_eq!(lines(&json) + 1, expected);
    assert_eq!(lines(&toml), expected);
    assert_eq!(lines(&ini), expected);
    assert_eq!(lines(&xml), expected);
}

#[test]
fn matrix_files_describe_the_same_forest() {
    let roots = ConfigNode::generate(3, 3, 4, "bn", 0);
    // 39 sections with 4 properties each.
    let forest = 2 * 39 + 4 * 39;
    let texts = render_matrix(&roots);
    assert_eq!(lines(&texts.exlex), forest + roots.len());
    assert_eq!(lines(&texts.json), forest + 2);
    assert_eq!(lines(&texts.toml), forest);
    assert_eq!(lines(&texts.ini), forest);
    assert_eq!(lines(&texts.xml), forest + 2);
}

#[test]
fn scale_names_have_three_digits() {
    assert_eq!(scale_fixture_name(5), "scale_005");
    assert_eq!(scale_fixture_name(0), "scale_000");
    assert_eq!(scale_fixture_name(45), "scale_045");
    assert_eq!(scale_fixture_name(100), "scale_100");
    assert_eq!(scale_fixture_name(1234), "scale_1234");
}
