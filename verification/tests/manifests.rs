use mdbook_runnable_examples::error::PreprocessError;
use mdbook_runnable_examples::manifest::{
    example_package_name, package_name_from_stem, render_manifest_for_example, replace_package_name,
};
use regex::Regex;

fn reference_replace(template: &str, package: &str) -> String {
    let re = Regex::new(r#"(?m)^name\s*=\s*"[^"]+"\s*$"#).unwrap();
    re.replacen(template, 1, format!("name = \"{package}\"")).into_owned()
}

#[test]
fn package_names() {
    assert_eq!(
        example_package_name("runnable_examples/examples/network/wif_across_networks.rs"),
        "runnable-runnable-examples-examples-network-wif-across-networks"
    );
    assert_eq!(example_package_name("Foo--Bar.rs"), "runnable-foo-bar");
    assert_eq!(example_package_name("__.rs"), "runnable-example");
    assert_eq!(example_package_name(".rs"), "runnable-rs");
    assert_eq!(example_package_name("a.b.rs"), "runnable-a-b");
    assert_eq!(example_package_name("x/"), "runnable-x");
    assert_eq!(package_name_from_stem("ÄB-9_"), "runnable-b-9");
    assert_eq!(package_name_from_stem(""), "runnable-example");
}

#[test]
fn manifest_rewrite() {
    let template = "[package]\nname = \"runnable_examples\"\nversion = \"0.1.0\"\n\n[dependencies]\nbitcoin = \"0.32\"\n";
    let out = render_manifest_for_example(template, "ex/a.rs").unwrap();
    assert_eq!(out, "[package]\nname = \"runnable-ex-a\"\nversion = \"0.1.0\"\n\n[dependencies]\nbitcoin = \"0.32\"\n");
}

#[test]
fn manifest_without_name_is_an_error() {
    assert!(matches!(
        render_manifest_for_example("[package]\nversion = \"1\"\n", "a.rs"),
        Err(PreprocessError::ManifestRewriteFailed)
    ));
    assert!(matches!(
        render_manifest_for_example("name = \"runnable-a\"", "a.rs"),
        Err(PreprocessError::ManifestRewriteFailed)
    ));
}

#[test]
fn manifest_rewrite_matches_regex() {
    let templates = [
        "name = \"x\"",
        "name=\"x\"\n",
        "  name = \"x\"\n",
        "xname = \"x\"\nname = \"y\"\n",
        "name = \"x\" \n\n[deps]\n",
        "name = \"x\" \n \nz",
        "name = \"x\"\r\n",
        "name\n=\n\"a\nb\"\n",
        "name = \"\"\nname = \"z\"\n",
        "name = \"x\" y\nname = \"w\"\n",
        "[package]\nname = \"a\"\nname = \"b\"\n",
        "name =\u{3000}\"x\"\u{2028}\n",
        "",
        "name",
        "name = \"unterminated\n",
    ];
    for t in templates {
        assert_eq!(replace_package_name(t, "runnable-p"), reference_replace(t, "runnable-p"), "{t:?}");
    }
}
