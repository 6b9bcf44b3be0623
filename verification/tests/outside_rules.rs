use base64::Engine;
use mdbook_runnable_examples::path::{artifact_output_path_for, path_without_extension};
use mdbook_runnable_examples::artifact::Settings;
use mdbook_runnable_examples::render::encode_outputs;
use std::path::{Component, Path};

// The rules below are the library's statements about outside calls, written
// out in Rust, and compared with what the calls give.

fn base64_digit(v: u32) -> char {
    match v {
        0..=25 => char::from_u32(v + 65).unwrap(),
        26..=51 => char::from_u32(v + 71).unwrap(),
        52..=61 => char::from_u32(v - 4).unwrap(),
        62 => '+',
        _ => '/',
    }
}

fn base64_rule(b: &[u8]) -> String {
    let mut out = String::new();
    let mut rest = b;
    while !rest.is_empty() {
        let b0 = rest[0] as u32;
        match rest.len() {
            1 => {
                out.push(base64_digit(b0 / 4));
                out.push(base64_digit((b0 % 4) * 16));
                out.push_str("==");
                rest = &[];
            }
            2 => {
                let b1 = rest[1] as u32;
                out.push(base64_digit(b0 / 4));
                out.push(base64_digit((b0 % 4) * 16 + b1 / 16));
                out.push(base64_digit((b1 % 16) * 4));
                out.push('=');
                rest = &[];
            }
            _ => {
                let (b1, b2) = (rest[1] as u32, rest[2] as u32);
                out.push(base64_digit(b0 / 4));
                out.push(base64_digit((b0 % 4) * 16 + b1 / 16));
                out.push(base64_digit((b1 % 16) * 4 + b2 / 64));
                out.push(base64_digit(b2 % 64));
                rest = &rest[3..];
            }
        }
    }
    out
}

#[test]
fn base64_rule_matches_the_crate() {
    let mut seed: u32 = 12345;
    for len in 0..200usize {
        let bytes: Vec<u8> = (0..len)
            .map(|_| {
                seed = seed.wrapping_mul(1103515245).wrapping_add(12345);
                (seed >> 16) as u8
            })
            .collect();
        assert_eq!(base64_rule(&bytes), base64::engine::general_purpose::STANDARD.encode(&bytes));
    }
    let all: Vec<u8> = (0u8..=255).collect();
    assert_eq!(base64_rule(&all), base64::engine::general_purpose::STANDARD.encode(&all));
}

#[test]
fn encoded_outputs_are_standard_base64() {
    let outputs = vec!["hi".to_string(), "abc".to_string(), String::new(), "é\n".to_string()];
    assert_eq!(encode_outputs(&outputs), vec!["aGk=", "YWJj", "", "w6kK"]);
}

fn ends_in_file_name(p: &str) -> bool {
    let name = &p[p.rfind('/').map(|i| i + 1).unwrap_or(0)..];
    !name.is_empty() && name != "." && name != ".." && !(name.starts_with('.') && name.rfind('.') == Some(1))
}

fn replaced_extension_rule(p: &str, ext: &str) -> String {
    let a = p.rfind('/').map(|i| i + 1).unwrap_or(0);
    let stem_end = match p[a..].rfind('.') {
        Some(d) if d > 0 => a + d,
        _ => p.len(),
    };
    let mut out = p[..stem_end].to_string();
    if !ext.is_empty() {
        out.push('.');
        out.push_str(ext);
    }
    out
}

const PATHS: [&str; 27] = [
    "a", "a.rs", "a.b.c", ".a", ".a.b", "a.", "..a", "...", "..a.b", "x/..a", ".x.", "x/y.rs", "x/.y", "./a.rs", "/a.rs",
    "a//b.rs", "a/./b.rs", "dir.d/file", "dir.d/file.rs", "a/b.", "a.rs/", "a/.", "a/..", "",
    "/", ".", "..",
];

#[test]
fn extension_rule_matches_std() {
    for p in PATHS {
        for ext in ["", "x", "samples.json", "a.b"] {
            let got = Path::new(p).with_extension(ext).to_string_lossy().into_owned();
            if ends_in_file_name(p) {
                assert_eq!(replaced_extension_rule(p, ext), got, "{p:?} with {ext:?}");
            }
        }
        assert_eq!(
            path_without_extension(p),
            Path::new(p).with_extension("").to_string_lossy().into_owned()
        );
    }
}

#[test]
fn strip_prefix_rule_matches_std() {
    for p in PATHS {
        for base in ["", "a", "x", "./", "/", "a/b.rs", "x/", "."] {
            if let Ok(rest) = Path::new(p).strip_prefix(base) {
                let want: Vec<Component> =
                    Path::new(p).components().skip(Path::new(base).components().count()).collect();
                let got: Vec<Component> = rest.components().collect();
                assert_eq!(got, want, "{p:?} without {base:?}");
            }
        }
    }
}

#[test]
fn artifact_paths_for_plain_names() {
    let s = Settings::from_config(Some(true), None, None, None, None, None, None);
    assert_eq!(
        artifact_output_path_for(&s, "runnable_examples/examples/keys/derive.v2.rs"),
        "runnable_examples/output/keys/derive.v2.samples.json"
    );
}
