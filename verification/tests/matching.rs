use cargo_notice::generate::{is_license_file, LICENSE_FILE};
use cargo_notice::highlight::{colorize_expression, Highlight, HIGHLIGHTED};
use cargo_notice::tokens::{split_license, DELIMITERS};
use regex::Regex;

const SAMPLES: [&str; 22] = [
    "",
    " ",
    "MIT",
    "MIT OR Apache-2.0",
    "MIT/Apache-2.0",
    "MIT / Apache-2.0",
    "MIT  AND\tApache-2.0",
    "(MIT OR Apache-2.0) AND Unicode-3.0",
    "((MIT AND Apache-2.0) OR Unicode-3.0) OR ( BSL-1.0)",
    "Apache-2.0 WITH LLVM-exception",
    "Apache-2.0 WITH LLVM-exception OR Apache-2.0 OR MIT",
    "mit or apache-2.0 and zlib",
    "GPL-2.0-or-later",
    "ANDROID",
    "ORAND",
    "OR",
    "()",
    ")(",
    "/ /",
    "\u{a0}MIT\u{2003}OR\u{3000}Zlib ",
    "Licence Générale / Öffentliche Lizenz",
    "0BSD OR(MIT)AND ISC",
];

/// The pieces of a text, found by walking the matches directly.
fn pieces_by_matches(license: &str) -> Vec<&str> {
    let re = Regex::new(DELIMITERS).unwrap();
    let mut result = Vec::new();
    let mut last_end = 0;
    for mat in re.find_iter(license) {
        let token = license[last_end..mat.start()].trim();
        if !token.is_empty() {
            result.push(token);
        }
        let delim = mat.as_str().trim();
        if !delim.is_empty() {
            result.push(delim);
        }
        last_end = mat.end();
    }
    let remainder = license[last_end..].trim();
    if !remainder.is_empty() {
        result.push(remainder);
    }
    result
}

#[test]
fn split_license_agrees_with_walking_the_matches() {
    for license in SAMPLES {
        assert_eq!(split_license(license), pieces_by_matches(license));
    }
}

#[test]
fn colorize_expression_agrees_with_replacing_the_matches() {
    let re = Regex::new(HIGHLIGHTED).unwrap();
    let list = ["MIT", "Apache-2.0 WITH LLVM-exception", "or"];
    for expr in SAMPLES {
        let replaced = re.replace_all(expr, |caps: &regex::Captures| {
            let token = &caps[0];
            if token.eq_ignore_ascii_case("AND")
                || token.eq_ignore_ascii_case("OR")
                || token == "("
                || token == ")"
            {
                token.to_string()
            } else if list.contains(&token) {
                format!("<+{}>", token)
            } else {
                format!("<-{}>", token)
            }
        });
        let painted: String = colorize_expression(expr, &list)
            .iter()
            .map(|segment| match segment.highlight {
                Highlight::Plain => segment.text.to_string(),
                Highlight::Allowed => format!("<+{}>", segment.text),
                Highlight::Denied => format!("<-{}>", segment.text),
            })
            .collect();
        assert_eq!(painted, replaced);
    }
}

#[test]
fn both_patterns_are_accepted() {
    assert!(Regex::new(DELIMITERS).is_ok());
    assert!(Regex::new(HIGHLIGHTED).is_ok());
}

#[test]
fn is_license_file_looks_for_the_word_in_any_case() {
    let re = Regex::new(LICENSE_FILE).unwrap();
    for name in [
        "LICENSE",
        "LICENSE-MIT",
        "license.txt",
        "License.md",
        "UNLICENSE",
        "LICENSES",
        "my-licenses-dir",
        "LICENCE",
        "COPYING",
        "README.md",
        "licens",
        "",
    ] {
        assert_eq!(is_license_file(name), re.is_match(name));
    }
    assert!(is_license_file("LICENSE-APACHE"));
    assert!(is_license_file("third-party-Licenses"));
    assert!(!is_license_file("LICENCE"));
    assert!(!is_license_file("NOTICE"));
}
