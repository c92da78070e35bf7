use cargo_notice::notice_toml::NoticeToml;

fn strings(items: &[&str]) -> Vec<String> {
    items.iter().map(|s| s.to_string()).collect()
}

#[test]
fn new_notice_assumes_nothing() {
    let notice = NoticeToml::new(strings(&["MIT", "Zlib"]));
    assert_eq!(notice.allow_license, strings(&["MIT", "Zlib"]));
    assert!(notice.license_manual.is_empty());
    assert_eq!(notice.manual_license("serde"), None);
}

#[test]
fn allow_list_keeps_the_order() {
    let notice = NoticeToml::new(strings(&["Zlib", "MIT", "Zlib"]));
    assert_eq!(notice.allow_list(), vec!["Zlib", "MIT", "Zlib"]);
    assert_eq!(NoticeToml::new(Vec::new()).allow_list(), Vec::<&str>::new());
}

#[test]
fn manual_license_finds_the_crate_by_name() {
    let notice = NoticeToml {
        allow_license: Vec::new(),
        license_manual: vec![
            ("ring".to_string(), "ISC".to_string()),
            ("unlicensed".to_string(), "MIT OR Zlib".to_string()),
            ("ring".to_string(), "OpenSSL".to_string()),
        ],
    };
    assert_eq!(notice.manual_license("ring"), Some("ISC"));
    assert_eq!(notice.manual_license("unlicensed"), Some("MIT OR Zlib"));
    assert_eq!(notice.manual_license("Ring"), None);
    assert_eq!(notice.manual_license(""), None);
}
