use board_watch::models::Down;
use board_watch::cascade::{check_download, detail_referrer, parse_dcimage, sanitize_subpath};

fn rule(title: &str, path: &str) -> Down {
    Down { host: "dc".to_string(), title: title.to_string(), path: path.to_string() }
}

#[test]
fn scenario_d_download_cascade() {
    // the rule matches by substring, first match wins
    let rules = vec![rule("Foo", "/out")];
    let title = "Foo Bar #12";
    let path = check_download(title, &rules);
    assert_eq!(path, "/out");

    // the detail page yields one file per marked image, in document order
    let html = {
        let mut html = String::new();
        html.push_str(r#"<div><img src="https://img.example/a.jpg" onerror="reload_img(this)">"#);
        html.push_str(r#"<img src="https://img.example/plain.jpg">"#);
        html.push_str(r#"<img src="https://img.example/b.jpg" onerror="reload_img(this); note()"></div>"#);
        html
    };
    let refs = parse_dcimage(&html, &path, title, "https://gall.example.com");
    assert_eq!(refs.len(), 2);
    assert_eq!(refs[0].link, "https://img.example/a.jpg");
    assert_eq!(refs[0].file_name, "1.jpg");
    assert_eq!(refs[0].path, "/out");
    assert_eq!(refs[0].subpath, "Foo Bar #12");
    assert_eq!(refs[0].refferer, "https://gall.example.com");
    assert_eq!(refs[1].link, "https://img.example/b.jpg");
    assert_eq!(refs[1].file_name, "2.jpg");
    assert_eq!(refs[1].subpath, "Foo Bar #12");
}

#[test]
fn first_matching_rule_wins() {
    let rules = vec![rule("Foo", "/one"), rule("Foo Bar", "/two"), rule("Bar", "/three")];
    assert_eq!(check_download("Foo Bar", &rules), "/one");
    assert_eq!(check_download("a Bar b", &rules), "/three");
}

#[test]
fn no_matching_rule_yields_empty_path() {
    let rules = vec![rule("Foo", "/one")];
    assert_eq!(check_download("nothing here", &rules), "");
    assert_eq!(check_download("nothing here", &vec![]), "");
}

#[test]
fn subpath_sanitizer_strips_tags_and_reserved_characters() {
    assert_eq!(sanitize_subpath("<b>A/B?</b> c:d"), "A_B_ c_d");
    // a complete angle-bracket pair is a markup tag and is stripped whole;
    // a lone reserved character is replaced
    assert_eq!(sanitize_subpath(r#"x\y*z"w<v>u|t"#), "x_y_z_wu_t");
    assert_eq!(sanitize_subpath("a<b and c>d"), "ad");
    // an unpaired angle bracket forms no tag and is replaced instead
    assert_eq!(sanitize_subpath("a<b"), "a_b");
    assert_eq!(sanitize_subpath("c>d"), "c_d");
    assert_eq!(sanitize_subpath("plain title"), "plain title");
}

#[test]
fn tenth_image_gets_two_digit_name() {
    let mut html = String::from("<div>");
    for i in 0..10 {
        html.push_str(&format!(
            r#"<img src="https://img.example/{}.png" onerror="reload_img(this)">"#,
            i
        ));
    }
    html.push_str("</div>");
    let refs = parse_dcimage(&html, "/out", "t", "https://h.example");
    assert_eq!(refs.len(), 10);
    assert_eq!(refs[9].file_name, "10.jpg");
    assert_eq!(refs[9].link, "https://img.example/9.png");
}

#[test]
fn unmarked_page_yields_no_images() {
    let html = r#"<div><img src="https://img.example/a.jpg"></div>"#;
    let refs = parse_dcimage(html, "/out", "t", "https://h.example");
    assert!(refs.is_empty());
}

#[test]
fn referrer_is_scheme_plus_host() {
    assert_eq!(
        detail_referrer("https://gall.example.com/board/view/?id=1"),
        Some("https://gall.example.com".to_string())
    );
    assert_eq!(detail_referrer("not a url"), None);
}
