use litehtml::email::decode::{detect_bom, detect_meta_charset};
use litehtml::email::preprocess::{
    parses_as_u32, preprocess_body_bgcolor, preprocess_cellpadding as rewrite_cellpadding,
};
use litehtml::email::prepare::image_sources;
use litehtml::email::uri::{hex_val, percent_decode, split_data_uri};
use litehtml::email::{
    decode_data_uri, decode_html, prepare_email_html, preprocess_attrs, resolve_image_uri,
    sanitize_html, EMAIL_MASTER_CSS,
};

type Resolver = fn(&str) -> Option<Vec<u8>>;

fn no_resolver() -> Option<&'static Resolver> {
    None
}

// -- Encoding detection --

#[test]
fn decode_html_utf8() {
    let html = "<p>Hello world</p>";
    assert_eq!(decode_html(html.as_bytes()), html);
}

#[test]
fn decode_html_utf8_with_bom() {
    let mut bytes = vec![0xEF, 0xBB, 0xBF];
    bytes.extend_from_slice(b"<p>BOM</p>");
    let result = decode_html(&bytes);
    assert!(result.contains("<p>BOM</p>"));
}

#[test]
fn decode_html_latin1() {
    // 0xE9 = 'e' with acute accent in ISO-8859-1 / Windows-1252
    let bytes = b"<p>caf\xe9</p>".to_vec();
    let result = decode_html(&bytes);
    assert!(result.contains("cafe\u{0301}") || result.contains("caf\u{00e9}"));
}

#[test]
fn decode_html_with_meta_charset() {
    let html = b"<html><head><meta charset=\"iso-8859-1\"></head><body>caf\xe9</body></html>";
    let result = decode_html(html);
    assert!(result.contains("caf\u{00e9}"));
}

#[test]
fn decode_html_with_content_type_meta() {
    let html = b"<html><head><meta http-equiv=\"Content-Type\" content=\"text/html; charset=windows-1252\"></head><body>\x93quote\x94</body></html>";
    let result = decode_html(html);
    // Windows-1252 0x93/0x94 are left/right double quotes
    assert!(result.contains('\u{201c}') || result.contains('\u{201d}'));
}

#[test]
fn decode_html_utf16_bom() {
    let bytes = vec![0xFF, 0xFE, b'h', 0, b'i', 0];
    assert_eq!(decode_html(&bytes), "hi");
    let bytes = vec![0xFE, 0xFF, 0, b'h', 0, b'i'];
    assert_eq!(decode_html(&bytes), "hi");
}

#[test]
fn decode_html_unknown_label_falls_back() {
    let html = b"<meta charset=\"no-such-encoding\"><p>caf\xe9</p>";
    let result = decode_html(html);
    assert!(result.contains("caf\u{00e9}"));
    let html = "<meta charset=\"no-such-encoding\"><p>caf\u{00e9}</p>";
    assert_eq!(decode_html(html.as_bytes()), html);
}

#[test]
fn decode_html_meta_beyond_scan_limit_is_ignored() {
    let mut bytes = vec![b' '; 4096];
    bytes.extend_from_slice(b"<meta charset=\"utf-16le\">ok");
    let result = decode_html(&bytes);
    assert!(result.ends_with("<meta charset=\"utf-16le\">ok"));
}

#[test]
fn detect_bom_labels() {
    assert_eq!(detect_bom(&[0xEF, 0xBB, 0xBF, b'a']), Some("utf-8"));
    assert_eq!(detect_bom(&[0xFF, 0xFE]), Some("utf-16le"));
    assert_eq!(detect_bom(&[0xFE, 0xFF]), Some("utf-16be"));
    assert_eq!(detect_bom(&[0xEF, 0xBB]), None);
    assert_eq!(detect_bom(b"<p>"), None);
    assert_eq!(detect_bom(&[]), None);
}

#[test]
fn detect_meta_charset_labels() {
    assert_eq!(
        detect_meta_charset("<meta charset=\"UTF-8\">"),
        Some("utf-8".to_string())
    );
    assert_eq!(
        detect_meta_charset("<meta charset = ' Latin1 '>"),
        Some("latin1".to_string())
    );
    assert_eq!(
        detect_meta_charset("content=\"text/html; charset=koi8-r; x\""),
        Some("koi8-r".to_string())
    );
    assert_eq!(detect_meta_charset("<meta charset>"), None);
    assert_eq!(detect_meta_charset("<meta charset=\"\">"), None);
    assert_eq!(detect_meta_charset("<p>none</p>"), None);
}

// -- Sanitization --

#[test]
fn sanitize_strips_script() {
    let html = "<p>Hello</p><script>alert('xss')</script><p>World</p>";
    let result = sanitize_html(html);
    assert!(!result.contains("script"));
    assert!(!result.contains("alert"));
    assert!(result.contains("<p>Hello</p>"));
    assert!(result.contains("<p>World</p>"));
}

#[test]
fn sanitize_strips_iframe() {
    let html = "<div><iframe src=\"evil.com\"></iframe></div>";
    let result = sanitize_html(html);
    assert!(!result.contains("iframe"));
    assert!(result.contains("<div>"));
}

#[test]
fn sanitize_strips_event_handlers() {
    let html = "<img src=\"cat.jpg\" onerror=\"alert(1)\" alt=\"cat\">";
    let result = sanitize_html(html);
    assert!(!result.contains("onerror"));
    assert!(result.contains("src=\"cat.jpg\""));
    assert!(result.contains("alt=\"cat\""));
}

#[test]
fn sanitize_strips_onclick() {
    let html = "<a href=\"#\" onclick=\"doStuff()\">Click</a>";
    let result = sanitize_html(html);
    assert!(!result.contains("onclick"));
    assert!(result.contains("href=\"#\""));
    assert!(result.contains("Click"));
}

#[test]
fn sanitize_strips_stylesheet_link() {
    let html = "<link rel=\"stylesheet\" href=\"track.css\"><p>Content</p>";
    let result = sanitize_html(html);
    assert!(!result.contains("link"));
    assert!(!result.contains("track.css"));
    assert!(result.contains("<p>Content</p>"));
}

#[test]
fn sanitize_preserves_normal_html() {
    let html = "<div class=\"wrapper\"><h1>Title</h1><p style=\"color: red\">Text</p></div>";
    let result = sanitize_html(html);
    assert_eq!(result, html);
}

#[test]
fn sanitize_strips_form_elements() {
    let html =
        "<form action=\"/submit\"><input type=\"text\"><button>Go</button></form><p>After</p>";
    let result = sanitize_html(html);
    assert!(!result.contains("form"));
    assert!(!result.contains("input"));
    assert!(!result.contains("button"));
    assert!(result.contains("<p>After</p>"));
}

#[test]
fn sanitize_strips_object_embed() {
    let html = "<object data=\"flash.swf\"></object><embed src=\"plugin.swf\">";
    let result = sanitize_html(html);
    assert!(!result.contains("object"));
    assert!(!result.contains("embed"));
}

#[test]
fn sanitize_exact_outputs() {
    assert_eq!(
        sanitize_html("<p>Hello</p><script>alert('xss')</script><p>World</p>"),
        "<p>Hello</p><p>World</p>"
    );
    assert_eq!(
        sanitize_html("<img src=\"cat.jpg\" onerror=\"alert(1)\" alt=\"cat\">"),
        "<img src=\"cat.jpg\" alt=\"cat\">"
    );
    assert_eq!(
        sanitize_html("<a href=\"#\" onclick=\"doStuff()\">Click</a>"),
        "<a href=\"#\">Click</a>"
    );
    assert_eq!(
        sanitize_html("<link rel=\"stylesheet\" href=\"track.css\"><p>Content</p>"),
        "<p>Content</p>"
    );
    assert_eq!(
        sanitize_html("<link rel=\"icon\" href=\"a.png\">"),
        "<link rel=\"icon\" href=\"a.png\">"
    );
}

#[test]
fn sanitize_keeps_comments_and_stray_brackets() {
    assert_eq!(
        sanitize_html("a<!-- <script>x</script> -->b"),
        "a<!-- <script>x</script> -->b"
    );
    assert_eq!(sanitize_html("1 < 2"), "1 < 2");
    assert_eq!(sanitize_html("<!-- never closed <b>x</b>"), "<!-- never closed <b>x</b>");
}

#[test]
fn sanitize_nested_and_mixed_case() {
    assert_eq!(
        sanitize_html("a<SCRIPT>x<script>y</script>z</SCRIPT>b"),
        "ab"
    );
    assert_eq!(sanitize_html("a<script>never closed"), "a");
    assert_eq!(sanitize_html("a<input/>b</form>c"), "abc");
    assert_eq!(
        sanitize_html("<p title=\"a > b\" ONLOAD=x>t</p>"),
        "<p title=\"a > b\">t</p>"
    );
}

#[test]
fn sanitize_handles_non_ascii() {
    assert_eq!(
        sanitize_html("<p onclick=\"x\">caf\u{e9} \u{1F600}</p><script>\u{e9}\u{e9}</script>"),
        "<p>caf\u{e9} \u{1F600}</p>"
    );
    assert_eq!(
        sanitize_html("<p  a\u{e9}=1 onx=2>"),
        "<p  a\u{e9}=1>"
    );
}

#[test]
fn sanitize_keeps_attributes_that_only_look_like_handlers() {
    assert_eq!(sanitize_html("<p on=1 one=2 on-x=3>"), "<p on=1 on-x=3>");
    assert_eq!(sanitize_html("<p data-on=1>"), "<p data-on=1>");
}

// -- data: URI --

#[test]
fn decode_data_uri_base64() {
    let uri = "data:image/png;base64,iVBORw0KGgo=";
    let result = decode_data_uri(uri).unwrap();
    assert!(!result.is_empty());
    assert_eq!(result, vec![0x89, 0x50, 0x4E, 0x47, 0x0D, 0x0A, 0x1A, 0x0A]);
}

#[test]
fn decode_data_uri_plain_text() {
    let uri = "data:text/plain,Hello%20World";
    let result = decode_data_uri(uri).unwrap();
    assert_eq!(result, b"Hello World");
}

#[test]
fn decode_data_uri_plain_no_encoding() {
    let uri = "data:,bare%20data";
    let result = decode_data_uri(uri).unwrap();
    assert_eq!(result, b"bare data");
}

#[test]
fn decode_data_uri_invalid() {
    assert!(decode_data_uri("https://example.com").is_none());
    assert!(decode_data_uri("data:no-comma-here").is_none());
}

#[test]
fn decode_data_uri_invalid_base64() {
    // Completely invalid base64 that can't be recovered
    let uri = "data:image/png;base64,!!!not-valid!!!";
    assert!(decode_data_uri(uri).is_none());
}

#[test]
fn decode_data_uri_base64_with_whitespace() {
    let uri = "data:image/png;base64,iVBO\r\n Rw0K\tGgo=";
    assert_eq!(
        decode_data_uri(uri).unwrap(),
        vec![0x89, 0x50, 0x4E, 0x47, 0x0D, 0x0A, 0x1A, 0x0A]
    );
}

#[test]
fn split_data_uri_parts() {
    assert_eq!(
        split_data_uri("data:image/png;base64,AAAA"),
        Some((true, "AAAA".to_string()))
    );
    assert_eq!(
        split_data_uri("data:text/plain,a,b"),
        Some((false, "a,b".to_string()))
    );
    assert_eq!(split_data_uri("data:,"), Some((false, String::new())));
    assert_eq!(split_data_uri("data:;base64"), None);
    assert_eq!(split_data_uri("Data:,x"), None);
}

#[test]
fn percent_decode_exact() {
    assert_eq!(percent_decode("a%41%7a%2F"), b"aAz/");
    assert_eq!(percent_decode("100%"), b"100%");
    assert_eq!(percent_decode("%4"), b"%4");
    assert_eq!(percent_decode("%zz%41x"), b"%zzAx");
    assert_eq!(percent_decode("%41"), b"A");
    assert_eq!(percent_decode("%%41"), b"%A");
    assert_eq!(percent_decode("%e9!"), vec![0xE9, b'!']);
    assert_eq!(percent_decode("\u{e9}"), "\u{e9}".as_bytes());
}

#[test]
fn hex_val_digits() {
    assert_eq!(hex_val(b'0'), Some(0));
    assert_eq!(hex_val(b'9'), Some(9));
    assert_eq!(hex_val(b'a'), Some(10));
    assert_eq!(hex_val(b'f'), Some(15));
    assert_eq!(hex_val(b'A'), Some(10));
    assert_eq!(hex_val(b'F'), Some(15));
    assert_eq!(hex_val(b'g'), None);
    assert_eq!(hex_val(b'/'), None);
    assert_eq!(hex_val(b':'), None);
}

// -- resolve_image_uri --

#[test]
fn resolve_data_uri() {
    let uri = "data:text/plain,hello";
    let result = resolve_image_uri(uri, no_resolver(), no_resolver()).unwrap();
    assert_eq!(result, b"hello");
}

#[test]
fn resolve_cid_uri() {
    let resolver = |cid: &str| -> Option<Vec<u8>> {
        if cid == "image001@example.com" {
            Some(vec![0x89, 0x50, 0x4E, 0x47])
        } else {
            None
        }
    };
    let result =
        resolve_image_uri("cid:image001@example.com", Some(&resolver), no_resolver()).unwrap();
    assert_eq!(result, vec![0x89, 0x50, 0x4E, 0x47]);
}

#[test]
fn resolve_cid_without_resolver() {
    assert!(resolve_image_uri("cid:something", no_resolver(), no_resolver()).is_none());
}

#[test]
fn resolve_remote_url_returns_none() {
    assert!(
        resolve_image_uri("https://example.com/image.png", no_resolver(), no_resolver()).is_none()
    );
    assert!(
        resolve_image_uri("http://example.com/track.gif", no_resolver(), no_resolver()).is_none()
    );
}

#[test]
fn resolve_remote_url_with_fetcher() {
    let fetcher = |url: &str| -> Option<Vec<u8>> {
        if url == "https://example.com/logo.png" {
            Some(vec![0x89, 0x50, 0x4E, 0x47])
        } else {
            None
        }
    };
    let result = resolve_image_uri("https://example.com/logo.png", no_resolver(), Some(&fetcher));
    assert_eq!(result.unwrap(), vec![0x89, 0x50, 0x4E, 0x47]);

    // Unknown URL still returns None
    let result = resolve_image_uri("https://other.com/img.jpg", no_resolver(), Some(&fetcher));
    assert!(result.is_none());
}

#[test]
fn resolve_remote_url_without_fetcher() {
    // Remote URIs return None when no url_fetcher is provided
    assert!(
        resolve_image_uri("https://example.com/image.png", no_resolver(), no_resolver()).is_none()
    );
    assert!(
        resolve_image_uri("http://example.com/track.gif", no_resolver(), no_resolver()).is_none()
    );
    assert!(resolve_image_uri("//cdn.example.com/img.jpg", no_resolver(), no_resolver()).is_none());
}

#[test]
fn resolve_data_uri_ignores_fetcher() {
    let fetcher = |_url: &str| -> Option<Vec<u8>> { Some(vec![1]) };
    let result = resolve_image_uri("data:,x", no_resolver(), Some(&fetcher));
    assert_eq!(result.unwrap(), b"x");
    let result = resolve_image_uri("cid:x", no_resolver(), Some(&fetcher));
    assert!(result.is_none());
}

// -- prepare_email_html --

#[test]
fn prepare_email_end_to_end() {
    let html = b"<html><body><p>Hello</p><script>bad()</script>\
        <img src=\"data:text/plain,pixel\"><img src=\"cid:att1\">\
        <img src=\"https://remote.com/track.gif\"></body></html>";

    let resolver = |cid: &str| -> Option<Vec<u8>> {
        if cid == "att1" {
            Some(vec![1, 2, 3])
        } else {
            None
        }
    };

    let prepared = prepare_email_html(html, Some(&resolver), no_resolver());

    // Script removed
    assert!(!prepared.html.contains("script"));
    assert!(!prepared.html.contains("bad()"));

    // Normal content preserved
    assert!(prepared.html.contains("<p>Hello</p>"));

    // data: and cid: images resolved
    assert_eq!(prepared.images.len(), 2);
    assert_eq!(prepared.images[0].0, "data:text/plain,pixel");
    assert_eq!(prepared.images[0].1, b"pixel");
    assert_eq!(prepared.images[1].0, "cid:att1");
    assert_eq!(prepared.images[1].1, vec![1, 2, 3]);
}

#[test]
fn prepare_email_with_encoding() {
    // Windows-1252 encoded with meta charset
    let html =
        b"<html><head><meta charset=\"windows-1252\"></head><body>\x93Hello\x94</body></html>"
            .to_vec();
    let prepared = prepare_email_html(&html, no_resolver(), no_resolver());
    assert!(prepared.html.contains('\u{201c}'));
    assert!(prepared.html.contains('\u{201d}'));
}

#[test]
fn prepare_email_with_fetcher_resolves_remote_images() {
    let html = b"<img src=https://a/x.png><img SRC='cid:none'><img src=\"data:,ok\">";
    let resolver = |_cid: &str| -> Option<Vec<u8>> { None };
    let fetcher = |url: &str| -> Option<Vec<u8>> { Some(url.as_bytes().to_vec()) };
    let prepared = prepare_email_html(html, Some(&resolver), Some(&fetcher));
    assert_eq!(prepared.images.len(), 2);
    assert_eq!(prepared.images[0].0, "https://a/x.png");
    assert_eq!(prepared.images[0].1, b"https://a/x.png");
    assert_eq!(prepared.images[1].0, "data:,ok");
    assert_eq!(prepared.images[1].1, b"ok");
}

#[test]
fn image_sources_in_order() {
    assert_eq!(
        image_sources("<img src=\"a b\"><img SRC='c'><img src=d e><img src="),
        vec!["a b".to_string(), "c".to_string(), "d".to_string()]
    );
    assert_eq!(image_sources("<p>none</p>"), Vec::<String>::new());
    assert_eq!(image_sources("src=\"open"), vec!["open".to_string()]);
}

// -- Attribute preprocessing --

#[test]
fn preprocess_body_bgcolor_quoted() {
    let html = r##"<body bgcolor="#ff0000"><p>Red</p></body>"##;
    let result = preprocess_attrs(html);
    assert!(!result.contains("bgcolor"));
    assert!(result.contains("background-color: #ff0000;"));
}

#[test]
fn preprocess_body_bgcolor_named() {
    let html = r#"<body bgcolor="white"><p>White</p></body>"#;
    let result = preprocess_attrs(html);
    assert!(result.contains("background-color: white;"));
}

#[test]
fn preprocess_cellpadding() {
    let html = r#"<table cellpadding="5"><tr><td>Cell</td></tr></table>"#;
    let result = preprocess_attrs(html);
    // The attribute is removed but kept as a data attribute
    assert!(!result.contains(" cellpadding=\"5\""));
    assert!(result.contains("data-cellpadding=\"5\""));
}

#[test]
fn preprocess_no_body_bgcolor_noop() {
    let html = "<body><p>No bgcolor</p></body>";
    let result = preprocess_attrs(html);
    assert_eq!(result, html);
}

#[test]
fn preprocess_body_bgcolor_exact() {
    assert_eq!(
        preprocess_body_bgcolor("<body bgcolor=\"#ff0000\"><p>Red</p></body>"),
        "<body style=\"background-color: #ff0000;\"><p>Red</p></body>"
    );
    assert_eq!(
        preprocess_body_bgcolor("<html><BODY class=a BGCOLOR = White style=\"margin:0\">x"),
        "<html><BODY class=a style=\"background-color: White; margin:0\">x"
    );
    assert_eq!(
        preprocess_body_bgcolor("<body bgcolor='red' style='x'>"),
        "<body style='background-color: red; x'>"
    );
    assert_eq!(preprocess_body_bgcolor("<body bgcolor>"), "<body bgcolor>");
    assert_eq!(preprocess_body_bgcolor("<body bgcolor=\"\">"), "<body bgcolor=\"\">");
    assert_eq!(preprocess_body_bgcolor("<body bgcolor=red"), "<body bgcolor=red");
}

#[test]
fn preprocess_body_bgcolor_unclosed_quote_is_left_alone() {
    assert_eq!(
        preprocess_body_bgcolor("<body bgcolor=\"red>text"),
        "<body bgcolor=\"red>text"
    );
}

#[test]
fn preprocess_cellpadding_exact() {
    assert_eq!(
        rewrite_cellpadding("<table cellpadding=\"5\"><tr><td>Cell</td></tr></table>"),
        "<table data-cellpadding=\"5\"><tr><td>Cell</td></tr></table>"
    );
    assert_eq!(
        rewrite_cellpadding("<TABLE border=0 CellPadding = 12 width=9><table cellpadding='3'>"),
        "<TABLE border=0 width=9 data-cellpadding=\"12\"><table data-cellpadding=\"3\">"
    );
    assert_eq!(
        rewrite_cellpadding("<table cellpadding=\"5px\">"),
        "<table cellpadding=\"5px\">"
    );
    assert_eq!(
        rewrite_cellpadding("<div cellpadding=\"5\">"),
        "<div cellpadding=\"5\">"
    );
    assert_eq!(rewrite_cellpadding("cellpadding=5"), "cellpadding=5");
    assert_eq!(
        rewrite_cellpadding("<table cellpadding>"),
        "<table cellpadding>"
    );
}

#[test]
fn preprocess_cellpadding_outside_the_tag_is_left_alone() {
    assert_eq!(
        rewrite_cellpadding("<table> cellpadding=5 <b>"),
        "<table> cellpadding=5 <b>"
    );
    assert_eq!(
        rewrite_cellpadding("<table cellpadding=1 cellpadding=2>"),
        "<table cellpadding=2 data-cellpadding=\"1\">"
    );
}

#[test]
fn parses_as_u32_matches_std() {
    let cases = [
        "", "+", "0", "5", "+5", "-5", "005", "4294967295", "4294967296", "99999999999999999999",
        "12a", " 1", "1 ", "++1", "\u{664}",
    ];
    for case in cases {
        let chars: Vec<char> = case.chars().collect();
        assert_eq!(parses_as_u32(&chars), case.parse::<u32>().is_ok(), "{:?}", case);
    }
}

// -- EMAIL_MASTER_CSS --

#[test]
fn master_css_is_valid() {
    assert!(EMAIL_MASTER_CSS.contains("margin: 0"));
    assert!(EMAIL_MASTER_CSS.contains("word-wrap: break-word"));
    assert!(EMAIL_MASTER_CSS.contains("max-width: 100%"));
    assert!(EMAIL_MASTER_CSS.contains("border-collapse"));
}
