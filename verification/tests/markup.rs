use litehtml::email::events::strip_event_handlers;
use litehtml::email::sanitize::{
    advance_past, sanitize_chars, skip_until_close_tag, stripped_element,
};
use litehtml::email::scan::{
    char_to_ascii_lower, copy_range, find_in, find_last_char_before, find_match, find_trim_end,
    from_chars, is_match_at, to_ascii_lower, to_chars, CharSet, Space,
};
use litehtml::email::tags::{
    extract_tag_name, find_after_equals, find_char, find_tag_end, find_trim, find_value,
    is_stylesheet_link,
};

fn chars(s: &str) -> Vec<char> {
    s.chars().collect()
}

fn text(v: &[char]) -> String {
    v.iter().collect()
}

#[test]
fn chars_and_strings_convert_both_ways() {
    let s = "a\u{e9}\u{1F600}<";
    assert_eq!(to_chars(s), chars(s));
    assert_eq!(from_chars(&chars(s)), s);
    assert_eq!(to_chars(""), Vec::<char>::new());
    assert_eq!(copy_range(&chars("abcdef"), 2, 4), chars("cd"));
    assert_eq!(copy_range(&chars("abcdef"), 3, 3), chars(""));
}

#[test]
fn ascii_lower_touches_ascii_capitals_only() {
    assert_eq!(char_to_ascii_lower('A'), 'a');
    assert_eq!(char_to_ascii_lower('Z'), 'z');
    assert_eq!(char_to_ascii_lower('a'), 'a');
    assert_eq!(char_to_ascii_lower('@'), '@');
    assert_eq!(char_to_ascii_lower('['), '[');
    assert_eq!(char_to_ascii_lower('\u{c9}'), '\u{c9}');
    for code in 0..=0x10FFFFu32 {
        if let Some(c) = char::from_u32(code) {
            assert_eq!(char_to_ascii_lower(c), c.to_ascii_lowercase());
        }
    }
    assert_eq!(to_ascii_lower(&chars("BoDy \u{c9}")), chars("body \u{c9}"));
}

#[test]
fn char_sets_hold_what_they_say() {
    let set = CharSet::of(Space::Ascii, vec!['/', '>']);
    assert!(set.contains(' ') && set.contains('\t') && set.contains('\n'));
    assert!(set.contains('\r') && set.contains('\x0C'));
    assert!(set.contains('/') && set.contains('>'));
    assert!(!set.contains('\x0B') && !set.contains('\u{a0}') && !set.contains('a'));
    let set = CharSet::of(Space::Unicode, Vec::new());
    assert!(set.contains('\u{a0}') && set.contains('\x0B') && !set.contains('/'));
    let set = CharSet::except(Space::Absent, vec!['/']);
    assert!(!set.contains('/') && set.contains(' ') && set.contains('a'));
    for code in 0..=0x7Fu8 {
        let c = code as char;
        assert_eq!(CharSet::of(Space::Ascii, Vec::new()).contains(c), c.is_ascii_whitespace());
    }
}

#[test]
fn scanning_finds_first_and_last() {
    let s = chars("ab  cd=ab");
    let space = CharSet::of(Space::Ascii, Vec::new());
    assert_eq!(find_in(&s, 0, &space), 2);
    assert_eq!(find_in(&s, 3, &space), 3);
    assert_eq!(find_in(&s, 4, &space), 9);
    assert_eq!(find_in(&s, 9, &space), 9);
    assert_eq!(find_char(&s, 0, '='), 6);
    assert_eq!(find_char(&s, 7, '='), 9);
    assert_eq!(find_match(&s, 0, &chars("ab")), Some(0));
    assert_eq!(find_match(&s, 1, &chars("ab")), Some(7));
    assert_eq!(find_match(&s, 8, &chars("ab")), None);
    assert_eq!(find_match(&s, 3, &chars("")), Some(3));
    assert_eq!(find_match(&s, 9, &chars("")), Some(9));
    assert_eq!(find_match(&s, 10, &chars("")), None);
    assert!(is_match_at(&s, 7, &chars("ab")));
    assert!(!is_match_at(&s, 8, &chars("ab")));
    assert!(!is_match_at(&s, 100, &chars("")));
    assert!(is_match_at(&s, 9, &chars("")));
    assert_eq!(find_last_char_before(&s, 9, 'a'), Some(7));
    assert_eq!(find_last_char_before(&s, 7, 'a'), Some(0));
    assert_eq!(find_last_char_before(&s, 0, 'a'), None);
    assert_eq!(find_last_char_before(&s, 9, 'x'), None);
    assert_eq!(find_trim_end(&s, 0, 4, &space), 2);
    assert_eq!(find_trim_end(&s, 2, 4, &space), 2);
    assert_eq!(find_trim_end(&s, 0, 6, &space), 6);
    assert_eq!(find_trim(&chars(" \u{a0}ab \t"), 0, 6), (2, 4));
    assert_eq!(find_trim(&chars("   "), 1, 3), (3, 3));
}

#[test]
fn tag_ends_respect_quotes() {
    assert_eq!(find_tag_end(&chars("<a href=\"x>y\">z"), 0), Some(13));
    assert_eq!(find_tag_end(&chars("<a b='>' c>"), 0), Some(10));
    assert_eq!(find_tag_end(&chars("<a"), 0), None);
    assert_eq!(find_tag_end(&chars("<a \"never closed>"), 0), None);
    assert_eq!(find_tag_end(&chars("x<>"), 1), Some(2));
    assert_eq!(find_tag_end(&chars(">>"), 0), Some(1));
    assert_eq!(find_tag_end(&chars("<a>"), 3), None);
    assert_eq!(find_tag_end(&chars("<a>"), usize::MAX), None);
    assert_eq!(find_tag_end(&chars("<\u{e9}\">\">"), 0), Some(5));
}

#[test]
fn tag_names_are_extracted() {
    assert_eq!(text(&extract_tag_name(&chars("div class=a"))), "div");
    assert_eq!(text(&extract_tag_name(&chars("/div"))), "div");
    assert_eq!(text(&extract_tag_name(&chars("// \u{a0}br/"))), "br");
    assert_eq!(text(&extract_tag_name(&chars("Script\n"))), "Script");
    assert_eq!(text(&extract_tag_name(&chars(" /x"))), "");
    assert_eq!(text(&extract_tag_name(&chars(""))), "");
}

#[test]
fn attribute_values_are_found() {
    let s = chars("rel = \"a b\" x='c' y=d>e z=\"open");
    assert_eq!(find_after_equals(&s, 3), Some(6));
    assert_eq!(find_after_equals(&s, 0), None);
    let stop = CharSet::of(Space::Ascii, vec!['>']);
    assert_eq!(find_value(&s, 6, &stop), (7, 10));
    assert_eq!(find_value(&s, 14, &stop), (15, 16));
    assert_eq!(find_value(&s, 20, &stop), (20, 21));
    assert_eq!(find_value(&s, 26, &stop), (27, 31));
    assert_eq!(find_value(&s, 31, &stop), (31, 31));
}

#[test]
fn stylesheet_links_are_recognized() {
    assert!(is_stylesheet_link(&chars("link rel=\"stylesheet\" href=x")));
    assert!(is_stylesheet_link(&chars("link REL = ' StyleSheet '")));
    assert!(is_stylesheet_link(&chars("link rel=stylesheet")));
    assert!(!is_stylesheet_link(&chars("link rel=\"stylesheet alternate\"")));
    assert!(!is_stylesheet_link(&chars("link rel=\"icon\"")));
    assert!(!is_stylesheet_link(&chars("link rel")));
    assert!(!is_stylesheet_link(&chars("link href=x")));
    // Only the first `rel` counts, wherever it stands.
    assert!(!is_stylesheet_link(&chars("link href=\"rel\" rel=stylesheet")));
}

#[test]
fn event_handlers_are_stripped() {
    let strip = |s: &str| text(&strip_event_handlers(&chars(s)));
    assert_eq!(strip("<img src=x onerror=\"a b\" alt=y>"), "<img src=x alt=y>");
    assert_eq!(strip("<a ONCLICK = 'x' href=y>"), "<a href=y>");
    assert_eq!(strip("<a onclick>"), "<a>");
    assert_eq!(strip("<a onclick=x/>"), "<a>");
    assert_eq!(strip("<a  on=1   onx   b >"), "<a  on=1   b >");
    assert_eq!(strip("<a on1=x on_y=z>"), "<a on1=x on_y=z>");
    // Inside a quoted value nothing is an attribute.
    assert_eq!(strip("<a href=\" onx\">"), "<a href=\" onx\">");
    assert_eq!(strip("<p>"), "<p>");
    assert_eq!(strip("</p onx=1>"), "</p>");
    assert_eq!(strip("<a b=\"1\"onx=2>"), "<a b=\"1\"onx=2>");
    assert_eq!(strip("<a onx=\"never closed>"), "<a");
}

#[test]
fn closing_tags_are_found() {
    let skip = |html: &str, pos: usize, name: &str| {
        let html = chars(html);
        let lower = to_ascii_lower(&html);
        skip_until_close_tag(&html, &lower, pos, &chars(name))
    };
    assert_eq!(skip("<script>ab</script>c", 8, "script"), 19);
    assert_eq!(skip("<script>ab</SCRIPT >c", 8, "script"), 20);
    assert_eq!(skip("<script>ab</scripts>c", 8, "script"), 21);
    assert_eq!(skip("<script>ab", 8, "script"), 10);
    // Nested elements of the same name are counted.
    assert_eq!(skip("<form><form>a</form>b</form>c", 6, "form"), 28);
    assert_eq!(skip("<form><form/>a</form>b", 6, "form"), 22);
    // A closing tag without `>` stops the scan where it stands.
    assert_eq!(skip("<script>ab</script ", 8, "script"), 10);
    assert!(stripped_element(&chars("script")));
    assert!(stripped_element(&chars("textarea")));
    assert!(!stripped_element(&chars("Script")));
    assert!(!stripped_element(&chars("div")));
    assert_eq!(advance_past(3, 7), 7);
    assert_eq!(advance_past(7, 3), 7);
    assert_eq!(text(&sanitize_chars(&chars("a<b onx=1>c"))), "a<b>c");
}
