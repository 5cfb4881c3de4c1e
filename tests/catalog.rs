use librarylink::catalog::{
    collect_apps, contains_chars, lex_le_exec, list_start_apps, name_admits, parse_app_line, sort_apps,
    split_at_tab, AppEntry,
};

fn pairs(apps: &[AppEntry]) -> Vec<(&str, &str)> {
    apps.iter().map(|a| (a.name.as_str(), a.aumid.as_str())).collect()
}

#[test]
fn line_with_tab_is_an_entry() {
    let e = parse_app_line("Calculator\tMicrosoft.WindowsCalculator_8wekyb3d8bbwe!App").unwrap();
    assert_eq!(e.name, "Calculator");
    assert_eq!(e.aumid, "Microsoft.WindowsCalculator_8wekyb3d8bbwe!App");
}

#[test]
fn entry_fields_are_trimmed() {
    let e = parse_app_line("  Forza Horizon  \t  Microsoft.Forza!App  ").unwrap();
    assert_eq!(e.name, "Forza Horizon");
    assert_eq!(e.aumid, "Microsoft.Forza!App");
}

#[test]
fn line_without_tab_or_aumid_is_skipped() {
    assert!(parse_app_line("NoTabHere").is_none());
    assert!(parse_app_line("Desktop Program\t   ").is_none());
    assert!(parse_app_line("").is_none());
}

#[test]
fn only_first_tab_splits() {
    let e = parse_app_line("A\tB\tC").unwrap();
    assert_eq!(e.name, "A");
    assert_eq!(e.aumid, "B\tC");
}

#[test]
fn substring_search() {
    assert!(contains_chars("forza horizon", "horizon"));
    assert!(contains_chars("abc", ""));
    assert!(contains_chars("", ""));
    assert!(!contains_chars("abc", "abd"));
    assert!(!contains_chars("ab", "abc"));
}

#[test]
fn search_ignores_case() {
    assert!(name_admits("Forza Horizon 5", Some("FORZA")));
    assert!(!name_admits("Calculator", Some("forza")));
    assert!(name_admits("Calculator", None));
}

#[test]
fn code_point_order() {
    assert!(lex_le_exec("abc", "abd"));
    assert!(lex_le_exec("ab", "abc"));
    assert!(lex_le_exec("abc", "abc"));
    assert!(!lex_le_exec("b", "abc"));
    assert!(lex_le_exec("", ""));
}

#[test]
fn listing_is_filtered_in_order() {
    let out = "Zeta\tZ!App\r\nDesktop\t\r\n\r\nForza Horizon\tF!App\nforza motorsport\tM!App\n";
    let apps = collect_apps(out, Some("Forza"));
    assert_eq!(pairs(&apps), vec![("Forza Horizon", "F!App"), ("forza motorsport", "M!App")]);
    let all = collect_apps(out, None);
    assert_eq!(all.len(), 3);
}

#[test]
fn listing_is_sorted_ignoring_case() {
    let out = "zeta\tZ!App\nAlpha\tA!App\nbeta\tB!App\n";
    let apps = list_start_apps(out, None);
    assert_eq!(pairs(&apps), vec![("Alpha", "A!App"), ("beta", "B!App"), ("zeta", "Z!App")]);
}

#[test]
fn equal_names_keep_listing_order() {
    let out = "Mail\tM2!App\nCalendar\tC!App\nmail\tM1!App\n";
    let apps = list_start_apps(out, None);
    assert_eq!(pairs(&apps), vec![("Calendar", "C!App"), ("Mail", "M2!App"), ("mail", "M1!App")]);
}

#[test]
fn empty_listing_has_no_apps() {
    assert!(list_start_apps("", Some("x")).is_empty());
}

#[test]
fn split_at_first_tab() {
    assert_eq!(split_at_tab("Name\tId"), Some(("Name".to_string(), "Id".to_string())));
    assert_eq!(split_at_tab(" a \t b\tc"), Some((" a ".to_string(), " b\tc".to_string())));
    assert_eq!(split_at_tab("\t"), Some((String::new(), String::new())));
    assert_eq!(split_at_tab("no tab"), None);
    assert_eq!(split_at_tab(""), None);
}

#[test]
fn sort_keeps_order_of_equal_names() {
    let entry = |n: &str, a: &str| AppEntry { name: n.to_string(), aumid: a.to_string() };
    let apps = vec![entry("b", "1"), entry("A", "2"), entry("B", "3"), entry("a", "4"), entry("b", "5")];
    let sorted = sort_apps(apps);
    assert_eq!(pairs(&sorted), vec![("A", "2"), ("a", "4"), ("b", "1"), ("B", "3"), ("b", "5")]);
}

#[test]
fn unicode_white_space_is_trimmed() {
    let e = parse_app_line("\u{3000}\u{85}Name\u{A0}\tId\u{2003}\u{205F}").unwrap();
    assert_eq!(e.name, "Name");
    assert_eq!(e.aumid, "Id");
    assert!(parse_app_line("Name\t\u{2028}\u{200A}").is_none());
}
