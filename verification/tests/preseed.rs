use debian_installer_builder::preseed::modify_preseed;

#[test]
fn test_modify_preseed_replaces_existing() {
    let original = "d-i passwd/username string olduser\nd-i netcfg/get_hostname string oldhost\n";
    let result = modify_preseed(original, Some("newuser"), None, Some("newhost"));
    assert!(result.contains("d-i passwd/username string newuser"));
    assert!(result.contains("d-i netcfg/get_hostname string newhost"));
    assert!(!result.contains("olduser"));
    assert!(!result.contains("oldhost"));
}

#[test]
fn test_modify_preseed_appends_missing() {
    let original = "d-i some/other/key boolean true\n";
    let result = modify_preseed(original, Some("newuser"), Some("pass123"), None);
    assert!(result.contains("d-i some/other/key boolean true"));
    assert!(result.contains("d-i passwd/username string newuser"));
    assert!(result.contains("d-i passwd/user-password password pass123"));
    assert!(result.contains("d-i passwd/user-password-again password pass123"));
}

#[test]
fn test_modify_preseed_no_overrides() {
    let original = "d-i passwd/username string root\n";
    let result = modify_preseed(original, None, None, None);
    assert_eq!(original, result);
}

#[test]
fn every_line_that_gives_a_setting_is_replaced_in_place() {
    let original = "\t d-i passwd/user-password password a\nkeep\n\
                    d-i passwd/user-password-again password b\n\
                    d-i passwd/user-password password c\n";
    assert_eq!(
        modify_preseed(original, None, Some("new"), None),
        "d-i passwd/user-password password new\nkeep\n\
         d-i passwd/user-password-again password new\n\
         d-i passwd/user-password password new\n"
    );
}

#[test]
fn missing_settings_are_appended_in_order() {
    assert_eq!(
        modify_preseed("", Some("u"), Some("p"), Some("h")),
        "d-i passwd/username string u\n\
         d-i passwd/user-password password p\n\
         d-i passwd/user-password-again password p\n\
         d-i netcfg/get_hostname string h\n"
    );
}

#[test]
fn one_password_line_does_not_stand_for_the_other() {
    assert_eq!(
        modify_preseed("d-i passwd/user-password-again password x\n", None, Some("p"), None),
        "d-i passwd/user-password-again password p\nd-i passwd/user-password password p\n"
    );
}

#[test]
fn settings_without_override_and_other_lines_stay() {
    let original = "# comment\n\nd-i passwd/username string root\n  d-i netcfg/get_hostname string h\n";
    assert_eq!(
        modify_preseed(original, Some("u"), None, None),
        "# comment\n\nd-i passwd/username string u\n  d-i netcfg/get_hostname string h\n"
    );
    assert_eq!(
        modify_preseed("#d-i passwd/username string x\n", Some("u"), None, None),
        "#d-i passwd/username string x\nd-i passwd/username string u\n"
    );
}

#[test]
fn a_key_is_known_by_what_the_line_starts_with() {
    assert_eq!(
        modify_preseed("d-i passwd/username stringent x\n", Some("u"), None, None),
        "d-i passwd/username string u\n"
    );
    assert_eq!(
        modify_preseed("d-i passwd/username  string x\n", Some("u"), None, None),
        "d-i passwd/username  string x\nd-i passwd/username string u\n"
    );
}

#[test]
fn line_endings_become_newlines() {
    assert_eq!(modify_preseed("a\r\nb", None, None, None), "a\nb\n");
    assert_eq!(modify_preseed("a\r\r\nb\r", None, None, None), "a\r\nb\r\n");
    assert_eq!(modify_preseed("\n\n", None, None, None), "\n\n");
    assert_eq!(modify_preseed("", None, None, None), "");
}

#[test]
fn any_white_space_before_a_key_is_skipped() {
    assert_eq!(
        modify_preseed("\u{3000}\u{a0}d-i netcfg/get_hostname string x\n", None, None, Some("h")),
        "d-i netcfg/get_hostname string h\n"
    );
    assert_eq!(
        modify_preseed("\u{200b}d-i netcfg/get_hostname string x\n", None, None, Some("h")),
        "\u{200b}d-i netcfg/get_hostname string x\nd-i netcfg/get_hostname string h\n"
    );
}

#[test]
fn overrides_take_effect() {
    let original = "x\nd-i passwd/username string a\ny\n d-i passwd/username string b";
    let result = modify_preseed(original, Some("\u{e4}\u{f6}"), None, None);
    let given: Vec<&str> = result
        .lines()
        .filter(|l| l.trim_start().starts_with("d-i passwd/username string"))
        .collect();
    assert_eq!(
        given,
        vec!["d-i passwd/username string \u{e4}\u{f6}", "d-i passwd/username string \u{e4}\u{f6}"]
    );
    assert_eq!(result.lines().next(), Some("x"));
    assert_eq!(result.lines().nth(2), Some("y"));
}

#[test]
fn later_overrides_replace_earlier_ones() {
    let original = "a\n d-i passwd/username string root\nb";
    let once = modify_preseed(original, Some("one"), Some("1"), None);
    let twice = modify_preseed(&once, Some("two"), Some("2"), None);
    assert_eq!(twice, modify_preseed(original, Some("two"), Some("2"), None));
    assert_eq!(once, modify_preseed(&once, Some("one"), Some("1"), None));
}

#[test]
fn without_overrides_only_line_endings_change() {
    for content in ["", "a", "a\n", "a\r\nb\n", "a\rb\r\r\n\r", "\r\n", "\n\n\r"] {
        let mut expected = content.replace("\r\n", "\n");
        if !expected.is_empty() && !expected.ends_with('\n') {
            expected.push('\n');
        }
        assert_eq!(modify_preseed(content, None, None, None), expected);
    }
}

#[test]
fn overrides_apply_one_at_a_time() {
    for content in [
        "",
        "x\n",
        "d-i netcfg/get_hostname string old\r\nx",
        "d-i passwd/user-password-again password o\n d-i passwd/username string o\ny\n",
    ] {
        let user = modify_preseed(content, Some("u"), None, None);
        let pass = modify_preseed(&user, None, Some("p"), None);
        let host = modify_preseed(&pass, None, None, Some("h"));
        assert_eq!(host, modify_preseed(content, Some("u"), Some("p"), Some("h")));
    }
}

#[test]
fn overrides_apply_in_any_order_where_lines_give_them() {
    let content = "d-i netcfg/get_hostname string a\nz\nd-i passwd/username string b\n";
    let host = modify_preseed(content, None, None, Some("h"));
    let user = modify_preseed(&host, Some("u"), None, None);
    assert_eq!(user, modify_preseed(content, Some("u"), None, Some("h")));
    assert_eq!(user, "d-i netcfg/get_hostname string h\nz\nd-i passwd/username string u\n");
}
