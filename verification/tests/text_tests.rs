use vmstart::text::{ends_with, first_segment_of, last_segment_of, split_at, str_equal, trim, trim_end};

#[test]
fn str_equal_compares_characters() {
    assert!(str_equal("vmx", "vmx"));
    assert!(!str_equal("vmx", "vmX"));
    assert!(!str_equal("vm", "vmx"));
    assert!(str_equal("", ""));
}

#[test]
fn ends_with_suffixes() {
    assert!(ends_with("ubuntu.vmx", ".vmx"));
    assert!(!ends_with("ubuntu.vmxf", ".vmx"));
    assert!(!ends_with("vmx", ".vmx"));
    assert!(ends_with(".alias", ".alias"));
    assert!(ends_with("anything", ""));
}

#[test]
fn first_segment_stops_at_first_dot() {
    assert_eq!(first_segment_of("web.server.alias", '.'), "web");
    assert_eq!(first_segment_of("noext", '.'), "noext");
    assert_eq!(first_segment_of(".alias", '.'), "");
}

#[test]
fn last_segment_starts_after_last_backslash() {
    assert_eq!(last_segment_of("C:\\vms\\ubuntu", '\\'), "ubuntu");
    assert_eq!(last_segment_of("plain", '\\'), "plain");
    assert_eq!(last_segment_of("trailing\\", '\\'), "");
    assert_eq!(last_segment_of("/home/u/vms/debian", '\\'), "/home/u/vms/debian");
}

#[test]
fn trim_removes_whitespace_at_both_ends() {
    assert_eq!(trim("  yes \n"), "yes");
    assert_eq!(trim("\t\r\n"), "");
    assert_eq!(trim("a b"), "a b");
    assert_eq!(trim("\u{3000}x\u{2003}"), "x");
    assert_eq!(trim("\u{a0}y\u{85}"), "y");
}

#[test]
fn trim_end_keeps_leading_whitespace() {
    assert_eq!(trim_end("  /vms,/other \n"), "  /vms,/other");
    assert_eq!(trim_end(""), "");
}

#[test]
fn split_at_separator() {
    assert_eq!(split_at("a,b,,c", ','), vec!["a", "b", "", "c"]);
    assert_eq!(split_at("", ','), vec![""]);
    assert_eq!(split_at("one", ','), vec!["one"]);
    assert_eq!(split_at(",", ','), vec!["", ""]);
}

#[test]
fn split_then_join_gives_back_text() {
    for s in ["a,b,,c", "", ",", "x", "/vms, /more,"] {
        assert_eq!(split_at(s, ',').join(","), s);
    }
}

#[test]
fn is_whitespace_agrees_with_std() {
    for code in 0u32..=0x10FFFF {
        if let Some(c) = char::from_u32(code) {
            assert_eq!(vmstart::text::is_whitespace(c), c.is_whitespace(), "{:#x}", code);
        }
    }
}
