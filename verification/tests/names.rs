use metrics_dashboard::names::{name_equal, name_less};

#[test]
fn test_name_less_is_the_byte_order() {
    assert!(name_less("a", "b"));
    assert!(!name_less("b", "a"));
    assert!(!name_less("a", "a"));
    assert!(name_less("", "a"));
    assert!(!name_less("a", ""));
    assert!(!name_less("", ""));
    assert!(name_less("a", "ab"));
    assert!(!name_less("ab", "a"));
    assert!(name_less("Z", "a"));
    assert!(name_less("a_counter", "m_counter"));
    assert!(name_less("z", "é"));
    assert!(name_less("é", "日本"));
}

#[test]
fn test_name_less_agrees_with_the_string_order() {
    let names = ["", "a", "A", "ab", "abc", "b", "é", "e", "日本", "z_counter", "a_counter"];
    for a in names {
        for b in names {
            assert_eq!(name_less(a, b), a < b);
            assert_eq!(name_equal(a, b), a == b);
        }
    }
}

#[test]
fn test_name_equal() {
    assert!(name_equal("", ""));
    assert!(name_equal("http_requests_total", "http_requests_total"));
    assert!(!name_equal("a", "A"));
    assert!(!name_equal("a", "ab"));
    assert!(!name_equal("ab", "a"));
    assert!(!name_equal("ab", "ac"));
}
