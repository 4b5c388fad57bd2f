use loadbench::template::{u64_to_dec, RequestTemplate};

fn template(s: &str) -> RequestTemplate {
    RequestTemplate::new(s.to_string())
}

#[test]
fn decimal_rendering() {
    assert_eq!(u64_to_dec(0), "0");
    assert_eq!(u64_to_dec(7), "7");
    assert_eq!(u64_to_dec(10), "10");
    assert_eq!(u64_to_dec(123456789), "123456789");
    assert_eq!(u64_to_dec(u64::MAX), "18446744073709551615");
}

#[test]
fn render_replaces_placeholder() {
    let t = template("http://example.com/?v={C}");
    assert_eq!(t.render(3, 7), "http://example.com/?v=3_7");
    assert_eq!(t.render(0, 0), "http://example.com/?v=0_0");
}

#[test]
fn render_replaces_every_occurrence() {
    let t = template("a{C}b{C}");
    assert_eq!(t.render(1, 2), "a1_2b1_2");
}

#[test]
fn render_without_placeholder_is_identity() {
    let t = template("http://example.com/static");
    assert_eq!(t.render(5, 9), "http://example.com/static");
}

#[test]
fn render_nested_braces() {
    let t = template("{{C}}");
    assert_eq!(t.render(4, 2), "{4_2}");
}

#[test]
fn render_is_injective_over_pairs() {
    let t = template("http://example.com/?v={C}");
    let mut seen: Vec<String> = Vec::new();
    for w in 0..5u64 {
        for c in 0..5u64 {
            let url = t.render(w, c);
            assert!(!seen.contains(&url), "duplicate URL {}", url);
            seen.push(url);
        }
    }
    // Pairs that concatenate alike must still render apart.
    assert_ne!(t.render(1, 21), t.render(12, 1));
    assert_ne!(t.render(11, 2), t.render(1, 12));
}
