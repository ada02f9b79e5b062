use fox_tools::ports::{PortInfo, PortKind};
use fox_tools::registry::{list_error_text, PortRegistry};

fn ports(names: &[&str]) -> Vec<PortInfo> {
    names.iter().map(|n| PortInfo { name: n.to_string(), kind: PortKind::Unknown }).collect()
}

/// Runs one scan, and gives the names about which the user is asked.
fn scan(registry: &mut PortRegistry, listed: &[&str], accepts: fn(&str) -> bool) -> Vec<String> {
    let listed = ports(listed);
    let mut asked = Vec::new();
    let mut from = 0;
    while let Some(i) = registry.next_prompt(&listed, from) {
        let name = listed[i].name.clone();
        assert_eq!(registry.answered(&name, accepts(&name)), accepts(&name));
        asked.push(name);
        from = i + 1;
    }
    asked
}

#[test]
fn a_scan_asks_about_each_new_port_once() {
    let mut registry = PortRegistry::new();
    let asked = scan(&mut registry, &["a", "b", "a", "c"], |n| n != "b");
    assert_eq!(asked, ["a", "b", "c"]);
    assert!(scan(&mut registry, &["c", "b", "a"], |_| true).is_empty());
    assert_eq!(scan(&mut registry, &["b", "d"], |_| true), ["d"]);
}

#[test]
fn ended_sessions_are_asked_about_again() {
    let mut registry = PortRegistry::new();
    scan(&mut registry, &["a", "b"], |n| n == "a");
    registry.session_ended("a");
    assert!(registry.needs_prompt("a"));
    assert!(!registry.needs_prompt("b"));
    registry.session_ended("b");
    assert!(!registry.needs_prompt("b"));
    registry.session_ended("never seen");
    assert!(registry.needs_prompt("never seen"));
    assert_eq!(scan(&mut registry, &["a", "b"], |_| false), ["a"]);
    assert!(!registry.needs_prompt("a"));
}

#[test]
fn an_accepted_port_is_not_asked_about_until_it_ends() {
    let mut registry = PortRegistry::new();
    assert_eq!(scan(&mut registry, &["a"], |_| true), ["a"]);
    assert_eq!(scan(&mut registry, &["a", "b", "c"], |n| n == "b"), ["b", "c"]);
    registry.session_ended("b");
    assert_eq!(scan(&mut registry, &["b", "a"], |_| false), ["b"]);
    assert!(!registry.needs_prompt("a"));
    registry.session_ended("a");
    assert!(registry.needs_prompt("a"));
}

#[test]
fn the_search_for_a_prompt_starts_where_it_is_told() {
    let registry = PortRegistry::new();
    let listed = ports(&["a", "b"]);
    assert_eq!(registry.next_prompt(&listed, 0), Some(0));
    assert_eq!(registry.next_prompt(&listed, 1), Some(1));
    assert_eq!(registry.next_prompt(&listed, 2), None);
    assert_eq!(registry.next_prompt(&listed, 9), None);
}

#[test]
fn listing_failures_are_told() {
    assert_eq!(list_error_text("denied"), "枚举串口失败：denied");
}
