use bini_server::ports::{no_free_port, port_notice, PortSearch};

fn tried(start: u16) -> Vec<u16> {
    let mut search = PortSearch::new(start);
    let mut ports = Vec::new();
    while let Some(port) = search.current() {
        ports.push(port);
        search.refused();
    }
    assert_eq!(search.start(), start);
    ports
}

#[test]
fn search_tries_a_hundred_ports() {
    let expected: Vec<u16> = (3000..=3099).collect();
    assert_eq!(tried(3000), expected);
    assert_eq!(tried(0).len(), 100);
}

#[test]
fn search_ends_with_the_last_port() {
    let expected: Vec<u16> = (65500..=65535).collect();
    assert_eq!(tried(65500), expected);
    assert_eq!(tried(65535), vec![65535]);
    assert_eq!(tried(65436).len(), 100);
    assert_eq!(tried(65437).len(), 99);
}

#[test]
fn other_port_is_announced() {
    assert_eq!(port_notice(3000, 3000), None);
    assert_eq!(
        port_notice(3000, 3001),
        Some("\n  \u{1b}[33m⚠\u{1b}[0m  Port 3000 in use — using 3001 instead.\n".to_string())
    );
}

#[test]
fn failed_search_names_its_range() {
    assert_eq!(no_free_port(3000), "No free port found in range 3000–3099");
    assert_eq!(no_free_port(65500), "No free port found in range 65500–65535");
}
