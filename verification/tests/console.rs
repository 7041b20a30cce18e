use bini_server::console::{join, keyboard_loop, local_url, print_banner, KeyAction, KeyEvent};

fn line(text: &str) -> KeyAction {
    keyboard_loop(3000, &KeyEvent::Line(text.to_string()))
}

#[test]
fn banner_has_all_its_lines() {
    let env_files = vec![".env".to_string(), ".env.local".to_string()];
    let ip = Some("192.168.1.5".to_string());
    let expected = "\n  \u{1b}[1m\u{1b}[36mß Bini.js\u{1b}[0m  (production)\n\
        \u{20} \u{1b}[32m➜\u{1b}[0m  Environments: .env, .env.local\n\
        \u{20} \u{1b}[32m➜\u{1b}[0m  Local:   \u{1b}[36mhttp://localhost:3000/\u{1b}[0m\n\
        \u{20} \u{1b}[32m➜\u{1b}[0m  Network: \u{1b}[36mhttp://192.168.1.5:3000/\u{1b}[0m\n\
        \u{20} \u{1b}[32m➜\u{1b}[0m  \u{1b}[2mpress \u{1b}[0mh\u{1b}[2m + \u{1b}[0menter\u{1b}[2m to show help\u{1b}[0m\n\n";
    assert_eq!(print_banner(&env_files, 3000, &ip), expected);
}

#[test]
fn banner_leaves_out_what_there_is_not() {
    let banner = print_banner(&vec![], 8080, &None);
    assert!(!banner.contains("Environments"));
    assert!(!banner.contains("Network"));
    assert!(banner.contains("Local:   \u{1b}[36mhttp://localhost:8080/\u{1b}[0m\n"));
}

#[test]
fn texts_are_joined() {
    let parts = vec!["a".to_string(), "b".to_string(), "c".to_string()];
    assert_eq!(join(&parts, ", "), "a, b, c");
    assert_eq!(join(&vec![], ", "), "");
    assert_eq!(local_url(65535), "http://localhost:65535/");
}

#[test]
fn help_key_shows_the_shortcuts() {
    match line("h") {
        KeyAction::Show(text) => assert_eq!(
            text,
            "\n  Shortcuts\n  \u{1b}[2mpress \u{1b}[0mo\u{1b}[2m + \u{1b}[0menter\u{1b}[2m to open in browser\u{1b}[0m\n  \u{1b}[2mpress \u{1b}[0mq\u{1b}[2m + \u{1b}[0menter\u{1b}[2m to quit\u{1b}[0m\n\n"
        ),
        _ => panic!("no help"),
    }
}

#[test]
fn other_keys_open_quit_or_do_nothing() {
    assert!(matches!(line(" o \r"), KeyAction::Open(url) if url == "http://localhost:3000/"));
    assert!(matches!(line("q"), KeyAction::Exit));
    for text in ["", "H", "hh", "quit", "o o"] {
        assert!(matches!(line(text), KeyAction::Ignore));
    }
}

#[test]
fn end_of_input_and_interrupt_stop_the_reading_only() {
    assert!(matches!(keyboard_loop(1, &KeyEvent::Closed), KeyAction::StopReading));
    assert!(matches!(keyboard_loop(1, &KeyEvent::Interrupted), KeyAction::StopReading));
}
