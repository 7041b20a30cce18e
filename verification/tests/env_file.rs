use bini_server::env_file::{
    detect_env_files, env_files, load_env, parse_env_file, parse_env_line,
};
use bini_server::settings::Vars;

fn pair(name: &str, value: &str) -> (String, String) {
    (name.to_string(), value.to_string())
}

#[test]
fn environment_files_have_their_order() {
    assert_eq!(env_files(), vec![".env", ".env.local", ".env.production", ".env.development"]);
}

#[test]
fn existing_environment_files_are_named() {
    assert_eq!(detect_env_files(&[false; 4]), Vec::<String>::new());
    assert_eq!(detect_env_files(&[true, false, false, true]), vec![".env", ".env.development"]);
    assert_eq!(detect_env_files(&[true; 4]).len(), 4);
}

#[test]
fn lines_define_variables() {
    assert_eq!(parse_env_line("PORT=3000"), Some(pair("PORT", "3000")));
    assert_eq!(parse_env_line("  A =  b c \r"), Some(pair("A", "b c")));
    assert_eq!(parse_env_line("A=b=c"), Some(pair("A", "b=c")));
    assert_eq!(parse_env_line("A="), Some(pair("A", "")));
    assert_eq!(parse_env_line("=b"), Some(pair("", "b")));
    assert_eq!(parse_env_line("A=\"b\""), Some(pair("A", "b")));
    assert_eq!(parse_env_line("A='b'"), Some(pair("A", "b")));
    assert_eq!(parse_env_line("A=\"'b'\""), Some(pair("A", "b")));
    assert_eq!(parse_env_line("A='\"b\"'"), Some(pair("A", "\"b\"")));
    assert_eq!(parse_env_line("A=\" b \""), Some(pair("A", " b ")));
}

#[test]
fn trailing_comments_are_dropped() {
    assert_eq!(parse_env_line("A=b # c"), Some(pair("A", "b")));
    assert_eq!(parse_env_line("A=b\t#c # d"), Some(pair("A", "b")));
    assert_eq!(parse_env_line("A=b c  # d=e"), Some(pair("A", "b c")));
    assert_eq!(parse_env_line("A= # c"), Some(pair("A", "")));
    assert_eq!(parse_env_line("A=b #"), Some(pair("A", "b")));
}

#[test]
fn other_hashes_stay() {
    assert_eq!(parse_env_line("A=b#c"), Some(pair("A", "b#c")));
    assert_eq!(parse_env_line("A=#fff"), Some(pair("A", "#fff")));
    assert_eq!(parse_env_line("A=b#c # d"), Some(pair("A", "b#c")));
    assert_eq!(parse_env_line("A=\"b # c\""), Some(pair("A", "b # c")));
    assert_eq!(parse_env_line("A= 'b # c'"), Some(pair("A", "b # c")));
}

#[test]
fn configured_directories_may_be_commented() {
    let mut env = Vars::new();
    let contents = "BINI_API_DIR=src/api        # default: src/app/api\n\
        BINI_DIST_DIR=build         # default: dist\n";
    let sets = load_env(&mut env, &vec![Some(contents.to_string()), None, None, None]);
    assert_eq!(sets, vec![pair("BINI_API_DIR", "src/api"), pair("BINI_DIST_DIR", "build")]);
    assert_eq!(env.get("BINI_API_DIR"), Some("src/api".to_string()));
    assert_eq!(env.get("BINI_DIST_DIR"), Some("build".to_string()));
}

#[test]
fn other_lines_define_nothing() {
    for line in ["", "   ", "\r", "# A=b", "  #A=b", "A", "export A"] {
        assert_eq!(parse_env_line(line), None, "{:?}", line);
    }
}

#[test]
fn file_is_read_line_by_line() {
    let contents = "# settings\r\nPORT=3000\r\n\r\nSMTP_USER=user@smtp.example.com\nnothing\nA='x'";
    assert_eq!(
        parse_env_file(contents),
        vec![pair("PORT", "3000"), pair("SMTP_USER", "user@smtp.example.com"), pair("A", "x")]
    );
    assert_eq!(parse_env_file(""), Vec::new());
    assert_eq!(parse_env_file("A=1\n"), vec![pair("A", "1")]);
}

#[test]
fn real_variables_are_never_overwritten() {
    let mut env = Vars::new();
    env.set("PORT".to_string(), "9000".to_string());
    let files = vec![Some("PORT=1\nA=2".to_string())];
    assert_eq!(load_env(&mut env, &files), vec![pair("A", "2")]);
    assert_eq!(env.get("PORT"), Some("9000".to_string()));
    assert_eq!(env.get("A"), Some("2".to_string()));
}

#[test]
fn earlier_files_take_precedence() {
    let mut env = Vars::new();
    let files = vec![
        Some("A=1\nA=2".to_string()),
        None,
        Some("A=3\nB=4".to_string()),
        Some("B=5\nC=6".to_string()),
    ];
    assert_eq!(load_env(&mut env, &files), vec![pair("A", "1"), pair("B", "4"), pair("C", "6")]);
    assert_eq!(load_env(&mut env, &files), Vec::new());
    assert_eq!(env.get("B"), Some("4".to_string()));
}
