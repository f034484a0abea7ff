use codex2api_desktop::env::{configured_port, normalize_path, parse_port, render_default_env, DEFAULT_PORT};

const NOTE: &str = "# 说明：桌面版默认使用本地 SQLite 文件，必要时可自行修改为其他配置。";

#[test]
fn port_is_read_from_its_line() {
    assert_eq!(parse_port("CODEX_PORT=9000"), Some(9000));
    assert_eq!(parse_port("A=1\nCODEX_PORT=9000\nB=2\n"), Some(9000));
}

#[test]
fn port_line_is_trimmed() {
    assert_eq!(parse_port("   CODEX_PORT=  8081  \r\n"), Some(8081));
    assert_eq!(parse_port("\tCODEX_PORT=8082\u{3000}"), Some(8082));
}

#[test]
fn commented_port_is_skipped() {
    assert_eq!(parse_port("# CODEX_PORT=1\nCODEX_PORT=2\n"), Some(2));
    assert_eq!(parse_port("#CODEX_PORT=1"), None);
}

#[test]
fn first_valid_port_wins() {
    assert_eq!(parse_port("CODEX_PORT=abc\nCODEX_PORT=7000\nCODEX_PORT=7001"), Some(7000));
    assert_eq!(parse_port("CODEX_PORT=1\nCODEX_PORT=2"), Some(1));
}

#[test]
fn invalid_ports_are_rejected() {
    assert_eq!(parse_port("CODEX_PORT=70000"), None);
    assert_eq!(parse_port("CODEX_PORT=65536"), None);
    assert_eq!(parse_port("CODEX_PORT=-1"), None);
    assert_eq!(parse_port("CODEX_PORT="), None);
    assert_eq!(parse_port("CODEX_PORT=+"), None);
    assert_eq!(parse_port("CODEX_PORT==80"), None);
    assert_eq!(parse_port("CODEX_PORT = 80"), None);
    assert_eq!(parse_port("codex_port=80"), None);
    assert_eq!(parse_port(""), None);
}

#[test]
fn port_edge_values() {
    assert_eq!(parse_port("CODEX_PORT=+80"), Some(80));
    assert_eq!(parse_port("CODEX_PORT=0"), Some(0));
    assert_eq!(parse_port("CODEX_PORT=65535"), Some(65535));
    assert_eq!(parse_port("CODEX_PORT=000000000080"), Some(80));
    assert_eq!(parse_port("CODEX_PORT=8 0"), None);
}

#[test]
fn default_port_applies() {
    assert_eq!(DEFAULT_PORT, 8080);
    assert_eq!(configured_port(None), 8080);
    assert_eq!(configured_port(Some("FOO=1\n")), 8080);
    assert_eq!(configured_port(Some("CODEX_PORT=x")), 8080);
    assert_eq!(configured_port(Some("CODEX_PORT=3000")), 3000);
}

#[test]
fn written_port_reads_back() {
    for p in [0u16, 1, 9, 10, 99, 100, 8080, 9999, 10000, 65535] {
        let content = format!("CODEX_PORT={}", p);
        assert_eq!(parse_port(&content), Some(p));
    }
}

#[test]
fn path_backslashes_become_slashes() {
    assert_eq!(normalize_path("C:\\Users\\me\\AppData\\server\\codex2api.db"), "C:/Users/me/AppData/server/codex2api.db");
    assert_eq!(normalize_path("/home/me/server/codex2api.db"), "/home/me/server/codex2api.db");
    assert_eq!(normalize_path(""), "");
    let once = normalize_path("a\\b\\\\c");
    assert_eq!(once, "a/b//c");
    assert_eq!(normalize_path(&once), once);
}

#[test]
fn database_path_line_is_replaced() {
    let out = render_default_env("A=1\nDATABASE_PATH=old.db\nB=2\n", "C:\\data\\codex2api.db");
    assert_eq!(out, format!("A=1\nDATABASE_PATH=C:/data/codex2api.db\nB=2\n\n{}", NOTE));
}

#[test]
fn every_database_path_line_is_replaced() {
    let out = render_default_env("DATABASE_PATH=a\nDATABASE_PATH=b", "/x.db");
    assert_eq!(out, format!("DATABASE_PATH=/x.db\nDATABASE_PATH=/x.db\n\n{}", NOTE));
}

#[test]
fn missing_database_path_is_appended() {
    let out = render_default_env("A=1\r\nB=2\r\n", "/srv/codex2api.db");
    assert_eq!(out, format!("A=1\nB=2\nDATABASE_PATH=/srv/codex2api.db\n\n{}", NOTE));
}

#[test]
fn indented_database_path_is_not_a_setting() {
    let out = render_default_env("  DATABASE_PATH=old", "/d.db");
    assert_eq!(out, format!("  DATABASE_PATH=old\nDATABASE_PATH=/d.db\n\n{}", NOTE));
}

#[test]
fn empty_template_gets_database_path() {
    let out = render_default_env("", "/d.db");
    assert_eq!(out, format!("DATABASE_PATH=/d.db\n\n{}", NOTE));
}

#[test]
fn generated_env_keeps_template_port() {
    let template = "CODEX_PORT=9100\nDATABASE_PATH=./data.db\nADMIN_SECRET=changeme\n";
    let out = render_default_env(template, "C:\\app\\server\\codex2api.db");
    assert_eq!(parse_port(&out), Some(9100));
    assert_eq!(parse_port(&render_default_env("A=1", "/d.db")), None);
}

#[test]
fn appended_text_never_changes_the_port() {
    for (content, more) in [
        ("CODEX_PORT=9000", "CODEX_PORT=1"),
        ("A=1\nCODEX_PORT=9000\r", "CODEX_PORT=2\nB"),
        ("CODEX_PORT=x\nCODEX_PORT=9000\n", ""),
    ] {
        assert_eq!(parse_port(content), Some(9000));
        assert_eq!(parse_port(&format!("{}\n{}", content, more)), Some(9000));
    }
}
