use codex2api_desktop::json::{navigate_script, status_script};
use codex2api_desktop::status::{status_payload, StatusKind};

#[test]
fn navigate_script_quotes_url() {
    assert_eq!(
        navigate_script("http://127.0.0.1:8080/admin/"),
        "window.location.replace(\"http://127.0.0.1:8080/admin/\");"
    );
}

#[test]
fn navigate_script_escapes() {
    assert_eq!(
        navigate_script("a\"b\\c\nd\te\u{1}f\u{8}\u{c}\r\u{7f}é/"),
        "window.location.replace(\"a\\\"b\\\\c\\nd\\te\\u0001f\\b\\f\\r\u{7f}é/\");"
    );
    assert_eq!(navigate_script(""), "window.location.replace(\"\");");
    assert_eq!(navigate_script("\u{1f}"), "window.location.replace(\"\\u001f\");");
}

#[test]
fn status_script_wraps_payload() {
    assert_eq!(
        status_script("{\"level\":\"pending\"}"),
        "window.dispatchEvent(new CustomEvent('desktop-status', { detail: {\"level\":\"pending\"} }));"
    );
}

#[test]
fn payload_texts_per_stage() {
    let p = status_payload(StatusKind::Ready, "/run", "/log/a.log", "http://127.0.0.1:8080/admin/");
    assert_eq!(p.title, "服务已就绪，即将进入管理后台");
    assert_eq!(p.message, "桌面壳已经确认本地服务健康，正在打开内嵌管理台。");
    assert_eq!(p.phase, "启动完成");
    assert_eq!(p.label, "服务已就绪");
    assert_eq!(p.level, "ready");
    assert_eq!(p.runtime_dir, "/run");
    assert_eq!(p.log_path, "/log/a.log");
    assert_eq!(p.admin_url, "http://127.0.0.1:8080/admin/");
}

#[test]
fn payload_levels() {
    let level = |k| status_payload(k, "", "", "").level;
    assert_eq!(level(StatusKind::Preparing), "pending");
    assert_eq!(level(StatusKind::Launching), "pending");
    assert_eq!(level(StatusKind::Waiting), "pending");
    assert_eq!(level(StatusKind::Crashed), "error");
    assert_eq!(level(StatusKind::TimedOut), "error");
    assert_eq!(level(StatusKind::Ready), "ready");
}

#[test]
fn payload_failure_texts() {
    let p = status_payload(StatusKind::TimedOut, "d", "l", "u");
    assert_eq!(p.title, "健康检查超时");
    assert_eq!(p.label, "启动超时");
    let p = status_payload(StatusKind::Crashed, "d", "l", "u");
    assert_eq!(p.message, "codex2api.exe 在完成健康检查前已退出，请查看日志文件定位问题。");
    let p = status_payload(StatusKind::Preparing, "d", "l", "u");
    assert_eq!(p.title, "准备桌面运行环境");
    assert_eq!(p.phase, "初始化中");
    let p = status_payload(StatusKind::Launching, "d", "l", "u");
    assert_eq!(p.title, "拉起本地 codex2api.exe");
    let p = status_payload(StatusKind::Waiting, "d", "l", "u");
    assert_eq!(p.phase, "健康检查中");
}
