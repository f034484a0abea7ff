use vstd::prelude::*;

verus! {

/// The stages of start-up that the start page shows.
#[derive(Clone, Copy, Debug, PartialEq, Eq, Structural)]
pub enum StatusKind {
    /// The runtime directory is ready; the default configuration is being written.
    Preparing,
    /// The backend process was started; the health check is awaited.
    Launching,
    /// The backend exited before it became healthy.
    Crashed,
    /// The backend answered the health check; the admin console opens.
    Ready,
    /// The health check has not passed yet.
    Waiting,
    /// The backend did not become healthy in time.
    TimedOut,
}

/// What the start page is sent for one status: the five texts of the stage and
/// where the backend runs.
pub struct StatusPayload {
    pub title: String,
    pub message: String,
    pub phase: String,
    pub label: String,
    pub level: String,
    pub runtime_dir: String,
    pub log_path: String,
    pub admin_url: String,
}

pub open spec fn status_title(kind: StatusKind) -> Seq<char> {
    match kind {
        StatusKind::Preparing => "准备桌面运行环境"@,
        StatusKind::Launching => "拉起本地 codex2api.exe"@,
        StatusKind::Crashed => "后端进程异常退出"@,
        StatusKind::Ready => "服务已就绪，即将进入管理后台"@,
        StatusKind::Waiting => "等待健康检查通过"@,
        StatusKind::TimedOut => "健康检查超时"@,
    }
}

pub open spec fn status_message(kind: StatusKind) -> Seq<char> {
    match kind {
        StatusKind::Preparing => "已创建本地运行目录，正在生成默认配置并启动后端。"@,
        StatusKind::Launching => "后端进程已启动，正在等待健康检查通过。"@,
        StatusKind::Crashed => "codex2api.exe 在完成健康检查前已退出，请查看日志文件定位问题。"@,
        StatusKind::Ready => "桌面壳已经确认本地服务健康，正在打开内嵌管理台。"@,
        StatusKind::Waiting => "桌面壳正在轮询 /health；首次运行若要初始化数据库，耗时会略长一些。"@,
        StatusKind::TimedOut => "桌面壳在设定时间内未等到后端就绪，请查看日志文件并确认配置是否有效。"@,
    }
}

pub open spec fn status_phase(kind: StatusKind) -> Seq<char> {
    match kind {
        StatusKind::Preparing => "初始化中"@,
        StatusKind::Launching => "启动后端"@,
        StatusKind::Crashed => "启动失败"@,
        StatusKind::Ready => "启动完成"@,
        StatusKind::Waiting => "健康检查中"@,
        StatusKind::TimedOut => "启动超时"@,
    }
}

pub open spec fn status_label(kind: StatusKind) -> Seq<char> {
    match kind {
        StatusKind::Preparing => "准备启动"@,
        StatusKind::Launching => "等待服务就绪"@,
        StatusKind::Crashed => "启动失败"@,
        StatusKind::Ready => "服务已就绪"@,
        StatusKind::Waiting => "等待服务响应"@,
        StatusKind::TimedOut => "启动超时"@,
    }
}

/// `error` for the two failures, `ready` once healthy, `pending` otherwise.
pub open spec fn status_level(kind: StatusKind) -> Seq<char> {
    match kind {
        StatusKind::Crashed | StatusKind::TimedOut => "error"@,
        StatusKind::Ready => "ready"@,
        _ => "pending"@,
    }
}

/// Whether the stage ends start-up, for good or ill.
pub open spec fn is_final_status(kind: StatusKind) -> bool {
    kind == StatusKind::Crashed || kind == StatusKind::TimedOut || kind == StatusKind::Ready
}

/// The payload for stage `kind` of the backend that runs in `runtime_dir`,
/// logs to `log_path` and serves its console at `admin_url`.
pub fn status_payload(kind: StatusKind, runtime_dir: &str, log_path: &str, admin_url: &str) -> (p:
    StatusPayload)
    ensures
        p.title@ == status_title(kind),
        p.message@ == status_message(kind),
        p.phase@ == status_phase(kind),
        p.label@ == status_label(kind),
        p.level@ == status_level(kind),
        p.runtime_dir@ == runtime_dir@,
        p.log_path@ == log_path@,
        p.admin_url@ == admin_url@,
{
    let (title, message, phase, label, level) = match kind {
        StatusKind::Preparing => (
            "准备桌面运行环境",
            "已创建本地运行目录，正在生成默认配置并启动后端。",
            "初始化中",
            "准备启动",
            "pending",
        ),
        StatusKind::Launching => (
            "拉起本地 codex2api.exe",
            "后端进程已启动，正在等待健康检查通过。",
            "启动后端",
            "等待服务就绪",
            "pending",
        ),
        StatusKind::Crashed => (
            "后端进程异常退出",
            "codex2api.exe 在完成健康检查前已退出，请查看日志文件定位问题。",
            "启动失败",
            "启动失败",
            "error",
        ),
        StatusKind::Ready => (
            "服务已就绪，即将进入管理后台",
            "桌面壳已经确认本地服务健康，正在打开内嵌管理台。",
            "启动完成",
            "服务已就绪",
            "ready",
        ),
        StatusKind::Waiting => (
            "等待健康检查通过",
            "桌面壳正在轮询 /health；首次运行若要初始化数据库，耗时会略长一些。",
            "健康检查中",
            "等待服务响应",
            "pending",
        ),
        StatusKind::TimedOut => (
            "健康检查超时",
            "桌面壳在设定时间内未等到后端就绪，请查看日志文件并确认配置是否有效。",
            "启动超时",
            "启动超时",
            "error",
        ),
    };
    StatusPayload {
        title: String::from_str(title),
        message: String::from_str(message),
        phase: String::from_str(phase),
        label: String::from_str(label),
        level: String::from_str(level),
        runtime_dir: String::from_str(runtime_dir),
        log_path: String::from_str(log_path),
        admin_url: String::from_str(admin_url),
    }
}


/// Each stage shows its own title, the polling stage says that it waits for the
/// health check, and the level tells the outcome: `ready` only for the ready
/// stage, `error` only for the two failures, `pending` for every other stage.
pub proof fn lemma_stage_texts_tell_stages_apart(k1: StatusKind, k2: StatusKind)
    ensures
        status_title(k1) == status_title(k2) ==> k1 == k2,
        status_title(StatusKind::Waiting) == "等待健康检查通过"@,
        status_label(StatusKind::Waiting) == "等待服务响应"@,
        status_level(k1) == "ready"@ <==> k1 == StatusKind::Ready,
        status_level(k1) == "error"@ <==> (k1 == StatusKind::Crashed || k1 == StatusKind::TimedOut),
        status_level(k1) == "pending"@ <==> !is_final_status(k1),
{
    reveal_strlit("准备桌面运行环境");
    reveal_strlit("拉起本地 codex2api.exe");
    reveal_strlit("后端进程异常退出");
    reveal_strlit("服务已就绪，即将进入管理后台");
    reveal_strlit("等待健康检查通过");
    reveal_strlit("健康检查超时");
    reveal_strlit("ready");
    reveal_strlit("error");
    reveal_strlit("pending");
    assert("准备桌面运行环境"@[0] != "后端进程异常退出"@[0]);
    assert("准备桌面运行环境"@[0] != "等待健康检查通过"@[0]);
    assert("后端进程异常退出"@[0] != "等待健康检查通过"@[0]);
    assert("ready"@[0] != "error"@[0]);
    assert("ready"@.len() != "pending"@.len());
    assert("error"@.len() != "pending"@.len());
    if status_title(k1) == status_title(k2) {
        match k1 {
            StatusKind::Preparing => {
                assert(status_title(k2)[0] == status_title(k1)[0]);
                assert(status_title(k2).len() == status_title(k1).len());
            },
            StatusKind::Crashed => {
                assert(status_title(k2)[0] == status_title(k1)[0]);
                assert(status_title(k2).len() == status_title(k1).len());
            },
            StatusKind::Waiting => {
                assert(status_title(k2)[0] == status_title(k1)[0]);
                assert(status_title(k2).len() == status_title(k1).len());
            },
            _ => {
                assert(status_title(k2).len() == status_title(k1).len());
            },
        }
    }
}

} // verus!
