//! Supervisor of the external transcription server process.

use crate::text::{decimal, decimal_string};
use vstd::prelude::*;

verus! {

/// How the transcription server is invoked.
#[derive(Debug)]
pub struct ServerConfig {
    pub host: String,
    pub port: u16,
    pub thread_num: u8,
    pub model_dir: String,
    pub vad_dir: String,
}

/// The mathematical content of a [`ServerConfig`].
pub struct ServerConfigView {
    pub host: Seq<char>,
    pub port: u16,
    pub thread_num: u8,
    pub model_dir: Seq<char>,
    pub vad_dir: Seq<char>,
}

impl View for ServerConfig {
    type V = ServerConfigView;

    open spec fn view(&self) -> ServerConfigView {
        ServerConfigView {
            host: self.host@,
            port: self.port,
            thread_num: self.thread_num,
            model_dir: self.model_dir@,
            vad_dir: self.vad_dir@,
        }
    }
}

impl ServerConfigView {
    /// The configuration used until the caller supplies another: loopback
    /// host, port 10095, four worker threads and the stock model names.
    pub open spec fn initial() -> ServerConfigView {
        ServerConfigView {
            host: "127.0.0.1"@,
            port: 10095,
            thread_num: 4,
            model_dir: "iic/SenseVoiceSmall"@,
            vad_dir: "iic/speech_fsmn_vad_zh-cn-16k-common-onnx"@,
        }
    }
}

impl Default for ServerConfig {
    fn default() -> (config: ServerConfig)
        ensures
            config@ == ServerConfigView::initial(),
    {
        ServerConfig {
            host: String::from_str("127.0.0.1"),
            port: 10095,
            thread_num: 4,
            model_dir: String::from_str("iic/SenseVoiceSmall"),
            vad_dir: String::from_str("iic/speech_fsmn_vad_zh-cn-16k-common-onnx"),
        }
    }
}

impl Clone for ServerConfig {
    fn clone(&self) -> (copy: ServerConfig)
        ensures
            copy@ == self@,
    {
        ServerConfig {
            host: self.host.clone(),
            port: self.port,
            thread_num: self.thread_num,
            model_dir: self.model_dir.clone(),
            vad_dir: self.vad_dir.clone(),
        }
    }
}

/// What a non-blocking liveness poll of the recorded child process reported.
#[derive(Clone, Copy, Debug, PartialEq, Eq, Structural)]
pub enum ProcessPoll {
    /// The process has not exited.
    Running,
    /// The process has exited.
    Exited,
    /// The poll itself failed.
    Failed,
}

/// Why a supervisor operation failed.
#[derive(Debug, PartialEq, Eq)]
pub enum SupervisorError {
    /// The packaged resource directory could not be located.
    ResourceDirUnavailable,
    /// The server executable does not exist; carries its path as messages
    /// show it.
    BinaryNotFound(String),
    /// The primary model directory does not exist; carries its path as
    /// messages show it.
    ModelNotFound(String),
    /// The operating system could not create the process; carries its reason.
    Spawn(String),
    /// The kill signal could not be delivered; carries the reason.
    Termination(String),
}

/// The mathematical content of a [`SupervisorError`].
pub enum SupervisorErrorView {
    ResourceDirUnavailable,
    BinaryNotFound(Seq<char>),
    ModelNotFound(Seq<char>),
    Spawn(Seq<char>),
    Termination(Seq<char>),
}

impl View for SupervisorError {
    type V = SupervisorErrorView;

    open spec fn view(&self) -> SupervisorErrorView {
        match self {
            SupervisorError::ResourceDirUnavailable => SupervisorErrorView::ResourceDirUnavailable,
            SupervisorError::BinaryNotFound(path) => SupervisorErrorView::BinaryNotFound(path@),
            SupervisorError::ModelNotFound(path) => SupervisorErrorView::ModelNotFound(path@),
            SupervisorError::Spawn(reason) => SupervisorErrorView::Spawn(reason@),
            SupervisorError::Termination(reason) => SupervisorErrorView::Termination(reason@),
        }
    }
}

impl SupervisorErrorView {
    /// The text shown to the user for this error.
    pub open spec fn message(self) -> Seq<char> {
        match self {
            SupervisorErrorView::ResourceDirUnavailable => "无法获取资源目录"@,
            SupervisorErrorView::BinaryNotFound(shown) => "服务器可执行文件不存在: "@ + shown,
            SupervisorErrorView::ModelNotFound(shown) => "SenseVoice模型不存在: "@ + shown,
            SupervisorErrorView::Spawn(reason) => "启动服务器失败: "@ + reason,
            SupervisorErrorView::Termination(reason) => "停止服务器失败: "@ + reason,
        }
    }
}

impl SupervisorError {
    /// The text shown to the user for this error.
    pub fn message(&self) -> (text: String)
        ensures
            text@ == self@.message(),
    {
        match self {
            SupervisorError::ResourceDirUnavailable => String::from_str("无法获取资源目录"),
            SupervisorError::BinaryNotFound(shown) => {
                String::from_str("服务器可执行文件不存在: ").concat(shown.as_str())
            },
            SupervisorError::ModelNotFound(shown) => {
                String::from_str("SenseVoice模型不存在: ").concat(shown.as_str())
            },
            SupervisorError::Spawn(reason) => {
                String::from_str("启动服务器失败: ").concat(reason.as_str())
            },
            SupervisorError::Termination(reason) => {
                String::from_str("停止服务器失败: ").concat(reason.as_str())
            },
        }
    }
}

/// A successful status of the supervised server.
#[derive(Debug, PartialEq, Eq)]
pub enum ServerReport {
    /// A start was requested while the recorded process is alive.
    AlreadyRunning,
    /// The process was spawned; carries the service URL.
    Started(String),
    /// The process was killed and reaped.
    Stopped,
    /// A stop was requested while no process is recorded.
    NotRunning,
}

/// The mathematical content of a [`ServerReport`].
pub enum ServerReportView {
    AlreadyRunning,
    Started(Seq<char>),
    Stopped,
    NotRunning,
}

impl View for ServerReport {
    type V = ServerReportView;

    open spec fn view(&self) -> ServerReportView {
        match self {
            ServerReport::AlreadyRunning => ServerReportView::AlreadyRunning,
            ServerReport::Started(url) => ServerReportView::Started(url@),
            ServerReport::Stopped => ServerReportView::Stopped,
            ServerReport::NotRunning => ServerReportView::NotRunning,
        }
    }
}

impl ServerReportView {
    /// The text shown to the user for this status.
    pub open spec fn message(self) -> Seq<char> {
        match self {
            ServerReportView::AlreadyRunning => "服务器已在运行"@,
            ServerReportView::Started(url) => "FunASR服务器已启动: "@ + url,
            ServerReportView::Stopped => "服务器已停止"@,
            ServerReportView::NotRunning => "服务器未运行"@,
        }
    }
}

impl ServerReport {
    /// The text shown to the user for this status.
    pub fn message(&self) -> (text: String)
        ensures
            text@ == self@.message(),
    {
        match self {
            ServerReport::AlreadyRunning => String::from_str("服务器已在运行"),
            ServerReport::Started(url) => {
                String::from_str("FunASR服务器已启动: ").concat(url.as_str())
            },
            ServerReport::Stopped => String::from_str("服务器已停止"),
            ServerReport::NotRunning => String::from_str("服务器未运行"),
        }
    }
}

/// The service URL of a configuration: `http://<host>:<port>`.
pub open spec fn service_url(config: ServerConfigView) -> Seq<char> {
    "http://"@ + config.host + ":"@ + decimal(config.port as nat)
}

impl ServerConfig {
    /// The URL at which the server listens when started with this
    /// configuration.
    pub fn server_url(&self) -> (url: String)
        ensures
            url@ == service_url(self@),
    {
        let port = decimal_string(self.port as u32);
        String::from_str("http://").concat(self.host.as_str()).concat(":").concat(port.as_str())
    }
}

/// Where the packaged server lives.
pub struct ServerPaths {
    /// Path of the server executable.
    pub server_path: String,
    /// Directory that holds the model directories.
    pub models_path: String,
}

/// What the caller observed just before a start request.
pub struct LaunchProbe {
    /// Liveness of the recorded process; ignored when none is recorded.
    pub poll: ProcessPoll,
    /// Whether the server executable exists.
    pub server_exists: bool,
    /// The path of the server executable as messages show it: quoted and
    /// escaped.
    pub server_shown: String,
    /// The resolved primary model directory.
    pub model_path: String,
    /// The resolved primary model directory as messages show it: quoted and
    /// escaped.
    pub model_shown: String,
    /// Whether the primary model directory exists.
    pub model_exists: bool,
    /// The resolved voice-activity-detection model directory.
    pub vad_path: String,
    /// Whether the voice-activity-detection model directory exists.
    pub vad_exists: bool,
}

/// The mathematical content of a [`LaunchProbe`].
pub struct LaunchProbeView {
    pub poll: ProcessPoll,
    pub server_exists: bool,
    pub server_shown: Seq<char>,
    pub model_path: Seq<char>,
    pub model_shown: Seq<char>,
    pub model_exists: bool,
    pub vad_path: Seq<char>,
    pub vad_exists: bool,
}

impl View for LaunchProbe {
    type V = LaunchProbeView;

    open spec fn view(&self) -> LaunchProbeView {
        LaunchProbeView {
            poll: self.poll,
            server_exists: self.server_exists,
            server_shown: self.server_shown@,
            model_path: self.model_path@,
            model_shown: self.model_shown@,
            model_exists: self.model_exists,
            vad_path: self.vad_path@,
            vad_exists: self.vad_exists,
        }
    }
}

/// A process to spawn: the program and its arguments, in order.
#[derive(Debug, PartialEq, Eq)]
pub struct LaunchCommand {
    pub program: String,
    pub args: Vec<String>,
}

/// The mathematical content of a [`LaunchCommand`].
pub struct LaunchCommandView {
    pub program: Seq<char>,
    pub args: Seq<Seq<char>>,
}

impl View for LaunchCommand {
    type V = LaunchCommandView;

    open spec fn view(&self) -> LaunchCommandView {
        LaunchCommandView { program: self.program@, args: self.args.deep_view() }
    }
}

/// What a start request asks of the caller.
#[derive(Debug, PartialEq, Eq)]
pub enum StartStep {
    /// Nothing to do; the request is answered.
    Done(ServerReport),
    /// Spawn this process with piped output, then report the outcome with
    /// [`ServerManager::spawn_finished`].
    Spawn(LaunchCommand),
}

/// The mathematical content of a [`StartStep`].
pub enum StartStepView {
    Done(ServerReportView),
    Spawn(LaunchCommandView),
}

impl View for StartStep {
    type V = StartStepView;

    open spec fn view(&self) -> StartStepView {
        match self {
            StartStep::Done(report) => StartStepView::Done(report@),
            StartStep::Spawn(command) => StartStepView::Spawn(command@),
        }
    }
}

/// What a stop request asks of the caller.
#[derive(Debug, PartialEq, Eq)]
pub enum StopStep {
    /// Nothing to do; the request is answered.
    Done(ServerReport),
    /// Kill the process and, if the signal was delivered, wait for it to
    /// exit and only then drop the handle; keep the handle if it was not.
    /// Report the outcome of the kill with [`ServerManager::kill_finished`].
    Kill,
}

/// The mathematical content of a [`StopStep`].
pub enum StopStepView {
    Done(ServerReportView),
    Kill,
}

impl View for StopStep {
    type V = StopStepView;

    open spec fn view(&self) -> StopStepView {
        match self {
            StopStep::Done(report) => StopStepView::Done(report@),
            StopStep::Kill => StopStepView::Kill,
        }
    }
}

/// What a restart request asks of the caller.
#[derive(Clone, Copy, Debug, PartialEq, Eq, Structural)]
pub enum RestartPlan {
    /// The process is alive: kill it as for a stop, report the outcome with
    /// [`ServerManager::restart_killed`] and go on as that says.
    StopThenStart,
    /// No live process: start at once.
    StartDirectly,
}

/// A snapshot of the supervisor.
#[derive(Debug)]
pub struct ServerStatus {
    pub running: bool,
    pub server_url: String,
    pub config: ServerConfig,
}

/// The mathematical content of a [`ServerStatus`].
pub struct ServerStatusView {
    pub running: bool,
    pub server_url: Seq<char>,
    pub config: ServerConfigView,
}

impl View for ServerStatus {
    type V = ServerStatusView;

    open spec fn view(&self) -> ServerStatusView {
        ServerStatusView {
            running: self.running,
            server_url: self.server_url@,
            config: self.config@,
        }
    }
}

/// Milliseconds a restart waits between a successful stop and the start.
pub const RESTART_SETTLE_MILLIS: u64 = 1000;

/// The arguments of the server process: model directory, host, port and
/// thread count, followed by the voice-activity-detection directory when it
/// exists.
pub open spec fn launch_arguments(config: ServerConfigView, probe: LaunchProbeView) -> Seq<
    Seq<char>,
> {
    let base = seq![
        "--model-dir"@,
        probe.model_path,
        "--host"@,
        config.host,
        "--port"@,
        decimal(config.port as nat),
        "--thread-num"@,
        decimal(config.thread_num as nat),
    ];
    if probe.vad_exists {
        base + seq!["--vad-dir"@, probe.vad_path]
    } else {
        base
    }
}

/// The supervisor's state: whether a child process handle is recorded, where
/// the server lives and how it is invoked.
pub struct SupervisorView {
    pub process_recorded: bool,
    pub server_path: Seq<char>,
    pub models_path: Seq<char>,
    pub config: ServerConfigView,
}

impl SupervisorView {
    /// A fresh supervisor for the given paths.
    pub open spec fn initial(server_path: Seq<char>, models_path: Seq<char>) -> SupervisorView {
        SupervisorView {
            process_recorded: false,
            server_path,
            models_path,
            config: ServerConfigView::initial(),
        }
    }

    /// Whether the recorded process is alive, given what the poll reported.
    pub open spec fn running(self, poll: ProcessPoll) -> bool {
        self.process_recorded && poll == ProcessPoll::Running
    }

    /// The state after a liveness poll: a process that exited on its own is
    /// forgotten.
    pub open spec fn after_poll(self, poll: ProcessPoll) -> SupervisorView {
        if self.process_recorded && poll == ProcessPoll::Exited {
            SupervisorView { process_recorded: false, ..self }
        } else {
            self
        }
    }

    /// The answer to a start request.
    pub open spec fn start_step(self, probe: LaunchProbeView) -> Result<
        StartStepView,
        SupervisorErrorView,
    > {
        if self.running(probe.poll) {
            Ok(StartStepView::Done(ServerReportView::AlreadyRunning))
        } else if !probe.server_exists {
            Err(SupervisorErrorView::BinaryNotFound(probe.server_shown))
        } else if !probe.model_exists {
            Err(SupervisorErrorView::ModelNotFound(probe.model_shown))
        } else {
            Ok(
                StartStepView::Spawn(
                    LaunchCommandView {
                        program: self.server_path,
                        args: launch_arguments(self.config, probe),
                    },
                ),
            )
        }
    }

    /// The state after the caller tried to spawn the process.
    pub open spec fn after_spawn(self, spawned: bool) -> SupervisorView {
        if spawned {
            SupervisorView { process_recorded: true, ..self }
        } else {
            self
        }
    }

    /// The answer to a stop request.
    pub open spec fn stop_step(self) -> StopStepView {
        if self.process_recorded {
            StopStepView::Kill
        } else {
            StopStepView::Done(ServerReportView::NotRunning)
        }
    }

    /// The state after the caller tried to kill the recorded process: the
    /// process is forgotten once the kill signal was delivered and the
    /// process waited for, and stays recorded where the signal could not be
    /// delivered.
    pub open spec fn after_kill(self, delivered: bool) -> SupervisorView {
        if delivered {
            SupervisorView { process_recorded: false, ..self }
        } else {
            self
        }
    }

    /// What a restart request asks for.
    pub open spec fn restart_plan(self, poll: ProcessPoll) -> RestartPlan {
        if self.running(poll) {
            RestartPlan::StopThenStart
        } else {
            RestartPlan::StartDirectly
        }
    }

}

/// Supervises one external transcription server process. The process handle
/// itself stays with the caller; the supervisor records whether one exists.
pub struct ServerManager {
    process_recorded: bool,
    server_path: String,
    models_path: String,
    config: ServerConfig,
}

impl View for ServerManager {
    type V = SupervisorView;

    closed spec fn view(&self) -> SupervisorView {
        SupervisorView {
            process_recorded: self.process_recorded,
            server_path: self.server_path@,
            models_path: self.models_path@,
            config: self.config@,
        }
    }
}

impl ServerManager {
    /// Creates a supervisor with the default configuration and no process,
    /// or fails when the packaged resources could not be located.
    pub fn new(paths: Option<ServerPaths>) -> (made: Result<ServerManager, SupervisorError>)
        ensures
            match paths {
                Some(p) => made is Ok && made->Ok_0@ == SupervisorView::initial(
                    p.server_path@,
                    p.models_path@,
                ),
                None => made is Err && made->Err_0@ == SupervisorErrorView::ResourceDirUnavailable,
            },
    {
        match paths {
            Some(p) => Ok(
                ServerManager {
                    process_recorded: false,
                    server_path: p.server_path,
                    models_path: p.models_path,
                    config: ServerConfig::default(),
                },
            ),
            None => Err(SupervisorError::ResourceDirUnavailable),
        }
    }

    /// Replaces the configuration; nothing else changes.
    pub fn update_config(&mut self, config: ServerConfig)
        ensures
            final(self)@ == (SupervisorView { config: config@, ..old(self)@ }),
    {
        self.config = config;
    }

    /// Whether a process handle is recorded, alive or not.
    pub fn has_process(&self) -> (recorded: bool)
        ensures
            recorded == self@.process_recorded,
    {
        self.process_recorded
    }

    /// Path of the server executable.
    pub fn server_path(&self) -> (path: &String)
        ensures
            path@ == self@.server_path,
    {
        &self.server_path
    }

    /// Directory that holds the model directories.
    pub fn models_path(&self) -> (path: &String)
        ensures
            path@ == self@.models_path,
    {
        &self.models_path
    }

    /// The current configuration.
    pub fn config(&self) -> (config: &ServerConfig)
        ensures
            config@ == self@.config,
    {
        &self.config
    }

    /// Answers a start request. With a live process the answer is
    /// "already running"; otherwise the executable and the primary model
    /// must exist, and the answer is the process to spawn.
    pub fn start_server(&self, probe: &LaunchProbe) -> (step: Result<StartStep, SupervisorError>)
        ensures
            match step {
                Ok(s) => self@.start_step(probe@) == Ok::<StartStepView, SupervisorErrorView>(s@),
                Err(e) => self@.start_step(probe@) == Err::<StartStepView, SupervisorErrorView>(
                    e@,
                ),
            },
    {
        if self.process_recorded && probe.poll == ProcessPoll::Running {
            return Ok(StartStep::Done(ServerReport::AlreadyRunning));
        }
        if !probe.server_exists {
            return Err(SupervisorError::BinaryNotFound(probe.server_shown.clone()));
        }
        if !probe.model_exists {
            return Err(SupervisorError::ModelNotFound(probe.model_shown.clone()));
        }
        let mut args: Vec<String> = Vec::new();
        args.push(String::from_str("--model-dir"));
        args.push(probe.model_path.clone());
        args.push(String::from_str("--host"));
        args.push(self.config.host.clone());
        args.push(String::from_str("--port"));
        args.push(decimal_string(self.config.port as u32));
        args.push(String::from_str("--thread-num"));
        args.push(decimal_string(self.config.thread_num as u32));
        if probe.vad_exists {
            args.push(String::from_str("--vad-dir"));
            args.push(probe.vad_path.clone());
        }
        assert(args.deep_view() =~= launch_arguments(self@.config, probe@));
        Ok(StartStep::Spawn(LaunchCommand { program: self.server_path.clone(), args }))
    }

    /// Records the outcome of the spawn that [`Self::start_server`] asked
    /// for. On success the new process is recorded and the answer carries the
    /// service URL; on failure nothing changes.
    pub fn spawn_finished(&mut self, outcome: Result<(), String>) -> (report: Result<
        ServerReport,
        SupervisorError,
    >)
        ensures
            final(self)@ == old(self)@.after_spawn(outcome is Ok),
            match outcome {
                Ok(_) => report is Ok && report->Ok_0@ == ServerReportView::Started(
                    service_url(old(self)@.config),
                ),
                Err(reason) => report is Err && report->Err_0@ == SupervisorErrorView::Spawn(
                    reason@,
                ),
            },
    {
        match outcome {
            Ok(_) => {
                self.process_recorded = true;
                Ok(ServerReport::Started(self.config.server_url()))
            },
            Err(reason) => Err(SupervisorError::Spawn(reason)),
        }
    }

    /// Answers a stop request. Without a recorded process the answer is
    /// "not running"; otherwise the caller is asked to kill the process.
    /// The record stays as it is until the outcome of the kill is known.
    pub fn stop_server(&self) -> (step: StopStep)
        ensures
            step@ == self@.stop_step(),
    {
        if self.process_recorded {
            StopStep::Kill
        } else {
            StopStep::Done(ServerReport::NotRunning)
        }
    }

    /// Records the outcome of the kill that [`Self::stop_server`] asked for
    /// and turns it into the answer to the stop request. The process is
    /// forgotten only where the kill signal was delivered and the process
    /// waited for; where it was not, the process stays recorded and the
    /// answer is the failure.
    pub fn kill_finished(&mut self, outcome: Result<(), String>) -> (report: Result<
        ServerReport,
        SupervisorError,
    >)
        ensures
            final(self)@ == old(self)@.after_kill(outcome is Ok),
            match outcome {
                Ok(_) => report is Ok && report->Ok_0@ == ServerReportView::Stopped,
                Err(reason) => report is Err && report->Err_0@ == SupervisorErrorView::Termination(
                    reason@,
                ),
            },
    {
        match outcome {
            Ok(_) => {
                self.process_recorded = false;
                Ok(ServerReport::Stopped)
            },
            Err(reason) => Err(SupervisorError::Termination(reason)),
        }
    }

    /// Whether the recorded process is alive. A process that exited on its
    /// own is forgotten.
    pub fn is_running(&mut self, poll: ProcessPoll) -> (alive: bool)
        ensures
            alive == old(self)@.running(poll),
            final(self)@ == old(self)@.after_poll(poll),
    {
        if !self.process_recorded {
            return false;
        }
        match poll {
            ProcessPoll::Running => true,
            ProcessPoll::Exited => {
                self.process_recorded = false;
                false
            },
            ProcessPoll::Failed => false,
        }
    }

    /// Answers a restart request: a live process is stopped first, as by
    /// [`Self::stop_server`]; anything else is started directly. The poll
    /// has the effect it has in [`Self::is_running`].
    pub fn restart_server(&mut self, poll: ProcessPoll) -> (plan: RestartPlan)
        ensures
            plan == old(self)@.restart_plan(poll),
            final(self)@ == old(self)@.after_poll(poll),
    {
        if self.is_running(poll) {
            RestartPlan::StopThenStart
        } else {
            RestartPlan::StartDirectly
        }
    }

    /// Settles the stop phase of a restart. Where the kill failed the
    /// process stays recorded, the restart ends with that failure and
    /// nothing is started; where it succeeded the process is forgotten and
    /// the answer is the number of milliseconds to wait before the start.
    pub fn restart_killed(&mut self, outcome: Result<(), String>) -> (wait: Result<
        u64,
        SupervisorError,
    >)
        ensures
            final(self)@ == old(self)@.after_kill(outcome is Ok),
            match outcome {
                Ok(_) => wait == Ok::<u64, SupervisorError>(RESTART_SETTLE_MILLIS),
                Err(reason) => wait is Err && wait->Err_0@ == SupervisorErrorView::Termination(
                    reason@,
                ),
            },
    {
        match outcome {
            Ok(_) => {
                self.process_recorded = false;
                Ok(RESTART_SETTLE_MILLIS)
            },
            Err(reason) => Err(SupervisorError::Termination(reason)),
        }
    }

    /// A snapshot of liveness, service URL and configuration. The poll has
    /// the effect it has in [`Self::is_running`].
    pub fn get_server_status(&mut self, poll: ProcessPoll) -> (status: ServerStatus)
        ensures
            final(self)@ == old(self)@.after_poll(poll),
            status@ == (ServerStatusView {
                running: old(self)@.running(poll),
                server_url: service_url(old(self)@.config),
                config: old(self)@.config,
            }),
    {
        let running = self.is_running(poll);
        ServerStatus { running, server_url: self.config.server_url(), config: self.config.clone() }
    }
}

/// A stop request on a supervisor that records no process is answered
/// "not running". A fresh supervisor records none, and no operation but a
/// successful spawn makes it record one.
pub proof fn law_stop_without_process(
    state: SupervisorView,
    server_path: Seq<char>,
    models_path: Seq<char>,
    poll: ProcessPoll,
    config: ServerConfigView,
    delivered: bool,
)
    requires
        !state.process_recorded,
    ensures
        state.stop_step() == StopStepView::Done(ServerReportView::NotRunning),
        !SupervisorView::initial(server_path, models_path).process_recorded,
        !state.after_poll(poll).process_recorded,
        !state.after_kill(delivered).process_recorded,
        !state.after_spawn(false).process_recorded,
        !(SupervisorView { config, ..state }).process_recorded,
{
}

/// A process is forgotten only once it is known to be gone: after a kill
/// that was delivered, or after a poll found that it had exited. Where the
/// kill signal could not be delivered the state is unchanged: the process
/// is still recorded, a further stop asks for the kill again, and while the
/// process is alive no start asks for a spawn.
pub proof fn law_failed_kill_keeps_process(
    state: SupervisorView,
    poll: ProcessPoll,
    probe: LaunchProbeView,
)
    requires
        state.process_recorded,
    ensures
        state.after_kill(false) == state,
        state.after_kill(false).stop_step() == StopStepView::Kill,
        probe.poll == ProcessPoll::Running ==> state.after_kill(false).start_step(probe) == Ok::<
            StartStepView,
            SupervisorErrorView,
        >(StartStepView::Done(ServerReportView::AlreadyRunning)),
        !state.after_kill(true).process_recorded,
        state.after_poll(poll).process_recorded <==> poll != ProcessPoll::Exited,
{
}

/// A start request that follows a successful start, while that process is
/// alive, is answered "already running": it asks for no second spawn and
/// leaves the state as it is.
pub proof fn law_start_twice(state: SupervisorView, first: LaunchProbeView, second: LaunchProbeView)
    requires
        state.start_step(first) is Ok,
        state.start_step(first)->Ok_0 is Spawn,
        second.poll == ProcessPoll::Running,
    ensures
        state.after_spawn(true).start_step(second) == Ok::<StartStepView, SupervisorErrorView>(
            StartStepView::Done(ServerReportView::AlreadyRunning),
        ),
        state.after_spawn(true).after_poll(second.poll) == state.after_spawn(true),
{
}

/// At most one process is recorded at a time: while the recorded process is
/// alive, no start request asks for a spawn.
pub proof fn law_single_process(state: SupervisorView, probe: LaunchProbeView)
    requires
        state.running(probe.poll),
    ensures
        !(state.start_step(probe) is Ok && state.start_step(probe)->Ok_0 is Spawn),
{
}

/// A restart stops first exactly when the process is alive. The request
/// itself forgets only a process that the poll found exited; a live process
/// stays recorded until its kill was delivered.
pub proof fn law_restart(state: SupervisorView, poll: ProcessPoll)
    ensures
        state.restart_plan(poll) is StopThenStart <==> state.running(poll),
        state.running(poll) ==> state.after_poll(poll) == state,
        state.running(poll) ==> state.after_poll(poll).after_kill(false).process_recorded,
        !state.after_poll(poll).after_kill(true).process_recorded,
{
}

/// The configuration and the paths change only when the caller replaces
/// the configuration: no poll, start, stop or restart touches them.
pub proof fn law_config_is_kept(
    state: SupervisorView,
    poll: ProcessPoll,
    spawned: bool,
    delivered: bool,
)
    ensures
        state.after_poll(poll).config == state.config,
        state.after_spawn(spawned).config == state.config,
        state.after_kill(delivered).config == state.config,
        state.after_poll(poll).server_path == state.server_path,
        state.after_spawn(spawned).server_path == state.server_path,
        state.after_kill(delivered).server_path == state.server_path,
        state.after_poll(poll).models_path == state.models_path,
        state.after_spawn(spawned).models_path == state.models_path,
        state.after_kill(delivered).models_path == state.models_path,
{
}

} // verus!
