use voice_capture::server_manager::{
    LaunchCommand, LaunchProbe, ProcessPoll, RestartPlan, ServerConfig, ServerManager,
    ServerPaths, ServerReport, StartStep, StopStep, SupervisorError, RESTART_SETTLE_MILLIS,
};
use voice_capture::text::decimal_string;

fn manager() -> ServerManager {
    ServerManager::new(Some(ServerPaths {
        server_path: "/opt/app/bin/funasr-http-server".to_string(),
        models_path: "/opt/app/models".to_string(),
    }))
    .unwrap()
}

fn probe(poll: ProcessPoll, server: bool, model: bool, vad: bool) -> LaunchProbe {
    LaunchProbe {
        poll,
        server_exists: server,
        server_shown: "\"/opt/app/bin/funasr-http-server\"".to_string(),
        model_path: "/opt/app/models/iic/SenseVoiceSmall".to_string(),
        model_shown: "\"/opt/app/models/iic/SenseVoiceSmall\"".to_string(),
        model_exists: model,
        vad_path: "/opt/app/models/iic/speech_fsmn_vad_zh-cn-16k-common-onnx".to_string(),
        vad_exists: vad,
    }
}

fn strings(items: &[&str]) -> Vec<String> {
    items.iter().map(|s| s.to_string()).collect()
}

fn started(m: &mut ServerManager) {
    match m.start_server(&probe(ProcessPoll::Exited, true, true, true)) {
        Ok(StartStep::Spawn(_)) => {}
        other => panic!("expected a spawn, got {other:?}"),
    }
    m.spawn_finished(Ok(())).unwrap();
}

#[test]
fn default_config_is_loopback_port_10095_four_threads() {
    let config = ServerConfig::default();
    assert_eq!(config.host, "127.0.0.1");
    assert_eq!(config.port, 10095);
    assert_eq!(config.thread_num, 4);
    assert_eq!(config.model_dir, "iic/SenseVoiceSmall");
    assert_eq!(config.vad_dir, "iic/speech_fsmn_vad_zh-cn-16k-common-onnx");
    assert_eq!(config.server_url(), "http://127.0.0.1:10095");
}

#[test]
fn config_clone_keeps_every_field() {
    let config = ServerConfig {
        host: "0.0.0.0".to_string(),
        port: 8000,
        thread_num: 2,
        model_dir: "a".to_string(),
        vad_dir: "b".to_string(),
    };
    let copy = config.clone();
    assert_eq!(copy.host, "0.0.0.0");
    assert_eq!(copy.port, 8000);
    assert_eq!(copy.thread_num, 2);
    assert_eq!(copy.model_dir, "a");
    assert_eq!(copy.vad_dir, "b");
}

#[test]
fn decimal_rendering() {
    assert_eq!(decimal_string(0), "0");
    assert_eq!(decimal_string(7), "7");
    assert_eq!(decimal_string(10), "10");
    assert_eq!(decimal_string(10095), "10095");
    assert_eq!(decimal_string(65535), "65535");
    assert_eq!(decimal_string(u32::MAX), "4294967295");
    for n in [1u32, 9, 19, 99, 100, 101, 999, 1000, 12345, 99999, 1_000_000] {
        assert_eq!(decimal_string(n), n.to_string());
    }
}

#[test]
fn new_without_resources_fails() {
    match ServerManager::new(None) {
        Err(e) => {
            assert_eq!(e, SupervisorError::ResourceDirUnavailable);
            assert_eq!(e.message(), "无法获取资源目录");
        }
        Ok(_) => panic!("expected a failure"),
    }
}

#[test]
fn new_starts_without_process_and_with_default_config() {
    let m = manager();
    assert!(!m.has_process());
    assert_eq!(m.server_path(), "/opt/app/bin/funasr-http-server");
    assert_eq!(m.models_path(), "/opt/app/models");
    assert_eq!(m.config().port, 10095);
    assert_eq!(m.config().host, "127.0.0.1");
}

#[test]
fn stop_without_any_start_is_not_running() {
    let mut m = manager();
    let step = m.stop_server();
    assert_eq!(step, StopStep::Done(ServerReport::NotRunning));
    assert_eq!(ServerReport::NotRunning.message(), "服务器未运行");
    assert!(!m.has_process());
    // and again, after polls and a failed spawn
    assert!(!m.is_running(ProcessPoll::Running));
    assert!(m.spawn_finished(Err("no".to_string())).is_err());
    assert_eq!(m.stop_server(), StopStep::Done(ServerReport::NotRunning));
}

#[test]
fn start_asks_for_the_full_command_line() {
    let m = manager();
    let step = m.start_server(&probe(ProcessPoll::Exited, true, true, true)).unwrap();
    assert_eq!(
        step,
        StartStep::Spawn(LaunchCommand {
            program: "/opt/app/bin/funasr-http-server".to_string(),
            args: strings(&[
                "--model-dir",
                "/opt/app/models/iic/SenseVoiceSmall",
                "--host",
                "127.0.0.1",
                "--port",
                "10095",
                "--thread-num",
                "4",
                "--vad-dir",
                "/opt/app/models/iic/speech_fsmn_vad_zh-cn-16k-common-onnx",
            ]),
        })
    );
}

#[test]
fn start_without_vad_model_leaves_the_vad_argument_out() {
    let m = manager();
    let step = m.start_server(&probe(ProcessPoll::Exited, true, true, false)).unwrap();
    match step {
        StartStep::Spawn(command) => assert_eq!(
            command.args,
            strings(&[
                "--model-dir",
                "/opt/app/models/iic/SenseVoiceSmall",
                "--host",
                "127.0.0.1",
                "--port",
                "10095",
                "--thread-num",
                "4",
            ])
        ),
        other => panic!("expected a spawn, got {other:?}"),
    }
}

#[test]
fn start_uses_the_updated_config() {
    let mut m = manager();
    m.update_config(ServerConfig {
        host: "0.0.0.0".to_string(),
        port: 9,
        thread_num: 255,
        model_dir: "m".to_string(),
        vad_dir: "v".to_string(),
    });
    assert_eq!(m.config().port, 9);
    assert!(!m.has_process());
    match m.start_server(&probe(ProcessPoll::Exited, true, true, false)).unwrap() {
        StartStep::Spawn(command) => {
            assert_eq!(command.args[3], "0.0.0.0");
            assert_eq!(command.args[5], "9");
            assert_eq!(command.args[7], "255");
        }
        other => panic!("expected a spawn, got {other:?}"),
    }
    let report = m.spawn_finished(Ok(())).unwrap();
    assert_eq!(report, ServerReport::Started("http://0.0.0.0:9".to_string()));
}

#[test]
fn start_fails_without_the_executable() {
    let m = manager();
    let e = m.start_server(&probe(ProcessPoll::Exited, false, true, true)).unwrap_err();
    assert_eq!(
        e,
        SupervisorError::BinaryNotFound("\"/opt/app/bin/funasr-http-server\"".to_string())
    );
    assert_eq!(e.message(), "服务器可执行文件不存在: \"/opt/app/bin/funasr-http-server\"");
    // the executable is looked for before the model
    let e = m.start_server(&probe(ProcessPoll::Exited, false, false, false)).unwrap_err();
    assert!(matches!(e, SupervisorError::BinaryNotFound(_)));
}

#[test]
fn start_fails_without_the_primary_model() {
    let m = manager();
    let e = m.start_server(&probe(ProcessPoll::Exited, true, false, true)).unwrap_err();
    assert_eq!(
        e,
        SupervisorError::ModelNotFound("\"/opt/app/models/iic/SenseVoiceSmall\"".to_string())
    );
    assert_eq!(e.message(), "SenseVoice模型不存在: \"/opt/app/models/iic/SenseVoiceSmall\"");
}

#[test]
fn successful_spawn_is_recorded_and_reports_the_url() {
    let mut m = manager();
    let report = m.spawn_finished(Ok(())).unwrap();
    assert_eq!(report, ServerReport::Started("http://127.0.0.1:10095".to_string()));
    assert_eq!(report.message(), "FunASR服务器已启动: http://127.0.0.1:10095");
    assert!(m.has_process());
}

#[test]
fn failed_spawn_records_nothing() {
    let mut m = manager();
    let e = m.spawn_finished(Err("permission denied".to_string())).unwrap_err();
    assert_eq!(e, SupervisorError::Spawn("permission denied".to_string()));
    assert_eq!(e.message(), "启动服务器失败: permission denied");
    assert!(!m.has_process());
}

#[test]
fn second_start_while_alive_is_already_running() {
    let mut m = manager();
    started(&mut m);
    let step = m.start_server(&probe(ProcessPoll::Running, true, true, true)).unwrap();
    assert_eq!(step, StartStep::Done(ServerReport::AlreadyRunning));
    assert_eq!(ServerReport::AlreadyRunning.message(), "服务器已在运行");
    assert!(m.has_process());
    // even where the files have gone in the meantime
    let step = m.start_server(&probe(ProcessPoll::Running, false, false, false)).unwrap();
    assert_eq!(step, StartStep::Done(ServerReport::AlreadyRunning));
}

#[test]
fn start_after_the_process_exited_spawns_again() {
    let mut m = manager();
    started(&mut m);
    for poll in [ProcessPoll::Exited, ProcessPoll::Failed] {
        let step = m.start_server(&probe(poll, true, true, false)).unwrap();
        assert!(matches!(step, StartStep::Spawn(_)));
    }
    // a poll result is ignored while no process is recorded
    let fresh = manager();
    let step = fresh.start_server(&probe(ProcessPoll::Running, true, true, false)).unwrap();
    assert!(matches!(step, StartStep::Spawn(_)));
}

#[test]
fn stop_asks_for_a_kill_and_forgets_the_process_once_it_was_killed() {
    let mut m = manager();
    started(&mut m);
    assert_eq!(m.stop_server(), StopStep::Kill);
    // the process stays recorded until the outcome of the kill is known
    assert!(m.has_process());
    let report = m.kill_finished(Ok(())).unwrap();
    assert_eq!(report, ServerReport::Stopped);
    assert_eq!(report.message(), "服务器已停止");
    assert!(!m.has_process());
    assert_eq!(m.stop_server(), StopStep::Done(ServerReport::NotRunning));
}

#[test]
fn failed_kill_is_a_termination_error_and_keeps_the_process() {
    let mut m = manager();
    started(&mut m);
    assert_eq!(m.stop_server(), StopStep::Kill);
    let e = m.kill_finished(Err("no such process".to_string())).unwrap_err();
    assert_eq!(e, SupervisorError::Termination("no such process".to_string()));
    assert_eq!(e.message(), "停止服务器失败: no such process");
    // the process was not waited for: it is still recorded
    assert!(m.has_process());
    // while it lives, a start spawns nothing
    let step = m.start_server(&probe(ProcessPoll::Running, true, true, true)).unwrap();
    assert_eq!(step, StartStep::Done(ServerReport::AlreadyRunning));
    // and a further stop asks for the kill again
    assert_eq!(m.stop_server(), StopStep::Kill);
    assert_eq!(m.kill_finished(Ok(())), Ok(ServerReport::Stopped));
    assert!(!m.has_process());
}

#[test]
fn the_outcome_of_a_kill_without_a_process_changes_nothing() {
    let mut m = manager();
    assert_eq!(m.kill_finished(Ok(())), Ok(ServerReport::Stopped));
    assert!(!m.has_process());
    assert!(m.kill_finished(Err("gone".to_string())).is_err());
    assert!(!m.has_process());
}

#[test]
fn is_running_forgets_a_process_that_exited() {
    let mut m = manager();
    assert!(!m.is_running(ProcessPoll::Running));
    started(&mut m);
    assert!(m.is_running(ProcessPoll::Running));
    assert!(m.has_process());
    assert!(!m.is_running(ProcessPoll::Failed));
    assert!(m.has_process());
    assert!(!m.is_running(ProcessPoll::Exited));
    assert!(!m.has_process());
    assert!(!m.is_running(ProcessPoll::Running));
}

#[test]
fn restart_stops_only_a_live_process() {
    let mut m = manager();
    assert_eq!(m.restart_server(ProcessPoll::Running), RestartPlan::StartDirectly);
    started(&mut m);
    assert_eq!(m.restart_server(ProcessPoll::Running), RestartPlan::StopThenStart);
    // a kill that failed ends the restart and keeps the process
    assert!(m.has_process());
    assert_eq!(
        m.restart_killed(Err("busy".to_string())),
        Err(SupervisorError::Termination("busy".to_string()))
    );
    assert!(m.has_process());
    assert_eq!(m.restart_server(ProcessPoll::Running), RestartPlan::StopThenStart);
    assert_eq!(m.restart_killed(Ok(())), Ok(1000));
    assert_eq!(RESTART_SETTLE_MILLIS, 1000);
    assert!(!m.has_process());
    started(&mut m);
    assert_eq!(m.restart_server(ProcessPoll::Exited), RestartPlan::StartDirectly);
    assert!(!m.has_process());
    started(&mut m);
    assert_eq!(m.restart_server(ProcessPoll::Failed), RestartPlan::StartDirectly);
    assert!(m.has_process());
}

#[test]
fn status_is_a_snapshot_of_liveness_url_and_config() {
    let mut m = manager();
    let status = m.get_server_status(ProcessPoll::Running);
    assert!(!status.running);
    assert_eq!(status.server_url, "http://127.0.0.1:10095");
    assert_eq!(status.config.host, "127.0.0.1");
    assert_eq!(status.config.port, 10095);
    assert_eq!(status.config.thread_num, 4);
    assert_eq!(status.config.model_dir, "iic/SenseVoiceSmall");
    assert_eq!(status.config.vad_dir, "iic/speech_fsmn_vad_zh-cn-16k-common-onnx");
    started(&mut m);
    assert!(m.get_server_status(ProcessPoll::Running).running);
    assert!(m.has_process());
    assert!(!m.get_server_status(ProcessPoll::Exited).running);
    assert!(!m.has_process());
}
