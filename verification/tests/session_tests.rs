use std::path::PathBuf;
use std::time::Instant;

use fmusim_gui::{
    FmiStatus, FmiVersion, FmusimApp, InterfaceKind, LoadedFmu, LogEntry, LogLevel, SampleMsg,
    SimState, StartValue, StatusMsg, UiConfig, VariableInfo, VariableKind, MAX_LOG_ENTRIES,
};

fn var(name: &str, kind: VariableKind, is_output: bool) -> VariableInfo {
    VariableInfo {
        name: name.to_string(),
        description: None,
        causality: if is_output { "Output" } else { "Parameter" }.to_string(),
        kind,
        is_output,
    }
}

fn fmu(supports_cs: bool) -> LoadedFmu<f64> {
    LoadedFmu {
        path: PathBuf::from("/models/BouncingBall.fmu"),
        version: FmiVersion::V3,
        model_name: "BouncingBall".to_string(),
        variables: vec![
            var("time", VariableKind::Float, false),
            var("h", VariableKind::Float, true),
            var("label", VariableKind::String, true),
            var("v", VariableKind::Float, true),
            var("g", VariableKind::Float, false),
            var("count", VariableKind::Integer, true),
        ],
        default_stop_time: Some(3.0),
        default_step_size: None,
        supports_cs,
        supports_me: true,
    }
}

fn session() -> FmusimApp<f64> {
    FmusimApp::new(UiConfig::new(1.0, 1e-3))
}

fn entry(level: LogLevel, msg: &str) -> LogEntry {
    LogEntry { at: Instant::now(), level, category: "c".to_string(), message: msg.to_string() }
}

#[test]
fn new_session_defaults() {
    let app = session();
    assert!(app.loaded.is_none());
    assert!(app.load_error.is_none());
    assert_eq!(app.config.stop_time, 1.0);
    assert_eq!(app.config.step_size, 1e-3);
    assert!(app.config.logging_on);
    assert!(!app.config.log_fmi_calls);
    assert_eq!(app.config.interface, InterfaceKind::CoSimulation);
    assert_eq!(app.config.log_level_filter, LogLevel::Info);
    assert!(app.config.auto_scroll_logs);
    assert!(app.config.follow_plot);
    assert!(app.config.start_values.is_empty());
    assert!(app.selected_outputs.is_empty());
    assert!(matches!(app.sim_state, SimState::Idle));
    assert!(app.logs.is_empty());
    assert_eq!(app.series.len(), 0);
    assert!(app.latest_sim_time.is_none());
    assert!(!app.can_start(true, true));
}

#[test]
fn loading_selects_plottable_outputs() {
    let mut app = session();
    app.record_log(entry(LogLevel::Info, "old"));
    app.load_fmu(Ok(fmu(true)));
    assert!(app.load_error.is_none());
    assert_eq!(app.config.stop_time, 3.0);
    assert_eq!(app.config.step_size, 1e-3);
    assert_eq!(app.selected_outputs, vec!["h", "v", "count"]);
    assert_eq!(app.series.len(), 3);
    assert!(app.series.get(&"h".to_string()).unwrap().time.is_empty());
    assert!(app.logs.is_empty());
    assert!(matches!(app.sim_state, SimState::Idle));
    assert_eq!(app.loaded.as_ref().unwrap().model_name, "BouncingBall");
}

#[test]
fn failed_load_keeps_session() {
    let mut app = session();
    app.load_fmu(Ok(fmu(true)));
    app.load_fmu(Err("Failed to extract FMU: not a zip".to_string()));
    assert_eq!(app.load_error.as_deref(), Some("Failed to extract FMU: not a zip"));
    assert_eq!(app.loaded.as_ref().unwrap().model_name, "BouncingBall");
    assert_eq!(app.selected_outputs.len(), 3);
    app.load_fmu(Ok(fmu(true)));
    assert!(app.load_error.is_none());
}

#[test]
fn can_start_conditions() {
    let mut app = session();
    app.load_fmu(Ok(fmu(true)));
    assert!(app.can_start(true, true));
    assert!(!app.can_start(false, true));
    assert!(!app.can_start(true, false));
    app.clear_selection();
    assert!(!app.can_start(true, true));
    let mut me_only = session();
    me_only.load_fmu(Ok(fmu(false)));
    assert!(!me_only.can_start(true, true));
    assert!(me_only.start_simulation(Instant::now()).is_none());
}

#[test]
fn starting_a_run() {
    let mut app = session();
    app.load_fmu(Ok(fmu(true)));
    app.config.start_values.push(StartValue { name: "g".to_string(), value: "-9.81".to_string() });
    app.config.log_fmi_calls = true;
    app.record_sample(SampleMsg { time: 0.5, values: vec![Some(1.0), Some(2.0), None] });
    app.record_log(entry(LogLevel::Info, "x"));
    let started = Instant::now();
    let cfg = app.start_simulation(started).expect("a co-simulation FMU is loaded");
    assert_eq!(cfg.fmu_path, PathBuf::from("/models/BouncingBall.fmu"));
    assert_eq!(cfg.selected_outputs, vec!["h", "v", "count"]);
    assert_eq!(cfg.stop_time, 3.0);
    assert_eq!(cfg.output_interval, 1e-3);
    assert!(cfg.logging_on);
    assert!(cfg.log_fmi_calls);
    assert_eq!(cfg.start_values.len(), 1);
    assert_eq!(cfg.start_values[0].name, "g");
    assert_eq!(cfg.start_values[0].value, "-9.81");
    assert!(app.logs.is_empty());
    assert!(app.series.get(&"h".to_string()).unwrap().time.is_empty());
    assert!(app.latest_sim_time.is_none());
    match app.sim_state {
        SimState::Running { stop_time, started_at } => {
            assert_eq!(stop_time, 3.0);
            assert_eq!(started_at, started);
        }
        _ => panic!("the session should be running"),
    }
    assert!(app.is_running());
    assert!(!app.can_start(true, true));
}

#[test]
fn log_is_bounded() {
    let mut app = session();
    for i in 0..MAX_LOG_ENTRIES + 5 {
        app.record_log(entry(LogLevel::Debug, &i.to_string()));
        assert!(app.logs.len() <= MAX_LOG_ENTRIES);
    }
    assert_eq!(app.logs.len(), MAX_LOG_ENTRIES);
    assert_eq!(app.logs.front().unwrap().message, "5");
    assert_eq!(app.logs.back().unwrap().message, (MAX_LOG_ENTRIES + 4).to_string());
}

#[test]
fn samples_go_to_selected_series() {
    let mut app = session();
    app.load_fmu(Ok(fmu(true)));
    app.record_sample(SampleMsg { time: 0.0, values: vec![Some(1.0), None, Some(5.0), Some(9.0)] });
    app.record_sample(SampleMsg { time: 0.1, values: vec![Some(0.9)] });
    assert_eq!(app.latest_sim_time, Some(0.1));
    let h = app.series.get(&"h".to_string()).unwrap();
    assert_eq!(h.time, vec![0.0, 0.1]);
    assert_eq!(h.value, vec![1.0, 0.9]);
    assert!(app.series.get(&"v".to_string()).unwrap().time.is_empty());
    assert_eq!(app.series.get(&"count".to_string()).unwrap().value, vec![5.0]);
    assert_eq!(app.series.len(), 3);
    assert_eq!(app.plotted_outputs(), vec![0, 2]);
    for name in ["h", "v", "count"] {
        let s = app.series.get(&name.to_string()).unwrap();
        assert_eq!(s.time.len(), s.value.len());
    }
}

#[test]
fn status_updates() {
    let mut app = session();
    let t0 = Instant::now();
    assert!(!app.apply_status(StatusMsg::Started { stop_time: 2.0, started_at: t0 }));
    assert!(app.is_running());
    assert!(app.apply_status(StatusMsg::Finished(Ok(()))));
    match &app.sim_state {
        SimState::Finished { message, ok } => {
            assert_eq!(message, "Simulation finished");
            assert!(*ok);
        }
        _ => panic!("the run should be finished"),
    }
    assert!(app.apply_status(StatusMsg::Finished(Err("fmi3DoStep failed".to_string()))));
    match &app.sim_state {
        SimState::Finished { message, ok } => {
            assert_eq!(message, "Simulation failed: fmi3DoStep failed");
            assert!(!*ok);
        }
        _ => panic!("the run should be finished"),
    }
}

#[test]
fn selecting_variables() {
    let mut app = session();
    app.load_fmu(Ok(fmu(true)));
    app.clear_selection();
    assert!(app.selected_outputs.is_empty());
    app.set_variable_selected(4, true);
    assert_eq!(app.selected_outputs, vec!["g"]);
    assert!(app.series.get(&"g".to_string()).is_some());
    app.set_variable_selected(4, true);
    assert_eq!(app.selected_outputs, vec!["g"]);
    app.set_variable_selected(2, true);
    assert_eq!(app.selected_outputs, vec!["g"]);
    app.set_variable_selected(99, true);
    assert_eq!(app.selected_outputs, vec!["g"]);
    app.set_variable_selected(1, true);
    assert_eq!(app.selected_outputs, vec!["g", "h"]);
    app.set_variable_selected(4, false);
    assert_eq!(app.selected_outputs, vec!["h"]);
    app.set_variable_selected(4, false);
    assert_eq!(app.selected_outputs, vec!["h"]);
    app.select_all_outputs();
    assert_eq!(app.selected_outputs, vec!["h", "v", "count"]);
    assert_eq!(app.series.len(), 4);
}

#[test]
fn selection_is_frozen_while_running() {
    let mut app = session();
    app.load_fmu(Ok(fmu(true)));
    app.start_simulation(Instant::now()).unwrap();
    app.set_variable_selected(1, false);
    app.set_variable_selected(4, true);
    app.clear_selection();
    app.select_all_outputs();
    assert_eq!(app.selected_outputs, vec!["h", "v", "count"]);
}

#[test]
fn select_all_without_fmu_does_nothing() {
    let mut app = session();
    app.select_all_outputs();
    app.set_variable_selected(0, true);
    assert!(app.selected_outputs.is_empty());
    assert_eq!(app.series.len(), 0);
}

#[test]
fn visible_logs_follow_filter() {
    let mut app = session();
    app.record_log(entry(LogLevel::Debug, "a"));
    app.record_log(entry(LogLevel::Info, "b"));
    app.record_log(entry(LogLevel::Fatal, "c"));
    app.record_log(entry(LogLevel::Warning, "d"));
    assert_eq!(app.visible_log_indices(), vec![1, 2, 3]);
    app.config.log_level_filter = LogLevel::Warning;
    assert_eq!(app.visible_log_indices(), vec![2, 3]);
    app.config.log_level_filter = LogLevel::Debug;
    assert_eq!(app.visible_log_indices(), vec![0, 1, 2, 3]);
    let _ = FmiStatus::Okay;
}
