use eww::app::{App, DaemonAction, DaemonCommand, DaemonResponse, DisplayBackend};
use eww::config::{
    AnchorAlignment, AnchorPoint, Coords, EwwConfig, EwwWindowDefinition, NumWithUnit,
    WindowGeometry, WindowStacking,
};
use eww::smap::StrMap;
use eww::value::PrimitiveValue;

/// A backend for the tests: hands out fresh handles, fails to build the
/// windows it is told to fail, and serves a fixed reload configuration.
struct TestBackend {
    next_handle: u64,
    fail: Vec<String>,
    reload_windows: Vec<(String, Vec<String>)>,
    reload_css: Result<String, String>,
    config_error: Option<String>,
}

impl TestBackend {
    fn new() -> TestBackend {
        TestBackend {
            next_handle: 0,
            fail: Vec::new(),
            reload_windows: Vec::new(),
            reload_css: Ok(String::new()),
            config_error: None,
        }
    }
}

fn geometry() -> WindowGeometry {
    WindowGeometry {
        anchor_point: AnchorPoint { x: AnchorAlignment::Start, y: AnchorAlignment::Start },
        offset: Coords { x: NumWithUnit::Pixels(0), y: NumWithUnit::Pixels(0) },
        size: Coords { x: NumWithUnit::Pixels(100), y: NumWithUnit::Pixels(100) },
    }
}

fn definition(name: &str, refs: &[&str]) -> EwwWindowDefinition {
    EwwWindowDefinition {
        name: name.to_string(),
        geometry: geometry(),
        stacking: WindowStacking::Foreground,
        focusable: false,
        screen_number: None,
        var_refs: refs.iter().map(|r| r.to_string()).collect(),
    }
}

fn config_of(defs: &[(&str, &[&str])]) -> EwwConfig {
    let mut cfg = EwwConfig::new();
    for (name, refs) in defs {
        cfg.define_window(definition(name, refs));
    }
    cfg
}

impl DisplayBackend for TestBackend {
    fn open_window(
        &mut self,
        window_name: &String,
        _definition: &EwwWindowDefinition,
        _variables: &StrMap<PrimitiveValue>,
    ) -> Result<u64, String> {
        if self.fail.iter().any(|f| f == window_name) {
            Err(format!("widget tree of '{}' refused", window_name))
        } else {
            self.next_handle += 1;
            Ok(self.next_handle)
        }
    }

    fn read_config(&mut self) -> Result<EwwConfig, String> {
        if let Some(e) = &self.config_error {
            return Err(e.clone());
        }
        let mut cfg = EwwConfig::new();
        for (name, refs) in &self.reload_windows {
            let refs_str: Vec<&str> = refs.iter().map(|r| r.as_str()).collect();
            cfg.define_window(definition(name, &refs_str));
        }
        Ok(cfg)
    }

    fn read_css(&mut self) -> Result<String, String> {
        self.reload_css.clone()
    }
}

fn open_cmd(name: &str) -> DaemonCommand {
    DaemonCommand::OpenWindow {
        window_name: name.to_string(),
        pos: None,
        size: None,
        anchor: None,
    }
}

fn drain(app: &mut App<TestBackend>) -> Vec<DaemonAction> {
    std::mem::take(&mut app.pending_actions)
}

fn is_open(app: &App<TestBackend>, name: &str) -> bool {
    app.open_windows.contains_key(&name.to_string())
}

fn subscribed(app: &App<TestBackend>, var: &str) -> bool {
    app.subscriptions.contains_key(&var.to_string())
}

#[test]
fn scenario_open_close_then_stale_update() {
    let cfg = config_of(&[("bar", &["volume"])]);
    let mut app = App::new(cfg, TestBackend::new());

    let (resp, log) = app.handle_command(open_cmd("bar"));
    assert_eq!(resp, Some(DaemonResponse::Success(String::new())));
    assert!(log.is_none());
    let acts = drain(&mut app);
    assert!(acts.contains(&DaemonAction::StartProducer("volume".to_string())));
    assert!(subscribed(&app, "volume"));

    let (resp, log) =
        app.handle_command(DaemonCommand::CloseWindow { window_name: "bar".to_string() });
    assert_eq!(resp, Some(DaemonResponse::Success(String::new())));
    assert!(log.is_none());
    let acts = drain(&mut app);
    assert!(acts.contains(&DaemonAction::StopProducer("volume".to_string())));
    assert!(!subscribed(&app, "volume"));
    assert!(!is_open(&app, "bar"));

    let (resp, log) = app.handle_command(DaemonCommand::UpdateVars(vec![(
        "volume".to_string(),
        PrimitiveValue::Num(50),
    )]));
    assert!(resp.is_none());
    assert!(log.is_some(), "a stale update must be rejected");
    assert!(!subscribed(&app, "volume"), "a stale update must not revive a subscription");
    assert!(drain(&mut app).is_empty());
}

#[test]
fn open_is_idempotent_and_takes_second_parameters() {
    let cfg = config_of(&[("bar", &["volume"])]);
    let mut app = App::new(cfg, TestBackend::new());

    let (resp, _) = app.handle_command(open_cmd("bar"));
    assert_eq!(resp, Some(DaemonResponse::Success(String::new())));
    let second_size = Coords { x: NumWithUnit::Pixels(42), y: NumWithUnit::Percent(50) };
    let (resp, _) = app.handle_command(DaemonCommand::OpenWindow {
        window_name: "bar".to_string(),
        pos: None,
        size: Some(second_size),
        anchor: None,
    });
    assert_eq!(resp, Some(DaemonResponse::Success(String::new())));

    assert_eq!(app.open_windows.len(), 1);
    let window = app.open_windows.get(&"bar".to_string()).unwrap();
    assert_eq!(window.definition.geometry.size, second_size);
    assert!(subscribed(&app, "volume"));

    // the reopen stops the old producer before starting the new one
    let acts = drain(&mut app);
    let stop = acts
        .iter()
        .rposition(|a| *a == DaemonAction::StopProducer("volume".to_string()));
    let start = acts
        .iter()
        .rposition(|a| *a == DaemonAction::StartProducer("volume".to_string()));
    assert!(stop.is_some() && start.is_some());
    assert!(stop.unwrap() < start.unwrap(), "stop must come before the new start");
}

#[test]
fn reload_keeps_other_windows_open_when_one_fails() {
    let cfg = config_of(&[("a", &["x"]), ("b", &["y"])]);
    let mut app = App::new(cfg, TestBackend::new());
    app.handle_command(open_cmd("a"));
    app.handle_command(open_cmd("b"));
    assert!(is_open(&app, "a") && is_open(&app, "b"));

    // replace the configuration; the rebuild of `b` fails
    app.display_backend.fail.push("b".to_string());
    let new_cfg = config_of(&[("a", &["x2"]), ("b", &["y"])]);
    let (resp, log) = app.handle_command(DaemonCommand::UpdateConfig(new_cfg));
    assert!(resp.is_none());
    assert!(log.is_some(), "the failed reopen is reported");
    assert!(is_open(&app, "a"), "a window that rebuilt fine stays open");
    assert!(!is_open(&app, "b"));
    assert!(subscribed(&app, "x2"));
    assert!(!subscribed(&app, "x"));
    assert!(!subscribed(&app, "y"), "the failed window holds no subscriptions");
}

#[test]
fn reload_reopens_every_window_on_success() {
    let cfg = config_of(&[("a", &["x"]), ("b", &["y"])]);
    let mut app = App::new(cfg, TestBackend::new());
    app.handle_command(open_cmd("a"));
    app.handle_command(open_cmd("b"));

    let new_cfg = config_of(&[("a", &["x"]), ("b", &["z"])]);
    let (resp, log) = app.handle_command(DaemonCommand::UpdateConfig(new_cfg));
    assert!(resp.is_none());
    assert!(log.is_none());
    assert!(is_open(&app, "a") && is_open(&app, "b"));
    assert!(subscribed(&app, "x") && subscribed(&app, "z"));
    assert!(!subscribed(&app, "y"));
}

#[test]
fn shared_variable_survives_one_close() {
    let cfg = config_of(&[("a", &["shared", "only_a"]), ("b", &["shared"])]);
    let mut app = App::new(cfg, TestBackend::new());
    app.handle_command(open_cmd("a"));
    app.handle_command(open_cmd("b"));
    assert!(subscribed(&app, "shared") && subscribed(&app, "only_a"));

    app.handle_command(DaemonCommand::CloseWindow { window_name: "a".to_string() });
    assert!(subscribed(&app, "shared"), "b still references the shared variable");
    assert!(!subscribed(&app, "only_a"));

    app.handle_command(DaemonCommand::CloseWindow { window_name: "b".to_string() });
    assert!(!subscribed(&app, "shared"));
}

#[test]
fn close_unknown_window_fails_with_message() {
    let cfg = config_of(&[]);
    let mut app = App::new(cfg, TestBackend::new());
    let (resp, _) =
        app.handle_command(DaemonCommand::CloseWindow { window_name: "nope".to_string() });
    assert_eq!(
        resp,
        Some(DaemonResponse::Failure(
            "No window with name 'nope' is running.".to_string()
        ))
    );
}

#[test]
fn open_window_missing_from_config_fails() {
    let cfg = config_of(&[]);
    let mut app = App::new(cfg, TestBackend::new());
    let (resp, _) = app.handle_command(open_cmd("ghost"));
    assert_eq!(
        resp,
        Some(DaemonResponse::Failure(
            "No window named 'ghost' exists in the configuration".to_string()
        ))
    );
}

#[test]
fn open_window_build_failure_reports_and_leaves_it_closed() {
    let cfg = config_of(&[("bar", &["volume"])]);
    let mut backend = TestBackend::new();
    backend.fail.push("bar".to_string());
    let mut app = App::new(cfg, backend);
    let (resp, _) = app.handle_command(open_cmd("bar"));
    assert_eq!(
        resp,
        Some(DaemonResponse::Failure(
            "Failed to build window: widget tree of 'bar' refused".to_string()
        ))
    );
    assert!(!is_open(&app, "bar"));
    assert!(!subscribed(&app, "volume"));
}

#[test]
fn open_many_attempts_every_window() {
    let cfg = config_of(&[("a", &["x"]), ("b", &["y"]), ("c", &["z"])]);
    let mut backend = TestBackend::new();
    backend.fail.push("b".to_string());
    let mut app = App::new(cfg, backend);
    let (resp, _) = app.handle_command(DaemonCommand::OpenMany {
        windows: vec!["a".to_string(), "b".to_string(), "c".to_string()],
    });
    match resp {
        Some(DaemonResponse::Failure(msg)) => {
            assert!(msg.contains("'b'"));
        }
        other => panic!("expected a failure response, got {:?}", other),
    }
    assert!(is_open(&app, "a"), "a failure in the middle does not abort the rest");
    assert!(!is_open(&app, "b"));
    assert!(is_open(&app, "c"));
}

#[test]
fn update_vars_applies_values_in_order() {
    let cfg = config_of(&[("bar", &["volume", "brightness"])]);
    let mut app = App::new(cfg, TestBackend::new());
    app.handle_command(open_cmd("bar"));
    let (resp, log) = app.handle_command(DaemonCommand::UpdateVars(vec![
        ("volume".to_string(), PrimitiveValue::Num(10)),
        ("brightness".to_string(), PrimitiveValue::Num(80)),
        ("volume".to_string(), PrimitiveValue::Num(30)),
    ]));
    assert!(resp.is_none() && log.is_none());
    assert_eq!(
        app.eww_state.get(&"volume".to_string()),
        Some(&PrimitiveValue::Num(30))
    );
    assert_eq!(
        app.eww_state.get(&"brightness".to_string()),
        Some(&PrimitiveValue::Num(80))
    );
}

#[test]
fn print_state_lists_variables_with_values() {
    let cfg = config_of(&[("bar", &["volume", "muted"])]);
    let mut app = App::new(cfg, TestBackend::new());
    app.handle_command(open_cmd("bar"));
    app.handle_command(DaemonCommand::UpdateVars(vec![
        ("volume".to_string(), PrimitiveValue::Num(50)),
        ("muted".to_string(), PrimitiveValue::Bool(false)),
    ]));
    let (resp, _) = app.handle_command(DaemonCommand::PrintState);
    assert_eq!(
        resp,
        Some(DaemonResponse::Success("volume: 50\nmuted: false".to_string()))
    );
}

#[test]
fn print_windows_marks_open_ones() {
    let cfg = config_of(&[("a", &[]), ("b", &[])]);
    let mut app = App::new(cfg, TestBackend::new());
    app.handle_command(open_cmd("b"));
    let (resp, _) = app.handle_command(DaemonCommand::PrintWindows);
    assert_eq!(resp, Some(DaemonResponse::Success("a\n*b".to_string())));
}

#[test]
fn kill_server_stops_everything_and_exits() {
    let cfg = config_of(&[("a", &["x"])]);
    let mut app = App::new(cfg, TestBackend::new());
    app.handle_command(open_cmd("a"));
    drain(&mut app);
    let (resp, log) = app.handle_command(DaemonCommand::KillServer);
    assert!(resp.is_none() && log.is_none());
    assert!(!is_open(&app, "a"));
    assert!(!subscribed(&app, "x"));
    let acts = drain(&mut app);
    assert_eq!(acts.first(), Some(&DaemonAction::StopAllProducers));
    assert_eq!(acts.last(), Some(&DaemonAction::Exit));
}

#[test]
fn close_all_closes_every_window() {
    let cfg = config_of(&[("a", &["x"]), ("b", &["y"])]);
    let mut app = App::new(cfg, TestBackend::new());
    app.handle_command(open_cmd("a"));
    app.handle_command(open_cmd("b"));
    let (resp, log) = app.handle_command(DaemonCommand::CloseAll);
    assert!(resp.is_none() && log.is_none());
    assert!(!is_open(&app, "a") && !is_open(&app, "b"));
    assert!(!subscribed(&app, "x") && !subscribed(&app, "y"));
}

#[test]
fn update_css_queues_the_stylesheet() {
    let cfg = config_of(&[]);
    let mut app = App::new(cfg, TestBackend::new());
    let (resp, log) =
        app.handle_command(DaemonCommand::UpdateCss("* { color: red; }".to_string()));
    assert!(resp.is_none() && log.is_none());
    assert_eq!(
        drain(&mut app),
        vec![DaemonAction::LoadCss("* { color: red; }".to_string())]
    );
}

#[test]
fn reload_applies_new_config_and_css() {
    let cfg = config_of(&[("a", &["x"])]);
    let mut backend = TestBackend::new();
    backend.reload_windows = vec![("a".to_string(), vec!["x".to_string()])];
    backend.reload_css = Ok("body {}".to_string());
    let mut app = App::new(cfg, backend);
    app.handle_command(open_cmd("a"));
    let (resp, _) = app.handle_command(DaemonCommand::ReloadConfigAndCss);
    assert_eq!(resp, Some(DaemonResponse::Success(String::new())));
    assert!(is_open(&app, "a"));
    let acts = drain(&mut app);
    assert!(acts.contains(&DaemonAction::LoadCss("body {}".to_string())));
}

#[test]
fn reload_reports_parse_failures_jointly() {
    let cfg = config_of(&[]);
    let mut backend = TestBackend::new();
    backend.config_error = Some("bad toml".to_string());
    backend.reload_css = Err("bad scss".to_string());
    let mut app = App::new(cfg, backend);
    let (resp, _) = app.handle_command(DaemonCommand::ReloadConfigAndCss);
    assert_eq!(
        resp,
        Some(DaemonResponse::Failure(
            "Failed to load config: bad toml\nFailed to load css: bad scss".to_string()
        ))
    );
}

#[test]
fn responses_know_their_kind() {
    assert!(DaemonResponse::Success("ok".to_string()).is_success());
    assert!(!DaemonResponse::Success(String::new()).is_failure());
    assert!(DaemonResponse::Failure("no".to_string()).is_failure());
    assert!(!DaemonResponse::Failure(String::new()).is_success());
}

#[test]
fn used_variable_queries_reflect_open_windows() {
    let cfg = config_of(&[("a", &["shared", "only_a"]), ("b", &["shared"])]);
    let mut app = App::new(cfg, TestBackend::new());
    app.handle_command(open_cmd("a"));
    app.handle_command(open_cmd("b"));

    let mut used = app.get_currently_used_variables();
    used.sort();
    assert_eq!(used, vec!["only_a".to_string(), "shared".to_string()]);

    let per_var = app.currently_used_variables();
    let mut shared_windows = per_var.get(&"shared".to_string()).unwrap().clone();
    shared_windows.sort();
    assert_eq!(shared_windows, vec!["a".to_string(), "b".to_string()]);
    assert_eq!(
        per_var.get(&"only_a".to_string()),
        Some(&vec!["a".to_string()])
    );

    assert_eq!(
        app.variables_only_used_in(&"a".to_string()),
        vec!["only_a".to_string()]
    );
    assert!(app.variables_only_used_in(&"b".to_string()).is_empty());
}

#[test]
fn open_many_with_empty_list_succeeds() {
    let cfg = config_of(&[]);
    let mut app = App::new(cfg, TestBackend::new());
    let (resp, log) = app.handle_command(DaemonCommand::OpenMany { windows: vec![] });
    assert_eq!(resp, Some(DaemonResponse::Success(String::new())));
    assert!(log.is_none());
}

#[test]
fn close_queues_stops_before_the_native_close() {
    let cfg = config_of(&[("bar", &["volume"])]);
    let mut app = App::new(cfg, TestBackend::new());
    app.handle_command(open_cmd("bar"));
    drain(&mut app);
    app.handle_command(DaemonCommand::CloseWindow { window_name: "bar".to_string() });
    let acts = drain(&mut app);
    let stop = acts
        .iter()
        .position(|a| *a == DaemonAction::StopProducer("volume".to_string()))
        .expect("the solely used variable's producer is stopped");
    let close = acts
        .iter()
        .position(|a| matches!(a, DaemonAction::CloseNative(_)))
        .expect("the native handle is closed");
    assert!(stop < close, "stops are queued before the native close");
}

#[test]
fn kill_server_closes_each_native_handle() {
    let cfg = config_of(&[("a", &[]), ("b", &[])]);
    let mut app = App::new(cfg, TestBackend::new());
    app.handle_command(open_cmd("a"));
    app.handle_command(open_cmd("b"));
    drain(&mut app);
    app.handle_command(DaemonCommand::KillServer);
    let acts = drain(&mut app);
    let closes = acts
        .iter()
        .filter(|a| matches!(a, DaemonAction::CloseNative(_)))
        .count();
    assert_eq!(closes, 2, "one native close per previously open window");
}

#[test]
fn reload_applies_css_even_when_config_fails() {
    let cfg = config_of(&[]);
    let mut backend = TestBackend::new();
    backend.config_error = Some("bad toml".to_string());
    backend.reload_css = Ok("body {}".to_string());
    let mut app = App::new(cfg, backend);
    let (resp, _) = app.handle_command(DaemonCommand::ReloadConfigAndCss);
    assert_eq!(
        resp,
        Some(DaemonResponse::Failure("Failed to load config: bad toml".to_string()))
    );
    let acts = drain(&mut app);
    assert!(
        acts.contains(&DaemonAction::LoadCss("body {}".to_string())),
        "a parsed stylesheet is applied independently of the config failure"
    );
}

#[test]
fn reload_reports_reopen_failure_in_the_log_not_the_response() {
    let cfg = config_of(&[("a", &["x"])]);
    let mut backend = TestBackend::new();
    backend.reload_windows = vec![("a".to_string(), vec!["x".to_string()])];
    let mut app = App::new(cfg, backend);
    app.handle_command(open_cmd("a"));
    app.display_backend.fail.push("a".to_string());
    let (resp, log) = app.handle_command(DaemonCommand::ReloadConfigAndCss);
    assert_eq!(
        resp,
        Some(DaemonResponse::Success(String::new())),
        "both parses succeeded, so the response is success"
    );
    assert!(log.is_some(), "the failed reopen is surfaced for logging");
    assert!(!is_open(&app, "a"));
}
