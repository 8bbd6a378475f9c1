use manage_dan::config::AppConfig;
use manage_dan::logging::{DbLayer, LogLevel, LogVisitor};
use manage_dan::status::{SystemsGoNogo, SystemsStatus};
use manage_dan::ui::{App, Key, Screen};

#[test]
fn config_defaults() {
    let c = AppConfig::defaults();
    assert_eq!(c.environment, "development");
    assert_eq!(c.printer.vendor_id, 0x0fe6);
    assert_eq!(c.printer.product_id, 0x811e);
    assert_eq!(c.printer.mode, "terminal");
    assert_eq!(c.printer.characters_per_line, 42);
    assert_eq!(c.todo.nb_notebook, "todo");
    assert_eq!(c.project.base_dir, "~/projects");
    assert_eq!(c.api_port, 8080);
    assert_eq!(c.monitor_interval_secs, 30);
    assert_eq!(c.summary_hour, 8);
    assert_eq!(c.summary_level, "full");
    assert_eq!(c.completed_summary_hour, 20);
    assert!(c.completed_summary_enabled);
    assert_eq!(c.logging.file, "data/logs/app.log");
}

#[test]
fn dashboard_keys_open_screens() {
    let mut app = App::new(SystemsStatus::new(), SystemsGoNogo::new());
    assert_eq!(app.current_screen, Screen::Dashboard);
    app.handle_input(Key::Char('x'));
    assert_eq!(app.current_screen, Screen::Dashboard);
    app.handle_input(Key::Char('2'));
    assert_eq!(app.current_screen, Screen::Notes);
    // other screens take no keys yet
    app.handle_input(Key::Char('q'));
    assert_eq!(app.current_screen, Screen::Notes);
    let mut app = App::new(SystemsStatus::new(), SystemsGoNogo::new());
    app.handle_input(Key::Char('q'));
    assert_eq!(app.current_screen, Screen::Quit);
    let mut app = App::new(SystemsStatus::new(), SystemsGoNogo::new());
    app.handle_input(Key::Char('1'));
    assert_eq!(app.current_screen, Screen::Todo);
    let mut app = App::new(SystemsStatus::new(), SystemsGoNogo::new());
    app.handle_input(Key::Char('3'));
    assert_eq!(app.current_screen, Screen::Project);
    app.handle_input(Key::Other);
    assert_eq!(app.current_screen, Screen::Project);
}

#[test]
fn only_info_and_above_reach_the_database() {
    assert!(!DbLayer::records(LogLevel::Trace));
    assert!(!DbLayer::records(LogLevel::Debug));
    assert!(DbLayer::records(LogLevel::Info));
    assert!(DbLayer::records(LogLevel::Warn));
    assert!(DbLayer::records(LogLevel::Error));
    let layer = DbLayer;
    assert!(layer.on_event(LogLevel::Debug, "app", LogVisitor::new()).is_none());
}

#[test]
fn recorded_events_keep_level_target_and_message() {
    let layer = DbLayer;
    let mut v = LogVisitor::new();
    v.record("other", "ignored".to_string());
    assert!(v.message.is_none());
    v.record("message", "\"started\"".to_string());
    let (level, target, message) = layer.on_event(LogLevel::Warn, "app::main", v).unwrap();
    assert_eq!(level, "WARN");
    assert_eq!(target, "app::main");
    assert_eq!(message, "\"started\"");
    let (_, _, message) = layer.on_event(LogLevel::Error, "x", LogVisitor::new()).unwrap();
    assert_eq!(message, "No message");
}
