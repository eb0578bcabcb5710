use tab_term::layout::PlacementRegion;
use tab_term::model::{Color, Subject, TimeBlock};
use tab_term::session::{
    failure_warning, missing_config_warning, App, AppEvent, FetchOutcome, Key, KeyInput,
};

fn entry(day: usize, time: usize, duration: usize, name: &str) -> TimeBlock {
    TimeBlock {
        day,
        time,
        duration,
        professor: "Prof".to_string(),
        classroom: "R1".to_string(),
        subject: Subject {
            name: name.to_string(),
            abbreviation: String::new(),
            location: String::new(),
            kind: String::new(),
        },
    }
}

fn press(code: Key) -> KeyInput {
    KeyInput { press: true, code, control: false }
}

fn loaded_app() -> App {
    let mut app = App::default();
    let url = app.begin_refresh(Some("http://host/t".to_string()), None);
    assert_eq!(url, Some("http://host/t".to_string()));
    app.finish_refresh(FetchOutcome::Entries(vec![entry(0, 9, 2, "Algorithms")]));
    app
}

#[test]
fn missing_config_warns_without_request() {
    let mut app = App::default();
    let path = "/home/u/.config/tab-term/config.txt".to_string();
    let url = app.begin_refresh(None, Some(path.clone()));
    assert_eq!(url, None);
    assert!(!app.fetching);
    let w = app.warning.as_ref().unwrap();
    assert!(w.message.contains(&path));
    assert!(w.message.contains("http://localhost:8080/timetable/fri/61310"));
    assert_eq!(w.title, "Error");
    assert_eq!(w.color, Color::Red);
}

#[test]
fn missing_config_message_without_path() {
    let w = missing_config_warning(None);
    assert_eq!(
        w.message,
        "Empty config file...\nAdd your api provider in:\n\n\nExample:\nhttp://localhost:8080/timetable/fri/61310"
    );
    assert_eq!(w.bottom_hint, "Press <Esc> to close the window");
}

#[test]
fn not_found_keeps_the_grid() {
    let mut app = loaded_app();
    let before: Vec<PlacementRegion> = app.regions();
    assert_eq!(before.len(), 1);
    let url = app.begin_refresh(Some("http://host/t".to_string()), None);
    assert!(url.is_some());
    app.finish_refresh(FetchOutcome::Status(404));
    let w = app.warning.as_ref().unwrap();
    assert_eq!(w.message, "Page not found");
    assert!(w.message.to_lowercase().contains("not found"));
    assert_eq!(app.regions(), before);
    assert_eq!(app.timetable_data.len(), 1);
    assert_eq!(app.colors.len(), 1);
    assert_eq!(app.colors[0].0, "Algorithms");
}

#[test]
fn failure_warnings_by_status() {
    let w = failure_warning(Some(429));
    assert_eq!(w.message, "Too many requests...");
    assert_eq!(w.color, Color::Yellow);
    let w = failure_warning(Some(408));
    assert_eq!(w.message, "Request timed out...");
    assert_eq!(w.color, Color::Red);
    let w = failure_warning(Some(500));
    assert_eq!(w.message, "Host unreachable\nCheck if the config url works");
    let w = failure_warning(None);
    assert_eq!(w.message, "Host unreachable\nCheck if the config url works");
    assert_eq!(w.color, Color::Red);
    assert_eq!(w.title, "Error");
}

#[test]
fn unreachable_host_warns() {
    let mut app = loaded_app();
    app.begin_refresh(Some("http://host/t".to_string()), None);
    app.finish_refresh(FetchOutcome::Unreachable);
    assert!(app.warning.as_ref().unwrap().message.starts_with("Host unreachable"));
    assert_eq!(app.timetable_data.len(), 1);
    assert!(!app.fetching);
}

#[test]
fn success_replaces_entries_and_clears_warning() {
    let mut app = loaded_app();
    app.begin_refresh(Some("http://host/t".to_string()), None);
    app.finish_refresh(FetchOutcome::Status(429));
    assert!(app.warning.is_some());
    app.begin_refresh(Some("http://host/t".to_string()), None);
    app.finish_refresh(FetchOutcome::Entries(vec![
        entry(2, 14, 1, "Net"),
        entry(2, 14, 1, "DB"),
    ]));
    assert!(app.warning.is_none());
    assert_eq!(app.timetable_data.len(), 2);
    let keys: Vec<&str> = app.colors.iter().map(|p| p.0.as_str()).collect();
    assert_eq!(keys, vec!["DB", "Net"]);
    assert_eq!(app.regions().len(), 2);
}

#[test]
fn refresh_while_fetching_is_ignored() {
    let mut app = App::default();
    assert!(app.begin_refresh(Some("http://a".to_string()), None).is_some());
    assert!(app.fetching);
    assert_eq!(app.begin_refresh(None, None), None);
    assert!(app.warning.is_none());
    assert_eq!(app.config, Some("http://a".to_string()));
}

#[test]
fn keys_give_commands() {
    let mut app = App::default();
    assert_eq!(app.handle_key_events(press(Key::Char('q'))), Some(AppEvent::Quit));
    assert_eq!(app.handle_key_events(press(Key::Char('r'))), Some(AppEvent::Refresh));
    assert_eq!(app.handle_key_events(press(Key::Char('c'))), None);
    let ctrl_c = KeyInput { press: true, code: Key::Char('c'), control: true };
    assert_eq!(app.handle_key_events(ctrl_c), Some(AppEvent::Quit));
    let ctrl_upper = KeyInput { press: true, code: Key::Char('C'), control: true };
    assert_eq!(app.handle_key_events(ctrl_upper), Some(AppEvent::Quit));
    let release = KeyInput { press: false, code: Key::Char('q'), control: false };
    assert_eq!(app.handle_key_events(release), None);
    assert_eq!(app.handle_key_events(press(Key::Other)), None);
}

#[test]
fn escape_dismisses_warning_and_refresh_keeps_it() {
    let mut app = App::default();
    app.begin_refresh(None, None);
    assert!(app.warning.is_some());
    assert_eq!(app.handle_key_events(press(Key::Char('r'))), Some(AppEvent::Refresh));
    assert!(app.warning.is_some());
    app.begin_refresh(Some("http://host/t".to_string()), None);
    assert!(app.warning.is_some());
    app.finish_refresh(FetchOutcome::Entries(vec![entry(0, 9, 1, "A")]));
    assert!(app.warning.is_none());
    app.begin_refresh(None, None);
    assert_eq!(app.handle_key_events(press(Key::Esc)), None);
    assert!(app.warning.is_none());
    assert_eq!(app.handle_key_events(press(Key::Esc)), None);
    assert_eq!(app.timetable_data.len(), 1);
}

#[test]
fn refresh_keeps_only_valid_entries() {
    let mut app = App::default();
    app.begin_refresh(Some("http://host/t".to_string()), None);
    app.finish_refresh(FetchOutcome::Entries(vec![
        entry(0, 9, 1, ""),
        entry(0, 9, 1, "Net"),
        entry(5, 9, 1, "Weekend"),
        entry(1, 10, 0, "Zero"),
        entry(1, 6, 1, "Early"),
        entry(2, 12, 2, "DB"),
    ]));
    let names: Vec<&str> = app.timetable_data.iter().map(|b| b.subject.name.as_str()).collect();
    assert_eq!(names, vec!["Net", "DB"]);
    let keys: Vec<&str> = app.colors.iter().map(|p| p.0.as_str()).collect();
    assert_eq!(keys, vec!["DB", "Net"]);
    let regions = app.regions();
    assert_eq!(regions.len(), 2);
    assert_eq!(regions[0].column_count, 1);
    assert_eq!(regions[0].column_index, 0);
}

#[test]
fn quit_stops_running() {
    let mut app = App::default();
    assert!(app.running);
    app.tick();
    app.quit();
    assert!(!app.running);
}

#[test]
fn config_contents() {
    assert_eq!(App::check_config(None), None);
    assert_eq!(App::check_config(Some(String::new())), None);
    assert_eq!(App::check_config(Some("~~~~".to_string())), None);
    assert_eq!(
        App::check_config(Some("  http://localhost:8080/t \n".to_string())),
        Some("http://localhost:8080/t".to_string())
    );
}
