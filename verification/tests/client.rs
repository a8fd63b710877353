use save_manager::client::apps::{get_filename, App, Apps};
use save_manager::client::auth::{
    exchange_code_uri, exchange_result, get_dropbox_oauth_link, on_code_submitted, ExchangeReply, SubmitAction,
};
use save_manager::client::startup::{is_daemon_running, start_screen, StartScreen};
use save_manager::client::ui_builder::{file_uri, path_from_uri, SaveOutcome};
use save_manager::daemon::apps::{find_deleted_app, App as DaemonApp};
use save_manager::daemon::upload_map::UploadMap;

fn app(name: &str, exe: &str, save: &str) -> App {
    App { name: name.to_string(), executable: exe.to_string(), upload_path: save.to_string() }
}

#[test]
fn config_file_name_replaces_spaces() {
    assert_eq!(get_filename(&"My Great Game".to_string()), "My_Great_Game");
    assert_eq!(app("A B", "e", "s").config_file_name(), "A_B");
}

#[test]
fn config_file_name_roundtrip_through_daemon() {
    let name = "My Great Game".to_string();
    let file = get_filename(&name);
    let mut map = UploadMap::new();
    DaemonApp { executable: "C:/g/great.exe".to_string(), upload_path: "s".to_string(), name: name.clone() }
        .to_dashmap(&mut map);
    DaemonApp { executable: "C:/o/other.exe".to_string(), upload_path: "t".to_string(), name: "Other".to_string() }
        .to_dashmap(&mut map);
    find_deleted_app(file, &mut map);
    assert!(!map.contains_key(&"great.exe".to_string()));
    assert_eq!(map.get(&"other.exe".to_string()).unwrap().app_name, "Other");
}

#[test]
fn underscore_names_do_not_roundtrip() {
    let file = get_filename(&"a_b".to_string());
    assert_eq!(file, "a_b");
    let mut map = UploadMap::new();
    DaemonApp { executable: "x/ab.exe".to_string(), upload_path: "s".to_string(), name: "a_b".to_string() }
        .to_dashmap(&mut map);
    find_deleted_app(file, &mut map);
    assert!(map.contains_key(&"ab.exe".to_string()));
}

#[test]
fn uri_roundtrip() {
    let uri = file_uri(&"C:/Games/game%20x.exe".to_string());
    assert_eq!(uri, "file:///C:/Games/game%20x.exe");
    assert_eq!(path_from_uri(&uri), "C:/Games/game%20x.exe");
    assert_eq!(path_from_uri(&"C:/plain".to_string()), "C:/plain");
}

#[test]
fn form_to_daemon_key() {
    let a = App::from_form(
        "Game X".to_string(),
        &"file:///C:/Games/game%20x.exe".to_string(),
        &"file:///C:/Games/save.dat".to_string(),
    );
    assert_eq!(a.executable, "C:/Games/game%20x.exe");
    assert_eq!(a.upload_path, "C:/Games/save.dat");
    assert_eq!(a.executable_uri(), "file:///C:/Games/game%20x.exe");
    assert_eq!(a.upload_uri(), "file:///C:/Games/save.dat");
    let d = DaemonApp { executable: a.executable, upload_path: a.upload_path, name: a.name };
    let (k, _) = d.into_key_value();
    assert_eq!(k, "game x.exe");
}

#[test]
fn rows_number_from_one() {
    let apps = Apps(vec![app("A", "a", "a"), app("B", "b", "b")]);
    let rows = apps.rows();
    assert_eq!(rows.len(), 2);
    assert_eq!((rows[0].id, rows[0].name.as_str()), (1, "A"));
    assert_eq!((rows[1].id, rows[1].name.as_str()), (2, "B"));
}

#[test]
fn selected_row_shows_app() {
    let apps = Apps(vec![app("A", "a", "a"), app("B", "b", "b")]);
    assert_eq!(apps.selected(2).unwrap().name, "B");
    assert!(apps.selected(3).is_none());
}

#[test]
fn save_replaces_or_appends() {
    let mut apps = Apps(vec![app("A", "a", "a"), app("B", "b", "b")]);
    assert!(matches!(apps.save(Some(1), app("A2", "x", "y")), SaveOutcome::Replaced));
    assert_eq!(apps.selected(1).unwrap().name, "A2");
    assert_eq!(apps.selected(2).unwrap().name, "B");
    match apps.save(None, app("C", "c", "c")) {
        SaveOutcome::Appended { row } => {
            assert_eq!((row.id, row.name.as_str()), (3, "C"));
            assert_eq!(apps.selected(row.id).unwrap().name, "C");
        }
        SaveOutcome::Replaced => panic!("expected a new row"),
    }
    match apps.save(Some(9), app("D", "d", "d")) {
        SaveOutcome::Appended { row } => assert_eq!(row.id, 4),
        SaveOutcome::Replaced => panic!("expected a new row"),
    }
    assert_eq!(apps.0.len(), 4);
}

#[test]
fn oauth_addresses() {
    let api = "https://auth.example".to_string();
    assert_eq!(get_dropbox_oauth_link(&api), "https://auth.example/generate_dropbox_auth");
    assert_eq!(exchange_code_uri(&api), "https://auth.example/exchange_code");
}

#[test]
fn exchange_results() {
    assert_eq!(exchange_result(ExchangeReply::Unsent), Err(false));
    assert_eq!(
        exchange_result(ExchangeReply::Answered { status: 200, body: Some("tok".to_string()) }),
        Ok("tok".to_string())
    );
    assert_eq!(exchange_result(ExchangeReply::Answered { status: 406, body: None }), Err(true));
    assert_eq!(exchange_result(ExchangeReply::Answered { status: 500, body: None }), Err(false));
}

#[test]
fn submit_actions() {
    assert!(matches!(on_code_submitted(Ok("t".to_string())), SubmitAction::StoreToken(t) if t == "t"));
    assert!(matches!(on_code_submitted(Err(true)), SubmitAction::ShowWrongCode));
    assert!(matches!(on_code_submitted(Err(false)), SubmitAction::Nothing));
}

#[test]
fn daemon_detection_and_start() {
    let procs = vec!["explorer.exe".to_string(), "save_deamon.exe".to_string()];
    assert!(is_daemon_running(&procs));
    assert!(!is_daemon_running(&vec!["save_daemon.exe".to_string()]));
    assert!(!is_daemon_running(&vec![]));
    assert!(matches!(start_screen(false), StartScreen::SignIn));
    assert!(matches!(start_screen(true), StartScreen::Main));
}
