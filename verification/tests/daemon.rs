use save_manager::daemon::apps::{
    config_action, find_deleted_app, forget_removed_configs, load_files_into_hashmap, App, ConfigAction, ConfigChange,
};
use save_manager::daemon::dropbox_foldering::{folder_path, get_file_name, get_upload_path};
use save_manager::daemon::dropbox_uploader::upload_destination;
use save_manager::daemon::processes::ProcessWatch;
use save_manager::daemon::upload_map::UploadMap;

fn app(executable: &str, upload_path: &str, name: &str) -> App {
    App {
        executable: executable.to_string(),
        upload_path: upload_path.to_string(),
        name: name.to_string(),
    }
}

fn names(v: &[&str]) -> Vec<String> {
    v.iter().map(|s| s.to_string()).collect()
}

#[test]
fn get_file_name_of_paths() {
    assert_eq!(get_file_name("C:/Saves/slot1.sav".to_string()), Some("slot1.sav".to_string()));
    assert_eq!(get_file_name("/home/u/saves/".to_string()), Some("saves".to_string()));
    assert_eq!(get_file_name("/".to_string()), None);
    assert_eq!(get_file_name("saves/..".to_string()), None);
    assert_eq!(get_file_name("C:\\Games\\save.dat".to_string()), Some("save.dat".to_string()));
}

#[test]
fn upload_path_is_app_then_file() {
    let p = get_upload_path(&"slot1.sav".to_string(), &"My Game".to_string());
    assert_eq!(p, "/My Game/slot1.sav");
    assert_eq!(get_file_name(p), Some("slot1.sav".to_string()));
}

#[test]
fn folder_path_of_app() {
    assert_eq!(folder_path(&"My Game".to_string()), "/My Game");
    assert_eq!(app("a.exe", "s", "Game").folder_path(), "/Game");
}

#[test]
fn upload_destination_skips_paths_without_file() {
    assert_eq!(
        upload_destination("C:/Saves/slot1.sav".to_string(), &"Game".to_string()),
        Some("/Game/slot1.sav".to_string())
    );
    assert_eq!(upload_destination("C:/Saves/..".to_string(), &"Game".to_string()), None);
}

#[test]
fn key_value_decodes_spaces() {
    let (k, v) = app("C:/Program%20Files/My%20Game/game%20x.exe", "C:/saves/s.dat", "My Game").into_key_value();
    assert_eq!(k, "game x.exe");
    assert_eq!(v.save_path, "C:/saves/s.dat");
    assert_eq!(v.app_name, "My Game");
}

#[test]
fn registered_app_is_found() {
    let mut map = UploadMap::new();
    assert!(!map.contains_key(&"game.exe".to_string()));
    app("C:/g/game.exe", "C:/g/save.dat", "Game").to_dashmap(&mut map);
    assert!(map.contains_key(&"game.exe".to_string()));
    let t = map.get(&"game.exe".to_string()).unwrap();
    assert_eq!(t.save_path, "C:/g/save.dat");
    assert_eq!(t.app_name, "Game");
    app("C:/h/game.exe", "C:/h/other.dat", "Other").to_dashmap(&mut map);
    assert_eq!(map.get(&"game.exe".to_string()).unwrap().app_name, "Other");
}

#[test]
fn load_registers_in_order() {
    let mut map = UploadMap::new();
    load_files_into_hashmap(
        vec![
            app("a/one.exe", "s1", "One"),
            app("b/two.exe", "s2", "Two"),
            app("c/one.exe", "s3", "Three"),
        ],
        &mut map,
    );
    assert_eq!(map.get(&"one.exe".to_string()).unwrap().app_name, "Three");
    assert_eq!(map.get(&"two.exe".to_string()).unwrap().save_path, "s2");
    assert!(map.get(&"three.exe".to_string()).is_none());
}

#[test]
fn forgotten_app_is_absent() {
    let mut map = UploadMap::new();
    app("C:/g/game.exe", "save1", "My Game").to_dashmap(&mut map);
    app("D:/g/launcher.exe", "save2", "My Game").to_dashmap(&mut map);
    app("x/keep.exe", "k", "Keep").to_dashmap(&mut map);
    find_deleted_app("My_Game".to_string(), &mut map);
    assert!(!map.contains_key(&"game.exe".to_string()));
    assert!(!map.contains_key(&"launcher.exe".to_string()));
    assert_eq!(map.get(&"keep.exe".to_string()).unwrap().save_path, "k");
    map.remove(&"keep.exe".to_string());
    assert!(!map.contains_key(&"keep.exe".to_string()));
}

#[test]
fn remove_app_by_name() {
    let mut map = UploadMap::new();
    app("a/one.exe", "s1", "One").to_dashmap(&mut map);
    app("b/two.exe", "s2", "Two").to_dashmap(&mut map);
    map.remove_app(&"Two".to_string());
    assert!(map.contains_key(&"one.exe".to_string()));
    assert!(!map.contains_key(&"two.exe".to_string()));
    map.remove_app(&"Nobody".to_string());
    assert!(map.contains_key(&"one.exe".to_string()));
}

#[test]
fn removed_configs_are_forgotten() {
    let mut map = UploadMap::new();
    app("a/one.exe", "s1", "One Game").to_dashmap(&mut map);
    app("b/two.exe", "s2", "Two").to_dashmap(&mut map);
    app("c/three.exe", "s3", "Three").to_dashmap(&mut map);
    forget_removed_configs(
        &vec!["C:\\Users\\u\\SaveManager\\apps\\One_Game".to_string(), "/cfg/apps/Three".to_string()],
        &mut map,
    );
    assert!(!map.contains_key(&"one.exe".to_string()));
    assert!(map.contains_key(&"two.exe".to_string()));
    assert!(!map.contains_key(&"three.exe".to_string()));
}

#[test]
fn config_actions() {
    assert!(matches!(config_action(ConfigChange::ModifiedAny), ConfigAction::Register));
    assert!(matches!(config_action(ConfigChange::RemovedFile), ConfigAction::Forget));
    assert!(matches!(config_action(ConfigChange::Other), ConfigAction::Ignore));
}

#[test]
fn closed_app_is_uploaded_once() {
    let mut map = UploadMap::new();
    app("C:/g/game.exe", "C:/g/save.dat", "Game").to_dashmap(&mut map);
    app("C:/e/editor.exe", "C:/e/doc.txt", "Editor").to_dashmap(&mut map);
    let mut watch = ProcessWatch::new();
    let up = watch.check(&names(&["explorer.exe", "game.exe", "editor.exe"]), &map);
    assert!(up.is_empty());
    assert_eq!(watch.previous, names(&["game.exe", "editor.exe"]));
    let up = watch.check(&names(&["game.exe", "editor.exe", "shell.exe"]), &map);
    assert!(up.is_empty());
    let up = watch.check(&names(&["editor.exe"]), &map);
    assert_eq!(up.len(), 1);
    assert_eq!(up[0].save_path, "C:/g/save.dat");
    assert_eq!(up[0].app_name, "Game");
    assert_eq!(watch.previous, names(&["editor.exe"]));
    let up = watch.check(&names(&["editor.exe"]), &map);
    assert!(up.is_empty());
    let up = watch.check(&names(&[]), &map);
    assert_eq!(up.len(), 1);
    assert_eq!(up[0].app_name, "Editor");
    assert!(watch.previous.is_empty());
}

#[test]
fn repeated_process_is_uploaded_per_entry() {
    let mut map = UploadMap::new();
    app("g/game.exe", "save", "Game").to_dashmap(&mut map);
    let mut watch = ProcessWatch::new();
    watch.check(&names(&["game.exe", "game.exe"]), &map);
    assert_eq!(watch.previous.len(), 2);
    let up = watch.check(&names(&["other.exe"]), &map);
    assert_eq!(up.len(), 2);
}
