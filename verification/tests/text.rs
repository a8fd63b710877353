use save_manager::daemon::dropbox_foldering::get_file_name;
use save_manager::text::{chars_of, join_strs, replace, string_from_chars};
use std::path::Path;

#[test]
fn chars_round_trip() {
    let v = chars_of("zażółć");
    assert_eq!(v, vec!['z', 'a', 'ż', 'ó', 'ł', 'ć']);
    assert_eq!(string_from_chars(&v), "zażółć");
}

#[test]
fn concat_joins() {
    assert_eq!(join_strs("ab", "cd"), "abcd");
    assert_eq!(join_strs("", ""), "");
}

#[test]
fn replace_matches_std() {
    let cases = [
        ("a b c", " ", "_"),
        ("game%20of%20life.exe", "%20", " "),
        ("%2%20", "%20", " "),
        ("aaaa", "aa", "b"),
        ("aaa", "aa", "b"),
        ("file:///C:/x/file:///y", "file:///", ""),
        ("", "x", "y"),
        ("no match", "zz", "q"),
        ("under_score_", "_", " "),
    ];
    for (s, p, r) in cases {
        assert_eq!(replace(s, p, r), s.replace(p, r), "replace({:?}, {:?}, {:?})", s, p, r);
    }
}

#[test]
fn file_name_matches_std() {
    let cases = [
        "", "/", ".", "..", "./", "/.", "a", "a/", "a/b", "a//b", "a/b/", "a/.", "a/./",
        "a/..", "/a/b.txt", "foo.txt/.//", "./a", "...", "a/...", "/.hidden", "a/b/../c",
        "x/./.", "./.", "/C:/x", "1:/x",
    ];
    for p in cases {
        let expected = Path::new(p).file_name().map(|f| f.to_str().unwrap().to_string());
        assert_eq!(get_file_name(p.to_string()), expected, "file name of {:?}", p);
    }
}

#[test]
fn file_name_of_windows_paths() {
    let cases: [(&str, Option<&str>); 27] = [
        ("C:\\Games\\save.dat", Some("save.dat")),
        ("C:/Games/save.dat", Some("save.dat")),
        ("C:", None),
        ("C:\\", None),
        ("c:foo", Some("foo")),
        ("C:.", None),
        ("dir\\..", None),
        ("a\\b/", Some("b")),
        ("a\\.\\", Some("a")),
        ("\\", None),
        ("SaveManager\\apps\\My_Game", Some("My_Game")),
        ("9:\\x", Some("x")),
        ("\\\\s\\x", None),
        ("\\\\server\\share\\dir\\f.txt", Some("f.txt")),
        ("//server/share/f", Some("f")),
        ("\\\\server", Some("server")),
        ("\\\\server\\", Some("server")),
        ("\\\\?\\C:\\a\\b", Some("b")),
        ("\\\\?\\C:\\a\\.", None),
        ("\\\\?\\C:\\a/b", Some("a/b")),
        ("\\\\?\\UNC\\s\\x\\f", Some("f")),
        ("\\\\?\\UNC\\s\\x", None),
        ("\\\\?\\pictures\\a", Some("a")),
        ("\\\\?\\pictures", None),
        ("\\\\.\\COM1", None),
        ("\\\\.\\pipe\\name", Some("name")),
        ("//?/C:/a", Some("a")),
    ];
    for (p, expected) in cases {
        assert_eq!(get_file_name(p.to_string()), expected.map(|s| s.to_string()), "file name of {:?}", p);
    }
}
