use std::io::{Cursor, Read};

use quix::bundle::{
    encode, file_name, is_under_root, pack_directory, pack_file, relative_path, EntryKind,
    TreeEntry, TreeSnapshot,
};
use quix::error::SyncError;
use quix::policy::default_ignore;
use quix::text::{chars_of, string_of};

fn file(path: &str, content: &[u8]) -> TreeEntry {
    TreeEntry { path: path.to_string(), kind: EntryKind::File, content: content.to_vec() }
}

fn dir(path: &str) -> TreeEntry {
    TreeEntry { path: path.to_string(), kind: EntryKind::Directory, content: Vec::new() }
}

fn snapshot(root: &str, entries: Vec<TreeEntry>) -> TreeSnapshot {
    TreeSnapshot { root: root.to_string(), is_directory: true, entries }
}

fn listing(bytes: &[u8]) -> Vec<(String, bool, Vec<u8>)> {
    let mut archive = zip::ZipArchive::new(Cursor::new(bytes.to_vec())).unwrap();
    let mut out = Vec::new();
    for index in 0..archive.len() {
        let mut entry = archive.by_index(index).unwrap();
        let mut data = Vec::new();
        entry.read_to_end(&mut data).unwrap();
        out.push((entry.name().to_string(), entry.is_dir(), data));
    }
    out
}

fn relative(root: &str, path: &str) -> String {
    string_of(&relative_path(&chars_of(root), &chars_of(path)))
}

#[test]
fn archive_holds_the_files_under_their_relative_paths() {
    let tree = snapshot(
        "/work/app",
        vec![
            dir("/work/app"),
            file("/work/app/project.json", b"{}"),
            dir("/work/app/src"),
            file("/work/app/src/index.ts", b"export {}"),
        ],
    );
    let bytes = pack_directory(&tree, &default_ignore()).unwrap();
    assert_eq!(
        listing(&bytes),
        vec![
            ("project.json".to_string(), false, b"{}".to_vec()),
            ("src/".to_string(), true, Vec::new()),
            ("src/index.ts".to_string(), false, b"export {}".to_vec()),
        ]
    );
}

#[test]
fn excluded_paths_stay_out_of_the_archive() {
    let tree = snapshot(
        "/work/app",
        vec![
            dir("/work/app"),
            dir("/work/app/.git"),
            file("/work/app/.git/HEAD", b"ref"),
            dir("/work/app/node_modules"),
            dir("/work/app/node_modules/react"),
            file("/work/app/node_modules/react/index.js", b"x"),
            file("/work/app/.gitignore", b"dist"),
            dir("/work/app/dist"),
            file("/work/app/dist/out.js", b"y"),
            file("/work/app/a.ts", b"a"),
        ],
    );
    let ignore = vec!["node_modules".to_string(), "dist".to_string()];
    let bytes = pack_directory(&tree, &ignore).unwrap();
    assert_eq!(
        listing(&bytes),
        vec![
            (".gitignore".to_string(), false, b"dist".to_vec()),
            ("a.ts".to_string(), false, b"a".to_vec()),
        ]
    );
}

#[test]
fn packing_twice_gives_the_same_bytes() {
    let entries = vec![
        dir("/work/app"),
        file("/work/app/project.json", b"{\"name\":\"x\"}"),
        dir("/work/app/empty"),
        file("/work/app/src/a.ts", b"a"),
    ];
    let first = pack_directory(&snapshot("/work/app", entries.clone()), &default_ignore()).unwrap();
    let second = pack_directory(&snapshot("/work/app", entries), &default_ignore()).unwrap();
    assert_eq!(first, second);
    let mut archive = zip::ZipArchive::new(Cursor::new(first)).unwrap();
    for index in 0..archive.len() {
        let entry = archive.by_index(index).unwrap();
        let stamp = entry.last_modified();
        assert_eq!(
            (stamp.year(), stamp.month(), stamp.day(), stamp.hour(), stamp.minute(), stamp.second()),
            (1980, 1, 1, 0, 0, 0)
        );
        assert_eq!(entry.compression(), zip::CompressionMethod::Stored);
        assert_eq!(entry.unix_mode().map(|mode| mode & 0o777), Some(0o755));
    }
}

#[test]
fn directories_emptied_by_the_policy_are_left_out() {
    let tree = snapshot(
        "/work/app",
        vec![
            dir("/work/app"),
            dir("/work/app/empty"),
            dir("/work/app/vendor"),
            dir("/work/app/vendor/node_modules"),
            file("/work/app/vendor/node_modules/x.js", b"x"),
            dir("/work/app/lib"),
            file("/work/app/lib/a.ts", b"a"),
            dir("/work/app/libs"),
        ],
    );
    let bytes = pack_directory(&tree, &default_ignore()).unwrap();
    assert_eq!(
        listing(&bytes),
        vec![
            ("empty/".to_string(), true, Vec::new()),
            ("lib/".to_string(), true, Vec::new()),
            ("lib/a.ts".to_string(), false, b"a".to_vec()),
            ("libs/".to_string(), true, Vec::new()),
        ]
    );
}

#[test]
fn separators_are_normalized() {
    let tree = snapshot(
        "C:\\work\\app",
        vec![
            dir("C:\\work\\app"),
            dir("C:\\work\\app\\src"),
            file("C:\\work\\app\\src\\deep\\a.ts", b"a"),
        ],
    );
    let bytes = pack_directory(&tree, &default_ignore()).unwrap();
    assert_eq!(
        listing(&bytes),
        vec![
            ("src/".to_string(), true, Vec::new()),
            ("src/deep/a.ts".to_string(), false, b"a".to_vec()),
        ]
    );
}

#[test]
fn entries_outside_the_root_are_left_out() {
    let tree = snapshot(
        "/work/app",
        vec![file("/work/application/a.ts", b"a"), file("/elsewhere/b.ts", b"b"), file("/work/app/c.ts", b"c")],
    );
    let bytes = pack_directory(&tree, &default_ignore()).unwrap();
    assert_eq!(listing(&bytes), vec![("c.ts".to_string(), false, b"c".to_vec())]);
}

#[test]
fn empty_tree_gives_an_empty_archive() {
    let bytes = pack_directory(&snapshot("/work/app", vec![dir("/work/app")]), &default_ignore())
        .unwrap();
    assert!(listing(&bytes).is_empty());
    let empty_file = pack_directory(
        &snapshot("/work/app", vec![file("/work/app/empty.txt", b"")]),
        &default_ignore(),
    )
    .unwrap();
    assert_eq!(listing(&empty_file), vec![("empty.txt".to_string(), false, Vec::new())]);
}

#[test]
fn root_that_is_no_directory_is_an_io_error() {
    let tree = TreeSnapshot {
        root: "/work/missing".to_string(),
        is_directory: false,
        entries: vec![file("/work/missing/a.ts", b"a")],
    };
    assert_eq!(pack_directory(&tree, &default_ignore()).unwrap_err(), SyncError::IOError);
}

#[test]
fn single_file_is_wrapped_under_its_own_name() {
    let content = b"hello".to_vec();
    let bytes = pack_file("/work/app/src/a.ts", Some(&content)).unwrap();
    assert_eq!(listing(&bytes), vec![("a.ts".to_string(), false, b"hello".to_vec())]);
    assert_eq!(pack_file("/work/app/src/a.ts", None).unwrap_err(), SyncError::IOError);
}

#[test]
fn file_name_is_the_last_segment() {
    assert_eq!(file_name("/work/app/a.ts"), "a.ts");
    assert_eq!(file_name("C:\\work\\a.ts"), "a.ts");
    assert_eq!(file_name("a.ts"), "a.ts");
    assert_eq!(file_name("dir/"), "");
    assert_eq!(file_name(""), "");
}

#[test]
fn relative_path_drops_root_and_leading_slash() {
    assert_eq!(relative("/work/app", "/work/app/src/a.ts"), "src/a.ts");
    assert_eq!(relative("/work/app/", "/work/app/src/a.ts"), "src/a.ts");
    assert_eq!(relative("C:\\app", "C:\\app\\src\\a.ts"), "src/a.ts");
    assert_eq!(relative("/work/app", "/work/app"), "");
    assert_eq!(relative("", "src/a.ts"), "src/a.ts");
    assert!(is_under_root(&chars_of("/work/app"), &chars_of("/work/app/a")));
    assert!(is_under_root(&chars_of("/work/app"), &chars_of("/work/app")));
    assert!(!is_under_root(&chars_of("/work/app"), &chars_of("/work/apple")));
    assert!(!is_under_root(&chars_of("/work/app"), &chars_of("/work")));
}

#[test]
fn bytes_are_encoded_as_padded_base64() {
    assert_eq!(encode(&b"".to_vec()).unwrap(), "");
    assert_eq!(encode(&b"f".to_vec()).unwrap(), "Zg==");
    assert_eq!(encode(&b"fo".to_vec()).unwrap(), "Zm8=");
    assert_eq!(encode(&b"foo".to_vec()).unwrap(), "Zm9v");
    assert_eq!(encode(&b"hello world".to_vec()).unwrap(), "aGVsbG8gd29ybGQ=");
    assert_eq!(encode(&vec![0xff, 0xfe, 0xfd]).unwrap(), "//79");
}

#[test]
fn archive_order_is_by_path_whatever_the_walk() {
    let forward = vec![
        dir("/work/app"),
        dir("/work/app/a"),
        file("/work/app/a/one.ts", b"1"),
        file("/work/app/a.txt", b"t"),
        dir("/work/app/b"),
        file("/work/app/b/two.ts", b"2"),
    ];
    let mut backward = forward.clone();
    backward.reverse();
    let mut mixed = forward.clone();
    mixed.swap(1, 4);
    mixed.swap(2, 5);
    let first = pack_directory(&snapshot("/work/app", forward), &default_ignore()).unwrap();
    let second = pack_directory(&snapshot("/work/app", backward), &default_ignore()).unwrap();
    let third = pack_directory(&snapshot("/work/app", mixed), &default_ignore()).unwrap();
    assert_eq!(first, second);
    assert_eq!(first, third);
    let names: Vec<String> = listing(&first).into_iter().map(|entry| entry.0).collect();
    assert_eq!(names, vec!["a/", "a.txt", "a/one.ts", "b/", "b/two.ts"]);
}

#[test]
fn paths_are_ordered_character_by_character() {
    let before = |a: &str, b: &str| quix::arrange::is_before(&chars_of(a), &chars_of(b));
    assert!(before("", "a"));
    assert!(!before("", ""));
    assert!(!before("a", ""));
    assert!(before("a", "b"));
    assert!(!before("b", "a"));
    assert!(before("a", "a/b"));
    assert!(before("a.txt", "a/b"));
    assert!(!before("a/b", "a/b"));
    assert!(before("a/b", "a/c"));
    assert!(before("Z", "a"));
    let tree = vec![file("/r/c", b""), file("/r/a", b""), file("/r/b", b""), file("/r/a", b"x")];
    assert_eq!(quix::arrange::arrange(&tree), vec![1, 3, 2, 0]);
    assert_eq!(quix::arrange::arrange(&Vec::new()), Vec::<usize>::new());
}
