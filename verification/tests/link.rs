use quix::builder::{classify_reply, routed, Body, Method, Outcome, Reply};
use quix::bundle::{EntryKind, TreeEntry, TreeSnapshot};
use quix::configs::{Project, Vtex};
use quix::debounce::{ChangeEvent, ChangeKind, Debouncer};
use quix::dispatch::Dispatcher;
use quix::error::SyncError;
use quix::link::{
    choose_action, file_payload, full_payload, link, payload_request, relative_to, relink_body,
    send_file, send_package, LinkOptions, Operation, Step,
};
use quix::policy::default_ignore;
use quix::resolver::{check_availability, client_for, resolve, ResolveStep, RouteStore};
use quix::routes::Routes;

fn project() -> Project {
    Project { vendor: "acme".to_string(), name: "store".to_string(), version: "1.2.3".to_string() }
}

fn env() -> Vtex {
    Vtex {
        account: "acme".to_string(),
        login: "dev@acme.com".to_string(),
        token: "t0k3n".to_string(),
        workspace: "dev".to_string(),
        last_used_workspace: "master".to_string(),
    }
}

#[test]
fn plan_follows_the_switches() {
    assert_eq!(
        link(LinkOptions { clean: false, quicker: false }).unwrap(),
        vec![Step::Resolve, Step::FullSync, Step::OpenStreams, Step::Watch]
    );
    assert_eq!(
        link(LinkOptions { clean: true, quicker: false }).unwrap(),
        vec![Step::Resolve, Step::ClearCache, Step::FullSync, Step::OpenStreams, Step::Watch]
    );
    assert_eq!(
        link(LinkOptions { clean: false, quicker: true }).unwrap(),
        vec![Step::Resolve, Step::FullSync, Step::OpenStreams, Step::Watch]
    );
    assert_eq!(
        link(LinkOptions { clean: true, quicker: true }).unwrap_err(),
        SyncError::ConfigError
    );
}

#[test]
fn changes_choose_their_operation() {
    assert_eq!(choose_action(ChangeKind::Created), Operation::IncrementalSync);
    assert_eq!(choose_action(ChangeKind::Modified), Operation::IncrementalSync);
    assert_eq!(choose_action(ChangeKind::Removed), Operation::FullSync);
}

#[test]
fn edit_after_first_sync_sends_one_file() {
    let root = "/work/app";
    let ignore = default_ignore();
    let mut store = RouteStore::new();
    let route = match resolve(&store, &project(), &env()) {
        ResolveStep::Cached(route) => route,
        ResolveStep::Probe(_) => {
            check_availability(&mut store, &project(), Some("builder-7:zone"), 0).unwrap()
        }
    };
    let client = client_for(&env(), &route);

    let tree = TreeSnapshot {
        root: root.to_string(),
        is_directory: true,
        entries: vec![
            TreeEntry { path: root.to_string(), kind: EntryKind::Directory, content: Vec::new() },
            TreeEntry {
                path: "/work/app/project.json".to_string(),
                kind: EntryKind::File,
                content: b"{\"vendor\":\"acme\",\"name\":\"store\",\"version\":\"1.2.3\"}".to_vec(),
            },
            TreeEntry {
                path: "/work/app/src/index.ts".to_string(),
                kind: EntryKind::File,
                content: b"export const a = 1;".to_vec(),
            },
        ],
    };
    let full = send_package(&client, &project(), &env(), &tree, &ignore).unwrap();
    assert_eq!(full.method, Method::Post);
    assert_eq!(full.url, Routes::assemble(Routes::Link, &project(), &env()));
    assert_eq!(full.headers[0].value, "builder-7");
    let first = classify_reply(Reply::Response { status: 200, body: String::new() });
    assert!(matches!(first, Outcome::Success));

    let mut debouncer = Debouncer::new(500, ignore.clone());
    let mut dispatcher = Dispatcher::new();
    let changed = relative_to(root, "/work/app/src/index.ts").unwrap();
    assert_eq!(changed, "src/index.ts");
    debouncer.push(ChangeEvent::Modified(changed.clone()), 1_000);
    debouncer.push(ChangeEvent::Modified(changed), 1_020);
    let locked = relative_to(root, "/work/app/.git/index.lock").unwrap();
    debouncer.push(ChangeEvent::Modified(locked), 1_020);
    assert!(debouncer.flush(1_400).is_empty());
    let actions = debouncer.flush(1_520);
    assert_eq!(actions.len(), 1);

    let mut requests = Vec::new();
    for action in actions {
        if let Some(action) = dispatcher.submit(action) {
            assert_eq!(choose_action(action.kind), Operation::IncrementalSync);
            let content = b"export const a = 2;".to_vec();
            let request = send_file(
                &client,
                &project(),
                &env(),
                root,
                &format!("{}/{}", root, action.path),
                Some(content),
                &ignore,
            )
            .unwrap()
            .unwrap();
            requests.push(request);
        }
    }
    assert_eq!(requests.len(), 1);
    let request = &requests[0];
    assert_eq!(request.method, Method::Put);
    assert_eq!(request.url, Routes::assemble(Routes::Relink, &project(), &env()));
    assert_eq!(request.headers[0].name, "x-vtex-sticky-host");
    assert_eq!(request.headers[0].value, "builder-7");
    match &request.body {
        Body::Text(text) => assert_eq!(
            text,
            "[{\"content\":\"ZXhwb3J0IGNvbnN0IGEgPSAyOw==\",\"byteSize\":28,\"path\":\"src/index.ts\"}]"
        ),
        other => panic!("unexpected body {:?}", other),
    }
}

#[test]
fn body_for_one_file_has_text_length_and_path() {
    let body = relink_body(&b"hello".to_vec(), "src/a.ts".to_string()).unwrap();
    assert_eq!(body.content, "aGVsbG8=");
    assert_eq!(body.byte_size, 8);
    assert_eq!(body.path, "src/a.ts");
    let empty = relink_body(&Vec::new(), "e".to_string()).unwrap();
    assert_eq!(empty.content, "");
    assert_eq!(empty.byte_size, 0);
}

#[test]
fn payloads_carry_bytes_and_path() {
    let payload = file_payload("C:\\app", "C:\\app\\src\\a.ts", Some(b"a".to_vec())).unwrap();
    assert_eq!(payload.bytes, b"a".to_vec());
    assert_eq!(payload.relative_path.as_deref(), Some("src/a.ts"));
    assert_eq!(file_payload("/app", "/app/a.ts", None).unwrap_err(), SyncError::IOError);
    assert_eq!(
        file_payload("/app", "/other/a.ts", Some(b"a".to_vec())).unwrap_err(),
        SyncError::IOError
    );
    let tree = TreeSnapshot { root: "/app".to_string(), is_directory: false, entries: Vec::new() };
    assert_eq!(full_payload(&tree, &default_ignore()).unwrap_err(), SyncError::IOError);
    let tree = TreeSnapshot { root: "/app".to_string(), is_directory: true, entries: Vec::new() };
    let full = full_payload(&tree, &default_ignore()).unwrap();
    assert_eq!(full.relative_path, None);
    let client = routed("t", "h");
    let request = payload_request(&client, &project(), &env(), full.clone()).unwrap();
    assert!(matches!(request.body, Body::Binary(ref bytes) if bytes == &full.bytes));
}

#[test]
fn excluded_or_unreadable_files_are_not_sent() {
    let client = routed("t", "h");
    let ignore = default_ignore();
    let skipped = send_file(
        &client,
        &project(),
        &env(),
        "/app",
        "/app/node_modules/x.js",
        Some(b"x".to_vec()),
        &ignore,
    )
    .unwrap();
    assert!(skipped.is_none());
    let vanished = send_file(&client, &project(), &env(), "/app", "/app/a.ts", None, &ignore);
    assert_eq!(vanished.unwrap_err(), SyncError::IOError);
    let tree = TreeSnapshot { root: "/app".to_string(), is_directory: false, entries: Vec::new() };
    assert_eq!(
        send_package(&client, &project(), &env(), &tree, &ignore).unwrap_err(),
        SyncError::IOError
    );
}

#[test]
fn files_are_judged_by_their_path_under_the_root() {
    let client = routed("t", "h");
    let ignore = default_ignore();
    let root = "/home/node_modules/app";
    let sent = send_file(
        &client,
        &project(),
        &env(),
        root,
        "/home/node_modules/app/src/a.ts",
        Some(b"a".to_vec()),
        &ignore,
    )
    .unwrap()
    .unwrap();
    match sent.body {
        Body::Text(text) => {
            assert_eq!(text, "[{\"content\":\"YQ==\",\"byteSize\":4,\"path\":\"src/a.ts\"}]")
        }
        other => panic!("unexpected body {:?}", other),
    }
    let inner = send_file(
        &client,
        &project(),
        &env(),
        root,
        "/home/node_modules/app/node_modules/x.js",
        Some(b"x".to_vec()),
        &ignore,
    )
    .unwrap();
    assert!(inner.is_none());
    let outside = send_file(
        &client,
        &project(),
        &env(),
        root,
        "/home/other/a.ts",
        Some(b"a".to_vec()),
        &ignore,
    );
    assert_eq!(outside.unwrap_err(), SyncError::IOError);
    let outside_excluded = send_file(
        &client,
        &project(),
        &env(),
        root,
        "/elsewhere/node_modules/a.ts",
        None,
        &ignore,
    );
    assert_eq!(outside_excluded.unwrap_err(), SyncError::IOError);
}

#[test]
fn root_and_path_may_differ_in_their_separators() {
    assert_eq!(relative_to("C:\\work\\app", "C:/work/app/src/a.ts").as_deref(), Some("src/a.ts"));
    assert_eq!(relative_to("C:/work/app", "C:\\work\\app\\src\\a.ts").as_deref(), Some("src/a.ts"));
    assert_eq!(relative_to("/work/app", "/work/app").as_deref(), Some(""));
    assert_eq!(relative_to("/work/app", "/work/apple/a.ts"), None);
    let payload = file_payload("C:\\app", "C:/app/src/a.ts", Some(b"a".to_vec())).unwrap();
    assert_eq!(payload.relative_path.as_deref(), Some("src/a.ts"));
}

#[test]
fn a_directory_with_readable_files_is_always_packed() {
    let client = routed("t", "h");
    let tree = TreeSnapshot {
        root: "/app".to_string(),
        is_directory: true,
        entries: vec![
            TreeEntry { path: "/app/a.ts".to_string(), kind: EntryKind::File, content: vec![7; 100_000] },
            TreeEntry { path: "/app/b".to_string(), kind: EntryKind::Directory, content: Vec::new() },
            TreeEntry { path: "/app/b/c.ts".to_string(), kind: EntryKind::File, content: Vec::new() },
        ],
    };
    assert!(full_payload(&tree, &default_ignore()).is_ok());
    assert!(send_package(&client, &project(), &env(), &tree, &default_ignore()).is_ok());
}
