use launchx::launcher::{launch_all, launch_error, open_resource, path_check, OpenAction, PathCheck};
use launchx::model::{Resource, ResourceType};

fn res(kind: ResourceType, name: &str, target: &str, open_with: Option<&str>) -> Resource {
    Resource {
        id: "id".to_string(),
        name: name.to_string(),
        kind,
        target: target.to_string(),
        open_with: open_with.map(|s| s.to_string()),
    }
}

fn detached(d: Result<OpenAction, String>) -> String {
    match d {
        Ok(OpenAction::Detached(t)) => t,
        other => panic!("expected detached, got {other:?}"),
    }
}

#[test]
fn url_needs_web_scheme() {
    let ok = res(ResourceType::Url, "", "  https://github.com/me/repo \n", None);
    assert_eq!(detached(open_resource(&ok, false)), "https://github.com/me/repo");
    let plain = res(ResourceType::Url, "", "http://x", None);
    assert_eq!(detached(open_resource(&plain, true)), "http://x");
    let bad = res(ResourceType::Url, "", " ftp://x ", None);
    assert_eq!(open_resource(&bad, true).unwrap_err(), "invalid URL: ftp://x");
    let upper = res(ResourceType::Url, "", "HTTPS://x", None);
    assert_eq!(open_resource(&upper, true).unwrap_err(), "invalid URL: HTTPS://x");
}

#[test]
fn file_must_exist() {
    let f = res(ResourceType::File, "", " /tmp/a.pdf ", None);
    assert_eq!(open_resource(&f, false).unwrap_err(), "file not found: /tmp/a.pdf");
    assert_eq!(detached(open_resource(&f, true)), "/tmp/a.pdf");
}

#[test]
fn folder_opens_with_app_when_set() {
    let plain = res(ResourceType::Folder, "", "/dev/p", None);
    assert_eq!(open_resource(&plain, false).unwrap_err(), "folder not found: /dev/p");
    assert_eq!(detached(open_resource(&plain, true)), "/dev/p");
    let empty_app = res(ResourceType::Folder, "", "/dev/p", Some(""));
    assert_eq!(detached(open_resource(&empty_app, true)), "/dev/p");
    let code = res(ResourceType::Folder, "", " /dev/p ", Some("code"));
    match open_resource(&code, true) {
        Ok(OpenAction::With(t, a)) => {
            assert_eq!(t, "/dev/p");
            assert_eq!(a, "code");
        }
        other => panic!("unexpected {other:?}"),
    }
}

#[test]
fn path_checks_by_kind() {
    assert!(matches!(
        path_check(&res(ResourceType::Url, "", " https://a ", None)),
        PathCheck::NotNeeded
    ));
    match path_check(&res(ResourceType::File, "", " /a/b ", None)) {
        PathCheck::Exists(p) => assert_eq!(p, "/a/b"),
        other => panic!("unexpected {other:?}"),
    }
    match path_check(&res(ResourceType::Folder, "", "\t/a\t", None)) {
        PathCheck::IsDirectory(p) => assert_eq!(p, "/a"),
        other => panic!("unexpected {other:?}"),
    }
}

#[test]
fn launch_all_reports_every_resource() {
    let rs = vec![
        res(ResourceType::Url, "Repo", "https://r", None),
        res(ResourceType::File, "", "/spec.pdf", None),
        res(ResourceType::Folder, "Src", "/src", None),
    ];
    let errors = vec![None, Some("file not found: /spec.pdf".to_string()), None];
    let out = launch_all(&rs, &errors);
    assert_eq!(out.len(), 3);
    assert_eq!(out[0].name, "Repo");
    assert!(out[0].error.is_none());
    assert_eq!(out[1].name, "/spec.pdf");
    assert_eq!(out[1].error.as_deref(), Some("file not found: /spec.pdf"));
    assert_eq!(out[2].name, "Src");
    assert!(out[2].error.is_none());
    assert!(launch_all(&[], &[]).is_empty());
}

#[test]
fn reported_errors_follow_the_decision() {
    let bad = res(ResourceType::Url, "", "x", None);
    assert_eq!(
        launch_error(open_resource(&bad, true), Ok(())).as_deref(),
        Some("invalid URL: x")
    );
    // The opener's outcome is not read when nothing was opened.
    assert_eq!(
        launch_error(open_resource(&bad, true), Err("ignored".to_string())).as_deref(),
        Some("invalid URL: x")
    );
    let good = res(ResourceType::Url, "", "https://x", None);
    assert_eq!(launch_error(open_resource(&good, true), Ok(())), None);
    assert_eq!(
        launch_error(open_resource(&good, true), Err("no handler".to_string())).as_deref(),
        Some("no handler")
    );
}
