use launchx::editor::{merge_resources, normalize_project, upsert_template_into, validate, Editor};
use launchx::model::{Project, Resource, ResourceType, Template};

fn res(kind: ResourceType, name: &str, target: &str) -> Resource {
    Resource {
        id: format!("id-{name}-{target}"),
        name: name.to_string(),
        kind,
        target: target.to_string(),
        open_with: None,
    }
}

fn project(name: &str, resources: Vec<Resource>) -> Project {
    Project {
        id: "p1".to_string(),
        name: name.to_string(),
        color: "#6366f1".to_string(),
        created_at: "2024-01-01T00:00:00+00:00".to_string(),
        resources,
    }
}

#[test]
fn editor_opens_clean() {
    let e = Editor::open(project("A", vec![]), true);
    assert!(e.is_new);
    assert_eq!(e.error, "");
    assert_eq!(e.template_name, "");
    assert_eq!(e.draft.name, "A");
}

#[test]
fn validation_messages() {
    assert_eq!(validate(&project("  ", vec![])), "Project name is required.");
    assert_eq!(validate(&project("Work", vec![])), "");
    assert_eq!(
        validate(&project("Work", vec![res(ResourceType::File, "a", "  ")])),
        "Every resource needs a target (URL or path)."
    );
    assert_eq!(
        validate(&project("Work", vec![res(ResourceType::Url, "a", " github.com ")])),
        "\"github.com\" must start with http:// or https://"
    );
    // The first problem is the one reported.
    assert_eq!(
        validate(&project(
            "Work",
            vec![
                res(ResourceType::Url, "ok", "https://ok"),
                res(ResourceType::Url, "bad", "www.x"),
                res(ResourceType::File, "empty", ""),
            ]
        )),
        "\"www.x\" must start with http:// or https://"
    );
    assert_eq!(
        validate(&project("Work", vec![res(ResourceType::Folder, "", "/p")])),
        ""
    );
}

#[test]
fn normal_form_trims_and_names() {
    let p = project(
        "  Work  ",
        vec![
            res(ResourceType::Folder, "   ", "  /src  "),
            res(ResourceType::Url, " Repo ", " https://r "),
        ],
    );
    let n = normalize_project(&p);
    assert_eq!(n.name, "Work");
    assert_eq!(n.id, "p1");
    assert_eq!(n.resources[0].target, "/src");
    assert_eq!(n.resources[0].name, "/src");
    assert_eq!(n.resources[1].name, "Repo");
    assert_eq!(n.resources[1].target, "https://r");
    // Saving the saved form again changes nothing, and it stays valid.
    let nn = normalize_project(&n);
    assert_eq!(nn.name, n.name);
    assert_eq!(nn.resources[0].name, n.resources[0].name);
    assert_eq!(validate(&n), "");
}

#[test]
fn merge_skips_duplicates_by_kind_and_target() {
    let mut draft = vec![res(ResourceType::Folder, "src", "/Home/Me/Src")];
    let incoming = vec![
        res(ResourceType::Folder, "dup", "  /home/me/src "),
        res(ResourceType::File, "other kind", "/home/me/src"),
        res(ResourceType::Url, "new", "https://x"),
        res(ResourceType::Url, "same as previous", "HTTPS://X"),
    ];
    let (added, skipped) = merge_resources(&mut draft, &incoming);
    assert_eq!((added, skipped), (2, 2));
    assert_eq!(draft.len(), 3);
    assert_eq!(draft[0].name, "src");
    assert_eq!(draft[0].id, "id-src-/Home/Me/Src");
    assert_eq!(draft[1].name, "other kind");
    assert_eq!(draft[2].name, "new");
    // Appended copies get fresh ids.
    assert_ne!(draft[1].id, incoming[1].id);
    assert_eq!(draft[1].id.len(), 36);
    // Applying the same template again adds nothing.
    let (added2, skipped2) = merge_resources(&mut draft, &incoming);
    assert_eq!((added2, skipped2), (0, 4));
    assert_eq!(draft.len(), 3);
}

#[test]
fn saving_a_template_overwrites_by_name() {
    let mut ts = vec![Template {
        id: "t1".to_string(),
        name: "Dev".to_string(),
        resources: vec![],
    }];
    upsert_template_into(&mut ts, "Dev".to_string(), vec![res(ResourceType::Url, "a", "https://a")]);
    assert_eq!(ts.len(), 1);
    assert_eq!(ts[0].id, "t1");
    assert_eq!(ts[0].resources.len(), 1);
    upsert_template_into(&mut ts, "Docs".to_string(), vec![res(ResourceType::File, "b", "/b")]);
    assert_eq!(ts.len(), 2);
    assert_eq!(ts[1].name, "Docs");
    assert_eq!(ts[1].id.len(), 36);
    assert_eq!(ts[0].resources[0].name, "a");
}
