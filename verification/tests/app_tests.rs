use launchx::app::{card_summary, LaunchXApp};
use launchx::editor::Editor;
use launchx::model::{AppConfig, Project, Resource, ResourceType, Template};

fn res(kind: ResourceType, name: &str, target: &str) -> Resource {
    Resource {
        id: format!("id-{target}"),
        name: name.to_string(),
        kind,
        target: target.to_string(),
        open_with: None,
    }
}

fn project(id: &str, name: &str, resources: Vec<Resource>) -> Project {
    Project {
        id: id.to_string(),
        name: name.to_string(),
        color: "#10b981".to_string(),
        created_at: "2024-01-01T00:00:00+00:00".to_string(),
        resources,
    }
}

fn app_with(projects: Vec<Project>, templates: Vec<Template>) -> LaunchXApp {
    LaunchXApp::new(Ok(AppConfig { version: 1, projects, templates }), true)
}

fn messages(app: &LaunchXApp) -> Vec<(String, bool)> {
    app.toasts.iter().map(|t| (t.message.clone(), t.is_error)).collect()
}

#[test]
fn startup_notices() {
    let ok = LaunchXApp::new(Ok(AppConfig::default()), true);
    assert!(ok.toasts.is_empty());
    assert!(ok.editor.is_none());
    assert_eq!(ok.query, "");
    let bad = LaunchXApp::new(Err("parse config: oops".to_string()), false);
    assert_eq!(bad.cfg.version, 1);
    assert!(bad.cfg.projects.is_empty());
    assert_eq!(
        messages(&bad),
        vec![
            ("Failed to load config: parse config: oops".to_string(), true),
            ("No CJK system font found — Chinese text may not display.".to_string(), true),
        ]
    );
}

#[test]
fn persist_reports_failures_only() {
    let mut app = app_with(vec![], vec![]);
    app.persist(Ok(()));
    assert!(app.toasts.is_empty());
    app.persist(Err("write config: denied".to_string()));
    assert_eq!(
        messages(&app),
        vec![("Failed to save config: write config: denied".to_string(), true)]
    );
}

#[test]
fn launch_notices() {
    let mut app = app_with(
        vec![
            project("a", "Empty", vec![]),
            project(
                "b",
                "Work",
                vec![
                    res(ResourceType::Url, "Repo", "https://r"),
                    res(ResourceType::File, "", "/spec.pdf"),
                ],
            ),
        ],
        vec![],
    );
    app.launch(0, &[]);
    assert_eq!(
        messages(&app),
        vec![("\"Empty\" has no resources configured.".to_string(), true)]
    );
    app.toasts.clear();
    app.launch(1, &[None, None]);
    assert_eq!(
        messages(&app),
        vec![("Launched 2 resource(s) for \"Work\"".to_string(), false)]
    );
    app.toasts.clear();
    app.launch(
        1,
        &[Some("invalid URL: x".to_string()), Some("file not found: /spec.pdf".to_string())],
    );
    assert_eq!(
        messages(&app),
        vec![
            ("Repo: invalid URL: x".to_string(), true),
            ("/spec.pdf: file not found: /spec.pdf".to_string(), true),
        ]
    );
}

#[test]
fn search_filters_projects() {
    let mut app = app_with(
        vec![
            project("a", "Alpha Site", vec![]),
            project("b", "Beta", vec![res(ResourceType::Folder, "Docs", "/home/ALPHA")]),
            project("c", "Gamma", vec![res(ResourceType::Url, "Wiki", "https://w")]),
        ],
        vec![],
    );
    assert_eq!(app.visible_projects(), vec![0, 1, 2]);
    app.query = "  alpha ".to_string();
    assert_eq!(app.visible_projects(), vec![0, 1]);
    app.query = "WIKI".to_string();
    assert_eq!(app.visible_projects(), vec![2]);
    app.query = "zzz".to_string();
    assert!(app.visible_projects().is_empty());
    app.query = " \t ".to_string();
    assert_eq!(app.visible_projects(), vec![0, 1, 2]);
}

#[test]
fn card_summaries() {
    assert_eq!(card_summary(&project("a", "A", vec![])), "No resources");
    let p = project(
        "b",
        "B",
        vec![
            res(ResourceType::Url, "", "https://1"),
            res(ResourceType::Folder, "", "/f"),
            res(ResourceType::Url, "", "https://2"),
        ],
    );
    assert_eq!(card_summary(&p), "🌐 2 URLs  📁 1 Folder");
    let q = project("c", "C", vec![res(ResourceType::File, "", "/a"), res(ResourceType::File, "", "/b")]);
    assert_eq!(card_summary(&q), "📄 2 Files");
}

#[test]
fn editing_and_saving_projects() {
    let mut app = app_with(vec![project("a", "Alpha", vec![])], vec![]);
    app.open_new_project();
    assert!(app.editor.as_ref().unwrap().is_new);
    // An invalid draft is not saved; the editor shows why.
    assert!(!app.save_project());
    assert_eq!(app.editor.as_ref().unwrap().error, "Project name is required.");
    {
        let ed = app.editor.as_mut().unwrap();
        ed.draft.name = "  New one ".to_string();
        ed.draft.resources.push(res(ResourceType::Folder, "", " /src "));
    }
    assert!(app.save_project());
    assert!(app.editor.is_none());
    assert_eq!(app.cfg.projects.len(), 2);
    assert_eq!(app.cfg.projects[1].name, "New one");
    assert_eq!(app.cfg.projects[1].resources[0].name, "/src");

    app.edit_project(0);
    {
        let ed = app.editor.as_mut().unwrap();
        assert!(!ed.is_new);
        ed.draft.name = "Alpha 2".to_string();
    }
    assert!(app.save_project());
    assert_eq!(app.cfg.projects.len(), 2);
    assert_eq!(app.cfg.projects[0].name, "Alpha 2");

    app.edit_project(0);
    app.delete_project();
    assert!(app.editor.is_none());
    assert_eq!(app.cfg.projects.len(), 1);
    assert_eq!(app.cfg.projects[0].name, "New one");

    app.edit_project(0);
    app.close_editor();
    assert!(app.editor.is_none());
    assert_eq!(app.cfg.projects.len(), 1);
}

#[test]
fn templates_from_the_editor() {
    let mut app = app_with(vec![], vec![]);
    app.open_new_project();
    assert_eq!(app.save_template(), None);
    assert_eq!(app.editor.as_ref().unwrap().error, "Template name is required.");
    app.editor.as_mut().unwrap().template_name = " Dev ".to_string();
    assert_eq!(app.save_template(), None);
    assert_eq!(
        app.editor.as_ref().unwrap().error,
        "Add at least one resource before saving a template."
    );
    app.editor
        .as_mut()
        .unwrap()
        .draft
        .resources
        .push(res(ResourceType::Url, "Repo", "https://r"));
    assert_eq!(app.save_template().as_deref(), Some("Template \"Dev\" saved"));
    assert_eq!(app.cfg.templates.len(), 1);
    assert_eq!(app.cfg.templates[0].name, "Dev");
    assert_eq!(app.editor.as_ref().unwrap().template_name, "");
    assert_eq!(app.editor.as_ref().unwrap().error, "");

    // Apply to a fresh draft, twice.
    app.open_new_project();
    app.apply_template(0);
    assert_eq!(app.editor.as_ref().unwrap().draft.resources.len(), 1);
    app.apply_template(0);
    assert_eq!(app.editor.as_ref().unwrap().draft.resources.len(), 1);
    assert_eq!(
        messages(&app),
        vec![
            ("Template applied: 1 resource(s) added".to_string(), false),
            ("Template applied: 0 added, 1 duplicate(s) skipped".to_string(), false),
        ]
    );

    assert_eq!(app.delete_template(0), "Template \"Dev\" deleted");
    assert!(app.cfg.templates.is_empty());
}

#[test]
fn editor_value_is_kept_between_calls() {
    let mut app = app_with(vec![], vec![]);
    app.editor = Some(Editor::open(project("x", "X", vec![]), false));
    app.close_editor();
    assert!(app.editor.is_none());
}
