//! The launcher's decisions: how each resource is to be opened, which check
//! of the file system it needs first, and what is reported per resource.
//! Opening and the file-system checks themselves are done by the caller.
use vstd::prelude::*;
use crate::model::{opt_view, Resource, ResourceType, ResourceView};
use crate::text::{chars_of, push_str, starts_with, string_of, trim, trimmed};

verus! {

/// What became of one resource of a launch.
#[derive(Debug)]
pub struct LaunchResult {
    pub name: String,
    pub error: Option<String>,
}

/// The plain value of a [`LaunchResult`].
pub struct LaunchResultView {
    pub name: Seq<char>,
    pub error: Option<Seq<char>>,
}

impl View for LaunchResult {
    type V = LaunchResultView;

    open spec fn view(&self) -> LaunchResultView {
        LaunchResultView { name: self.name@, error: opt_view(self.error) }
    }
}

/// The check of the file system that must pass before a resource is opened.
#[derive(Debug)]
pub enum PathCheck {
    /// Nothing to check (URLs).
    NotNeeded,
    /// The path must exist.
    Exists(String),
    /// The path must be a directory.
    IsDirectory(String),
}

/// How a resource is opened.
#[derive(Debug)]
pub enum OpenAction {
    /// Open the target with the system's default handler, without waiting.
    Detached(String),
    /// Open the target with the named application, without waiting.
    With(String, String),
}

/// The plain value of a [`PathCheck`].
pub enum PathCheckView {
    NotNeeded,
    Exists(Seq<char>),
    IsDirectory(Seq<char>),
}

/// The plain value of an [`OpenAction`].
pub enum OpenActionView {
    Detached(Seq<char>),
    With(Seq<char>, Seq<char>),
}

impl View for PathCheck {
    type V = PathCheckView;

    open spec fn view(&self) -> PathCheckView {
        match self {
            PathCheck::NotNeeded => PathCheckView::NotNeeded,
            PathCheck::Exists(p) => PathCheckView::Exists(p@),
            PathCheck::IsDirectory(p) => PathCheckView::IsDirectory(p@),
        }
    }
}

impl View for OpenAction {
    type V = OpenActionView;

    open spec fn view(&self) -> OpenActionView {
        match self {
            OpenAction::Detached(t) => OpenActionView::Detached(t@),
            OpenAction::With(t, a) => OpenActionView::With(t@, a@),
        }
    }
}

/// A web address as the launcher accepts it: `http://` or `https://` in front.
pub open spec fn is_web_address(t: Seq<char>) -> bool {
    "http://"@.is_prefix_of(t) || "https://"@.is_prefix_of(t)
}

/// The check that a resource needs before it is opened.
pub open spec fn path_check_of(r: ResourceView) -> PathCheckView {
    match r.kind {
        ResourceType::Url => PathCheckView::NotNeeded,
        ResourceType::File => PathCheckView::Exists(trimmed(r.target)),
        ResourceType::Folder => PathCheckView::IsDirectory(trimmed(r.target)),
    }
}

/// How a resource is opened, or why it is not, given whether its path check passed.
pub open spec fn open_decision(r: ResourceView, path_found: bool) -> Result<
    OpenActionView,
    Seq<char>,
> {
    let t = trimmed(r.target);
    match r.kind {
        ResourceType::Url => if is_web_address(t) {
            Ok(OpenActionView::Detached(t))
        } else {
            Err("invalid URL: "@ + t)
        },
        ResourceType::File => if path_found {
            Ok(OpenActionView::Detached(t))
        } else {
            Err("file not found: "@ + t)
        },
        ResourceType::Folder => if !path_found {
            Err("folder not found: "@ + t)
        } else {
            match r.open_with {
                Some(app) => if app.len() > 0 {
                    Ok(OpenActionView::With(t, app))
                } else {
                    Ok(OpenActionView::Detached(t))
                },
                None => Ok(OpenActionView::Detached(t)),
            }
        },
    }
}

/// A file or folder is handed to the opener only when its path check passed:
/// without it a file is refused with "file not found: " and a folder, whatever
/// application it names, with "folder not found: ", followed by the trimmed
/// target. A URL is opened exactly when it starts with `http://` or
/// `https://`. Whatever is opened is the trimmed target, and a folder that
/// passed its check opens with its non-empty `open_with` application.
pub proof fn only_checked_resources_are_opened(r: ResourceView, path_found: bool)
    ensures
        r.kind == ResourceType::Folder && !path_found ==> open_decision(r, path_found) == Err::<
            OpenActionView,
            Seq<char>,
        >("folder not found: "@ + trimmed(r.target)),
        r.kind == ResourceType::File && !path_found ==> open_decision(r, path_found) == Err::<
            OpenActionView,
            Seq<char>,
        >("file not found: "@ + trimmed(r.target)),
        open_decision(r, path_found) is Ok && r.kind != ResourceType::Url ==> path_found,
        r.kind == ResourceType::Url ==> (open_decision(r, path_found) is Ok <==> ("http://"@.is_prefix_of(
            trimmed(r.target),
        ) || "https://"@.is_prefix_of(trimmed(r.target)))),
        r.kind == ResourceType::Url && !("http://"@.is_prefix_of(trimmed(r.target))
            || "https://"@.is_prefix_of(trimmed(r.target))) ==> open_decision(r, path_found) == Err::<
            OpenActionView,
            Seq<char>,
        >("invalid URL: "@ + trimmed(r.target)),
        open_decision(r, path_found) matches Ok(a) ==> match a {
            OpenActionView::Detached(t) => t == trimmed(r.target),
            OpenActionView::With(t, app) => t == trimmed(r.target) && r.kind == ResourceType::Folder
                && r.open_with == Some(app) && app.len() > 0,
        },
        r.kind == ResourceType::Folder && path_found && (r.open_with matches Some(app) && app.len()
            > 0) ==> open_decision(r, path_found) == Ok::<OpenActionView, Seq<char>>(
            OpenActionView::With(trimmed(r.target), r.open_with->0),
        ),
{
}

/// The view of a decision made by [`open_resource`].
pub open spec fn decision_view(d: Result<OpenAction, String>) -> Result<OpenActionView, Seq<char>> {
    match d {
        Ok(a) => Ok(a@),
        Err(e) => Err(e@),
    }
}

/// The check of the file system that `res` needs before it can be opened:
/// none for a URL, existence of the trimmed path for a file, a directory
/// at the trimmed path for a folder.
pub fn path_check(res: &Resource) -> (c: PathCheck)
    ensures
        c@ == path_check_of(res@),
{
    match res.kind {
        ResourceType::Url => PathCheck::NotNeeded,
        ResourceType::File => PathCheck::Exists(trim(res.target.as_str())),
        ResourceType::Folder => PathCheck::IsDirectory(trim(res.target.as_str())),
    }
}

/// A new string holding `prefix` followed by `rest`.
fn joined(prefix: &str, rest: &String) -> (r: String)
    ensures
        r@ == prefix@ + rest@,
{
    let mut r = string_of(prefix);
    push_str(&mut r, rest.as_str());
    r
}

/// Decides how `res` is opened. `path_found` is the outcome of the check that
/// [`path_check`] names (it is not read for a URL). A URL must start with
/// `http://` or `https://`; a file or folder must have passed its check; a
/// folder with a non-empty `open_with` is opened with that application.
pub fn open_resource(res: &Resource, path_found: bool) -> (d: Result<OpenAction, String>)
    ensures
        decision_view(d) == open_decision(res@, path_found),
{
    let target = trim(res.target.as_str());
    match res.kind {
        ResourceType::Url => {
            let tv = chars_of(target.as_str());
            if !(starts_with(&tv, "http://") || starts_with(&tv, "https://")) {
                return Err(joined("invalid URL: ", &target));
            }
            Ok(OpenAction::Detached(target))
        },
        ResourceType::File => {
            if !path_found {
                return Err(joined("file not found: ", &target));
            }
            Ok(OpenAction::Detached(target))
        },
        ResourceType::Folder => {
            if !path_found {
                return Err(joined("folder not found: ", &target));
            }
            match &res.open_with {
                Some(app) => {
                    if app.as_str().is_empty() {
                        Ok(OpenAction::Detached(target))
                    } else {
                        Ok(OpenAction::With(target, app.clone()))
                    }
                },
                None => Ok(OpenAction::Detached(target)),
            }
        },
    }
}

/// The error reported for a resource: why it was not opened, or, when it
/// was handed to the opener, the opener's error (if any).
pub open spec fn reported_error(
    decision: Result<OpenActionView, Seq<char>>,
    opened: Result<(), Seq<char>>,
) -> Option<Seq<char>> {
    match decision {
        Err(e) => Some(e),
        Ok(_) => match opened {
            Ok(_) => None,
            Err(e) => Some(e),
        },
    }
}

/// The error to report for a resource, from the decision [`open_resource`]
/// made and the outcome of carrying out its action (`opened` is not read when
/// the decision is an error, since nothing was opened then).
pub fn launch_error(decision: Result<OpenAction, String>, opened: Result<(), String>) -> (e: Option<String>)
    ensures
        opt_view(e) == reported_error(
            decision_view(decision),
            match opened {
                Ok(_) => Ok(()),
                Err(m) => Err(m@),
            },
        ),
{
    match decision {
        Err(reason) => Some(reason),
        Ok(_) => match opened {
            Ok(_) => None,
            Err(m) => Some(m),
        },
    }
}

/// The name a launch reports for a resource: its name, or its target when
/// the name is empty.
pub open spec fn display_name(r: ResourceView) -> Seq<char> {
    if r.name.len() == 0 {
        r.target
    } else {
        r.name
    }
}

/// The results of launching `resources`, one per resource in the same order:
/// each is named by [`display_name`] and carries the error that opening it gave
/// (`errors[i]` for `resources[i]`); one failure never hides the others.
pub fn launch_all(resources: &[Resource], errors: &[Option<String>]) -> (r: Vec<LaunchResult>)
    requires
        errors@.len() == resources@.len(),
    ensures
        r@.len() == resources@.len(),
        forall|i: int|
            0 <= i < r@.len() ==> (#[trigger] r@[i])@ == (LaunchResultView {
                name: display_name(resources@[i]@),
                error: opt_view(errors@[i]),
            }),
{
    let n = resources.len();
    let mut out: Vec<LaunchResult> = Vec::new();
    let mut i: usize = 0;
    while i < n
        invariant
            n == resources@.len(),
            errors@.len() == n,
            i <= n,
            out@.len() == i,
            forall|j: int|
                0 <= j < i ==> (#[trigger] out@[j])@ == (LaunchResultView {
                    name: display_name(resources@[j]@),
                    error: opt_view(errors@[j]),
                }),
        decreases n - i,
    {
        let res = &resources[i];
        let name = if res.name.as_str().is_empty() {
            res.target.clone()
        } else {
            res.name.clone()
        };
        let error = crate::model::clone_opt_string(&errors[i]);
        out.push(LaunchResult { name, error });
        i = i + 1;
    }
    out
}

} // verus!
