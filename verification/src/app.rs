//! The launcher's state between frames and every decision it takes on it:
//! startup, notices, launching, searching, and the editor's actions.
//! Drawing, timing of notices, the file system and the saving of the
//! configuration are left to the caller.
use vstd::prelude::*;
use crate::editor::{
    merge_resources, merge_into, merged_with_fresh_ids, normalize_project, normalized_project,
    position_of_name,
    upsert_template, upsert_template_into, validate, validation_message, Editor, EditorView,
};
use crate::launcher::{display_name, launch_all, LaunchResult, LaunchResultView};
use crate::model::{
    count_kind, is_uuid_v4_text, is_utc_rfc3339_text, opt_view, projects_view,
    templates_view, clone_resources, AppConfig, AppConfigView, Project, ProjectView, ResourceType,
    ResourceView,
};
use crate::text::{
    chars_of, contains_chars, decimal, has_substring, push_decimal, push_str, string_of, to_lowercase,
    trim, trimmed, unicode_lowercase,
};

verus! {

/// `std::time::Instant`, carried opaquely: a notice keeps the moment it was
/// posted for the caller's fading; nothing about it is read here.
#[verifier::external_type_specification]
#[verifier::external_body]
pub struct ExInstant(std::time::Instant);

/// Calls `std::time::Instant::now`. Nothing is claimed of the instant it returns.
#[verifier::external_body]
fn instant_now() -> std::time::Instant {
    std::time::Instant::now()
}

/// A short notice shown in the corner of the window.
pub struct Toast {
    pub message: String,
    pub is_error: bool,
    pub created: std::time::Instant,
}

/// The plain value of a [`Toast`] (its creation time is not part of it).
pub struct ToastView {
    pub message: Seq<char>,
    pub is_error: bool,
}

impl View for Toast {
    type V = ToastView;

    open spec fn view(&self) -> ToastView {
        ToastView { message: self.message@, is_error: self.is_error }
    }
}

/// The values of a sequence of notices.
pub open spec fn toasts_view(ts: Seq<Toast>) -> Seq<ToastView> {
    ts.map_values(|t: Toast| t@)
}

/// The value of an optional editor.
pub open spec fn editor_view(e: Option<Editor>) -> Option<EditorView> {
    match e {
        Some(ed) => Some(ed@),
        None => None,
    }
}

/// The launcher's state: the configuration, the search text, the open
/// editor (if any) and the notices on screen.
pub struct LaunchXApp {
    pub cfg: AppConfig,
    pub query: String,
    pub editor: Option<Editor>,
    pub toasts: Vec<Toast>,
}

/// The plain value of a [`LaunchXApp`].
pub struct AppView {
    pub cfg: AppConfigView,
    pub query: Seq<char>,
    pub editor: Option<EditorView>,
    pub toasts: Seq<ToastView>,
}

impl View for LaunchXApp {
    type V = AppView;

    open spec fn view(&self) -> AppView {
        AppView {
            cfg: self.cfg@,
            query: self.query@,
            editor: editor_view(self.editor),
            toasts: toasts_view(self.toasts@),
        }
    }
}

/// A notice as a value.
pub open spec fn notice(message: Seq<char>, is_error: bool) -> ToastView {
    ToastView { message, is_error }
}

/// The configuration used when none could be loaded.
pub open spec fn default_config() -> AppConfigView {
    AppConfigView { version: 1, projects: Seq::empty(), templates: Seq::empty() }
}

pub open spec fn load_failed_message(e: Seq<char>) -> Seq<char> {
    "Failed to load config: "@ + e
}

/// The notices that the outcome of loading the configuration posts.
pub open spec fn load_notices(loaded: Result<AppConfig, String>) -> Seq<ToastView> {
    match loaded {
        Ok(_) => Seq::<ToastView>::empty(),
        Err(e) => seq![notice(load_failed_message(e@), true)],
    }
}

pub open spec fn missing_font_message() -> Seq<char> {
    "No CJK system font found — Chinese text may not display."@
}

pub open spec fn save_failed_message(e: Seq<char>) -> Seq<char> {
    "Failed to save config: "@ + e
}

pub open spec fn no_resources_message(name: Seq<char>) -> Seq<char> {
    "\""@ + name + "\" has no resources configured."@
}

pub open spec fn launched_message(n: nat, name: Seq<char>) -> Seq<char> {
    "Launched "@ + decimal(n) + " resource(s) for \""@ + name + "\""@
}

/// The notice for one failed resource: its name and its error.
pub open spec fn failure_message(r: LaunchResultView) -> Seq<char> {
    r.name + ": "@ + match r.error {
        Some(e) => e,
        None => Seq::empty(),
    }
}

/// One error notice per failed result, in order.
pub open spec fn failure_notices(rs: Seq<LaunchResultView>) -> Seq<ToastView>
    decreases rs.len(),
{
    if rs.len() == 0 {
        Seq::empty()
    } else {
        let rest = failure_notices(rs.drop_last());
        if rs.last().error is Some {
            rest.push(notice(failure_message(rs.last()), true))
        } else {
            rest
        }
    }
}

/// The results of launching `rs` when opening `rs[i]` gave `errs[i]`.
pub open spec fn launch_results(rs: Seq<ResourceView>, errs: Seq<Option<Seq<char>>>) -> Seq<
    LaunchResultView,
> {
    Seq::new(rs.len(), |i: int| LaunchResultView { name: display_name(rs[i]), error: errs[i] })
}

/// The notices that launching project `p` posts, given the errors of its resources.
pub open spec fn launch_notices(p: ProjectView, errs: Seq<Option<Seq<char>>>) -> Seq<ToastView> {
    if p.resources.len() == 0 {
        seq![notice(no_resources_message(p.name), true)]
    } else {
        let failed = failure_notices(launch_results(p.resources, errs));
        if failed.len() == 0 {
            seq![notice(launched_message(p.resources.len(), p.name), false)]
        } else {
            failed
        }
    }
}

proof fn lemma_failure_notices(rs: Seq<LaunchResultView>)
    ensures
        forall|k: int|
            0 <= k < failure_notices(rs).len() ==> (#[trigger] failure_notices(rs)[k]).is_error
                && exists|i: int|
                0 <= i < rs.len() && (#[trigger] rs[i]).error is Some && failure_notices(rs)[k].message
                    == rs[i].name + ": "@ + rs[i].error->0,
        forall|i: int|
            0 <= i < rs.len() && (#[trigger] rs[i]).error is Some ==> failure_notices(rs).contains(
                ToastView { message: rs[i].name + ": "@ + rs[i].error->0, is_error: true },
            ),
        failure_notices(rs).len() == 0 <==> forall|i: int| 0 <= i < rs.len() ==> (#[trigger] rs[i]).error is None,
    decreases rs.len(),
{
    if rs.len() > 0 {
        let s = rs.drop_last();
        lemma_failure_notices(s);
        let f = failure_notices(s);
        let g = failure_notices(rs);
        assert forall|k: int| 0 <= k < g.len() implies (#[trigger] g[k]).is_error && exists|i: int|
            0 <= i < rs.len() && (#[trigger] rs[i]).error is Some && g[k].message == rs[i].name + ": "@
                + rs[i].error->0 by {
            if k < f.len() {
                assert(g[k] == f[k]);
                let i = choose|i: int|
                    0 <= i < s.len() && (#[trigger] s[i]).error is Some && f[k].message == s[i].name
                        + ": "@ + s[i].error->0;
                assert(rs[i] == s[i]);
            } else {
                assert(rs[rs.len() - 1] == rs.last());
            }
        }
        assert forall|i: int|
            0 <= i < rs.len() && (#[trigger] rs[i]).error is Some implies g.contains(
            ToastView { message: rs[i].name + ": "@ + rs[i].error->0, is_error: true },
        ) by {
            if i < rs.len() - 1 {
                assert(s[i] == rs[i]);
                let x = ToastView { message: rs[i].name + ": "@ + rs[i].error->0, is_error: true };
                assert(f.contains(x));
                let k = choose|k: int| 0 <= k < f.len() && f[k] == x;
                assert(g[k] == f[k]);
            } else {
                assert(g[g.len() - 1] == ToastView {
                    message: rs[i].name + ": "@ + rs[i].error->0,
                    is_error: true,
                });
            }
        }
        if forall|i: int| 0 <= i < rs.len() ==> (#[trigger] rs[i]).error is None {
            assert forall|i: int| 0 <= i < s.len() implies (#[trigger] s[i]).error is None by {
                assert(s[i] == rs[i]);
            }
            assert(rs.last() == rs[rs.len() - 1]);
        }
        if g.len() == 0 {
            assert(rs.last().error is None);
            assert forall|i: int| 0 <= i < rs.len() implies (#[trigger] rs[i]).error is None by {
                if i < rs.len() - 1 {
                    assert(s[i] == rs[i]);
                }
            }
        }
    }
}

proof fn lemma_failure_count(rs: Seq<LaunchResultView>, errs: Seq<Option<Seq<char>>>)
    requires
        rs.len() == errs.len(),
        forall|i: int| 0 <= i < rs.len() ==> (#[trigger] rs[i]).error == errs[i],
    ensures
        failure_notices(rs).len() == errs.filter(|e: Option<Seq<char>>| e is Some).len(),
    decreases rs.len(),
{
    reveal(Seq::filter);
    if rs.len() > 0 {
        let s = rs.drop_last();
        let t = errs.drop_last();
        assert forall|i: int| 0 <= i < s.len() implies (#[trigger] s[i]).error == t[i] by {
            assert(s[i] == rs[i]);
        }
        lemma_failure_count(s, t);
        assert(rs.last().error == errs.last());
    }
}

/// What a launch reports: a project without resources gets one error notice
/// saying so; when some resource failed, every notice is an error, each failed
/// resource gets its own notice (its name, or its target when the name is
/// empty, then its error), every notice belongs to a failed resource, and
/// no success is reported; only when nothing failed is one success notice
/// with the number of resources posted.
pub proof fn launch_reports_every_failure(p: ProjectView, errs: Seq<Option<Seq<char>>>)
    requires
        errs.len() == p.resources.len(),
    ensures
        p.resources.len() == 0 ==> launch_notices(p, errs) == seq![
            ToastView { message: "\""@ + p.name + "\" has no resources configured."@, is_error: true },
        ],
        p.resources.len() > 0 && (forall|i: int| 0 <= i < errs.len() ==> (#[trigger] errs[i]) is None)
            ==> launch_notices(p, errs) == seq![
            ToastView {
                message: "Launched "@ + decimal(p.resources.len()) + " resource(s) for \""@ + p.name
                    + "\""@,
                is_error: false,
            },
        ],
        (exists|i: int| 0 <= i < errs.len() && (#[trigger] errs[i]) is Some) ==> {
            &&& launch_notices(p, errs).len() == errs.filter(|e: Option<Seq<char>>| e is Some).len()
            &&& forall|k: int| 0 <= k < launch_notices(p, errs).len() ==> (#[trigger] launch_notices(p, errs)[k]).is_error
            &&& forall|i: int|
                0 <= i < errs.len() && (#[trigger] errs[i]) is Some ==> launch_notices(p, errs).contains(
                    ToastView {
                        message: (if p.resources[i].name.len() == 0 {
                            p.resources[i].target
                        } else {
                            p.resources[i].name
                        }) + ": "@ + errs[i]->0,
                        is_error: true,
                    },
                )
            &&& forall|k: int| 0 <= k < launch_notices(p, errs).len() ==> exists|i: int|
                0 <= i < errs.len() && (#[trigger] errs[i]) is Some && (#[trigger] launch_notices(p, errs)[k]).message
                    == (if p.resources[i].name.len() == 0 {
                    p.resources[i].target
                } else {
                    p.resources[i].name
                }) + ": "@ + errs[i]->0
        },
{
    let rs = launch_results(p.resources, errs);
    lemma_failure_notices(rs);
    lemma_failure_count(rs, errs);
    let n = launch_notices(p, errs);
    if exists|i: int| 0 <= i < errs.len() && (#[trigger] errs[i]) is Some {
        let j = choose|i: int| 0 <= i < errs.len() && (#[trigger] errs[i]) is Some;
        assert(rs[j].error is Some);
        if p.resources.len() > 0 {
            assert(n == failure_notices(rs));
            assert forall|i: int|
                0 <= i < errs.len() && (#[trigger] errs[i]) is Some implies n.contains(
                ToastView {
                    message: (if p.resources[i].name.len() == 0 {
                        p.resources[i].target
                    } else {
                        p.resources[i].name
                    }) + ": "@ + errs[i]->0,
                    is_error: true,
                },
            ) by {
                assert(rs[i].error is Some);
            }
            assert forall|k: int| 0 <= k < n.len() implies exists|i: int|
                0 <= i < errs.len() && (#[trigger] errs[i]) is Some && (#[trigger] n[k]).message == (
                if p.resources[i].name.len() == 0 {
                    p.resources[i].target
                } else {
                    p.resources[i].name
                }) + ": "@ + errs[i]->0 by {
                let i = choose|i: int|
                    0 <= i < rs.len() && (#[trigger] rs[i]).error is Some && n[k].message == rs[i].name
                        + ": "@ + rs[i].error->0;
                assert(errs[i] is Some);
            }
        }
    }
    if p.resources.len() > 0 && (forall|i: int| 0 <= i < errs.len() ==> (#[trigger] errs[i]) is None) {
        assert forall|i: int| 0 <= i < rs.len() implies (#[trigger] rs[i]).error is None by {
            assert(errs[i] is None);
        }
    }
}

pub open spec fn template_applied_message(added: nat, skipped: nat) -> Seq<char> {
    if skipped > 0 {
        "Template applied: "@ + decimal(added) + " added, "@ + decimal(skipped)
            + " duplicate(s) skipped"@
    } else {
        "Template applied: "@ + decimal(added) + " resource(s) added"@
    }
}

pub open spec fn template_saved_message(name: Seq<char>) -> Seq<char> {
    "Template \""@ + name + "\" saved"@
}

pub open spec fn template_deleted_message(name: Seq<char>) -> Seq<char> {
    "Template \""@ + name + "\" deleted"@
}

pub open spec fn template_name_required() -> Seq<char> {
    "Template name is required."@
}

pub open spec fn template_needs_resources() -> Seq<char> {
    "Add at least one resource before saving a template."@
}

// ------------------------------------------------------------------ search

/// The text projects are searched for: the query trimmed and lower-cased.
pub open spec fn search_key(query: Seq<char>) -> Seq<char> {
    unicode_lowercase(trimmed(query))
}

/// A resource matches when its name or target, lower-cased, contains the key.
pub open spec fn resource_matches(r: ResourceView, key: Seq<char>) -> bool {
    has_substring(unicode_lowercase(r.name), key) || has_substring(
        unicode_lowercase(r.target),
        key,
    )
}

/// A project is shown when the key is empty, its lower-cased name contains
/// the key, or one of its resources matches.
pub open spec fn project_matches(p: ProjectView, key: Seq<char>) -> bool {
    ||| key.len() == 0
    ||| has_substring(unicode_lowercase(p.name), key)
    ||| exists|i: int| 0 <= i < p.resources.len() && resource_matches(#[trigger] p.resources[i], key)
}

/// A project is shown exactly when the search key is empty, or its
/// lower-cased name contains the key, or the lower-cased name or target of
/// any one of its resources (at any position) contains the key.
pub proof fn search_matches_name_or_any_resource(p: ProjectView, key: Seq<char>)
    ensures
        key.len() == 0 ==> project_matches(p, key),
        has_substring(unicode_lowercase(p.name), key) ==> project_matches(p, key),
        forall|i: int|
            0 <= i < p.resources.len() && (has_substring(
                unicode_lowercase(#[trigger] p.resources[i].name),
                key,
            ) || has_substring(unicode_lowercase(p.resources[i].target), key)) ==> project_matches(
                p,
                key,
            ),
        project_matches(p, key) ==> key.len() == 0 || has_substring(unicode_lowercase(p.name), key)
            || exists|i: int|
            0 <= i < p.resources.len() && (has_substring(
                unicode_lowercase(#[trigger] p.resources[i].name),
                key,
            ) || has_substring(unicode_lowercase(p.resources[i].target), key)),
{
    assert forall|i: int|
        0 <= i < p.resources.len() && (has_substring(
            unicode_lowercase(#[trigger] p.resources[i].name),
            key,
        ) || has_substring(unicode_lowercase(p.resources[i].target), key)) implies project_matches(
        p,
        key,
    ) by {
        assert(resource_matches(p.resources[i], key));
    }
    if project_matches(p, key) && key.len() > 0 && !has_substring(unicode_lowercase(p.name), key) {
        let i = choose|i: int| 0 <= i < p.resources.len() && resource_matches(p.resources[i], key);
        assert(has_substring(unicode_lowercase(p.resources[i].name), key) || has_substring(
            unicode_lowercase(p.resources[i].target),
            key,
        ));
    }
}

/// The positions, among the first `n` projects of `ps`, of those that match
/// `key`, in increasing order.
pub open spec fn matching_positions(ps: Seq<ProjectView>, key: Seq<char>, n: nat) -> Seq<usize>
    decreases n,
{
    if n == 0 {
        Seq::empty()
    } else {
        let rest = matching_positions(ps, key, (n - 1) as nat);
        if project_matches(ps[n - 1], key) {
            rest.push((n - 1) as usize)
        } else {
            rest
        }
    }
}

/// The shown positions are, in increasing order, exactly those of the
/// projects that match.
pub proof fn shown_positions_are_the_matching_projects(ps: Seq<ProjectView>, key: Seq<char>, n: nat)
    requires
        n <= ps.len(),
        ps.len() <= usize::MAX,
    ensures
        forall|i: int| 0 <= i < n ==> (matching_positions(ps, key, n).contains(i as usize) <==> project_matches(#[trigger] ps[i], key)),
        forall|k: int| 0 <= k < matching_positions(ps, key, n).len() ==> (#[trigger] matching_positions(ps, key, n)[k]) < n,
        forall|a: int, b: int| 0 <= a < b < matching_positions(ps, key, n).len() ==> #[trigger] matching_positions(ps, key, n)[a] < #[trigger] matching_positions(ps, key, n)[b],
    decreases n,
{
    if n > 0 {
        let m = (n - 1) as nat;
        shown_positions_are_the_matching_projects(ps, key, m);
        let rest = matching_positions(ps, key, m);
        let all = matching_positions(ps, key, n);
        if project_matches(ps[m as int], key) {
            assert(all == rest.push(m as usize));
            assert forall|i: int| 0 <= i < n implies (all.contains(i as usize) <==> project_matches(#[trigger] ps[i], key)) by {
                if all.contains(i as usize) {
                    let k = choose|k: int| 0 <= k < all.len() && all[k] == i as usize;
                    if k < rest.len() {
                        assert(rest[k] == i as usize);
                        assert(rest[k] < m);
                    }
                }
                if i < m && rest.contains(i as usize) {
                    let k = choose|k: int| 0 <= k < rest.len() && rest[k] == i as usize;
                    assert(all[k] == rest[k]);
                }
                if i == m {
                    assert(all[all.len() - 1] == i as usize);
                }
            }
            assert forall|k: int| 0 <= k < all.len() implies (#[trigger] all[k]) < n by {
                if k < rest.len() {
                    assert(all[k] == rest[k]);
                }
            }
            assert forall|a: int, b: int| 0 <= a < b < all.len() implies #[trigger] all[a] < #[trigger] all[b] by {
                assert(all[a] == rest[a]);
                assert(rest[a] < m);
                if b < rest.len() {
                    assert(all[b] == rest[b]);
                }
            }
        } else {
            assert(all == rest);
            assert forall|i: int| 0 <= i < n implies (all.contains(i as usize) <==> project_matches(#[trigger] ps[i], key)) by {
                if i == m && all.contains(i as usize) {
                    let k = choose|k: int| 0 <= k < all.len() && all[k] == i as usize;
                    assert(rest[k] < m);
                }
            }
        }
    }
}

/// With a blank query every project is shown, in order.
pub proof fn blank_query_shows_everything(ps: Seq<ProjectView>, query: Seq<char>, n: nat)
    requires
        search_key(query).len() == 0,
    ensures
        matching_positions(ps, search_key(query), n) == Seq::new(n, |i: int| i as usize),
    decreases n,
{
    if n > 0 {
        blank_query_shows_everything(ps, query, (n - 1) as nat);
        assert(Seq::new(n, |i: int| i as usize) =~= Seq::new((n - 1) as nat, |i: int| i as usize).push(
            (n - 1) as usize,
        ));
    } else {
        assert(Seq::new(0, |i: int| i as usize) =~= Seq::<usize>::empty());
    }
}

fn lowered_chars(s: &String) -> (v: Vec<char>)
    ensures
        v@ == unicode_lowercase(s@),
{
    let l = to_lowercase(s.as_str());
    chars_of(l.as_str())
}

fn project_matches_exec(p: &Project, key: &Vec<char>) -> (b: bool)
    ensures
        b == project_matches(p@, key@),
{
    if key.len() == 0 {
        return true;
    }
    if contains_chars(&lowered_chars(&p.name), key) {
        return true;
    }
    let n = p.resources.len();
    let mut i: usize = 0;
    while i < n
        invariant
            n == p.resources@.len(),
            i <= n,
            forall|j: int| 0 <= j < i ==> !resource_matches(#[trigger] p@.resources[j], key@),
        decreases n - i,
    {
        let r = &p.resources[i];
        assert(p@.resources[i as int] == r@);
        if contains_chars(&lowered_chars(&r.name), key) || contains_chars(
            &lowered_chars(&r.target),
            key,
        ) {
            return true;
        }
        i = i + 1;
    }
    false
}

// ------------------------------------------------------------------ card text

/// One part of a card's summary, such as `🌐 2 URLs`.
pub open spec fn count_part(glyph: Seq<char>, n: nat, word: Seq<char>) -> Seq<char> {
    glyph + " "@ + decimal(n) + " "@ + word + if n > 1 {
        "s"@
    } else {
        Seq::empty()
    }
}

/// The parts of a card's summary: one for each kind present.
pub open spec fn summary_parts(urls: nat, files: nat, folders: nat) -> Seq<Seq<char>> {
    (if urls > 0 {
        seq![count_part("🌐"@, urls, "URL"@)]
    } else {
        Seq::empty()
    }) + (if files > 0 {
        seq![count_part("📄"@, files, "File"@)]
    } else {
        Seq::empty()
    }) + (if folders > 0 {
        seq![count_part("📁"@, folders, "Folder"@)]
    } else {
        Seq::empty()
    })
}

/// `parts` joined by `sep`.
pub open spec fn join(parts: Seq<Seq<char>>, sep: Seq<char>) -> Seq<char>
    decreases parts.len(),
{
    if parts.len() == 0 {
        Seq::empty()
    } else if parts.len() == 1 {
        parts[0]
    } else {
        join(parts.drop_last(), sep) + sep + parts.last()
    }
}

/// The summary line of a project's card.
pub open spec fn card_summary_text(p: ProjectView) -> Seq<char> {
    let parts = summary_parts(
        count_kind(p.resources, ResourceType::Url),
        count_kind(p.resources, ResourceType::File),
        count_kind(p.resources, ResourceType::Folder),
    );
    if parts.len() == 0 {
        "No resources"@
    } else {
        join(parts, "  "@)
    }
}

proof fn lemma_substring_within(a: Seq<char>, x: Seq<char>, b: Seq<char>)
    ensures
        has_substring(a + x + b, x),
{
    let h = a + x + b;
    assert(h.subrange(a.len() as int, (a.len() + x.len()) as int) =~= x);
}

proof fn lemma_substring_widen(h: Seq<char>, x: Seq<char>, a: Seq<char>, b: Seq<char>)
    requires
        has_substring(h, x),
    ensures
        has_substring(a + h + b, x),
{
    let i = choose|i: int| 0 <= i && i + x.len() <= h.len() && #[trigger] h.subrange(i, i + x.len()) == x;
    let w = a + h + b;
    assert(w.subrange(a.len() + i, a.len() + i + x.len()) =~= h.subrange(i, i + x.len()));
}

proof fn lemma_substring_prefix(h: Seq<char>, x: Seq<char>, y: Seq<char>)
    requires
        has_substring(h, x + y),
    ensures
        has_substring(h, x),
{
    let i = choose|i: int|
        0 <= i && i + (x + y).len() <= h.len() && #[trigger] h.subrange(i, i + (x + y).len()) == x + y;
    assert(h.subrange(i, i + x.len()) =~= (x + y).subrange(0, x.len() as int));
    assert((x + y).subrange(0, x.len() as int) =~= x);
}

proof fn lemma_join_holds_parts(ps: Seq<Seq<char>>, sep: Seq<char>)
    ensures
        forall|k: int| 0 <= k < ps.len() ==> has_substring(join(ps, sep), #[trigger] ps[k]),
        ps.len() > 0 && ps[0].len() > 0 ==> join(ps, sep).len() > 0 && join(ps, sep)[0] == ps[0][0],
    decreases ps.len(),
{
    let e = Seq::<char>::empty();
    if ps.len() == 1 {
        lemma_substring_within(e, ps[0], e);
        assert(e + ps[0] + e =~= ps[0]);
    } else if ps.len() > 1 {
        let s = ps.drop_last();
        lemma_join_holds_parts(s, sep);
        let j = join(s, sep);
        assert forall|k: int| 0 <= k < ps.len() implies has_substring(join(ps, sep), #[trigger] ps[k]) by {
            if k < ps.len() - 1 {
                assert(s[k] == ps[k]);
                lemma_substring_widen(j, ps[k], e, sep + ps.last());
                assert(e + j + (sep + ps.last()) =~= join(ps, sep));
            } else {
                lemma_substring_within(j + sep, ps.last(), e);
                assert(j + sep + ps.last() + e =~= join(ps, sep));
            }
        }
        if ps[0].len() > 0 {
            assert(s[0] == ps[0]);
        }
    }
}

proof fn lemma_url_literals()
    ensures
        "🌐 "@ == "🌐"@ + " "@,
        " URL"@ == " "@ + "URL"@,
        "🌐"@.len() > 0 && "🌐"@[0] != 'N',
{
    reveal_strlit("🌐 ");
    reveal_strlit("🌐");
    reveal_strlit(" ");
    reveal_strlit(" URL");
    reveal_strlit("URL");
}

proof fn lemma_file_literals()
    ensures
        "📄 "@ == "📄"@ + " "@,
        " File"@ == " "@ + "File"@,
        "📄"@.len() > 0 && "📄"@[0] != 'N',
{
    reveal_strlit("📄 ");
    reveal_strlit("📄");
    reveal_strlit(" ");
    reveal_strlit(" File");
    reveal_strlit("File");
}

proof fn lemma_folder_literals()
    ensures
        "📁 "@ == "📁"@ + " "@,
        " Folder"@ == " "@ + "Folder"@,
        "📁"@.len() > 0 && "📁"@[0] != 'N',
{
    reveal_strlit("📁 ");
    reveal_strlit("📁");
    reveal_strlit(" ");
    reveal_strlit(" Folder");
    reveal_strlit("Folder");
}

/// The summary holds the part at position `k` of its parts.
proof fn lemma_summary_holds_part(p: ProjectView, k: int)
    requires
        0 <= k < summary_parts(
            count_kind(p.resources, ResourceType::Url),
            count_kind(p.resources, ResourceType::File),
            count_kind(p.resources, ResourceType::Folder),
        ).len(),
    ensures
        has_substring(
            card_summary_text(p),
            summary_parts(
                count_kind(p.resources, ResourceType::Url),
                count_kind(p.resources, ResourceType::File),
                count_kind(p.resources, ResourceType::Folder),
            )[k],
        ),
{
    let parts = summary_parts(
        count_kind(p.resources, ResourceType::Url),
        count_kind(p.resources, ResourceType::File),
        count_kind(p.resources, ResourceType::Folder),
    );
    lemma_join_holds_parts(parts, "  "@);
    assert(has_substring(join(parts, "  "@), parts[k]));
}

/// The plural ending of a count.
pub open spec fn plural(n: nat) -> Seq<char> {
    if n > 1 {
        "s"@
    } else {
        Seq::<char>::empty()
    }
}

proof fn lemma_summary_names_urls(p: ProjectView)
    requires
        count_kind(p.resources, ResourceType::Url) > 0,
    ensures
        has_substring(
            card_summary_text(p),
            "🌐 "@ + decimal(count_kind(p.resources, ResourceType::Url)) + " URL"@ + plural(
                count_kind(p.resources, ResourceType::Url),
            ),
        ),
{
    let u = count_kind(p.resources, ResourceType::Url);
    let parts = summary_parts(
        u,
        count_kind(p.resources, ResourceType::File),
        count_kind(p.resources, ResourceType::Folder),
    );
    let e = Seq::<char>::empty();
    lemma_url_literals();
    assert(parts[0] == count_part("🌐"@, u, "URL"@));
    lemma_summary_holds_part(p, 0);
    assert(count_part("🌐"@, u, "URL"@) =~= ("🌐 "@ + decimal(u) + " URL"@ + plural(u)) + e);
    lemma_substring_prefix(card_summary_text(p), "🌐 "@ + decimal(u) + " URL"@ + plural(u), e);
}

proof fn lemma_summary_names_files(p: ProjectView)
    requires
        count_kind(p.resources, ResourceType::File) > 0,
    ensures
        has_substring(
            card_summary_text(p),
            "📄 "@ + decimal(count_kind(p.resources, ResourceType::File)) + " File"@ + plural(
                count_kind(p.resources, ResourceType::File),
            ),
        ),
{
    let u = count_kind(p.resources, ResourceType::Url);
    let f = count_kind(p.resources, ResourceType::File);
    let parts = summary_parts(u, f, count_kind(p.resources, ResourceType::Folder));
    let e = Seq::<char>::empty();
    lemma_file_literals();
    let k = if u > 0 { 1int } else { 0int };
    assert(parts[k] == count_part("📄"@, f, "File"@));
    lemma_summary_holds_part(p, k);
    assert(count_part("📄"@, f, "File"@) =~= ("📄 "@ + decimal(f) + " File"@ + plural(f)) + e);
    lemma_substring_prefix(card_summary_text(p), "📄 "@ + decimal(f) + " File"@ + plural(f), e);
}

proof fn lemma_count_part_text(glyph: Seq<char>, lit: Seq<char>, n: nat, word: Seq<char>, wlit: Seq<char>)
    requires
        lit == glyph + " "@,
        wlit == " "@ + word,
    ensures
        count_part(glyph, n, word) == (lit + decimal(n) + wlit + plural(n)) + Seq::<char>::empty(),
{
    assert(count_part(glyph, n, word) =~= (lit + decimal(n) + wlit + plural(n)) + Seq::<char>::empty());
}

proof fn lemma_last_part_is_folders(u: nat, f: nat, d: nat)
    requires
        d > 0,
    ensures
        summary_parts(u, f, d).len() > 0,
        summary_parts(u, f, d)[summary_parts(u, f, d).len() - 1] == count_part("📁"@, d, "Folder"@),
{
    let front = summary_parts(u, f, 0);
    assert(summary_parts(u, f, d) =~= front.push(count_part("📁"@, d, "Folder"@)));
}

proof fn lemma_summary_names_folders(p: ProjectView)
    requires
        count_kind(p.resources, ResourceType::Folder) > 0,
    ensures
        has_substring(
            card_summary_text(p),
            "📁 "@ + decimal(count_kind(p.resources, ResourceType::Folder)) + " Folder"@ + plural(
                count_kind(p.resources, ResourceType::Folder),
            ),
        ),
{
    let u = count_kind(p.resources, ResourceType::Url);
    let f = count_kind(p.resources, ResourceType::File);
    let d = count_kind(p.resources, ResourceType::Folder);
    let parts = summary_parts(u, f, d);
    lemma_folder_literals();
    lemma_last_part_is_folders(u, f, d);
    lemma_summary_holds_part(p, parts.len() - 1);
    lemma_count_part_text("📁"@, "📁 "@, d, "Folder"@, " Folder"@);
    lemma_substring_prefix(
        card_summary_text(p),
        "📁 "@ + decimal(d) + " Folder"@ + plural(d),
        Seq::<char>::empty(),
    );
}

proof fn lemma_summary_no_resources(p: ProjectView)
    ensures
        p.resources.len() == 0 <==> card_summary_text(p) == "No resources"@,
{
    let u = count_kind(p.resources, ResourceType::Url);
    let f = count_kind(p.resources, ResourceType::File);
    let d = count_kind(p.resources, ResourceType::Folder);
    let parts = summary_parts(u, f, d);
    crate::model::counts_cover_all_resources(p.resources);
    assert("No resources"@[0] == 'N') by {
        reveal_strlit("No resources");
    }
    if p.resources.len() > 0 {
        lemma_url_literals();
        lemma_file_literals();
        lemma_folder_literals();
        assert(parts.len() > 0);
        assert(parts[0].len() > 0 && parts[0][0] != 'N');
        lemma_join_holds_parts(parts, "  "@);
        assert(card_summary_text(p)[0] != "No resources"@[0]);
    } else {
        assert(u == 0 && f == 0 && d == 0);
        assert(parts.len() == 0);
    }
}

proof fn lemma_decimal_digits(n: nat)
    ensures
        forall|i: int| 0 <= i < decimal(n).len() ==> '0' <= #[trigger] decimal(n)[i] && decimal(n)[i] <= '9',
    decreases n,
{
    if n >= 10 {
        lemma_decimal_digits(n / 10);
        let d = decimal(n / 10);
        assert forall|i: int| 0 <= i < decimal(n).len() implies '0' <= #[trigger] decimal(n)[i] && decimal(n)[i] <= '9' by {
            if i < d.len() {
                assert(decimal(n)[i] == d[i]);
            }
        }
    }
}

proof fn lemma_join_avoids(ps: Seq<Seq<char>>, sep: Seq<char>, c: char)
    requires
        forall|k: int, i: int| 0 <= k < ps.len() && 0 <= i < ps[k].len() ==> #[trigger] ps[k][i] != c,
        forall|i: int| 0 <= i < sep.len() ==> #[trigger] sep[i] != c,
    ensures
        forall|i: int| 0 <= i < join(ps, sep).len() ==> #[trigger] join(ps, sep)[i] != c,
    decreases ps.len(),
{
    if ps.len() > 1 {
        let s = ps.drop_last();
        assert forall|k: int, i: int| 0 <= k < s.len() && 0 <= i < s[k].len() implies #[trigger] s[k][i] != c by {
            assert(s[k] == ps[k]);
        }
        lemma_join_avoids(s, sep, c);
        let j = join(s, sep);
        let w = join(ps, sep);
        assert forall|i: int| 0 <= i < w.len() implies #[trigger] w[i] != c by {
            if i < j.len() {
                assert(w[i] == j[i]);
            } else if i < j.len() + sep.len() {
                assert(w[i] == sep[i - j.len()]);
            } else {
                assert(w[i] == ps.last()[i - j.len() - sep.len()]);
                assert(ps.last() == ps[ps.len() - 1]);
            }
        }
    } else if ps.len() == 1 {
        assert(join(ps, sep) == ps[0]);
    }
}

proof fn lemma_part_avoids(glyph: Seq<char>, n: nat, word: Seq<char>, c: char)
    requires
        forall|i: int| 0 <= i < glyph.len() ==> #[trigger] glyph[i] != c,
        forall|i: int| 0 <= i < word.len() ==> #[trigger] word[i] != c,
        c != ' ' && c != 's' && !('0' <= c && c <= '9'),
    ensures
        forall|i: int| 0 <= i < count_part(glyph, n, word).len() ==> #[trigger] count_part(glyph, n, word)[i] != c,
{
    reveal_strlit(" ");
    reveal_strlit("s");
    lemma_decimal_digits(n);
    let x = count_part(glyph, n, word);
    let g1 = glyph + " "@;
    let g2 = g1 + decimal(n);
    let g3 = g2 + " "@;
    let g4 = g3 + word;
    assert forall|i: int| 0 <= i < x.len() implies #[trigger] x[i] != c by {
        if i < glyph.len() {
            assert(x[i] == glyph[i]);
        } else if i < g1.len() {
            assert(x[i] == ' ');
        } else if i < g2.len() {
            assert(x[i] == decimal(n)[i - g1.len()]);
        } else if i < g3.len() {
            assert(x[i] == ' ');
        } else if i < g4.len() {
            assert(x[i] == word[i - g3.len()]);
        } else {
            assert(x[i] == 's');
        }
    }
}

proof fn lemma_word_literals()
    ensures
        "🌐"@ == seq!['🌐'],
        "📄"@ == seq!['📄'],
        "📁"@ == seq!['📁'],
        "URL"@ == seq!['U', 'R', 'L'],
        "File"@ == seq!['F', 'i', 'l', 'e'],
        "Folder"@ == seq!['F', 'o', 'l', 'd', 'e', 'r'],
        "  "@ == seq![' ', ' '],
        "No resources"@ == seq!['N', 'o', ' ', 'r', 'e', 's', 'o', 'u', 'r', 'c', 'e', 's'],
{
    reveal_strlit("🌐");
    reveal_strlit("📄");
    reveal_strlit("📁");
    reveal_strlit("URL");
    reveal_strlit("File");
    reveal_strlit("Folder");
    reveal_strlit("  ");
    reveal_strlit("No resources");
}

/// A kind the project does not hold is not mentioned: its glyph does not
/// occur in the summary.
proof fn lemma_summary_omits_absent(p: ProjectView, k: ResourceType, c: char)
    requires
        count_kind(p.resources, k) == 0,
        c == match k {
            ResourceType::Url => '🌐',
            ResourceType::File => '📄',
            ResourceType::Folder => '📁',
        },
    ensures
        forall|i: int| 0 <= i < card_summary_text(p).len() ==> #[trigger] card_summary_text(p)[i] != c,
{
    lemma_word_literals();
    let u = count_kind(p.resources, ResourceType::Url);
    let f = count_kind(p.resources, ResourceType::File);
    let d = count_kind(p.resources, ResourceType::Folder);
    let parts = summary_parts(u, f, d);
    if u > 0 {
        lemma_part_avoids("🌐"@, u, "URL"@, c);
    }
    if f > 0 {
        lemma_part_avoids("📄"@, f, "File"@, c);
    }
    if d > 0 {
        lemma_part_avoids("📁"@, d, "Folder"@, c);
    }
    let e = Seq::<Seq<char>>::empty();
    let su = if u > 0 { seq![count_part("🌐"@, u, "URL"@)] } else { e };
    let sf = if f > 0 { seq![count_part("📄"@, f, "File"@)] } else { e };
    let sd = if d > 0 { seq![count_part("📁"@, d, "Folder"@)] } else { e };
    assert(parts == su + sf + sd);
    assert forall|j: int, i: int| 0 <= j < parts.len() && 0 <= i < parts[j].len() implies #[trigger] parts[j][i] != c by {
        if j < su.len() {
            assert(parts[j] == su[j]);
        } else if j < su.len() + sf.len() {
            assert(parts[j] == sf[j - su.len()]);
        } else {
            assert(parts[j] == sd[j - su.len() - sf.len()]);
        }
    }
    lemma_join_avoids(parts, "  "@, c);
}

/// A card's summary names every kind the project holds, with its count and
/// the plural for more than one, does not mention a kind it lacks, and reads
/// "No resources" exactly when the project has none.
pub proof fn card_summary_names_every_kind(p: ProjectView)
    ensures
        count_kind(p.resources, ResourceType::Url) > 0 ==> has_substring(
            card_summary_text(p),
            "🌐 "@ + decimal(count_kind(p.resources, ResourceType::Url)) + " URL"@ + plural(
                count_kind(p.resources, ResourceType::Url),
            ),
        ),
        count_kind(p.resources, ResourceType::File) > 0 ==> has_substring(
            card_summary_text(p),
            "📄 "@ + decimal(count_kind(p.resources, ResourceType::File)) + " File"@ + plural(
                count_kind(p.resources, ResourceType::File),
            ),
        ),
        count_kind(p.resources, ResourceType::Folder) > 0 ==> has_substring(
            card_summary_text(p),
            "📁 "@ + decimal(count_kind(p.resources, ResourceType::Folder)) + " Folder"@ + plural(
                count_kind(p.resources, ResourceType::Folder),
            ),
        ),
        p.resources.len() == 0 <==> card_summary_text(p) == "No resources"@,
        count_kind(p.resources, ResourceType::Url) == 0 ==> forall|i: int|
            0 <= i < card_summary_text(p).len() ==> #[trigger] card_summary_text(p)[i] != '🌐',
        count_kind(p.resources, ResourceType::File) == 0 ==> forall|i: int|
            0 <= i < card_summary_text(p).len() ==> #[trigger] card_summary_text(p)[i] != '📄',
        count_kind(p.resources, ResourceType::Folder) == 0 ==> forall|i: int|
            0 <= i < card_summary_text(p).len() ==> #[trigger] card_summary_text(p)[i] != '📁',
{
    if count_kind(p.resources, ResourceType::Url) == 0 {
        lemma_summary_omits_absent(p, ResourceType::Url, '🌐');
    }
    if count_kind(p.resources, ResourceType::File) == 0 {
        lemma_summary_omits_absent(p, ResourceType::File, '📄');
    }
    if count_kind(p.resources, ResourceType::Folder) == 0 {
        lemma_summary_omits_absent(p, ResourceType::Folder, '📁');
    }
    if count_kind(p.resources, ResourceType::Url) > 0 {
        lemma_summary_names_urls(p);
    }
    if count_kind(p.resources, ResourceType::File) > 0 {
        lemma_summary_names_files(p);
    }
    if count_kind(p.resources, ResourceType::Folder) > 0 {
        lemma_summary_names_folders(p);
    }
    lemma_summary_no_resources(p);
}

fn push_part(
    s: &mut String,
    Ghost(parts): Ghost<Seq<Seq<char>>>,
    first: bool,
    glyph: &str,
    n: usize,
    word: &str,
) -> (r: Ghost<Seq<Seq<char>>>)
    requires
        old(s)@ == join(parts, "  "@),
        first == (parts.len() == 0),
    ensures
        r@ == parts.push(count_part(glyph@, n as nat, word@)),
        final(s)@ == join(r@, "  "@),
{
    let ghost before = s@;
    if !first {
        push_str(s, "  ");
    }
    let ghost mid = s@;
    push_str(s, glyph);
    push_str(s, " ");
    push_decimal(s, n);
    push_str(s, " ");
    push_str(s, word);
    if n > 1 {
        push_str(s, "s");
    }
    let ghost np = parts.push(count_part(glyph@, n as nat, word@));
    proof {
        assert(np.drop_last() == parts);
        assert(s@ == mid + count_part(glyph@, n as nat, word@));
        if parts.len() == 0 {
            assert(mid == before);
            assert(before == Seq::<char>::empty());
            assert(s@ == count_part(glyph@, n as nat, word@));
        }
    }
    Ghost(np)
}

/// The summary line shown on a project's card: for each kind present, its
/// glyph, count and word (plural above one), joined by two spaces; or
/// "No resources".
pub fn card_summary(p: &Project) -> (s: String)
    ensures
        s@ == card_summary_text(p@),
{
    let (urls, files, folders) = p.counts();
    let mut s = String::new();
    let ghost mut parts: Seq<Seq<char>> = Seq::empty();
    let mut first = true;
    if urls > 0 {
        let Ghost(np) = push_part(&mut s, Ghost(parts), first, "🌐", urls, "URL");
        proof { parts = np; }
        first = false;
    }
    if files > 0 {
        let Ghost(np) = push_part(&mut s, Ghost(parts), first, "📄", files, "File");
        proof { parts = np; }
        first = false;
    }
    if folders > 0 {
        let Ghost(np) = push_part(&mut s, Ghost(parts), first, "📁", folders, "Folder");
        proof { parts = np; }
        first = false;
    }
    assert(parts =~= summary_parts(urls as nat, files as nat, folders as nat));
    if first {
        return string_of("No resources");
    }
    s
}

// ------------------------------------------------------------------ app

impl LaunchXApp {
    /// The state at startup, from the outcome of loading the configuration and
    /// whether a CJK font could be installed: on a load error the default
    /// configuration is used and an error notice names the error; a missing
    /// font gives a second error notice.
    pub fn new(loaded: Result<AppConfig, String>, cjk_loaded: bool) -> (app: Self)
        ensures
            app@.cfg == (match loaded {
                Ok(c) => c@,
                Err(_) => default_config(),
            }),
            app@.query.len() == 0,
            app@.editor is None,
            app@.toasts == load_notices(loaded) + if cjk_loaded {
                Seq::<ToastView>::empty()
            } else {
                seq![notice(missing_font_message(), true)]
            },
    {
        let mut app = LaunchXApp {
            cfg: AppConfig::default(),
            query: String::new(),
            editor: None,
            toasts: Vec::new(),
        };
        assert(app@.toasts =~= Seq::<ToastView>::empty());
        assert(app.cfg@.projects =~= default_config().projects);
        assert(app.cfg@.templates =~= default_config().templates);
        let ghost first = load_notices(loaded);
        match loaded {
            Ok(c) => {
                app.cfg = c;
            },
            Err(e) => {
                let mut m = string_of("Failed to load config: ");
                push_str(&mut m, e.as_str());
                app.toast(m, true);
            },
        }
        if !cjk_loaded {
            app.toast(string_of("No CJK system font found — Chinese text may not display."), true);
        }
        proof {
            if cjk_loaded {
                assert(first + Seq::<ToastView>::empty() =~= first);
            }
        }
        app
    }

    /// Posts a notice.
    pub fn toast(&mut self, message: String, is_error: bool)
        ensures
            final(self)@ == (AppView { toasts: old(self)@.toasts.push(notice(message@, is_error)), ..old(self)@ }),
    {
        self.toasts.push(Toast { message, is_error, created: instant_now() });
        assert(toasts_view(self.toasts@) =~= toasts_view(old(self).toasts@).push(notice(message@, is_error)));
    }

    /// Records the outcome of saving the configuration: a failure is reported
    /// in an error notice.
    pub fn persist(&mut self, outcome: Result<(), String>)
        ensures
            final(self)@ == (AppView {
                toasts: match outcome {
                    Ok(_) => old(self)@.toasts,
                    Err(e) => old(self)@.toasts.push(notice(save_failed_message(e@), true)),
                },
                ..old(self)@
            }),
    {
        match outcome {
            Ok(_) => {},
            Err(e) => {
                let mut m = string_of("Failed to save config: ");
                push_str(&mut m, e.as_str());
                self.toast(m, true);
            },
        }
    }

    /// Reports the launch of project `idx`, where opening its `i`-th resource
    /// gave `errors[i]`: a project without resources is reported as such; if
    /// nothing failed one notice tells how many resources were launched;
    /// otherwise each failure gets an error notice.
    pub fn launch(&mut self, idx: usize, errors: &[Option<String>])
        requires
            idx < old(self)@.cfg.projects.len(),
            errors@.len() == old(self)@.cfg.projects[idx as int].resources.len(),
        ensures
            final(self)@ == (AppView {
                toasts: old(self)@.toasts + launch_notices(
                    old(self)@.cfg.projects[idx as int],
                    errors@.map_values(|e: Option<String>| opt_view(e)),
                ),
                ..old(self)@
            }),
    {
        let ghost p = self@.cfg.projects[idx as int];
        let ghost errs = errors@.map_values(|e: Option<String>| opt_view(e));
        assert(self.cfg.projects@[idx as int]@ == p);
        let name = self.cfg.projects[idx].name.clone();
        if self.cfg.projects[idx].resources.len() == 0 {
            let mut m = string_of("\"");
            push_str(&mut m, name.as_str());
            push_str(&mut m, "\" has no resources configured.");
            self.toast(m, true);
            assert(seq![notice(no_resources_message(p.name), true)] =~= launch_notices(p, errs));
            assert(self@.toasts =~= old(self)@.toasts + launch_notices(p, errs));
            return;
        }
        let results = launch_all(self.cfg.projects[idx].resources.as_slice(), errors);
        let ghost rv = results@.map_values(|r: LaunchResult| r@);
        assert(rv =~= launch_results(p.resources, errs));
        let n = results.len();
        // Success is reported only when no resource failed.
        let mut any_failed = false;
        let mut i: usize = 0;
        while i < n
            invariant
                n == results@.len(),
                rv == results@.map_values(|r: LaunchResult| r@),
                i <= n,
                any_failed == (failure_notices(rv.take(i as int)).len() > 0),
            decreases n - i,
        {
            proof {
                assert(rv.take(i + 1).drop_last() == rv.take(i as int));
                assert(rv.take(i + 1).last() == results@[i as int]@);
            }
            if results[i].error.is_some() {
                any_failed = true;
            }
            i = i + 1;
        }
        assert(rv.take(n as int) == rv);
        if !any_failed {
            let mut m = string_of("Launched ");
            push_decimal(&mut m, n);
            push_str(&mut m, " resource(s) for \"");
            push_str(&mut m, name.as_str());
            push_str(&mut m, "\"");
            self.toast(m, false);
            assert(seq![notice(launched_message(p.resources.len(), p.name), false)] =~= launch_notices(p, errs));
            assert(self@.toasts =~= old(self)@.toasts + launch_notices(p, errs));
        } else {
            let ghost start = self@.toasts;
            let mut j: usize = 0;
            while j < n
                invariant
                    n == results@.len(),
                    rv == results@.map_values(|r: LaunchResult| r@),
                    j <= n,
                    self@ == (AppView { toasts: start + failure_notices(rv.take(j as int)), ..old(self)@ }),
                decreases n - j,
            {
                proof {
                    assert(rv.take(j + 1).drop_last() == rv.take(j as int));
                    assert(rv.take(j + 1).last() == results@[j as int]@);
                }
                let r = &results[j];
                match &r.error {
                    Some(e) => {
                        let mut m = r.name.clone();
                        push_str(&mut m, ": ");
                        push_str(&mut m, e.as_str());
                        self.toast(m, true);
                        proof {
                            assert(start + failure_notices(rv.take(j + 1)) =~= (start + failure_notices(
                                rv.take(j as int),
                            )).push(notice(failure_message(results@[j as int]@), true)));
                        }
                    },
                    None => {},
                }
                j = j + 1;
            }
            assert(rv.take(n as int) == rv);
            assert(launch_notices(p, errs) == failure_notices(rv));
        }
    }

    /// The positions of the projects to show for the current search, in order.
    pub fn visible_projects(&self) -> (ix: Vec<usize>)
        ensures
            ix@ == matching_positions(
                self@.cfg.projects,
                search_key(self@.query),
                self@.cfg.projects.len(),
            ),
    {
        let q = trim(self.query.as_str());
        let key = lowered_chars(&q);
        let n = self.cfg.projects.len();
        let mut ix: Vec<usize> = Vec::new();
        let mut i: usize = 0;
        while i < n
            invariant
                n == self.cfg.projects@.len(),
                key@ == search_key(self@.query),
                i <= n,
                ix@ == matching_positions(self@.cfg.projects, key@, i as nat),
            decreases n - i,
        {
            assert(self@.cfg.projects[i as int] == self.cfg.projects@[i as int]@);
            if project_matches_exec(&self.cfg.projects[i], &key) {
                ix.push(i);
            }
            i = i + 1;
        }
        ix
    }

    /// Opens the editor on a new blank project.
    pub fn open_new_project(&mut self)
        ensures
            final(self)@.cfg == old(self)@.cfg,
            final(self)@.query == old(self)@.query,
            final(self)@.toasts == old(self)@.toasts,
            final(self)@.editor matches Some(e) && e.is_new && e.error.len() == 0
                && e.template_name.len() == 0 && e.draft.name.len() == 0 && e.draft.resources.len()
                == 0 && is_uuid_v4_text(e.draft.id) && is_utc_rfc3339_text(e.draft.created_at)
                && e.draft.color == crate::model::default_project_color(),
    {
        self.editor = Some(Editor::open(Project::new(), true));
    }

    /// Opens the editor on a copy of project `idx`.
    pub fn edit_project(&mut self, idx: usize)
        requires
            idx < old(self)@.cfg.projects.len(),
        ensures
            final(self)@ == (AppView {
                editor: Some(
                    EditorView {
                        draft: old(self)@.cfg.projects[idx as int],
                        is_new: false,
                        error: Seq::empty(),
                        template_name: Seq::empty(),
                    },
                ),
                ..old(self)@
            }),
    {
        assert(self.cfg.projects@[idx as int]@ == self@.cfg.projects[idx as int]);
        let draft = self.cfg.projects[idx].clone();
        self.editor = Some(Editor::open(draft, false));
    }

    /// Closes the editor without saving.
    pub fn close_editor(&mut self)
        ensures
            final(self)@ == (AppView { editor: None, ..old(self)@ }),
    {
        self.editor = None;
    }

    /// Merges template `i` into the draft (see [`merge_resources`]) and posts a
    /// notice of how many resources were added and how many skipped.
    pub fn apply_template(&mut self, i: usize)
        requires
            old(self)@.editor is Some,
            i < old(self)@.cfg.templates.len(),
        ensures
            final(self)@.cfg == old(self)@.cfg,
            final(self)@.query == old(self)@.query,
            ({
                let e = old(self)@.editor->0;
                let incoming = old(self)@.cfg.templates[i as int].resources;
                let merged = merge_into(e.draft.resources, incoming);
                let added = (merged.len() - e.draft.resources.len()) as nat;
                &&& final(self)@.editor matches Some(f) && f.is_new == e.is_new && f.error == e.error
                    && f.template_name == e.template_name && f.draft.id == e.draft.id
                    && f.draft.name == e.draft.name && f.draft.color == e.draft.color
                    && f.draft.created_at == e.draft.created_at && merged_with_fresh_ids(
                    e.draft.resources,
                    merged,
                    f.draft.resources,
                )
                &&& final(self)@.toasts == old(self)@.toasts.push(
                    notice(template_applied_message(added, (incoming.len() - added) as nat), false),
                )
            }),
    {
        let mut ed = self.editor.take().unwrap();
        assert(self.cfg.templates@[i as int]@ == self@.cfg.templates[i as int]);
        let (added, skipped) = merge_resources(&mut ed.draft.resources, &self.cfg.templates[i].resources);
        self.editor = Some(ed);
        let mut m = string_of("Template applied: ");
        push_decimal(&mut m, added);
        if skipped > 0 {
            push_str(&mut m, " added, ");
            push_decimal(&mut m, skipped);
            push_str(&mut m, " duplicate(s) skipped");
        } else {
            push_str(&mut m, " resource(s) added");
        }
        self.toast(m, false);
    }

    /// Saves the draft's resources as a template under the trimmed template
    /// name, replacing the resources of a template of that name or adding a
    /// new one. Returns the notice to post once the configuration has been
    /// saved, or `None` when nothing was saved because the name is blank or
    /// the draft has no resources (the editor then shows the reason).
    pub fn save_template(&mut self) -> (r: Option<String>)
        requires
            old(self)@.editor is Some,
        ensures
            final(self)@.query == old(self)@.query,
            final(self)@.toasts == old(self)@.toasts,
            final(self)@.cfg.version == old(self)@.cfg.version,
            final(self)@.cfg.projects == old(self)@.cfg.projects,
            ({
                let e = old(self)@.editor->0;
                let name = trimmed(e.template_name);
                if name.len() == 0 {
                    &&& final(self)@.editor == Some(EditorView { error: template_name_required(), ..e })
                    &&& final(self)@.cfg == old(self)@.cfg
                    &&& r is None
                } else if e.draft.resources.len() == 0 {
                    &&& final(self)@.editor == Some(EditorView { error: template_needs_resources(), ..e })
                    &&& final(self)@.cfg == old(self)@.cfg
                    &&& r is None
                } else {
                    &&& final(self)@.editor == Some(
                        EditorView { error: Seq::empty(), template_name: Seq::empty(), ..e },
                    )
                    &&& final(self)@.cfg.templates == upsert_template(
                        old(self)@.cfg.templates,
                        name,
                        e.draft.resources,
                        final(self)@.cfg.templates.last().id,
                    )
                    &&& position_of_name(old(self)@.cfg.templates, name) < 0 ==> is_uuid_v4_text(
                        final(self)@.cfg.templates.last().id,
                    )
                    &&& r matches Some(m) && m@ == template_saved_message(name)
                }
            }),
    {
        let mut ed = self.editor.take().unwrap();
        let name = trim(ed.template_name.as_str());
        if name.as_str().is_empty() {
            ed.error = string_of("Template name is required.");
            self.editor = Some(ed);
            return None;
        }
        if ed.draft.resources.len() == 0 {
            ed.error = string_of("Add at least one resource before saving a template.");
            self.editor = Some(ed);
            return None;
        }
        let resources = clone_resources(&ed.draft.resources);
        ed.template_name = String::new();
        ed.error = String::new();
        self.editor = Some(ed);
        let mut m = string_of("Template \"");
        push_str(&mut m, name.as_str());
        push_str(&mut m, "\" saved");
        upsert_template_into(&mut self.cfg.templates, name, resources);
        Some(m)
    }

    /// Deletes template `i`. Returns the notice to post once the configuration
    /// has been saved.
    pub fn delete_template(&mut self, i: usize) -> (m: String)
        requires
            i < old(self)@.cfg.templates.len(),
        ensures
            final(self)@ == (AppView {
                cfg: AppConfigView {
                    templates: old(self)@.cfg.templates.remove(i as int),
                    ..old(self)@.cfg
                },
                ..old(self)@
            }),
            m@ == template_deleted_message(old(self)@.cfg.templates[i as int].name),
    {
        let t = self.cfg.templates.remove(i);
        assert(templates_view(self.cfg.templates@) =~= templates_view(old(self).cfg.templates@).remove(i as int));
        let mut m = string_of("Template \"");
        push_str(&mut m, t.name.as_str());
        push_str(&mut m, "\" deleted");
        m
    }

    /// Saves the draft: when validation reports a problem the editor shows it
    /// and nothing is saved (`false`); otherwise the draft, in the form it is
    /// saved in, is appended (new project) or replaces the first project with
    /// its id, the editor closes and `true` asks the caller to save the
    /// configuration.
    pub fn save_project(&mut self) -> (saved: bool)
        requires
            old(self)@.editor is Some,
        ensures
            final(self)@.query == old(self)@.query,
            final(self)@.toasts == old(self)@.toasts,
            final(self)@.cfg.version == old(self)@.cfg.version,
            final(self)@.cfg.templates == old(self)@.cfg.templates,
            ({
                let e = old(self)@.editor->0;
                let msg = validation_message(e.draft);
                if msg.len() > 0 {
                    &&& final(self)@.editor == Some(EditorView { error: msg, ..e })
                    &&& final(self)@.cfg == old(self)@.cfg
                    &&& !saved
                } else {
                    &&& final(self)@.editor is None
                    &&& final(self)@.cfg.projects == if e.is_new {
                        old(self)@.cfg.projects.push(normalized_project(e.draft))
                    } else {
                        replace_project(old(self)@.cfg.projects, normalized_project(e.draft))
                    }
                    &&& saved
                }
            }),
    {
        let mut ed = self.editor.take().unwrap();
        let msg = validate(&ed.draft);
        if !msg.as_str().is_empty() {
            ed.error = msg;
            self.editor = Some(ed);
            return false;
        }
        let draft = normalize_project(&ed.draft);
        if ed.is_new {
            self.cfg.projects.push(draft);
            assert(projects_view(self.cfg.projects@) =~= projects_view(old(self).cfg.projects@).push(draft@));
        } else {
            replace_project_in(&mut self.cfg.projects, draft);
        }
        true
    }

    /// Deletes every project with the draft's id and closes the editor; the
    /// caller then saves the configuration.
    pub fn delete_project(&mut self)
        requires
            old(self)@.editor is Some,
        ensures
            final(self)@ == (AppView {
                cfg: AppConfigView {
                    projects: without_id(old(self)@.cfg.projects, old(self)@.editor->0.draft.id),
                    ..old(self)@.cfg
                },
                editor: None,
                ..old(self)@
            }),
    {
        let ed = self.editor.take().unwrap();
        let ghost ps = projects_view(self.cfg.projects@);
        let n = self.cfg.projects.len();
        let mut kept: Vec<Project> = Vec::new();
        let mut i: usize = 0;
        while i < n
            invariant
                n == self.cfg.projects@.len(),
                ps == projects_view(self.cfg.projects@),
                i <= n,
                projects_view(kept@) == without_id(ps.take(i as int), ed.draft@.id),
            decreases n - i,
        {
            proof {
                assert(ps.take(i + 1).drop_last() == ps.take(i as int));
                assert(ps.take(i + 1).last() == self.cfg.projects@[i as int]@);
            }
            if self.cfg.projects[i].id != ed.draft.id {
                let p = self.cfg.projects[i].clone();
                kept.push(p);
                proof {
                    assert(projects_view(kept@) =~= without_id(ps.take(i as int), ed.draft@.id).push(p@));
                }
            }
            i = i + 1;
        }
        assert(ps.take(n as int) == ps);
        self.cfg.projects = kept;
    }
}

/// The position of the first project with id `id`, or -1.
pub open spec fn position_of_id(ps: Seq<ProjectView>, id: Seq<char>) -> int
    decreases ps.len(),
{
    if ps.len() == 0 {
        -1
    } else if ps[0].id == id {
        0
    } else {
        let p = position_of_id(ps.drop_first(), id);
        if p < 0 {
            -1
        } else {
            p + 1
        }
    }
}

/// `ps` with the first project of `p`'s id replaced by `p` (unchanged when there is none).
pub open spec fn replace_project(ps: Seq<ProjectView>, p: ProjectView) -> Seq<ProjectView> {
    let k = position_of_id(ps, p.id);
    if k >= 0 {
        ps.update(k, p)
    } else {
        ps
    }
}

/// `ps` without the projects of id `id`, the others in order.
pub open spec fn without_id(ps: Seq<ProjectView>, id: Seq<char>) -> Seq<ProjectView>
    decreases ps.len(),
{
    if ps.len() == 0 {
        ps
    } else {
        let rest = without_id(ps.drop_last(), id);
        if ps.last().id == id {
            rest
        } else {
            rest.push(ps.last())
        }
    }
}

proof fn lemma_position_of_id(ps: Seq<ProjectView>, id: Seq<char>)
    ensures
        -1 <= position_of_id(ps, id) < ps.len(),
        position_of_id(ps, id) >= 0 ==> ps[position_of_id(ps, id)].id == id,
        position_of_id(ps, id) >= 0 ==> forall|j: int|
            0 <= j < position_of_id(ps, id) ==> (#[trigger] ps[j]).id != id,
        position_of_id(ps, id) < 0 ==> forall|j: int| 0 <= j < ps.len() ==> (#[trigger] ps[j]).id != id,
    decreases ps.len(),
{
    if ps.len() > 0 && ps[0].id != id {
        let s = ps.drop_first();
        lemma_position_of_id(s, id);
        assert forall|j: int| 1 <= j < ps.len() implies (#[trigger] ps[j]).id == s[j - 1].id by {}
    }
}

fn replace_project_in(projects: &mut Vec<Project>, p: Project)
    ensures
        projects_view(final(projects)@) == replace_project(projects_view(old(projects)@), p@),
{
    let ghost ps = projects_view(projects@);
    let n = projects.len();
    let mut i: usize = 0;
    while i < n
        invariant
            n == projects@.len(),
            ps == projects_view(projects@),
            ps == projects_view(old(projects)@),
            i <= n,
            forall|j: int| 0 <= j < i ==> (#[trigger] ps[j]).id != p@.id,
        decreases n - i,
    {
        if projects[i].id == p.id {
            proof {
                assert(ps[i as int] == projects@[i as int]@);
                lemma_position_of_id(ps, p@.id);
                let k = position_of_id(ps, p@.id);
                if k < 0 || k > i {
                    assert(ps[i as int].id == p@.id);
                }
                if k >= 0 && k < i {
                    assert(ps[k].id != p@.id);
                }
            }
            let ghost pv = p@;
            projects.set(i, p);
            assert(projects_view(projects@) =~= ps.update(i as int, pv));
            return;
        }
        i = i + 1;
    }
    proof {
        lemma_position_of_id(ps, p@.id);
        let k = position_of_id(ps, p@.id);
        if k >= 0 {
            assert(ps[k].id != p@.id);
        }
    }
}

/// After deleting, no project has the deleted id, and every other project
/// is kept.
pub proof fn deleting_removes_exactly_that_id(ps: Seq<ProjectView>, id: Seq<char>)
    ensures
        forall|k: int| 0 <= k < without_id(ps, id).len() ==> (#[trigger] without_id(ps, id)[k]).id != id,
        forall|k: int| 0 <= k < ps.len() && (#[trigger] ps[k]).id != id ==> without_id(ps, id).contains(ps[k]),
        without_id(ps, id).len() <= ps.len(),
    decreases ps.len(),
{
    if ps.len() > 0 {
        let s = ps.drop_last();
        deleting_removes_exactly_that_id(s, id);
        let r = without_id(s, id);
        let w = without_id(ps, id);
        assert forall|k: int| 0 <= k < w.len() implies (#[trigger] w[k]).id != id by {
            if k < r.len() {
                assert(w[k] == r[k]);
            }
        }
        assert forall|k: int| 0 <= k < ps.len() && (#[trigger] ps[k]).id != id implies w.contains(ps[k]) by {
            if k < ps.len() - 1 {
                assert(s[k] == ps[k]);
                assert(r.contains(s[k]));
                let q = choose|q: int| 0 <= q < r.len() && r[q] == s[k];
                assert(w[q] == r[q]);
            } else {
                assert(w[w.len() - 1] == ps[k]);
            }
        }
    }
}

} // verus!
