//! The project editor's rules: validation of a draft, the normal form a draft
//! is saved in, merging a template into a draft, and saving templates.
use vstd::prelude::*;
use crate::model::{
    is_uuid_v4_text, new_uuid, resources_view, Project, ProjectView, Resource,
    ResourceType, ResourceView, Template, TemplateView,
};
use crate::text::{
    chars_of, eq_ignore_ascii_case, eq_ignoring_ascii_case, is_blank, trimming_is_idempotent,
    push_str, starts_with, string_of, trim, trimmed,
};
use crate::launcher::is_web_address;

verus! {

/// A project being edited, as a copy of the project (new or existing).
#[derive(Debug)]
pub struct Editor {
    pub draft: Project,
    pub is_new: bool,
    pub error: String,
    pub template_name: String,
}

/// The plain value of an [`Editor`].
pub struct EditorView {
    pub draft: ProjectView,
    pub is_new: bool,
    pub error: Seq<char>,
    pub template_name: Seq<char>,
}

impl View for Editor {
    type V = EditorView;

    open spec fn view(&self) -> EditorView {
        EditorView {
            draft: self.draft@,
            is_new: self.is_new,
            error: self.error@,
            template_name: self.template_name@,
        }
    }
}

impl Editor {
    /// An editor on `draft`, with no error and an empty template name.
    pub fn open(draft: Project, is_new: bool) -> (e: Self)
        ensures
            e@ == (EditorView {
                draft: draft@,
                is_new,
                error: Seq::empty(),
                template_name: Seq::empty(),
            }),
    {
        Editor { draft, is_new, error: String::new(), template_name: String::new() }
    }
}

// ---------------------------------------------------------------- validation

/// What is wrong with a resource, if anything: an empty target, or a URL
/// that does not start with `http://` or `https://`.
pub open spec fn resource_problem(r: ResourceView) -> Option<Seq<char>> {
    let t = trimmed(r.target);
    if t.len() == 0 {
        Some("Every resource needs a target (URL or path)."@)
    } else if r.kind == ResourceType::Url && !is_web_address(t) {
        Some("\""@ + t + "\" must start with http:// or https://"@)
    } else {
        None
    }
}

/// The problem of the first resource that has one, or the empty text.
pub open spec fn first_resource_problem(rs: Seq<ResourceView>) -> Seq<char>
    decreases rs.len(),
{
    if rs.len() == 0 {
        Seq::empty()
    } else {
        match resource_problem(rs[0]) {
            Some(e) => e,
            None => first_resource_problem(rs.drop_first()),
        }
    }
}

/// The message that validation gives for a project: empty when it may be saved.
pub open spec fn validation_message(p: ProjectView) -> Seq<char> {
    if is_blank(p.name) {
        "Project name is required."@
    } else {
        first_resource_problem(p.resources)
    }
}

/// A project that validation accepts: a non-blank name, and every resource
/// with a non-blank target, URLs starting with `http://` or `https://`.
pub open spec fn is_valid_project(p: ProjectView) -> bool {
    &&& !is_blank(p.name)
    &&& forall|i: int| 0 <= i < p.resources.len() ==> (#[trigger] resource_problem(p.resources[i])) is None
}

/// Whether `t` starts with `http://` or `https://`.
fn web_address(t: &String) -> (b: bool)
    ensures
        b == is_web_address(t@),
{
    let tv = chars_of(t.as_str());
    starts_with(&tv, "http://") || starts_with(&tv, "https://")
}

fn resource_check(r: &Resource) -> (m: Option<String>)
    ensures
        match m {
            Some(s) => resource_problem(r@) == Some(s@),
            None => resource_problem(r@) is None,
        },
{
    let target = trim(r.target.as_str());
    if target.as_str().is_empty() {
        return Some(string_of("Every resource needs a target (URL or path)."));
    }
    if r.kind == ResourceType::Url && !web_address(&target) {
        let mut m = string_of("\"");
        push_str(&mut m, target.as_str());
        push_str(&mut m, "\" must start with http:// or https://");
        return Some(m);
    }
    None
}

/// The message shown when a draft cannot be saved, or the empty string when
/// it can: the name must not be blank, then the first resource with a blank
/// target or a URL without `http://`/`https://` is reported.
pub fn validate(p: &Project) -> (m: String)
    ensures
        m@ == validation_message(p@),
{
    let name = trim(p.name.as_str());
    if name.as_str().is_empty() {
        return string_of("Project name is required.");
    }
    let ghost rs = p@.resources;
    let n = p.resources.len();
    let mut i: usize = 0;
    assert(rs.skip(0) == rs);
    while i < n
        invariant
            n == rs.len(),
            rs == resources_view(p.resources@),
            !is_blank(p@.name),
            i <= n,
            first_resource_problem(rs) == first_resource_problem(rs.skip(i as int)),
        decreases n - i,
    {
        proof {
            let s = rs.skip(i as int);
            assert(s[0] == rs[i as int]);
            assert(rs[i as int] == p.resources@[i as int]@);
            assert(s.drop_first() == rs.skip(i + 1));
        }
        match resource_check(&p.resources[i]) {
            Some(m) => {
                return m;
            },
            None => {},
        }
        i = i + 1;
    }
    assert(rs.skip(n as int).len() == 0);
    String::new()
}

proof fn lemma_first_problem_empty(rs: Seq<ResourceView>)
    ensures
        first_resource_problem(rs).len() == 0 <==> forall|i: int|
            0 <= i < rs.len() ==> (#[trigger] resource_problem(rs[i])) is None,
    decreases rs.len(),
{
    reveal_strlit("Every resource needs a target (URL or path).");
    reveal_strlit("\"");
    if rs.len() > 0 {
        lemma_first_problem_empty(rs.drop_first());
        if forall|i: int| 0 <= i < rs.len() ==> (#[trigger] resource_problem(rs[i])) is None {
            assert(resource_problem(rs[0]) is None);
            assert forall|i: int| 0 <= i < rs.drop_first().len() implies (#[trigger] resource_problem(
                rs.drop_first()[i],
            )) is None by {
                assert(rs.drop_first()[i] == rs[i + 1]);
            }
        } else {
            let k = choose|i: int| 0 <= i < rs.len() && !(resource_problem(rs[i]) is None);
            if resource_problem(rs[0]) is None {
                assert(rs.drop_first()[k - 1] == rs[k]);
            }
        }
    }
}

/// The validation message is empty exactly for valid projects.
pub proof fn validation_accepts_exactly_valid_projects(p: ProjectView)
    ensures
        (validation_message(p).len() == 0) == is_valid_project(p),
{
    reveal_strlit("Project name is required.");
    lemma_first_problem_empty(p.resources);
}

// ---------------------------------------------------------------- normal form

/// A resource as it is saved: target trimmed; name trimmed, or the trimmed
/// target when the name is blank.
pub open spec fn normalized_resource(r: ResourceView) -> ResourceView {
    let t = trimmed(r.target);
    ResourceView {
        id: r.id,
        name: if is_blank(r.name) {
            t
        } else {
            trimmed(r.name)
        },
        kind: r.kind,
        target: t,
        open_with: r.open_with,
    }
}

/// A project as it is saved: name trimmed and every resource normalized.
pub open spec fn normalized_project(p: ProjectView) -> ProjectView {
    ProjectView {
        id: p.id,
        name: trimmed(p.name),
        color: p.color,
        created_at: p.created_at,
        resources: p.resources.map_values(|r: ResourceView| normalized_resource(r)),
    }
}

/// Saving changes only what is trimmed: the project keeps its id, color and
/// creation time, its name is the trimmed name, and every resource keeps its
/// position, id, kind and opening application, with its target trimmed and
/// its name trimmed (or, when blank, replaced by the trimmed target).
pub proof fn saved_form_keeps_the_draft(p: ProjectView)
    ensures
        normalized_project(p).id == p.id,
        normalized_project(p).color == p.color,
        normalized_project(p).created_at == p.created_at,
        normalized_project(p).name == trimmed(p.name),
        normalized_project(p).resources.len() == p.resources.len(),
        forall|i: int|
            0 <= i < p.resources.len() ==> {
                let r = p.resources[i];
                let n = #[trigger] normalized_project(p).resources[i];
                &&& n.id == r.id
                &&& n.kind == r.kind
                &&& n.open_with == r.open_with
                &&& n.target == trimmed(r.target)
                &&& n.name == if trimmed(r.name).len() == 0 {
                    trimmed(r.target)
                } else {
                    trimmed(r.name)
                }
            },
{
}

fn normalize_resource(r: &Resource) -> (n: Resource)
    ensures
        n@ == normalized_resource(r@),
{
    let target = trim(r.target.as_str());
    let name_trimmed = trim(r.name.as_str());
    let name = if name_trimmed.as_str().is_empty() {
        target.clone()
    } else {
        name_trimmed
    };
    Resource {
        id: r.id.clone(),
        name,
        kind: r.kind,
        target,
        open_with: crate::model::clone_opt_string(&r.open_with),
    }
}

/// `p` in the form it is saved in.
pub fn normalize_project(p: &Project) -> (n: Project)
    ensures
        n@ == normalized_project(p@),
{
    let mut rs: Vec<Resource> = Vec::new();
    let count = p.resources.len();
    let mut i: usize = 0;
    while i < count
        invariant
            count == p.resources@.len(),
            i <= count,
            rs@.len() == i,
            forall|j: int|
                0 <= j < i ==> (#[trigger] rs@[j])@ == normalized_resource(p.resources@[j]@),
        decreases count - i,
    {
        rs.push(normalize_resource(&p.resources[i]));
        i = i + 1;
    }
    let n = Project {
        id: p.id.clone(),
        name: trim(p.name.as_str()),
        color: p.color.clone(),
        created_at: p.created_at.clone(),
        resources: rs,
    };
    assert(n@.resources =~= p@.resources.map_values(|r: ResourceView| normalized_resource(r)));
    n
}

/// A draft that validation accepts is still accepted in the form it is saved
/// in, and saving it again changes nothing.
pub proof fn saved_form_stays_valid(p: ProjectView)
    requires
        is_valid_project(p),
    ensures
        is_valid_project(normalized_project(p)),
        normalized_project(normalized_project(p)) == normalized_project(p),
{
    let q = normalized_project(p);
    trimming_is_idempotent(p.name);
    assert forall|i: int| 0 <= i < q.resources.len() implies (#[trigger] resource_problem(
        q.resources[i],
    )) is None by {
        assert(resource_problem(p.resources[i]) is None);
        trimming_is_idempotent(p.resources[i].target);
    }
    let qq = normalized_project(q);
    assert forall|i: int| 0 <= i < q.resources.len() implies #[trigger] qq.resources[i]
        == q.resources[i] by {
        let r = p.resources[i];
        trimming_is_idempotent(r.target);
        trimming_is_idempotent(r.name);
        assert(resource_problem(r) is None);
        if is_blank(r.name) {
            trimming_is_idempotent(r.target);
        }
    }
    assert(qq.resources =~= q.resources);
}

// ---------------------------------------------------------------- templates

/// Two resources that a template merge counts as the same: same kind, and
/// trimmed targets equal up to ASCII case.
pub open spec fn same_entry(a: ResourceView, b: ResourceView) -> bool {
    a.kind == b.kind && eq_ignoring_ascii_case(trimmed(a.target), trimmed(b.target))
}

/// `rs` holds a resource that counts as the same as `r`.
pub open spec fn has_entry(rs: Seq<ResourceView>, r: ResourceView) -> bool {
    exists|j: int| 0 <= j < rs.len() && same_entry(#[trigger] rs[j], r)
}

/// `existing` with the resources of `incoming` appended in order, each one
/// skipped when the list built so far already holds the same entry.
pub open spec fn merge_into(existing: Seq<ResourceView>, incoming: Seq<ResourceView>) -> Seq<
    ResourceView,
>
    decreases incoming.len(),
{
    if incoming.len() == 0 {
        existing
    } else {
        let m = merge_into(existing, incoming.drop_last());
        if has_entry(m, incoming.last()) {
            m
        } else {
            m.push(incoming.last())
        }
    }
}

/// Equal but for the id.
pub open spec fn same_except_id(a: ResourceView, b: ResourceView) -> bool {
    a.name == b.name && a.kind == b.kind && a.target == b.target && a.open_with == b.open_with
}

/// The same kinds and targets at every position.
pub open spec fn same_keys(a: Seq<ResourceView>, b: Seq<ResourceView>) -> bool {
    &&& a.len() == b.len()
    &&& forall|i: int| 0 <= i < a.len() ==> (#[trigger] a[i]).kind == b[i].kind && a[i].target == b[i].target
}

proof fn lemma_same_keys_has_entry(a: Seq<ResourceView>, b: Seq<ResourceView>, r: ResourceView)
    requires
        same_keys(a, b),
    ensures
        has_entry(a, r) == has_entry(b, r),
{
    if has_entry(a, r) {
        let j = choose|j: int| 0 <= j < a.len() && same_entry(#[trigger] a[j], r);
        assert(same_entry(b[j], r));
    }
    if has_entry(b, r) {
        let j = choose|j: int| 0 <= j < b.len() && same_entry(#[trigger] b[j], r);
        assert(same_entry(a[j], r));
    }
}

proof fn lemma_same_entry_reflexive(r: ResourceView)
    ensures
        same_entry(r, r),
{
}

proof fn lemma_merge_extends(e: Seq<ResourceView>, t: Seq<ResourceView>)
    ensures
        merge_into(e, t).len() >= e.len(),
        merge_into(e, t).len() <= e.len() + t.len(),
        merge_into(e, t).take(e.len() as int) == e,
    decreases t.len(),
{
    if t.len() > 0 {
        lemma_merge_extends(e, t.drop_last());
        let m = merge_into(e, t.drop_last());
        assert(m.push(t.last()).take(e.len() as int) == m.take(e.len() as int));
    } else {
        assert(e.take(e.len() as int) == e);
    }
}

proof fn lemma_has_entry_prefix(a: Seq<ResourceView>, b: Seq<ResourceView>, r: ResourceView)
    requires
        a.len() <= b.len(),
        b.take(a.len() as int) == a,
        has_entry(a, r),
    ensures
        has_entry(b, r),
{
    let j = choose|j: int| 0 <= j < a.len() && same_entry(#[trigger] a[j], r);
    assert(b[j] == b.take(a.len() as int)[j]);
}

proof fn lemma_merge_covers(e: Seq<ResourceView>, t: Seq<ResourceView>)
    ensures
        forall|k: int| 0 <= k < t.len() ==> has_entry(merge_into(e, t), #[trigger] t[k]),
    decreases t.len(),
{
    if t.len() > 0 {
        let s = t.drop_last();
        lemma_merge_covers(e, s);
        let m = merge_into(e, s);
        let mm = merge_into(e, t);
        assert(mm.len() >= m.len() && mm.take(m.len() as int) == m) by {
            if !has_entry(m, t.last()) {
                assert(m.push(t.last()).take(m.len() as int) == m);
            } else {
                assert(m.take(m.len() as int) == m);
            }
        }
        assert forall|k: int| 0 <= k < t.len() implies has_entry(mm, #[trigger] t[k]) by {
            if k < t.len() - 1 {
                assert(s[k] == t[k]);
                assert(has_entry(m, s[k]));
                lemma_has_entry_prefix(m, mm, t[k]);
            } else {
                if !has_entry(m, t.last()) {
                    lemma_same_entry_reflexive(t.last());
                    assert(mm[m.len() as int] == t.last());
                }
            }
        }
    }
}

proof fn lemma_merge_nothing_new(m: Seq<ResourceView>, t: Seq<ResourceView>)
    requires
        forall|k: int| 0 <= k < t.len() ==> has_entry(m, #[trigger] t[k]),
    ensures
        merge_into(m, t) == m,
    decreases t.len(),
{
    if t.len() > 0 {
        let s = t.drop_last();
        assert forall|k: int| 0 <= k < s.len() implies has_entry(m, #[trigger] s[k]) by {
            assert(s[k] == t[k]);
        }
        lemma_merge_nothing_new(m, s);
        assert(has_entry(m, t[t.len() - 1]));
    }
}

/// Applying a template again to a draft that already received it adds
/// nothing: every resource of the template is found as a duplicate. The
/// draft may carry other ids than the merge produced (fresh ids are drawn),
/// as long as its kinds and targets are those of the merge.
pub proof fn reapplying_template_adds_nothing(
    existing: Seq<ResourceView>,
    template: Seq<ResourceView>,
    draft: Seq<ResourceView>,
)
    requires
        same_keys(draft, merge_into(existing, template)),
    ensures
        merge_into(draft, template) == draft,
{
    let m = merge_into(existing, template);
    lemma_merge_covers(existing, template);
    assert forall|k: int| 0 <= k < template.len() implies has_entry(draft, #[trigger] template[k]) by {
        lemma_same_keys_has_entry(draft, m, template[k]);
    }
    lemma_merge_nothing_new(draft, template);
}

/// Every resource of a template is in the draft after merging: either it was
/// there already (as the same entry) or it was appended.
pub proof fn merge_covers_template(existing: Seq<ResourceView>, template: Seq<ResourceView>)
    ensures
        forall|k: int|
            0 <= k < template.len() ==> has_entry(merge_into(existing, template), #[trigger] template[k]),
        merge_into(existing, template).take(existing.len() as int) == existing,
{
    lemma_merge_covers(existing, template);
    lemma_merge_extends(existing, template);
}

/// Whether `rs` holds a resource that counts as the same as `r`.
fn find_entry(rs: &Vec<Resource>, kind: ResourceType, target: &Vec<char>) -> (b: bool)
    ensures
        forall|r: ResourceView|
            r.kind == kind && trimmed(r.target) == target@ ==> b == has_entry(resources_view(rs@), r),
{
    let n = rs.len();
    let mut i: usize = 0;
    let ghost rv = resources_view(rs@);
    while i < n
        invariant
            n == rs@.len(),
            rv == resources_view(rs@),
            i <= n,
            forall|r: ResourceView, j: int|
                r.kind == kind && trimmed(r.target) == target@ && 0 <= j < i ==> !#[trigger] same_entry(
                    rv[j],
                    r,
                ),
        decreases n - i,
    {
        let e = &rs[i];
        if e.kind == kind {
            let et = trim(e.target.as_str());
            let ev = chars_of(et.as_str());
            if eq_ignore_ascii_case(&ev, target) {
                proof {
                    assert forall|r: ResourceView| r.kind == kind && trimmed(r.target) == target@ implies has_entry(rv, r) by {
                        assert(same_entry(rv[i as int], r));
                    }
                }
                return true;
            }
        }
        proof {
            assert forall|r: ResourceView, j: int|
                r.kind == kind && trimmed(r.target) == target@ && 0 <= j < i + 1 implies !#[trigger] same_entry(
                rv[j],
                r,
            ) by {
                if j == i {
                    assert(rv[j] == rs@[j]@);
                }
            }
        }
        i = i + 1;
    }
    false
}

/// The relation between a draft's resources after a merge and the merge's
/// value: the old resources unchanged, each appended one equal to its
/// template resource but for a fresh random id.
pub open spec fn merged_with_fresh_ids(
    old: Seq<ResourceView>,
    merged: Seq<ResourceView>,
    result: Seq<ResourceView>,
) -> bool {
    &&& result.len() == merged.len()
    &&& forall|i: int| 0 <= i < old.len() ==> #[trigger] result[i] == old[i]
    &&& forall|i: int|
        old.len() <= i < result.len() ==> same_except_id(#[trigger] result[i], merged[i])
            && is_uuid_v4_text(result[i].id)
}

/// Merges `incoming` into `draft`: each incoming resource is appended (as a
/// copy with a fresh random id) unless the draft built so far already holds
/// the same entry (same kind, trimmed targets equal up to ASCII case).
/// Returns how many were added and how many were skipped as duplicates.
pub fn merge_resources(draft: &mut Vec<Resource>, incoming: &Vec<Resource>) -> (r: (usize, usize))
    ensures
        merged_with_fresh_ids(
            resources_view(old(draft)@),
            merge_into(resources_view(old(draft)@), resources_view(incoming@)),
            resources_view(final(draft)@),
        ),
        r.0 == final(draft)@.len() - old(draft)@.len(),
        r.0 + r.1 == incoming@.len(),
{
    let ghost old_rs = resources_view(draft@);
    let ghost inc = resources_view(incoming@);
    let n = incoming.len();
    let mut added: usize = 0;
    let mut skipped: usize = 0;
    let mut k: usize = 0;
    while k < n
        invariant
            n == incoming@.len(),
            inc == resources_view(incoming@),
            k <= n,
            merged_with_fresh_ids(old_rs, merge_into(old_rs, inc.take(k as int)), resources_view(draft@)),
            same_keys(resources_view(draft@), merge_into(old_rs, inc.take(k as int))),
            draft@.len() == old_rs.len() + added,
            added + skipped == k,
        decreases n - k,
    {
        let ghost m = merge_into(old_rs, inc.take(k as int));
        let ghost cur = resources_view(draft@);
        proof {
            assert(inc.take(k + 1).drop_last() == inc.take(k as int));
            assert(inc.take(k + 1).last() == inc[k as int]);
            lemma_merge_extends(old_rs, inc.take(k as int));
        }
        let res = &incoming[k];
        let t = trim(res.target.as_str());
        let tv = chars_of(t.as_str());
        let dup = find_entry(draft, res.kind, &tv);
        proof {
            assert(inc[k as int].kind == res.kind && trimmed(inc[k as int].target) == tv@);
            lemma_same_keys_has_entry(cur, m, inc[k as int]);
        }
        if dup {
            skipped = skipped + 1;
        } else {
            let mut r = res.clone();
            r.id = new_uuid();
            draft.push(r);
            added = added + 1;
            proof {
                let nm = m.push(inc[k as int]);
                let nc = resources_view(draft@);
                assert(nc =~= cur.push(r@));
                assert forall|i: int| 0 <= i < nc.len() implies (#[trigger] nc[i]).kind == nm[i].kind && nc[i].target == nm[i].target by {
                    if i < cur.len() {
                        assert(nc[i] == cur[i]);
                    }
                }
                assert forall|i: int| 0 <= i < old_rs.len() implies #[trigger] nc[i] == old_rs[i] by {
                    assert(nc[i] == cur[i]);
                }
                assert forall|i: int| old_rs.len() <= i < nc.len() implies same_except_id(#[trigger] nc[i], nm[i])
                    && is_uuid_v4_text(nc[i].id) by {
                    if i < cur.len() {
                        assert(nc[i] == cur[i]);
                    }
                }
            }
        }
        k = k + 1;
    }
    assert(inc.take(n as int) == inc);
    (added, skipped)
}

/// The position of the first template named `name`, or -1.
pub open spec fn position_of_name(ts: Seq<TemplateView>, name: Seq<char>) -> int
    decreases ts.len(),
{
    if ts.len() == 0 {
        -1
    } else if ts[0].name == name {
        0
    } else {
        let p = position_of_name(ts.drop_first(), name);
        if p < 0 {
            -1
        } else {
            p + 1
        }
    }
}

/// The templates after saving `resources` under `name`: the first template of
/// that name gets the resources, or a new template (with id `fresh_id`) is
/// appended when there is none.
pub open spec fn upsert_template(
    ts: Seq<TemplateView>,
    name: Seq<char>,
    resources: Seq<ResourceView>,
    fresh_id: Seq<char>,
) -> Seq<TemplateView> {
    let k = position_of_name(ts, name);
    if k >= 0 {
        ts.update(k, TemplateView { id: ts[k].id, name: ts[k].name, resources })
    } else {
        ts.push(TemplateView { id: fresh_id, name, resources })
    }
}

proof fn lemma_position_of_name(ts: Seq<TemplateView>, name: Seq<char>)
    ensures
        -1 <= position_of_name(ts, name) < ts.len(),
        position_of_name(ts, name) >= 0 ==> ts[position_of_name(ts, name)].name == name,
        position_of_name(ts, name) >= 0 ==> forall|j: int|
            0 <= j < position_of_name(ts, name) ==> (#[trigger] ts[j]).name != name,
        position_of_name(ts, name) < 0 ==> forall|j: int| 0 <= j < ts.len() ==> (#[trigger] ts[j]).name != name,
    decreases ts.len(),
{
    if ts.len() > 0 && ts[0].name != name {
        let s = ts.drop_first();
        lemma_position_of_name(s, name);
        assert forall|j: int| 1 <= j < ts.len() implies (#[trigger] ts[j]).name == s[j - 1].name by {}
    }
}

/// No two templates share a name.
pub open spec fn names_distinct(ts: Seq<TemplateView>) -> bool {
    forall|i: int, j: int| 0 <= i < j < ts.len() ==> (#[trigger] ts[i]).name != (#[trigger] ts[j]).name
}

/// Saving a template keeps template names distinct: a name already in use
/// is overwritten, never added twice.
pub proof fn saving_template_keeps_names_distinct(
    ts: Seq<TemplateView>,
    name: Seq<char>,
    resources: Seq<ResourceView>,
    fresh_id: Seq<char>,
)
    requires
        names_distinct(ts),
    ensures
        names_distinct(upsert_template(ts, name, resources, fresh_id)),
        upsert_template(ts, name, resources, fresh_id).len() <= ts.len() + 1,
        exists|k: int|
            0 <= k < upsert_template(ts, name, resources, fresh_id).len() && #[trigger] upsert_template(
                ts,
                name,
                resources,
                fresh_id,
            )[k].name == name && upsert_template(ts, name, resources, fresh_id)[k].resources
                == resources,
{
    lemma_position_of_name(ts, name);
    let u = upsert_template(ts, name, resources, fresh_id);
    let k = position_of_name(ts, name);
    if k >= 0 {
        assert(u[k].name == name);
        assert forall|i: int, j: int| 0 <= i < j < u.len() implies (#[trigger] u[i]).name != (#[trigger] u[j]).name by {
            assert(u[i].name == ts[i].name);
            assert(u[j].name == ts[j].name);
        }
    } else {
        assert(u[ts.len() as int].name == name);
        assert forall|i: int, j: int| 0 <= i < j < u.len() implies (#[trigger] u[i]).name != (#[trigger] u[j]).name by {
            if j < ts.len() {
                assert(u[i] == ts[i] && u[j] == ts[j]);
            } else {
                assert(u[i] == ts[i]);
            }
        }
    }
}

/// Saves `resources` as a template named `name` (see [`upsert_template`]);
/// a new template gets a fresh random id.
pub fn upsert_template_into(templates: &mut Vec<Template>, name: String, resources: Vec<Resource>)
    ensures
        crate::model::templates_view(final(templates)@) == upsert_template(
            crate::model::templates_view(old(templates)@),
            name@,
            resources_view(resources@),
            crate::model::templates_view(final(templates)@).last().id,
        ),
        position_of_name(crate::model::templates_view(old(templates)@), name@) < 0
            ==> is_uuid_v4_text(crate::model::templates_view(final(templates)@).last().id),
{
    let ghost ts = crate::model::templates_view(templates@);
    let n = templates.len();
    let mut i: usize = 0;
    while i < n
        invariant
            n == templates@.len(),
            ts == crate::model::templates_view(templates@),
            ts == crate::model::templates_view(old(templates)@),
            i <= n,
            forall|j: int| 0 <= j < i ==> (#[trigger] ts[j]).name != name@,
        decreases n - i,
    {
        if templates[i].name == name {
            proof {
                assert(ts[i as int] == templates@[i as int]@);
                lemma_position_of_name(ts, name@);
                let p = position_of_name(ts, name@);
                if p < 0 || p > i {
                    assert(ts[i as int].name == name@);
                }
                if p >= 0 && p < i {
                    assert(ts[p].name != name@);
                }
            }
            let t = Template {
                id: templates[i].id.clone(),
                name: templates[i].name.clone(),
                resources,
            };
            templates.set(i, t);
            proof {
                assert(crate::model::templates_view(templates@) =~= upsert_template(
                    ts,
                    name@,
                    resources_view(templates@[i as int].resources@),
                    crate::model::templates_view(templates@).last().id,
                ));
            }
            return;
        }
        i = i + 1;
    }
    proof {
        lemma_position_of_name(ts, name@);
        let p = position_of_name(ts, name@);
        if p >= 0 {
            assert(ts[p].name != name@);
        }
    }
    let t = Template { id: new_uuid(), name, resources };
    templates.push(t);
    assert(crate::model::templates_view(templates@) =~= ts.push(templates@.last()@));
}

} // verus!
