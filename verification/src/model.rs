//! The data model: resources, projects, templates and the whole configuration,
//! each with a view over plain mathematical values.
use vstd::prelude::*;
use crate::text::string_of;

verus! {

/// What a resource points at.
#[derive(Debug, Clone, Copy, PartialEq, Eq, Structural)]
pub enum ResourceType {
    Url,
    File,
    Folder,
}

/// The value of an optional string.
pub open spec fn opt_view(o: Option<String>) -> Option<Seq<char>> {
    match o {
        Some(s) => Some(s@),
        None => None,
    }
}

/// The plain value of a [`Resource`].
pub struct ResourceView {
    pub id: Seq<char>,
    pub name: Seq<char>,
    pub kind: ResourceType,
    pub target: Seq<char>,
    pub open_with: Option<Seq<char>>,
}

/// The plain value of a [`Project`].
pub struct ProjectView {
    pub id: Seq<char>,
    pub name: Seq<char>,
    pub color: Seq<char>,
    pub created_at: Seq<char>,
    pub resources: Seq<ResourceView>,
}

/// The plain value of a [`Template`].
pub struct TemplateView {
    pub id: Seq<char>,
    pub name: Seq<char>,
    pub resources: Seq<ResourceView>,
}

/// The plain value of an [`AppConfig`].
pub struct AppConfigView {
    pub version: u32,
    pub projects: Seq<ProjectView>,
    pub templates: Seq<TemplateView>,
}

/// A URL, file or folder to open.
#[derive(Debug)]
pub struct Resource {
    pub id: String,
    pub name: String,
    pub kind: ResourceType,
    pub target: String,
    /// Optional app to open with, e.g. "code" for VS Code (folders).
    pub open_with: Option<String>,
}

/// A named set of resources that open together.
#[derive(Debug)]
pub struct Project {
    pub id: String,
    pub name: String,
    /// Hex color such as "#6366f1".
    pub color: String,
    pub created_at: String,
    pub resources: Vec<Resource>,
}

/// A reusable set of resources that can be merged into any project.
#[derive(Debug)]
pub struct Template {
    pub id: String,
    pub name: String,
    pub resources: Vec<Resource>,
}

/// Everything the launcher stores.
#[derive(Debug)]
pub struct AppConfig {
    pub version: u32,
    pub projects: Vec<Project>,
    pub templates: Vec<Template>,
}

impl View for Resource {
    type V = ResourceView;

    open spec fn view(&self) -> ResourceView {
        ResourceView {
            id: self.id@,
            name: self.name@,
            kind: self.kind,
            target: self.target@,
            open_with: opt_view(self.open_with),
        }
    }
}

/// The values of a sequence of resources.
pub open spec fn resources_view(rs: Seq<Resource>) -> Seq<ResourceView> {
    rs.map_values(|r: Resource| r@)
}

impl View for Project {
    type V = ProjectView;

    open spec fn view(&self) -> ProjectView {
        ProjectView {
            id: self.id@,
            name: self.name@,
            color: self.color@,
            created_at: self.created_at@,
            resources: resources_view(self.resources@),
        }
    }
}

impl View for Template {
    type V = TemplateView;

    open spec fn view(&self) -> TemplateView {
        TemplateView { id: self.id@, name: self.name@, resources: resources_view(self.resources@) }
    }
}

/// The values of a sequence of projects.
pub open spec fn projects_view(ps: Seq<Project>) -> Seq<ProjectView> {
    ps.map_values(|p: Project| p@)
}

/// The values of a sequence of templates.
pub open spec fn templates_view(ts: Seq<Template>) -> Seq<TemplateView> {
    ts.map_values(|t: Template| t@)
}

impl View for AppConfig {
    type V = AppConfigView;

    open spec fn view(&self) -> AppConfigView {
        AppConfigView {
            version: self.version,
            projects: projects_view(self.projects@),
            templates: templates_view(self.templates@),
        }
    }
}

/// A copy of an optional string.
pub fn clone_opt_string(o: &Option<String>) -> (r: Option<String>)
    ensures
        opt_view(r) == opt_view(*o),
{
    match o {
        Some(s) => Some(s.clone()),
        None => None,
    }
}

impl Clone for Resource {
    fn clone(&self) -> (r: Self)
        ensures
            r@ == self@,
    {
        Resource {
            id: self.id.clone(),
            name: self.name.clone(),
            kind: self.kind,
            target: self.target.clone(),
            open_with: clone_opt_string(&self.open_with),
        }
    }
}

/// A copy of a list of resources.
pub fn clone_resources(rs: &Vec<Resource>) -> (r: Vec<Resource>)
    ensures
        resources_view(r@) == resources_view(rs@),
{
    let mut out: Vec<Resource> = Vec::new();
    let n = rs.len();
    let mut i: usize = 0;
    while i < n
        invariant
            n == rs@.len(),
            i <= n,
            out@.len() == i,
            forall|j: int| 0 <= j < i ==> (#[trigger] out@[j])@ == rs@[j]@,
        decreases n - i,
    {
        let c = rs[i].clone();
        out.push(c);
        i = i + 1;
    }
    assert(resources_view(out@) =~= resources_view(rs@));
    out
}

impl Clone for Project {
    fn clone(&self) -> (r: Self)
        ensures
            r@ == self@,
    {
        Project {
            id: self.id.clone(),
            name: self.name.clone(),
            color: self.color.clone(),
            created_at: self.created_at.clone(),
            resources: clone_resources(&self.resources),
        }
    }
}

impl Clone for Template {
    fn clone(&self) -> (r: Self)
        ensures
            r@ == self@,
    {
        Template {
            id: self.id.clone(),
            name: self.name.clone(),
            resources: clone_resources(&self.resources),
        }
    }
}

/// The text of a lower-case hexadecimal digit.
pub open spec fn is_lower_hex_digit(c: char) -> bool {
    ('0' <= c && c <= '9') || ('a' <= c && c <= 'f')
}

/// The hyphenated lower-case text of a random (version 4) UUID,
/// such as `67e55044-10b1-426f-9247-bb680e5fe0c8`.
pub open spec fn is_uuid_v4_text(s: Seq<char>) -> bool {
    &&& s.len() == 36
    &&& forall|i: int|
        0 <= i < 36 ==> if i == 8 || i == 13 || i == 18 || i == 23 {
            #[trigger] s[i] == '-'
        } else {
            is_lower_hex_digit(s[i])
        }
    &&& s[14] == '4'
    &&& (s[19] == '8' || s[19] == '9' || s[19] == 'a' || s[19] == 'b')
}

/// Calls `uuid::Uuid::new_v4` and formats it with `to_string`.
/// Claimed: the text is a hyphenated lower-case version 4 UUID
/// (version nibble 4, variant bits 10). Which UUID comes out is random
/// and is left unsaid. `new_v4` panics when the system's random source
/// fails, which no argument can exclude.
#[verifier::external_body]
pub(crate) fn new_uuid() -> (id: String)
    ensures
        is_uuid_v4_text(id@),
{
    uuid::Uuid::new_v4().to_string()
}

/// An ASCII decimal digit.
pub open spec fn is_ascii_digit(c: char) -> bool {
    '0' <= c && c <= '9'
}

/// Nothing but ASCII decimal digits.
pub open spec fn all_ascii_digits(s: Seq<char>) -> bool {
    forall|i: int| 0 <= i < s.len() ==> is_ascii_digit(#[trigger] s[i])
}

/// The year of an RFC 3339 time: four digits, or (past year 9999) `+`
/// followed by at least four digits.
pub open spec fn is_year_text(y: Seq<char>) -> bool {
    ||| y.len() == 4 && all_ascii_digits(y)
    ||| y.len() >= 5 && y[0] == '+' && all_ascii_digits(y.drop_first())
}

/// The part `-MM-DDTHH:MM:SS` that follows the year.
pub open spec fn is_date_time_text(t: Seq<char>) -> bool {
    &&& t.len() == 15
    &&& t[0] == '-' && is_ascii_digit(t[1]) && is_ascii_digit(t[2])
    &&& t[3] == '-' && is_ascii_digit(t[4]) && is_ascii_digit(t[5])
    &&& t[6] == 'T' && is_ascii_digit(t[7]) && is_ascii_digit(t[8])
    &&& t[9] == ':' && is_ascii_digit(t[10]) && is_ascii_digit(t[11])
    &&& t[12] == ':' && is_ascii_digit(t[13]) && is_ascii_digit(t[14])
}

/// The fraction of a second: absent, or `.` followed by 3, 6 or 9 digits.
pub open spec fn is_fraction_text(f: Seq<char>) -> bool {
    ||| f.len() == 0
    ||| (f.len() == 4 || f.len() == 7 || f.len() == 10) && f[0] == '.' && all_ascii_digits(
        f.drop_first(),
    )
}

/// `s` read as a year of `yl` characters, the date and time, a fraction of
/// `fl` characters and the offset `+00:00`.
pub open spec fn rfc3339_utc_parts(s: Seq<char>, yl: int, fl: int) -> bool {
    &&& 0 <= yl && 0 <= fl
    &&& s.len() == yl + 15 + fl + 6
    &&& is_year_text(s.subrange(0, yl))
    &&& is_date_time_text(s.subrange(yl, yl + 15))
    &&& is_fraction_text(s.subrange(yl + 15, yl + 15 + fl))
    &&& s.subrange(yl + 15 + fl, s.len() as int) == "+00:00"@
}

/// The RFC 3339 text of a time in UTC, as `DateTime::<Utc>::to_rfc3339` writes
/// it: `YYYY-MM-DDTHH:MM:SS[.fff|.ffffff|.fffffffff]+00:00`.
pub open spec fn is_utc_rfc3339_text(s: Seq<char>) -> bool {
    exists|yl: int, fl: int| #[trigger] rfc3339_utc_parts(s, yl, fl)
}

/// Calls `chrono::Utc::now` and formats it with `to_rfc3339`.
/// Claimed: the text has the RFC 3339 shape above, with offset `+00:00`
/// (chrono writes the year with four digits, or with a `+` past 9999, and a
/// fraction of 3, 6 or 9 digits only when the nanoseconds call for it).
/// Which time it names depends on the clock and is left unsaid. `Utc::now`
/// panics when the system clock reads before 1970, which no argument can
/// exclude.
#[verifier::external_body]
pub(crate) fn now_rfc3339() -> (s: String)
    ensures
        is_utc_rfc3339_text(s@),
{
    chrono::Utc::now().to_rfc3339()
}

impl ResourceType {
    /// The three kinds, in the order the editor offers them.
    pub const ALL: [ResourceType; 3] = [ResourceType::Url, ResourceType::File, ResourceType::Folder];

    /// The label text of a kind.
    pub open spec fn label_text(self) -> Seq<char> {
        match self {
            ResourceType::Url => "URL"@,
            ResourceType::File => "File"@,
            ResourceType::Folder => "Folder"@,
        }
    }

    /// The glyph of a kind.
    pub open spec fn glyph_text(self) -> Seq<char> {
        match self {
            ResourceType::Url => "🌐"@,
            ResourceType::File => "📄"@,
            ResourceType::Folder => "📁"@,
        }
    }

    /// The example target shown in an empty target field.
    pub open spec fn placeholder_text(self) -> Seq<char> {
        match self {
            ResourceType::Url => "https://github.com/me/repo"@,
            ResourceType::File => "/home/me/docs/spec.pdf"@,
            ResourceType::Folder => "/home/me/dev/project"@,
        }
    }

    pub fn label(&self) -> (s: &'static str)
        ensures
            s@ == self.label_text(),
    {
        match self {
            ResourceType::Url => "URL",
            ResourceType::File => "File",
            ResourceType::Folder => "Folder",
        }
    }

    pub fn glyph(&self) -> (s: &'static str)
        ensures
            s@ == self.glyph_text(),
    {
        match self {
            ResourceType::Url => "🌐",
            ResourceType::File => "📄",
            ResourceType::Folder => "📁",
        }
    }

    pub fn placeholder(&self) -> (s: &'static str)
        ensures
            s@ == self.placeholder_text(),
    {
        match self {
            ResourceType::Url => "https://github.com/me/repo",
            ResourceType::File => "/home/me/docs/spec.pdf",
            ResourceType::Folder => "/home/me/dev/project",
        }
    }
}

impl Resource {
    /// A blank resource of the given kind with a fresh random id.
    pub fn new(kind: ResourceType) -> (r: Self)
        ensures
            is_uuid_v4_text(r@.id),
            r@.name.len() == 0,
            r@.kind == kind,
            r@.target.len() == 0,
            r@.open_with is None,
    {
        Resource {
            id: new_uuid(),
            name: String::new(),
            kind,
            target: String::new(),
            open_with: None,
        }
    }
}

/// The number of resources of kind `k` in `rs`.
pub open spec fn count_kind(rs: Seq<ResourceView>, k: ResourceType) -> nat
    decreases rs.len(),
{
    if rs.len() == 0 {
        0
    } else {
        count_kind(rs.drop_last(), k) + if rs.last().kind == k {
            1nat
        } else {
            0nat
        }
    }
}

/// The first color a new project gets.
pub open spec fn default_project_color() -> Seq<char> {
    "#6366f1"@
}

impl Project {
    /// A blank project with a fresh random id, the first palette color and
    /// the current time as its creation time.
    pub fn new() -> (p: Self)
        ensures
            is_uuid_v4_text(p@.id),
            p@.name.len() == 0,
            p@.color == default_project_color(),
            is_utc_rfc3339_text(p@.created_at),
            p@.resources.len() == 0,
    {
        let p = Project {
            id: new_uuid(),
            name: String::new(),
            color: string_of("#6366f1"),
            created_at: now_rfc3339(),
            resources: Vec::new(),
        };
        assert(p@.resources =~= Seq::<ResourceView>::empty());
        p
    }

    /// How many URLs, files and folders the project holds.
    pub fn counts(&self) -> (c: (usize, usize, usize))
        ensures
            c.0 == count_kind(self@.resources, ResourceType::Url),
            c.1 == count_kind(self@.resources, ResourceType::File),
            c.2 == count_kind(self@.resources, ResourceType::Folder),
    {
        let n = self.resources.len();
        let mut c: (usize, usize, usize) = (0, 0, 0);
        let mut i: usize = 0;
        while i < n
            invariant
                n == self.resources@.len(),
                i <= n,
                c.0 == count_kind(resources_view(self.resources@).take(i as int), ResourceType::Url),
                c.1 == count_kind(resources_view(self.resources@).take(i as int), ResourceType::File),
                c.2 == count_kind(
                    resources_view(self.resources@).take(i as int),
                    ResourceType::Folder,
                ),
            decreases n - i,
        {
            let ghost rs = resources_view(self.resources@);
            proof {
                assert(rs.take(i + 1).drop_last() == rs.take(i as int));
                lemma_count_kind_le(rs.take(i as int), ResourceType::Url);
                lemma_count_kind_le(rs.take(i as int), ResourceType::File);
                lemma_count_kind_le(rs.take(i as int), ResourceType::Folder);
            }
            match self.resources[i].kind {
                ResourceType::Url => c.0 = c.0 + 1,
                ResourceType::File => c.1 = c.1 + 1,
                ResourceType::Folder => c.2 = c.2 + 1,
            }
            i = i + 1;
        }
        assert(resources_view(self.resources@).take(n as int) == resources_view(self.resources@));
        c
    }
}

/// No kind is counted more often than there are resources.
proof fn lemma_count_kind_le(rs: Seq<ResourceView>, k: ResourceType)
    ensures
        count_kind(rs, k) <= rs.len(),
    decreases rs.len(),
{
    if rs.len() > 0 {
        lemma_count_kind_le(rs.drop_last(), k);
    }
}

/// Every resource is counted exactly once: the URL, file and folder counts
/// add up to the number of resources.
pub proof fn counts_cover_all_resources(rs: Seq<ResourceView>)
    ensures
        count_kind(rs, ResourceType::Url) + count_kind(rs, ResourceType::File) + count_kind(
            rs,
            ResourceType::Folder,
        ) == rs.len(),
    decreases rs.len(),
{
    if rs.len() > 0 {
        counts_cover_all_resources(rs.drop_last());
    }
}

/// The count of a kind over two lists put together is the sum of the counts.
pub proof fn counts_add_over_concatenation(a: Seq<ResourceView>, b: Seq<ResourceView>, k: ResourceType)
    ensures
        count_kind(a + b, k) == count_kind(a, k) + count_kind(b, k),
    decreases b.len(),
{
    if b.len() == 0 {
        assert(a + b == a);
    } else {
        counts_add_over_concatenation(a, b.drop_last(), k);
        assert((a + b).drop_last() == a + b.drop_last());
        assert((a + b).last() == b.last());
    }
}

proof fn lemma_count_kind_remove(s: Seq<ResourceView>, i: int, k: ResourceType)
    requires
        0 <= i < s.len(),
    ensures
        count_kind(s, k) == count_kind(s.remove(i), k) + if s[i].kind == k {
            1nat
        } else {
            0nat
        },
{
    let pre = s.subrange(0, i);
    let post = s.subrange(i + 1, s.len() as int);
    assert(s == pre + seq![s[i]] + post);
    assert(s.remove(i) == pre + post);
    counts_add_over_concatenation(pre + seq![s[i]], post, k);
    counts_add_over_concatenation(pre, seq![s[i]], k);
    counts_add_over_concatenation(pre, post, k);
    let one = seq![s[i]];
    assert(one.drop_last() =~= Seq::<ResourceView>::empty());
    assert(one.last() == s[i]);
    assert(count_kind(Seq::<ResourceView>::empty(), k) == 0);
    assert(count_kind(one, k) == if s[i].kind == k {
        1nat
    } else {
        0nat
    });
}

/// Reordering resources does not change the counts: lists holding the same
/// resources, each as often, have the same count of every kind.
pub proof fn counts_ignore_order(a: Seq<ResourceView>, b: Seq<ResourceView>, k: ResourceType)
    requires
        a.to_multiset() == b.to_multiset(),
    ensures
        count_kind(a, k) == count_kind(b, k),
    decreases a.len(),
{
    broadcast use vstd::seq_lib::group_to_multiset_ensures, vstd::multiset::group_multiset_axioms;

    if a.len() == 0 {
        assert(b.to_multiset().len() == 0);
    } else {
        let x = a.last();
        let a1 = a.drop_last();
        assert(a == a1.push(x));
        assert(a.to_multiset() == a1.to_multiset().insert(x));
        assert(b.to_multiset().count(x) > 0);
        assert(b.contains(x));
        let j = choose|j: int| 0 <= j < b.len() && b[j] == x;
        let b1 = b.remove(j);
        assert(b1.to_multiset() == b.to_multiset().remove(x));
        assert(a1.to_multiset() =~= a1.to_multiset().insert(x).remove(x));
        counts_ignore_order(a1, b1, k);
        lemma_count_kind_remove(b, j, k);
    }
}

/// A project whose resources are those of two projects, in any order, has
/// as many URLs, files and folders as the two together.
pub proof fn counts_add_up_over_merged_lists(
    a: Seq<ResourceView>,
    b: Seq<ResourceView>,
    c: Seq<ResourceView>,
)
    requires
        c.to_multiset() == (a + b).to_multiset(),
    ensures
        forall|k: ResourceType| #[trigger] count_kind(c, k) == count_kind(a, k) + count_kind(b, k),
{
    assert forall|k: ResourceType| #[trigger] count_kind(c, k) == count_kind(a, k) + count_kind(b, k) by {
        counts_ignore_order(c, a + b, k);
        counts_add_over_concatenation(a, b, k);
    }
}

impl Default for AppConfig {
    /// An empty configuration of format version 1.
    fn default() -> (c: Self)
        ensures
            c@.version == 1,
            c@.projects.len() == 0,
            c@.templates.len() == 0,
    {
        let c = AppConfig { version: 1, projects: Vec::new(), templates: Vec::new() };
        assert(c@.projects =~= Seq::<ProjectView>::empty());
        assert(c@.templates =~= Seq::<TemplateView>::empty());
        c
    }
}

} // verus!
