use launchx::color::{hex_color, PROJECT_COLORS};
use launchx::model::{AppConfig, Project, Resource, ResourceType};

fn is_uuid_v4(s: &str) -> bool {
    let b: Vec<char> = s.chars().collect();
    if b.len() != 36 {
        return false;
    }
    for (i, c) in b.iter().enumerate() {
        if i == 8 || i == 13 || i == 18 || i == 23 {
            if *c != '-' {
                return false;
            }
        } else if !(c.is_ascii_digit() || ('a'..='f').contains(c)) {
            return false;
        }
    }
    b[14] == '4' && "89ab".contains(b[19])
}

fn res(kind: ResourceType, name: &str, target: &str) -> Resource {
    Resource {
        id: "r".to_string(),
        name: name.to_string(),
        kind,
        target: target.to_string(),
        open_with: None,
    }
}

#[test]
fn resource_type_texts() {
    assert_eq!(ResourceType::Url.label(), "URL");
    assert_eq!(ResourceType::File.label(), "File");
    assert_eq!(ResourceType::Folder.label(), "Folder");
    assert_eq!(ResourceType::Url.glyph(), "🌐");
    assert_eq!(ResourceType::File.glyph(), "📄");
    assert_eq!(ResourceType::Folder.glyph(), "📁");
    assert_eq!(ResourceType::Url.placeholder(), "https://github.com/me/repo");
    assert_eq!(ResourceType::File.placeholder(), "/home/me/docs/spec.pdf");
    assert_eq!(ResourceType::Folder.placeholder(), "/home/me/dev/project");
    assert_eq!(
        ResourceType::ALL,
        [ResourceType::Url, ResourceType::File, ResourceType::Folder]
    );
}

#[test]
fn new_resource_is_blank_with_fresh_id() {
    let a = Resource::new(ResourceType::Folder);
    let b = Resource::new(ResourceType::Folder);
    assert!(is_uuid_v4(&a.id));
    assert!(is_uuid_v4(&b.id));
    assert_ne!(a.id, b.id);
    assert_eq!(a.name, "");
    assert_eq!(a.target, "");
    assert_eq!(a.kind, ResourceType::Folder);
    assert!(a.open_with.is_none());
}

#[test]
fn new_project_is_blank() {
    let p = Project::new();
    assert!(is_uuid_v4(&p.id));
    assert_eq!(p.name, "");
    assert_eq!(p.color, PROJECT_COLORS[0]);
    assert!(p.resources.is_empty());
    assert!(is_rfc3339_utc(&p.created_at), "{}", p.created_at);
}

#[test]
fn counts_by_kind() {
    let mut p = Project::new();
    assert_eq!(p.counts(), (0, 0, 0));
    p.resources.push(res(ResourceType::Url, "a", "https://a"));
    p.resources.push(res(ResourceType::Folder, "b", "/b"));
    p.resources.push(res(ResourceType::Url, "c", "https://c"));
    p.resources.push(res(ResourceType::File, "d", "/d"));
    let (u, f, d) = p.counts();
    assert_eq!((u, f, d), (2, 1, 1));
    assert_eq!(u + f + d, p.resources.len());
}

#[test]
fn default_config_is_empty_version_one() {
    let c = AppConfig::default();
    assert_eq!(c.version, 1);
    assert!(c.projects.is_empty());
    assert!(c.templates.is_empty());
}

#[test]
fn clones_keep_every_field() {
    let mut p = Project::new();
    p.name = "Work".to_string();
    let mut r = res(ResourceType::Folder, "src", "/src");
    r.open_with = Some("code".to_string());
    p.resources.push(r);
    let q = p.clone();
    assert_eq!(q.id, p.id);
    assert_eq!(q.name, "Work");
    assert_eq!(q.created_at, p.created_at);
    assert_eq!(q.resources.len(), 1);
    assert_eq!(q.resources[0].open_with.as_deref(), Some("code"));
    assert_eq!(q.resources[0].target, "/src");
}

#[test]
fn palette_colors_parse() {
    let expected = [
        (0x63, 0x66, 0xf1),
        (0x0e, 0xa5, 0xe9),
        (0x10, 0xb9, 0x81),
        (0xf5, 0x9e, 0x0b),
        (0xef, 0x44, 0x44),
        (0xec, 0x48, 0x99),
        (0x8b, 0x5c, 0xf6),
        (0x14, 0xb8, 0xa6),
    ];
    for (c, e) in PROJECT_COLORS.iter().zip(expected.iter()) {
        assert_eq!(hex_color(c), *e);
    }
}

#[test]
fn hex_color_edge_cases() {
    let fallback = (0x63, 0x66, 0xf1);
    assert_eq!(hex_color("123456"), (0x12, 0x34, 0x56));
    assert_eq!(hex_color("##ABCDEF"), (0xab, 0xcd, 0xef));
    assert_eq!(hex_color("#aBcDeF"), (0xab, 0xcd, 0xef));
    // `u32::from_str_radix` accepts a leading plus sign.
    assert_eq!(hex_color("#+abcde"), (0x0a, 0xbc, 0xde));
    assert_eq!(hex_color("#-12345"), fallback);
    assert_eq!(hex_color("#12345"), fallback);
    assert_eq!(hex_color("#1234567"), fallback);
    assert_eq!(hex_color("#12345g"), fallback);
    assert_eq!(hex_color(""), fallback);
    assert_eq!(hex_color("#"), fallback);
    assert_eq!(hex_color(" #123456"), fallback);
    assert_eq!(hex_color("#ééé"), fallback);
}

/// The reading of color text as `u32::from_str_radix` does it.
fn std_hex_color(hex: &str) -> (u8, u8, u8) {
    let h = hex.trim_start_matches('#');
    if h.len() == 6 {
        if let Ok(v) = u32::from_str_radix(h, 16) {
            return ((v >> 16) as u8, (v >> 8) as u8, v as u8);
        }
    }
    (0x63, 0x66, 0xf1)
}

#[test]
fn hex_color_agrees_with_std_parsing() {
    let cases = [
        "#6366f1", "6366F1", "###0ea5e9", "#+abcde", "+12345", "#-12345", "#++1234", "#+", "#",
        "", "#12 345", "#ééé", "#é1234", "#ffffff", "#000000", "#00000g", "#FfFfFf", "#1234567",
        "#12345", "é123", "#\u{ff10}12345",
    ];
    for c in cases {
        assert_eq!(hex_color(c), std_hex_color(c), "{c:?}");
    }
}

/// `YYYY-MM-DDTHH:MM:SS[.fff|.ffffff|.fffffffff]+00:00`
fn is_rfc3339_utc(s: &str) -> bool {
    let c: Vec<char> = s.chars().collect();
    if c.len() < 25 || !s.ends_with("+00:00") {
        return false;
    }
    let digit = |i: usize| c[i].is_ascii_digit();
    let shape = (0..4).all(digit)
        && c[4] == '-' && digit(5) && digit(6) && c[7] == '-' && digit(8) && digit(9)
        && c[10] == 'T' && digit(11) && digit(12) && c[13] == ':' && digit(14) && digit(15)
        && c[16] == ':' && digit(17) && digit(18);
    let frac = &c[19..c.len() - 6];
    shape
        && (frac.is_empty()
            || ([4, 7, 10].contains(&frac.len())
                && frac[0] == '.'
                && frac[1..].iter().all(|d| d.is_ascii_digit())))
}

#[test]
fn color_text_reads_back_on_examples() {
    for rgb in [(0u8, 0u8, 0u8), (255, 255, 255), (0x12, 0xab, 0x09), (0x63, 0x66, 0xf1), (1, 2, 3)] {
        let text = format!("#{:02x}{:02x}{:02x}", rgb.0, rgb.1, rgb.2);
        assert_eq!(hex_color(&text), rgb, "{text}");
    }
    for (i, c) in PROJECT_COLORS.iter().enumerate() {
        let (r, g, b) = hex_color(c);
        assert_eq!(format!("#{r:02x}{g:02x}{b:02x}"), *c, "entry {i}");
    }
}

#[test]
fn counts_add_up_over_merged_projects() {
    let mut a = Project::new();
    a.resources.push(res(ResourceType::Url, "a", "https://a"));
    a.resources.push(res(ResourceType::File, "b", "/b"));
    let mut b = Project::new();
    b.resources.push(res(ResourceType::Folder, "c", "/c"));
    b.resources.push(res(ResourceType::Url, "d", "https://d"));
    let mut c = Project::new();
    for r in b.resources.iter().rev().chain(a.resources.iter()) {
        c.resources.push(r.clone());
    }
    let (ca, cb, cc) = (a.counts(), b.counts(), c.counts());
    assert_eq!(cc, (ca.0 + cb.0, ca.1 + cb.1, ca.2 + cb.2));
    assert_eq!(cc, (2, 1, 1));
}
