use vados::config_files::{MenuConfig, PageConfig, RawMenuItem, RawSocialItem};
use vados::errors::SiteError;
use vados::structure::{Item, MenuType, SocialItem, Structure};

fn page(title: &str, order: Option<u32>) -> PageConfig {
    PageConfig {
        title: String::from(title),
        sub_title: None,
        icon: None,
        summary: None,
        content: String::from("body.md"),
        order,
        left_notifications: None,
        right_notifications: None,
    }
}

fn item(path: &str, title: &str, order: Option<u32>) -> Item {
    Item::new(String::from(path), page(title, order))
}

fn small_site() -> Structure {
    let mut s = Structure::new();
    s.add_item(item("/", "Home", None)).unwrap();
    s.add_item(item("/a", "A", Some(1))).unwrap();
    s.add_item(item("/b", "B", Some(2))).unwrap();
    s.add_item(item("/a/b", "AB", None)).unwrap();
    s.add_item(item("/a/c", "AC", None)).unwrap();
    s.add_item(item("/a/b/c", "ABC", None)).unwrap();
    s.add_item(item("/a/b/d", "ABD", None)).unwrap();
    s.add_item(item("/a/b/c/d", "ABCD", None)).unwrap();
    s.add_item(item("/a/b/c/e", "ABCE", None)).unwrap();
    s.sort();
    s
}

#[test]
fn items_are_found_by_path() {
    let s = small_site();
    assert_eq!(s.get_item("/a/b").unwrap().title, "AB");
    match s.get_item("/missing") {
        Err(SiteError::UnknownPath(p)) => assert_eq!(p, "/missing"),
        _ => panic!("expected an unknown-path error"),
    }
}

#[test]
fn duplicate_paths_are_rejected() {
    let mut s = Structure::new();
    s.add_item(item("/a", "A", None)).unwrap();
    match s.add_item(item("/a", "A again", None)) {
        Err(SiteError::DuplicateItem(p)) => assert_eq!(p, "/a"),
        _ => panic!("expected a duplicate-item error"),
    }
}

#[test]
fn breadcrumbs_walk_root_first() {
    let s = small_site();
    let crumbs = s.get_breadcrumbs("/a/b/c").unwrap().unwrap();
    let urls: Vec<&str> = crumbs.iter().map(|c| c.url.as_str()).collect();
    assert_eq!(urls, vec!["/", "/a", "/a/b"]);
    let titles: Vec<&str> = crumbs.iter().map(|c| c.title.as_str()).collect();
    assert_eq!(titles, vec!["Home", "A", "AB"]);
}

#[test]
fn shallow_paths_have_no_breadcrumbs() {
    let s = small_site();
    assert!(s.get_breadcrumbs("/").unwrap().is_none());
    assert!(s.get_breadcrumbs("/a").unwrap().is_none());
    assert!(s.get_breadcrumbs("/a/b").unwrap().is_some());
}

#[test]
fn side_menu_depth_rules() {
    let s = small_site();
    // depth <= 2: no side menu
    assert!(s.get_side_menu_items("/a").unwrap().is_none());
    assert!(s.get_side_menu_items("/a/b").unwrap().is_none());
    // depth 3 with children: the node with its children attached
    let m = s.get_side_menu_items("/a/b/c").unwrap().unwrap();
    assert_eq!(m.url, "/a/b/c");
    let children = m.children.unwrap();
    let urls: Vec<&str> = children.iter().map(|c| c.url.as_str()).collect();
    assert_eq!(urls, vec!["/a/b/c/d", "/a/b/c/e"]);
    // depth 4 without children: fall back to the parent with the sibling group
    let m = s.get_side_menu_items("/a/b/c/d").unwrap().unwrap();
    assert_eq!(m.url, "/a/b/c");
    let siblings = m.children.unwrap();
    let urls: Vec<&str> = siblings.iter().map(|c| c.url.as_str()).collect();
    assert_eq!(urls, vec!["/a/b/c/d", "/a/b/c/e"]);
}

#[test]
fn side_menu_depth_three_without_children_is_none() {
    let mut s = Structure::new();
    s.add_item(item("/x", "X", None)).unwrap();
    s.add_item(item("/x/y", "XY", None)).unwrap();
    s.add_item(item("/x/y/z", "XYZ", None)).unwrap();
    s.sort();
    // depth("/x/y/z") is 3 and it has no children: none, not an empty node
    assert!(s.get_side_menu_items("/x/y/z").unwrap().is_none());
}

#[test]
fn main_menu_preserves_configuration_order() {
    let s = small_site();
    let config = MenuConfig {
        main_menu: vec![
            RawMenuItem { url: String::from("/b"), title: None, icon: None },
            RawMenuItem {
                url: String::from("https://example.org/"),
                title: Some(String::from("Elsewhere")),
                icon: None,
            },
            RawMenuItem { url: String::from("/a"), title: Some(String::from("First")), icon: None },
        ],
        socials: vec![],
    };
    let menu = s.get_main_menu_items(&config).unwrap();
    assert_eq!(menu.len(), 3);
    assert_eq!(menu[0].url, "/b");
    assert_eq!(menu[0].menu_type, MenuType::Internal);
    assert_eq!(menu[0].title, "B");
    assert_eq!(menu[1].url, "https://example.org/");
    assert_eq!(menu[1].menu_type, MenuType::External);
    assert_eq!(menu[1].title, "Elsewhere");
    assert_eq!(menu[2].title, "First");
    // /a has children attached, one level only
    let kids = menu[2].children.as_ref().unwrap();
    let urls: Vec<&str> = kids.iter().map(|c| c.url.as_str()).collect();
    assert_eq!(urls, vec!["/a/b", "/a/c"]);
    assert!(kids[0].children.is_none());
}

#[test]
fn external_menu_entry_needs_a_title() {
    let s = small_site();
    let config = MenuConfig {
        main_menu: vec![
            RawMenuItem { url: String::from("https://example.org/"), title: None, icon: None },
        ],
        socials: vec![],
    };
    match s.get_main_menu_items(&config) {
        Err(SiteError::MissingExternalTitle(u)) => assert_eq!(u, "https://example.org/"),
        _ => panic!("expected a missing-title error"),
    }
}

#[test]
fn unknown_menu_path_is_fatal() {
    let s = small_site();
    let config = MenuConfig {
        main_menu: vec![RawMenuItem { url: String::from("/nope"), title: None, icon: None }],
        socials: vec![],
    };
    match s.get_main_menu_items(&config) {
        Err(SiteError::UnknownPath(u)) => assert_eq!(u, "/nope"),
        _ => panic!("expected an unknown-path error"),
    }
}

#[test]
fn notifications_inherit_from_the_nearest_ancestor() {
    let mut s = Structure::new();
    s.add_item(item("/", "Home", None)).unwrap();
    s.add_item(item("/a", "A", None)).unwrap();
    s.add_item(item("/a/b", "AB", None)).unwrap();
    s.add_item(item("/a/b/c", "ABC", None)).unwrap();
    s.add_left_sub_notifications("/a", vec![String::from("left note")]);
    s.sort();
    // no own list, the ancestor two levels up answers verbatim
    assert_eq!(s.get_left_sub_notifications("/a/b/c"), vec![String::from("left note")]);
    // a path with its own list answers it
    assert_eq!(s.get_left_sub_notifications("/a"), vec![String::from("left note")]);
    // no ancestor has a right list: empty
    assert_eq!(s.get_right_sub_notifications("/a/b/c"), Vec::<String>::new());
}

#[test]
fn left_and_right_caches_are_independent() {
    let mut s = Structure::new();
    s.add_item(item("/", "Home", None)).unwrap();
    s.add_item(item("/a", "A", None)).unwrap();
    s.add_left_sub_notifications("/", vec![String::from("L")]);
    s.add_right_sub_notifications("/a", vec![String::from("R")]);
    s.sort();
    assert_eq!(s.get_left_sub_notifications("/a"), vec![String::from("L")]);
    assert_eq!(s.get_right_sub_notifications("/a"), vec![String::from("R")]);
    assert_eq!(s.get_right_sub_notifications("/"), Vec::<String>::new());
}

#[test]
fn sorting_orders_explicit_before_unordered() {
    let mut s = Structure::new();
    s.add_item(item("/", "Home", None)).unwrap();
    s.add_item(item("/zeta", "Zeta", None)).unwrap();
    s.add_item(item("/alpha", "Alpha", None)).unwrap();
    s.add_item(item("/last", "Last", Some(30))).unwrap();
    s.add_item(item("/first", "First", Some(10))).unwrap();
    s.add_item(item("/mid", "Mid", Some(20))).unwrap();
    s.sort();
    let menu = s
        .get_main_menu_items(
            &MenuConfig {
                main_menu: vec![RawMenuItem { url: String::from("/"), title: None, icon: None }],
                socials: vec![],
            },
        )
        .unwrap();
    let kids = menu[0].children.as_ref().unwrap();
    let titles: Vec<&str> = kids.iter().map(|c| c.title.as_str()).collect();
    // explicit orders ascend strictly; unordered items come after them,
    // alphabetically by title
    assert_eq!(titles, vec!["First", "Mid", "Last", "Alpha", "Zeta"]);
}

#[test]
fn side_notifications_take_the_last_three_siblings() {
    let mut s = Structure::new();
    s.add_item(item("/", "Home", None)).unwrap();
    s.add_item(item("/p1", "P1", Some(1))).unwrap();
    s.add_item(item("/p2", "P2", Some(2))).unwrap();
    s.add_item(item("/p3", "P3", Some(3))).unwrap();
    s.add_item(item("/p4", "P4", Some(4))).unwrap();
    s.add_item(item("/p5", "P5", Some(5))).unwrap();
    s.sort();
    // /p5 has no children: its parent's bucket is the sibling group
    // [p1..p5]; of the last four, p5 itself is dropped and the last three
    // kept, in bucket order
    let sel = s.get_side_notifications("/p5").unwrap();
    let paths: Vec<&str> = sel.iter().map(|i| i.path.as_str()).collect();
    assert_eq!(paths, vec!["/p2", "/p3", "/p4"]);
    // /p1: not among the last four at all, so the last three stand
    let sel = s.get_side_notifications("/p1").unwrap();
    let paths: Vec<&str> = sel.iter().map(|i| i.path.as_str()).collect();
    assert_eq!(paths, vec!["/p3", "/p4", "/p5"]);
}

#[test]
fn socials_classify_by_prefix() {
    let raw = RawSocialItem { url: String::from("https://github.com/someone"), icon: None, color: None };
    match SocialItem::new(&raw).unwrap() {
        SocialItem::Github(u) => assert_eq!(u, "https://github.com/someone"),
        _ => panic!("expected a github link"),
    }
    let s = SocialItem::new(
        &RawSocialItem { url: String::from("https://www.youtube.com/c"), icon: None, color: None },
    )
    .unwrap();
    assert_eq!(s.get_icon(), "youtube");
    assert_eq!(s.get_color(), "c4302b");
    assert_eq!(s.get_url(), "https://www.youtube.com/c");
}

#[test]
fn unknown_socials_need_icon_and_color() {
    let no_icon = RawSocialItem { url: String::from("https://example.org/u"), icon: None, color: None };
    match SocialItem::new(&no_icon) {
        Err(SiteError::MissingSocialIcon(u)) => assert_eq!(u, "https://example.org/u"),
        _ => panic!("expected a missing-icon error"),
    }
    let no_color = RawSocialItem {
        url: String::from("https://example.org/u"),
        icon: Some(String::from("globe")),
        color: None,
    };
    match SocialItem::new(&no_color) {
        Err(SiteError::MissingSocialColor(u)) => assert_eq!(u, "https://example.org/u"),
        _ => panic!("expected a missing-color error"),
    }
    let full = RawSocialItem {
        url: String::from("https://example.org/u"),
        icon: Some(String::from("globe")),
        color: Some(String::from("123456")),
    };
    match SocialItem::new(&full).unwrap() {
        SocialItem::Other(u, i, c) => {
            assert_eq!(u, "https://example.org/u");
            assert_eq!(i, "globe");
            assert_eq!(c, "123456");
        },
        _ => panic!("expected a generic link"),
    }
}
