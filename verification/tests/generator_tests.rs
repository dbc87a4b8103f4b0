use vados::config_files::{MenuConfig, PageConfig, RawMenuItem, RawSocialItem};
use vados::errors::SiteError;
use vados::generator::{generate, PageEntry};
use vados::structure::{Item, SocialItem};

fn entry(path: &str, title: &str, order: Option<u32>) -> PageEntry {
    PageEntry {
        item: Item::new(
            String::from(path),
            PageConfig {
                title: String::from(title),
                sub_title: None,
                icon: None,
                summary: None,
                content: String::from("body.md"),
                order,
                left_notifications: None,
                right_notifications: None,
            },
        ),
        left_notifications: None,
        right_notifications: None,
    }
}

fn menu_config() -> MenuConfig {
    MenuConfig {
        main_menu: vec![
            RawMenuItem { url: String::from("/projects"), title: None, icon: None },
            RawMenuItem {
                url: String::from("https://example.org/"),
                title: Some(String::from("Elsewhere")),
                icon: None,
            },
        ],
        socials: vec![
            RawSocialItem { url: String::from("https://github.com/someone"), icon: None, color: None },
        ],
    }
}

#[test]
fn a_small_site_generates_every_view() {
    let mut left = entry("/projects", "Projects", Some(1));
    left.left_notifications = Some(vec![String::from("note")]);
    let entries = vec![
        entry("/", "Home", None),
        left,
        entry("/projects/alpha", "Alpha", None),
        entry("/projects/beta", "Beta", None),
        entry("/projects/alpha/deep", "Deep", None),
    ];
    let out = generate(entries, &menu_config()).unwrap();

    assert_eq!(out.pages.len(), 5);
    assert_eq!(out.main_menu.len(), 2);
    assert_eq!(out.main_menu[0].title, "Projects");
    assert_eq!(out.main_menu[1].title, "Elsewhere");
    assert_eq!(out.socials.len(), 1);
    assert!(matches!(out.socials[0], SocialItem::Github(_)));

    // pages come in entry order
    assert_eq!(out.pages[0].path, "/");
    assert_eq!(out.pages[2].path, "/projects/alpha");

    // the deep page's breadcrumbs walk root first
    let crumbs = out.pages[4].breadcrumbs.as_ref().unwrap();
    let urls: Vec<&str> = crumbs.iter().map(|c| c.url.as_str()).collect();
    assert_eq!(urls, vec!["/", "/projects", "/projects/alpha"]);

    // notifications inherit down the tree from /projects
    assert_eq!(out.pages[4].left_notifications, vec![String::from("note")]);
    assert_eq!(out.pages[0].left_notifications, Vec::<String>::new());

    // the sibling selection of /projects/beta excludes itself
    let sel: Vec<&str> = out.pages[3]
        .side_notification_items
        .iter()
        .map(|i| i.path.as_str())
        .collect();
    assert_eq!(sel, vec!["/projects/alpha"]);
}

#[test]
fn duplicate_paths_abort_the_run() {
    let entries = vec![entry("/", "Home", None), entry("/a", "A", None), entry("/a", "A2", None)];
    match generate(entries, &MenuConfig { main_menu: vec![], socials: vec![] }) {
        Err(SiteError::DuplicateItem(p)) => assert_eq!(p, "/a"),
        _ => panic!("expected a duplicate-item error"),
    }
}

#[test]
fn unknown_menu_paths_abort_the_run() {
    let entries = vec![entry("/", "Home", None)];
    let config = MenuConfig {
        main_menu: vec![RawMenuItem { url: String::from("/nope"), title: None, icon: None }],
        socials: vec![],
    };
    match generate(entries, &config) {
        Err(SiteError::UnknownPath(p)) => assert_eq!(p, "/nope"),
        _ => panic!("expected an unknown-path error"),
    }
}

#[test]
fn unclassifiable_socials_abort_the_run() {
    let entries = vec![entry("/", "Home", None)];
    let config = MenuConfig {
        main_menu: vec![],
        socials: vec![RawSocialItem { url: String::from("https://example.org/"), icon: None, color: None }],
    };
    match generate(entries, &config) {
        Err(SiteError::MissingSocialIcon(u)) => assert_eq!(u, "https://example.org/"),
        _ => panic!("expected a missing-icon error"),
    }
}

#[test]
fn an_empty_site_generates_nothing() {
    let out = generate(vec![], &MenuConfig { main_menu: vec![], socials: vec![] }).unwrap();
    assert!(out.pages.is_empty());
    assert!(out.main_menu.is_empty());
    assert!(out.socials.is_empty());
}

#[test]
fn a_root_only_site_has_no_derived_views() {
    let out = generate(
        vec![entry("/", "Home", None)],
        &MenuConfig { main_menu: vec![], socials: vec![] },
    );
    // the root page has neither children nor a parent bucket, so its
    // sibling selection cannot resolve: a fatal configuration error
    assert!(out.is_err());
}
