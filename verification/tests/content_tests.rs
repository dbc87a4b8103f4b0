use vados::bulma::Color;
use vados::config_files::{MainConfig, Notification, PageConfig};
use vados::content::{content_source_kind, get_content, get_file_path, items_to_side_notifications,
    notification_id, resolve_notification, ContentKind, NotificationKind};
use vados::files::{get_destination, get_html_destination, minify_html};
use vados::structure::Item;

#[test]
fn references_classify_by_suffix() {
    assert_eq!(content_source_kind("body.md"), ContentKind::Markdown);
    assert_eq!(content_source_kind("body.html"), ContentKind::Html);
    assert_eq!(content_source_kind("<p>inline</p>"), ContentKind::Raw);
    assert_eq!(content_source_kind("body.txt"), ContentKind::Unhandled);
    assert_eq!(content_source_kind(""), ContentKind::Unhandled);
}

#[test]
fn markdown_renders_to_html() {
    let out = get_content("body.md", "# Hi").unwrap();
    assert_eq!(out, "<h1>Hi</h1>\n");
    let out = get_content("body.md", "plain *text*").unwrap();
    assert_eq!(out, "<p>plain <em>text</em></p>\n");
}

#[test]
fn html_and_raw_pass_through() {
    assert_eq!(get_content("body.html", "<p>x</p>").unwrap(), "<p>x</p>");
    assert_eq!(get_content("<h2>t</h2>", "").unwrap(), "<h2>t</h2>");
    assert!(get_content("body.txt", "x").is_none());
}

#[test]
fn file_paths_join_source_path_and_reference() {
    assert_eq!(get_file_path("/src", "/", "body.md"), "/src/body.md");
    assert_eq!(get_file_path("/src", "/a/b", "body.md"), "/src/a/b/body.md");
}

#[test]
fn minified_pages_shrink() {
    let original = "<html>  <body>    <p>  hello   world  </p>  </body>  </html>";
    let minified = minify_html(original);
    assert_ne!(minified, original);
    assert!(minified.len() < original.len());
    assert!(minified.contains("hello"));
}

#[test]
fn html_destinations_split_at_the_last_segment() {
    assert_eq!(
        get_html_destination("/out", "/"),
        (String::from("/out"), String::from("index.html"))
    );
    assert_eq!(
        get_html_destination("/out", "/a/b"),
        (String::from("/out/a"), String::from("b.html"))
    );
    assert_eq!(
        get_destination("/out", "/js/vados.js"),
        (String::from("/out/js"), String::from("vados.js"))
    );
}

#[test]
fn notification_ids_number_by_side_and_position() {
    assert_eq!(notification_id("l", 0), "sub-l-0");
    assert_eq!(notification_id("r", 12), "sub-r-12");
}

#[test]
fn notifications_classify_and_default_their_color() {
    let plain = Notification {
        content: String::from("note.md"),
        title: None,
        url: None,
        color: None,
    };
    let parts = resolve_notification(&plain, notification_id("l", 0));
    assert_eq!(parts.kind, NotificationKind::Content);
    assert_eq!(parts.color_class, "is-info");
    assert_eq!(parts.id, "sub-l-0");
    assert_eq!(parts.content_reference, "note.md");

    let internal = Notification {
        content: String::from("note.md"),
        title: Some(String::from("See")),
        url: Some(String::from("/a/b")),
        color: None,
    };
    let parts = resolve_notification(&internal, notification_id("l", 1));
    assert_eq!(parts.kind, NotificationKind::Internal);
    assert_eq!(parts.color_class, "is-link");
    assert_eq!(parts.url.as_deref(), Some("/a/b"));

    let external = Notification {
        content: String::from("note.md"),
        title: None,
        url: Some(String::from("https://example.org/")),
        color: Some(Color::Danger),
    };
    let parts = resolve_notification(&external, notification_id("r", 0));
    assert_eq!(parts.kind, NotificationKind::External);
    assert_eq!(parts.color_class, "is-danger");
}

#[test]
fn side_notifications_number_and_color_items() {
    let items = vec![
        Item::new(
            String::from("/a"),
            PageConfig {
                title: String::from("A"),
                sub_title: Some(String::from("sub")),
                icon: None,
                summary: None,
                content: String::from("a.md"),
                order: None,
                left_notifications: None,
                right_notifications: None,
            },
        ),
    ];
    let parts = items_to_side_notifications(&items);
    assert_eq!(parts.len(), 1);
    assert_eq!(parts[0].id, "sub-s-0");
    assert_eq!(parts[0].color_class, "is-info");
    assert_eq!(parts[0].url, "/a");
    assert_eq!(parts[0].title, "A");
    assert_eq!(parts[0].sub_title.as_deref(), Some("sub"));
}

#[test]
fn page_config_defaults_to_the_directory_name() {
    let config = PageConfig::new("/srv/site/projects");
    assert_eq!(config.title, "projects");
    assert_eq!(config.content, "<h1>projects</h1>");
    assert!(config.order.is_none());
}

#[test]
fn main_config_defaults() {
    let config = MainConfig {
        site_title: String::from("Site"),
        js_files: vec![String::from("/js/own.js")],
        include_default_js: None,
        css_files: vec![],
        include_default_css: Some(false),
        background_class: None,
        navbar_color: None,
        footer_content: String::from("footer.md"),
    };
    assert_eq!(config.get_background_class(), "has-background-light");
    assert_eq!(config.get_navbar_color(), "is-warning");
    assert_eq!(config.get_css_links(), Vec::<String>::new());
    assert_eq!(
        config.get_js_links(),
        vec![String::from("/js/own.js"), String::from("/js/vados.js")]
    );
    assert!(config.needs_default_js());
}

#[test]
fn default_links_are_appended_when_not_disabled() {
    let config = MainConfig {
        site_title: String::from("Site"),
        js_files: vec![],
        include_default_js: Some(false),
        css_files: vec![String::from("/css/own.css")],
        include_default_css: Some(true),
        background_class: Some(String::from("has-background-dark")),
        navbar_color: Some(Color::Primary),
        footer_content: String::from("footer.md"),
    };
    assert_eq!(config.get_background_class(), "has-background-dark");
    assert_eq!(config.get_navbar_color(), "is-primary");
    let css = config.get_css_links();
    assert_eq!(css.len(), 3);
    assert_eq!(css[0], "/css/own.css");
    assert!(css[2].contains("bulma"));
    assert_eq!(config.get_js_links(), Vec::<String>::new());
    assert!(!config.needs_default_js());
}

#[test]
fn decimal_rendering_handles_extremes() {
    assert_eq!(notification_id("l", u32::MAX), "sub-l-4294967295");
    assert_eq!(notification_id("l", 0), "sub-l-0");
}
