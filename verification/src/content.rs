//! Content resolution: classify a content reference by its suffix, render
//! Markdown through the parser crate, derive content file paths, and resolve
//! notifications into the values their templates consume.
use vstd::prelude::*;

use crate::bulma::{color_class_spec, Color};
use crate::config_files::Notification;
use crate::strutil::{clone_opt_string, dec_digits, opt_view, u32_to_string};
use crate::structure::Item;

verus! {

/// What the HTML of a Markdown document is. The rendering is a pure
/// function of the text alone; this names its result.
pub uninterp spec fn html_of_markdown(s: Seq<char>) -> Seq<char>;

/// Relies on pulldown_cmark::Parser::new and pulldown_cmark::html::push_html:
/// together they render a Markdown text to HTML, a function of the text
/// alone.
#[verifier::external_body]
fn render_markdown(text: &str) -> (r: String)
    ensures
        r@ == html_of_markdown(text@),
{
    let mut html_output = String::new();
    pulldown_cmark::html::push_html(&mut html_output, pulldown_cmark::Parser::new(text));
    html_output
}

/// `suffix` ends `s`.
pub open spec fn ends_with_spec(s: Seq<char>, suffix: Seq<char>) -> bool {
    s.len() >= suffix.len() && s.subrange(s.len() - suffix.len(), s.len() as int) == suffix
}

/// Whether `s` ends with `suffix`, compared character by character.
pub fn str_ends_with(s: &str, suffix: &str) -> (r: bool)
    ensures
        r == ends_with_spec(s@, suffix@),
{
    let n = suffix.unicode_len();
    let m = s.unicode_len();
    if m < n {
        return false;
    }
    let start = m - n;
    let mut i: usize = 0;
    while i < n
        invariant
            i <= n <= m,
            start == m - n,
            n == suffix@.len(),
            m == s@.len(),
            forall|j: int| 0 <= j < i ==> s@[start + j] == suffix@[j],
        decreases n - i,
    {
        if s.get_char(start + i) != suffix.get_char(i) {
            assert(!ends_with_spec(s@, suffix@)) by {
                assert(s@.subrange(m - n, m as int)[i as int] == s@[start + i]);
            }
            return false;
        }
        i = i + 1;
    }
    assert(s@.subrange(m - n, m as int) =~= suffix@);
    true
}

/// How a content reference is interpreted, by its suffix.
#[derive(Debug, PartialEq, Eq, Structural, Clone, Copy)]
pub enum ContentKind {
    /// A `.md` file: read and rendered to HTML.
    Markdown,
    /// An `.html` file: read verbatim.
    Html,
    /// An inline fragment ending in `>`: used as it stands.
    Raw,
    /// Anything else: a fatal configuration error.
    Unhandled,
}

/// The kind of a content reference: `.md`, then `.html`, then a trailing
/// `>`, else unhandled.
pub open spec fn content_kind_spec(reference: Seq<char>) -> ContentKind {
    if ends_with_spec(reference, ".md"@) {
        ContentKind::Markdown
    } else if ends_with_spec(reference, ".html"@) {
        ContentKind::Html
    } else if reference.len() >= 1 && reference[reference.len() - 1] == '>' {
        ContentKind::Raw
    } else {
        ContentKind::Unhandled
    }
}

/// Classify a content reference by its suffix.
pub fn content_source_kind(reference: &str) -> (r: ContentKind)
    ensures
        r == content_kind_spec(reference@),
{
    if str_ends_with(reference, ".md") {
        ContentKind::Markdown
    } else if str_ends_with(reference, ".html") {
        ContentKind::Html
    } else {
        let len = reference.unicode_len();
        if len >= 1 && reference.get_char(len - 1) == '>' {
            ContentKind::Raw
        } else {
            ContentKind::Unhandled
        }
    }
}

/// The file a content reference points at, under the source root beside
/// the page's own directory.
pub fn get_file_path(source: &str, path: &str, reference: &str) -> (r: String)
    ensures
        r@ == if path@ == "/"@ {
            source@ + "/"@ + reference@
        } else {
            source@ + path@ + "/"@ + reference@
        },
{
    proof {
        reveal_strlit("/");
    }
    let is_root = path.unicode_len() == 1 && path.get_char(0) == '/';
    proof {
        assert(is_root == (path@ =~= "/"@));
    }
    let mut r = String::from_str(source);
    if !is_root {
        r.append(path);
    }
    r.append("/");
    r.append(reference);
    r
}

/// The content a reference resolves to, given the text of the file it
/// points at (empty for an inline fragment): Markdown is rendered to HTML,
/// an HTML file passes through, an inline fragment is the reference itself.
/// An unhandled reference is a fatal configuration error.
pub fn get_content(reference: &str, file_text: &str) -> (r: Option<String>)
    ensures
        content_kind_spec(reference@) is Markdown ==> (r matches Some(s) && s@
            == html_of_markdown(file_text@)),
        content_kind_spec(reference@) is Html ==> (r matches Some(s) && s@ == file_text@),
        content_kind_spec(reference@) is Raw ==> (r matches Some(s) && s@ == reference@),
        content_kind_spec(reference@) is Unhandled <==> r is None,
{
    match content_source_kind(reference) {
        ContentKind::Markdown => Some(render_markdown(file_text)),
        ContentKind::Html => Some(String::from_str(file_text)),
        ContentKind::Raw => Some(String::from_str(reference)),
        ContentKind::Unhandled => None,
    }
}

/// How a notification renders, by its link.
#[derive(Debug, PartialEq, Eq, Structural, Clone, Copy)]
pub enum NotificationKind {
    /// No link: a plain content notification.
    Content,
    /// A link starting with `/`: an internal link notification.
    Internal,
    /// Any other link: an external link notification.
    External,
}

/// The resolved values one notification's template consumes.
pub struct NotificationParts {
    pub kind: NotificationKind,
    pub color_class: String,
    pub id: String,
    pub title: Option<String>,
    pub url: Option<String>,
    pub content_reference: String,
}

/// The element id of a cached notification: the side tag and the position.
pub fn notification_id(side: &str, index: u32) -> (r: String)
    ensures
        r@ == "sub-"@ + side@ + "-"@ + dec_digits(index as int),
{
    let mut r = String::from_str("sub-");
    r.append(side);
    r.append("-");
    let dec = u32_to_string(index);
    r.append(dec.as_str());
    r
}

/// Resolve one notification: classify its link, defaulting the color to
/// the info color for a plain notification and the link color for either
/// link kind.
pub fn resolve_notification(notification: &Notification, id: String) -> (r: NotificationParts)
    ensures
        r.id == id,
        r.title == notification.title,
        r.url == notification.url,
        r.content_reference == notification.content,
        match notification.url {
            None => r.kind is Content && r.color_class@ == color_class_spec(
                match notification.color {
                    Some(c) => c,
                    None => Color::Info,
                },
            ),
            Some(ref u) => {
                &&& (u@.len() >= 1 && u@[0] == '/' ==> r.kind is Internal)
                &&& (!(u@.len() >= 1 && u@[0] == '/') ==> r.kind is External)
                &&& r.color_class@ == color_class_spec(
                    match notification.color {
                        Some(c) => c,
                        None => Color::Link,
                    },
                )
            },
        },
{
    let color = match notification.color {
        Some(c) => c,
        None => match notification.url {
            None => Color::Info,
            Some(_) => Color::Link,
        },
    };
    let kind = match notification.url.as_ref() {
        None => NotificationKind::Content,
        Some(u) => {
            if u.unicode_len() >= 1 && u.as_str().get_char(0) == '/' {
                NotificationKind::Internal
            } else {
                NotificationKind::External
            }
        },
    };
    NotificationParts {
        kind,
        color_class: String::from_str(color.to_css_class()),
        id,
        title: clone_opt_string(&notification.title),
        url: clone_opt_string(&notification.url),
        content_reference: notification.content.clone(),
    }
}

/// The resolved values of one sibling-page side notification.
pub struct SideNotificationParts {
    pub id: String,
    pub color_class: String,
    pub url: String,
    pub title: String,
    pub sub_title: Option<String>,
}

/// The side notifications of a sibling group: one internal notification per
/// item, in order, in the info color, with ids numbered by position.
pub fn items_to_side_notifications(items: &Vec<Item>) -> (r: Vec<SideNotificationParts>)
    requires
        items@.len() <= u32::MAX,
    ensures
        r@.len() == items@.len(),
        forall|i: int|
            0 <= i < r@.len() ==> {
                let p = #[trigger] r@[i];
                &&& p.url@ == items@[i].path@
                &&& p.title@ == items@[i].title@
                &&& opt_view(p.sub_title) == opt_view(items@[i].sub_title)
                &&& p.color_class@ == color_class_spec(Color::Info)
                &&& p.id@ == "sub-s-"@ + dec_digits(i)
            },
{
    let mut r: Vec<SideNotificationParts> = Vec::new();
    let mut i: usize = 0;
    while i < items.len()
        invariant
            i <= items@.len(),
            items@.len() <= u32::MAX,
            r@.len() == i,
            forall|j: int|
                0 <= j < i ==> {
                    let p = #[trigger] r@[j];
                    &&& p.url@ == items@[j].path@
                    &&& p.title@ == items@[j].title@
                    &&& opt_view(p.sub_title) == opt_view(items@[j].sub_title)
                    &&& p.color_class@ == color_class_spec(Color::Info)
                    &&& p.id@ == "sub-s-"@ + dec_digits(j)
                },
        decreases items@.len() - i,
    {
        let it = &items[i];
        let id = notification_id("s", i as u32);
        proof {
            reveal_strlit("s");
            reveal_strlit("sub-");
            reveal_strlit("sub-s-");
            reveal_strlit("-");
            assert("sub-"@ + "s"@ + "-"@ =~= "sub-s-"@);
            assert(id@ =~= "sub-s-"@ + dec_digits(i as int));
        }
        r.push(
            SideNotificationParts {
                id,
                color_class: String::from_str(Color::Info.to_css_class()),
                url: it.path.clone(),
                title: it.title.clone(),
                sub_title: clone_opt_string(&it.sub_title),
            },
        );
        i = i + 1;
    }
    r
}

} // verus!
