//! The plain configuration values the builder consumes. Loading them from
//! JSON files is the caller's business; the library receives them ready-made.
use vstd::prelude::*;

use crate::bulma::{default_css_links, default_js_links, default_css_links_spec,
    default_js_links_spec, color_class_spec, Color};
use crate::paths::last_slash_index;
use crate::strutil::clone_string_vec;

verus! {

/// The site-wide configuration.
pub struct MainConfig {
    pub site_title: String,
    pub js_files: Vec<String>,
    pub include_default_js: Option<bool>,
    pub css_files: Vec<String>,
    pub include_default_css: Option<bool>,
    pub background_class: Option<String>,
    pub navbar_color: Option<Color>,
    pub footer_content: String,
}

/// One page's configuration.
pub struct PageConfig {
    pub title: String,
    pub sub_title: Option<String>,
    pub icon: Option<String>,
    pub summary: Option<String>,
    pub content: String,
    pub order: Option<u32>,
    pub left_notifications: Option<Vec<Notification>>,
    pub right_notifications: Option<Vec<Notification>>,
}

/// One configured main-menu entry, not yet resolved against the tree.
pub struct RawMenuItem {
    pub url: String,
    pub title: Option<String>,
    pub icon: Option<String>,
}

/// One configured social link, not yet classified.
pub struct RawSocialItem {
    pub url: String,
    pub icon: Option<String>,
    pub color: Option<String>,
}

/// The menu configuration: the ordered main menu and the social links.
pub struct MenuConfig {
    pub main_menu: Vec<RawMenuItem>,
    pub socials: Vec<RawSocialItem>,
}

/// A side or content annotation, rendered externally and cached per path.
pub struct Notification {
    pub content: String,
    pub title: Option<String>,
    pub url: Option<String>,
    pub color: Option<Color>,
}

/// One source image reference from the image catalog.
pub struct ImageReference {
    pub file_name: String,
    pub title: Option<String>,
    pub alt_text: String,
}

/// The final segment of a slash-delimited path: everything after the last
/// `/`, or the whole path when it holds none.
pub open spec fn last_segment_spec(p: Seq<char>) -> Seq<char> {
    if last_slash_index(p) < 0 {
        p
    } else {
        p.subrange(last_slash_index(p) + 1, p.len() as int)
    }
}

impl PageConfig {
    /// The fallback configuration of a directory without its own page file:
    /// titled by the directory name, with a bare heading as content.
    pub fn new(path: &str) -> (r: PageConfig)
        ensures
            r.title@ == last_segment_spec(path@),
            r.content@ == "<h1>"@ + last_segment_spec(path@) + "</h1>"@,
            r.sub_title is None,
            r.icon is None,
            r.summary is None,
            r.order is None,
            r.left_notifications is None,
            r.right_notifications is None,
    {
        let last = last_segment(path);
        let mut content = String::from_str("<h1>");
        content.append(last.as_str());
        content.append("</h1>");
        PageConfig {
            title: last,
            sub_title: None,
            icon: None,
            summary: None,
            content,
            order: None,
            left_notifications: None,
            right_notifications: None,
        }
    }
}

/// The final segment of a path, as `split('/').last()` yields it.
pub fn last_segment(path: &str) -> (r: String)
    ensures
        r@ == last_segment_spec(path@),
{
    let len = path.unicode_len();
    let mut i: usize = len;
    while i > 0
        invariant
            i <= len,
            len == path@.len(),
            forall|j: int| i <= j < len ==> path@[j] != '/',
        decreases i,
    {
        if path.get_char(i - 1) == '/' {
            proof {
                crate::paths::lemma_last_slash_at(path@, i - 1);
            }
            let seg = path.substring_char(i, len);
            return String::from_str(seg);
        }
        i = i - 1;
    }
    proof {
        crate::paths::lemma_last_slash_none(path@);
        assert(path@.subrange(0, len as int) =~= path@);
    }
    String::from_str(path)
}

impl MainConfig {
    /// The page background class, `has-background-light` when none is set.
    pub fn get_background_class(&self) -> (r: String)
        ensures
            r@ == match self.background_class {
                None => "has-background-light"@,
                Some(ref s) => s@,
            },
    {
        match self.background_class.as_ref() {
            None => String::from_str("has-background-light"),
            Some(s) => s.clone(),
        }
    }

    /// The navbar color class, the warning color when none is set.
    pub fn get_navbar_color(&self) -> (r: &'static str)
        ensures
            r@ == match self.navbar_color {
                None => color_class_spec(Color::Warning),
                Some(c) => color_class_spec(c),
            },
    {
        match self.navbar_color.as_ref() {
            None => Color::Warning.to_css_class(),
            Some(c) => c.to_css_class(),
        }
    }

    /// The stylesheet links of every page: the configured ones, with the
    /// defaults appended unless they are switched off.
    pub fn get_css_links(&self) -> (r: Vec<String>)
        ensures
            r.deep_view() == if self.include_default_css == Some(false) {
                self.css_files.deep_view()
            } else {
                self.css_files.deep_view() + default_css_links_spec()
            },
    {
        match self.include_default_css {
            Some(b) if !b => clone_string_vec(&self.css_files),
            _ => {
                let mut result = clone_string_vec(&self.css_files);
                let mut defaults = default_css_links();
                result.append(&mut defaults);
                assert(result.deep_view() =~= self.css_files.deep_view()
                    + default_css_links_spec());
                result
            },
        }
    }

    /// The script links of every page: the configured ones, with the default
    /// appended unless it is switched off.
    pub fn get_js_links(&self) -> (r: Vec<String>)
        ensures
            r.deep_view() == if self.include_default_js == Some(false) {
                self.js_files.deep_view()
            } else {
                self.js_files.deep_view() + default_js_links_spec()
            },
    {
        match self.include_default_js {
            Some(b) if !b => clone_string_vec(&self.js_files),
            _ => {
                let mut result = clone_string_vec(&self.js_files);
                let mut defaults = default_js_links();
                result.append(&mut defaults);
                assert(result.deep_view() =~= self.js_files.deep_view()
                    + default_js_links_spec());
                result
            },
        }
    }

    /// Whether the default script must be materialized at its link.
    pub fn needs_default_js(&self) -> (r: bool)
        ensures
            r == (self.include_default_js != Some(false)),
    {
        match self.include_default_js {
            Some(b) if !b => false,
            _ => true,
        }
    }
}

} // verus!
