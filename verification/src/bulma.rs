//! Bulma-flavoured presentation values: named colors, image slot kinds and
//! the default asset links.
use vstd::prelude::*;

verus! {

/// A named Bulma color.
#[derive(Debug, PartialEq, Eq, Structural, Clone, Copy, Hash)]
pub enum Color {
    White,
    Black,
    Light,
    Dark,
    Primary,
    Link,
    Info,
    Succes,
    Warning,
    Danger,
}

/// The CSS class that selects the color.
pub open spec fn color_class_spec(c: Color) -> Seq<char> {
    match c {
        Color::White => "is-white"@,
        Color::Black => "is-black"@,
        Color::Light => "is-light"@,
        Color::Dark => "is-dark"@,
        Color::Primary => "is-primary"@,
        Color::Link => "is-link"@,
        Color::Info => "is-info"@,
        Color::Succes => "is-success"@,
        Color::Warning => "is-warning"@,
        Color::Danger => "is-danger"@,
    }
}

impl Color {
    /// The CSS class that selects this color.
    pub fn to_css_class(&self) -> (r: &'static str)
        ensures
            r@ == color_class_spec(*self),
    {
        match self {
            Color::White => "is-white",
            Color::Black => "is-black",
            Color::Light => "is-light",
            Color::Dark => "is-dark",
            Color::Primary => "is-primary",
            Color::Link => "is-link",
            Color::Info => "is-info",
            Color::Succes => "is-success",
            Color::Warning => "is-warning",
            Color::Danger => "is-danger",
        }
    }
}

/// The stylesheet links every page gets when defaults are not switched off.
pub open spec fn default_css_links_spec() -> Seq<Seq<char>> {
    seq![
        "https://cdn.jsdelivr.net/npm/@mdi/font@6.5.95/css/materialdesignicons.min.css"@,
        "https://cdn.jsdelivr.net/npm/bulma@0.9.3/css/bulma.min.css"@,
    ]
}

/// The script links every page gets when defaults are not switched off.
pub open spec fn default_js_links_spec() -> Seq<Seq<char>> {
    seq!["/js/vados.js"@]
}

/// The default stylesheet links.
pub fn default_css_links() -> (r: Vec<String>)
    ensures
        r.deep_view() == default_css_links_spec(),
{
    let mut r: Vec<String> = Vec::new();
    r.push(
        String::from_str(
            "https://cdn.jsdelivr.net/npm/@mdi/font@6.5.95/css/materialdesignicons.min.css",
        ),
    );
    r.push(String::from_str("https://cdn.jsdelivr.net/npm/bulma@0.9.3/css/bulma.min.css"));
    assert(r.deep_view() =~= default_css_links_spec());
    r
}

/// The default script links.
pub fn default_js_links() -> (r: Vec<String>)
    ensures
        r.deep_view() == default_js_links_spec(),
{
    let mut r: Vec<String> = Vec::new();
    r.push(String::from_str("/js/vados.js"));
    assert(r.deep_view() =~= default_js_links_spec());
    r
}

/// The script written to the default script link: wires up the burger and
/// side-menu toggles.
pub fn vados_js() -> &'static str {
    "let burger_menu_active = false
let side_menu_active = false
let burger_menu = document.getElementById(\"burger-menu\")
let main_menu = document.getElementById(\"main-menu\")
let burger_side_menu = document.getElementById(\"burger-side-menu\")
let side_menu = document.getElementById(\"side-menu-mobile\")
const toggleBurgerMenu = function () {
    if (side_menu_active) {
        toggleSideMenu()
    }
    if (burger_menu_active) {
        burger_menu.classList.remove(\"is-active\")
        main_menu.classList.remove(\"is-active\")
    } else {
        burger_menu.classList.add(\"is-active\")
        main_menu.classList.add(\"is-active\")
    }
    burger_menu_active = !burger_menu_active
}
const toggleSideMenu = function () {
    if (burger_menu_active) {
        toggleBurgerMenu()
    }
    if (side_menu_active) {
        burger_side_menu.classList.remove(\"is-active\")
        side_menu.classList.add(\"is-hidden\")
    } else {
        burger_side_menu.classList.add(\"is-active\")
        side_menu.classList.remove(\"is-hidden\")
    }
    side_menu_active = !side_menu_active
}
burger_menu.onclick = function () {
    toggleBurgerMenu()
}
if (typeof (burger_side_menu) != 'undefined' && burger_side_menu != null) {
    burger_side_menu.onclick = function () {
        toggleSideMenu()
    }
}"
}

/// The slot a processed image is rendered into.
#[derive(Debug, PartialEq, Eq, Structural, Clone, Copy)]
pub enum ImageType {
    Main,
    Sub,
    Side,
}

/// The responsive `sizes` attribute for an image slot.
pub open spec fn image_sizes_spec(t: ImageType) -> Seq<char> {
    match t {
        ImageType::Main => "(min-width: 1408px) 986px, (min-width: 769px) calc(75vw - 94px), calc(100vw - 64px)"@,
        ImageType::Sub => "(min-width: 1408px) 425px, (min-width: 769px) calc(37.5vw - 106px), calc(100vw - 112px)"@,
        ImageType::Side => "(min-width: 1408px) 318px, (min-width: 769px) calc(25vw - 94px), calc(100vw - 112px)"@,
    }
}

/// The `decoding` attribute for an image slot.
pub open spec fn image_decoding_spec(t: ImageType) -> Seq<char> {
    match t {
        ImageType::Main => "sync"@,
        ImageType::Sub => "async"@,
        ImageType::Side => "async"@,
    }
}

/// The `loading` attribute for an image slot.
pub open spec fn image_loading_spec(t: ImageType) -> Seq<char> {
    match t {
        ImageType::Main => "eager"@,
        ImageType::Sub => "lazy"@,
        ImageType::Side => "lazy"@,
    }
}

impl ImageType {
    /// The responsive `sizes` attribute for this slot.
    pub fn sizes(&self) -> (r: &'static str)
        ensures
            r@ == image_sizes_spec(*self),
    {
        match self {
            ImageType::Main => "(min-width: 1408px) 986px, (min-width: 769px) calc(75vw - 94px), calc(100vw - 64px)",
            ImageType::Sub => "(min-width: 1408px) 425px, (min-width: 769px) calc(37.5vw - 106px), calc(100vw - 112px)",
            ImageType::Side => "(min-width: 1408px) 318px, (min-width: 769px) calc(25vw - 94px), calc(100vw - 112px)",
        }
    }

    /// The `decoding` attribute for this slot.
    pub fn decoding(&self) -> (r: &'static str)
        ensures
            r@ == image_decoding_spec(*self),
    {
        match self {
            ImageType::Main => "sync",
            ImageType::Sub => "async",
            ImageType::Side => "async",
        }
    }

    /// The `loading` attribute for this slot.
    pub fn loading(&self) -> (r: &'static str)
        ensures
            r@ == image_loading_spec(*self),
    {
        match self {
            ImageType::Main => "eager",
            ImageType::Sub => "lazy",
            ImageType::Side => "lazy",
        }
    }
}

} // verus!
