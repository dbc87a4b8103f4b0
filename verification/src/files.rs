//! Output path derivation for written pages and assets, and HTML
//! minification through the minifier crate. Writing the bytes is the
//! caller's business.
use vstd::prelude::*;

use crate::paths::{last_slash_index, wf_path, lemma_last_slash_bounds, lemma_last_slash_at,
    lemma_last_slash_none};

verus! {

/// What the minified form of an HTML document is. The minification is a
/// pure function of the document alone; this names its result.
pub uninterp spec fn minified_of(s: Seq<char>) -> Seq<char>;

/// Relies on minifier::html::minify: it rewrites an HTML document, a
/// function of the document alone.
#[verifier::external_body]
fn minify_html_impl(html: &str) -> (r: String)
    ensures
        r@ == minified_of(html@),
{
    minifier::html::minify(html)
}

/// The minified form of an HTML page, as written to disk.
pub fn minify_html(html: &str) -> (r: String)
    ensures
        r@ == minified_of(html@),
{
    minify_html_impl(html)
}

/// The directory and file name a page is written to: the root page becomes
/// `index.html` in the destination root; any other path becomes its last
/// segment plus `.html` under its parent directories.
pub fn get_html_destination(destination: &str, path: &str) -> (r: (String, String))
    requires
        wf_path(path@),
    ensures
        path@ == "/"@ ==> r.0@ == destination@ && r.1@ == "index.html"@,
        path@ != "/"@ ==> {
            let i = last_slash_index(path@);
            &&& r.0@ == destination@ + path@.subrange(0, i)
            &&& r.1@ == path@.subrange(i + 1, path@.len() as int) + ".html"@
        },
{
    proof {
        reveal_strlit("/");
    }
    let len = path.unicode_len();
    if len == 1 {
        proof {
            assert(path@ =~= "/"@);
        }
        let mut name = String::from_str("index.html");
        return (String::from_str(destination), name);
    }
    proof {
        assert(path@ != "/"@) by {
            assert(path@.len() != "/"@.len());
        }
    }
    let (dir, file) = split_at_last_slash(destination, path);
    let mut name = file;
    name.append(".html");
    (dir, name)
}

/// The directory and file name a raw asset is written to: the path's last
/// segment under its parent directories.
pub fn get_destination(destination: &str, path: &str) -> (r: (String, String))
    requires
        wf_path(path@),
        path@.len() > 1,
    ensures
        ({
            let i = last_slash_index(path@);
            &&& r.0@ == destination@ + path@.subrange(0, i)
            &&& r.1@ == path@.subrange(i + 1, path@.len() as int)
        }),
{
    split_at_last_slash(destination, path)
}

/// The destination prefixed with everything before the path's last slash,
/// and everything after it.
fn split_at_last_slash(destination: &str, path: &str) -> (r: (String, String))
    requires
        wf_path(path@),
        path@.len() > 1,
    ensures
        ({
            let i = last_slash_index(path@);
            &&& r.0@ == destination@ + path@.subrange(0, i)
            &&& r.1@ == path@.subrange(i + 1, path@.len() as int)
        }),
{
    let len = path.unicode_len();
    let mut i: usize = len;
    while i > 0
        invariant
            i <= len,
            len == path@.len(),
            forall|j: int| i <= j < len ==> path@[j] != '/',
        decreases i,
    {
        if path.get_char(i - 1) == '/' {
            proof {
                lemma_last_slash_at(path@, i - 1);
            }
            let first = path.substring_char(0, i - 1);
            let second = path.substring_char(i, len);
            let mut dir = String::from_str(destination);
            dir.append(first);
            return (dir, String::from_str(second));
        }
        i = i - 1;
    }
    proof {
        lemma_last_slash_none(path@);
        assert(path@[0] != '/');
        assert(false);
    }
    (String::new(), String::new())
}

} // verus!
