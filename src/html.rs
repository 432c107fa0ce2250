//! HTML-specific helpers.
use vstd::prelude::*;
use crate::content::{forloop, item_views};
use crate::text::push_str;

pub use crate::rules::do_html;

verus! {

/// Joins `vector` as [`crate::content::do_forloop`] does.
pub fn do_forloop(
    vector: &[&str],
    befor_items: &str,
    befor_item: &str,
    after_item: &str,
    after_items: &str,
) -> (r: String)
    ensures
        r@ == forloop(item_views(vector@), befor_items@, befor_item@, after_item@, after_items@),
{
    crate::content::do_forloop(vector, befor_items, befor_item, after_item, after_items)
}

/// An owned copy of `t`.
pub fn do_text(t: &str) -> (r: String)
    ensures
        r@ == t@,
{
    crate::content::do_text(t)
}

/// A `<script>` tag, deferred, that loads the given version of Alpine.js.
pub fn alpine(version: &str) -> (r: String)
    ensures
        r@ == "<script src=\"https://unpkg.com/alpinejs@"@ + version@
            + "/dist/cdn.min.js\" defer></script>"@,
{
    let mut r = String::from_str("<script src=\"https://unpkg.com/alpinejs@");
    push_str(&mut r, version);
    push_str(&mut r, "/dist/cdn.min.js\" defer></script>");
    r
}

} // verus!
