//! Helpers for generating content: list joining, text, and script tags.
use vstd::prelude::*;
use crate::text::push_str;

pub use crate::rules::{do_html, do_json, do_replace, do_xml};

verus! {

/// The items as character sequences.
pub open spec fn item_views(items: Seq<&str>) -> Seq<Seq<char>> {
    items.map_values(|s: &str| s@)
}

/// Each item wrapped in `before` and `after`, concatenated in order.
pub open spec fn wrapped_items(items: Seq<Seq<char>>, before: Seq<char>, after: Seq<char>) -> Seq<char>
    decreases items.len(),
{
    if items.len() == 0 {
        Seq::empty()
    } else {
        wrapped_items(items.drop_last(), before, after) + before + items.last() + after
    }
}

/// The list-join form: `before_all`, each item wrapped, then `after_all`.
pub open spec fn forloop(
    items: Seq<Seq<char>>,
    before_all: Seq<char>,
    before: Seq<char>,
    after: Seq<char>,
    after_all: Seq<char>,
) -> Seq<char> {
    before_all + wrapped_items(items, before, after) + after_all
}

/// Joins `vector`: `befor_items`, then for each item in order `befor_item`,
/// the item and `after_item`, then `after_items`.
pub fn do_forloop(
    vector: &[&str],
    befor_items: &str,
    befor_item: &str,
    after_item: &str,
    after_items: &str,
) -> (r: String)
    ensures
        r@ == forloop(item_views(vector@), befor_items@, befor_item@, after_item@, after_items@),
{
    let ghost items = item_views(vector@);
    let mut r = String::new();
    push_str(&mut r, befor_items);
    let ghost start = r@;
    let mut i: usize = 0;
    assert(items.take(0) =~= Seq::<Seq<char>>::empty());
    while i < vector.len()
        invariant
            items == item_views(vector@),
            i <= vector.len(),
            r@ == start + wrapped_items(items.take(i as int), befor_item@, after_item@),
        decreases vector.len() - i,
    {
        push_str(&mut r, befor_item);
        push_str(&mut r, vector[i]);
        push_str(&mut r, after_item);
        assert(items.take(i + 1).drop_last() =~= items.take(i as int));
        assert(items.take(i + 1).last() == vector@[i as int]@);
        assert(r@ =~= start + wrapped_items(items.take(i + 1), befor_item@, after_item@));
        i = i + 1;
    }
    assert(items.take(vector.len() as int) =~= items);
    push_str(&mut r, after_items);
    assert(r@ =~= forloop(items, befor_items@, befor_item@, after_item@, after_items@));
    r
}

/// An owned copy of `t`.
pub fn do_text(t: &str) -> (r: String)
    ensures
        r@ == t@,
{
    String::from_str(t)
}

/// A deferred `<script>` tag that loads the given version of Alpine.js.
pub fn alpine(version: &str) -> (r: String)
    ensures
        r@ == "<script defer src=\"https://unpkg.com/alpinejs@"@ + version@
            + "/dist/cdn.min.js\"></script>"@,
{
    let mut r = String::from_str("<script defer src=\"https://unpkg.com/alpinejs@");
    push_str(&mut r, version);
    push_str(&mut r, "/dist/cdn.min.js\"></script>");
    r
}

/// A `<script>` tag that loads the given version of Chart.js.
pub fn chart_js(version: &str) -> (r: String)
    ensures
        r@ == "<script src=\"https://cdn.jsdelivr.net/npm/chart.js@"@ + version@
            + "/dist/chart.umd.min.js\"></script>"@,
{
    let mut r = String::from_str("<script src=\"https://cdn.jsdelivr.net/npm/chart.js@");
    push_str(&mut r, version);
    push_str(&mut r, "/dist/chart.umd.min.js\"></script>");
    r
}

} // verus!
