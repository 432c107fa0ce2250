//! A table from file extensions to MIME types.
use vstd::prelude::*;
use crate::table::{keys_unique, lemma_map_of_take, map_of, StrMap};

verus! {

/// A MIME table as a map from extension to MIME type.
pub open spec fn mime_view(m: &StrMap<String>) -> Map<Seq<char>, Seq<char>> {
    m@.map_values(|v: String| v@)
}

/// The map that the pairs `p` make when inserted in order: a later pair
/// wins over an earlier one with the same extension.
pub open spec fn pairs_map(p: Seq<(&str, &str)>) -> Map<Seq<char>, Seq<char>>
    decreases p.len(),
{
    if p.len() == 0 {
        Map::empty()
    } else {
        pairs_map(p.drop_last()).insert(p.last().0@, p.last().1@)
    }
}

/// The common extensions and their MIME types, in the order in which the
/// default table takes them (a later pair wins).
pub const MIME_DEFAULTS: [(&'static str, &'static str); 120] = [
    ("html", "text/html"),
    ("ejs", "text/html"),
    ("css", "text/css"),
    ("scss", "text/scss"),
    ("less", "text/css"),
    ("csv", "text/csv"),
    ("rs", "text/plain"),
    ("plain", "text/plain"),
    ("txt", "text/plain"),
    ("markdown", "text/markdown"),
    ("md", "text/markdown"),
    ("xml", "text/xml"),
    ("yaml", "text/yaml"),
    ("wat", "text/wat"),
    ("py", "text/x-python"),
    ("log", "text/plain"),
    ("ics", "text/calendar"),
    ("vcard", "text/vcard"),
    ("php", "text/x-php"),
    ("conf", "text/plain"),
    ("init", "text/plain"),
    ("png", "image/png"),
    ("jpg", "image/jpeg"),
    ("jpeg", "image/jpeg"),
    ("gif", "image/gif"),
    ("svg", "image/svg+xml"),
    ("svgz", "image/svg+xml"),
    ("bmp", "image/bmp"),
    ("tiff", "image/tiff"),
    ("ico", "image/x-icon"),
    ("webp", "image/webp"),
    ("woff", "font/woff"),
    ("woff2", "font/woff2"),
    ("ttf", "font/ttf"),
    ("otf", "font/otf"),
    ("eot", "application/vnd.ms-fontobject"),
    ("js", "application/javascript"),
    ("ts", "application/typescript"),
    ("xml", "application/xml"),
    ("json", "application/json"),
    ("geojson", "application/geo+json"),
    ("map", "application/json-patch+json"),
    ("jsonld", "application/ld+json"),
    ("binary", "application/octet-stream"),
    ("tar", "application/x-tar"),
    ("so", "application/octet-stream"),
    ("so", "application/x-sharedlib"),
    ("deb", "application/vnd.debian.binary-package"),
    ("bash", "application/x-shellscript"),
    ("php", "application/x-httpd-php"),
    ("db", "application/x-database"),
    ("sql", "application/sql"),
    ("pdf", "application/pdf"),
    ("zip", "application/zip"),
    ("gz", "application/gzip"),
    ("epub", "application/epub+zip"),
    ("toml", "application/toml"),
    ("xhtml", "application/xhtml+xml"),
    ("rss", "application/rss+xml"),
    ("atom", "application/atom+xml"),
    ("graphql", "application/graphql"),
    ("form", "application/x-www-form-urlencoded"),
    ("srt", "application/x-subrip"),
    ("rtf", "application/rtf"),
    ("kml", "application/vnd.google-earth.kml+xml"),
    ("kmz", "application/vnd.google-earth.kmz"),
    ("sh", "application/x-sh"),
    ("bin", "application/octet-stream"),
    ("exe", "application/octet-stream"),
    ("dll", "application/octet-stream"),
    ("class", "application/java-vm"),
    ("jar", "application/java-archive"),
    ("wasm", "application/wasm"),
    ("wat", "application/wasm"),
    ("conf", "application/x-configuration"),
    ("init", "application/x-initialization"),
    ("pem", "application/x-x509-ca-cert"),
    ("p12", "application/x-pkcs12"),
    ("p7b", "application/x-pkcs7-certificates"),
    ("p7c", "application/pkcs7-mime"),
    ("pot", "application/vnd.ms-powerpoint"),
    ("doc", "application/msword"),
    ("docx", "application/vnd.openxmlformats-officedocument.wordprocessingml.document"),
    ("xls", "application/vnd.ms-excel"),
    ("xlsx", "application/vnd.openxmlformats-officedocument.spreadsheetml.sheet"),
    ("ppt", "application/vnd.ms-powerpoint"),
    ("pptx", "application/vnd.openxmlformats-officedocument.presentationml.presentation"),
    ("dotx", "application/vnd.openxmlformats-officedocument.wordtemplate"),
    ("xla", "application/vnd.ms-excel"),
    ("xlt", "application/vnd.ms-excel"),
    ("xltx", "application/vnd.openxmlformats-officedocument.spreadsheetml.template"),
    ("bat", "application/bat"),
    ("pub", "application/x-mspublisher"),
    ("xps", "application/vnd.ms-xpsdocument"),
    ("msg", "application/vnd.ms-outlook"),
    ("dot", "application/msword"),
    ("wps", "application/vnd.ms-works"),
    ("odt", "application/vnd.oasis.opendocument.text"),
    ("ods", "application/vnd.oasis.opendocument.spreadsheet"),
    ("apk", "application/vnd.android.package-archive"),
    ("iot", "application/x-iot-file"),
    ("iot", "application/x-iot-data"),
    ("application", "application/octet-stream"),
    ("wav", "audio/wav"),
    ("mp3", "audio/mpeg"),
    ("aac", "audio/aac"),
    ("ogg", "audio/ogg"),
    ("m4a", "audio/mp4a-latm"),
    ("flac", "audio/flac"),
    ("midi", "audio/midi"),
    ("mid", "audio/midi"),
    ("mp4", "video/mp4"),
    ("webm", "video/webm"),
    ("mov", "video/quicktime"),
    ("avi", "video/x-msvideo"),
    ("flv", "video/x-flv"),
    ("mkv", "video/x-matroska"),
    ("mpg", "video/mpeg"),
    ("mpeg", "video/mpeg"),
    ("mpa", "video/x-mpeg"),
];

/// The table of the common extensions and their MIME types.
pub fn set_mime_types() -> (r: StrMap<String>)
    ensures
        r.wf(),
        mime_view(&r) == pairs_map(MIME_DEFAULTS@),
{
    manage_mime_types(&MIME_DEFAULTS)
}

/// A table of the given pairs, inserted in order.
pub fn manage_mime_types(mime_types: &[(&str, &str)]) -> (r: StrMap<String>)
    ensures
        r.wf(),
        mime_view(&r) == pairs_map(mime_types@),
{
    let mut r: StrMap<String> = StrMap::new();
    let mut i: usize = 0;
    assert(mime_types@.take(0) =~= Seq::<(&str, &str)>::empty());
    assert(mime_view(&r) =~= Map::<Seq<char>, Seq<char>>::empty());
    while i < mime_types.len()
        invariant
            r.wf(),
            i <= mime_types.len(),
            mime_view(&r) == pairs_map(mime_types@.take(i as int)),
        decreases mime_types.len() - i,
    {
        let (ext, mime) = mime_types[i];
        insert_mime_type(&mut r, ext, mime);
        assert(mime_types@.take(i + 1).drop_last() =~= mime_types@.take(i as int));
        i = i + 1;
    }
    assert(mime_types@.take(mime_types.len() as int) =~= mime_types@);
    r
}

/// Sets the MIME type of `extension`.
pub fn insert_mime_type(mime_types: &mut StrMap<String>, extension: &str, mime_type: &str)
    requires
        old(mime_types).wf(),
    ensures
        final(mime_types).wf(),
        mime_view(final(mime_types)) == mime_view(old(mime_types)).insert(extension@, mime_type@),
{
    mime_types.insert(String::from_str(extension), String::from_str(mime_type));
    assert(mime_view(mime_types) =~= mime_view(old(mime_types)).insert(extension@, mime_type@));
}

/// Removes `extension` from the table.
pub fn remove_mime_type(mime_types: &mut StrMap<String>, extension: &str)
    requires
        old(mime_types).wf(),
    ensures
        final(mime_types).wf(),
        mime_view(final(mime_types)) == mime_view(old(mime_types)).remove(extension@),
{
    mime_types.remove(extension);
    assert(mime_view(mime_types) =~= mime_view(old(mime_types)).remove(extension@));
}

/// Adds every entry of `mime_types_map`, overriding the type of an
/// extension that both tables have.
pub fn insert_mime_types(mime_types: &mut StrMap<String>, mime_types_map: StrMap<String>)
    requires
        old(mime_types).wf(),
        mime_types_map.wf(),
    ensures
        final(mime_types).wf(),
        mime_view(final(mime_types)) == mime_view(old(mime_types)).union_prefer_right(
            mime_view(&mime_types_map),
        ),
{
    let ghost e = mime_types_map.entries();
    let ghost other = mime_view(&mime_types_map);
    let entries = mime_types_map.into_vec();
    assert(e.take(0) =~= Seq::<(String, String)>::empty());
    assert(mime_view(mime_types) =~= mime_view(old(mime_types)).union_prefer_right(
        map_of(e.take(0)).map_values(|v: String| v@),
    ));
    for entry in it: entries.into_iter()
        invariant
            mime_types.wf(),
            keys_unique(e),
            it.seq() == e,
            other == map_of(e).map_values(|v: String| v@),
            mime_view(mime_types) == mime_view(old(mime_types)).union_prefer_right(
                map_of(e.take(it.index() as int)).map_values(|v: String| v@),
            ),
    {
        let ghost i = it.index() as int;
        assert(entry == e[i]);
        let (extension, mime_type) = entry;
        let ghost before = mime_view(mime_types);
        mime_types.insert(extension, mime_type);
        assert(mime_view(mime_types) =~= before.insert(e[i].0@, e[i].1@));
        proof {
            lemma_map_of_take(e, i);
        }
        assert(mime_view(mime_types) =~= mime_view(old(mime_types)).union_prefer_right(
            map_of(e.take(i + 1)).map_values(|v: String| v@),
        ));
    }
    assert(e.take(e.len() as int) =~= e);
}

/// Removes every extension that `mime_types_map` has.
pub fn remove_mime_types(mime_types: &mut StrMap<String>, mime_types_map: StrMap<String>)
    requires
        old(mime_types).wf(),
        mime_types_map.wf(),
    ensures
        final(mime_types).wf(),
        mime_view(final(mime_types)) == mime_view(old(mime_types)).remove_keys(
            mime_types_map@.dom(),
        ),
{
    let ghost e = mime_types_map.entries();
    let entries = mime_types_map.into_vec();
    assert(e.take(0) =~= Seq::<(String, String)>::empty());
    assert(mime_view(mime_types) =~= mime_view(old(mime_types)).remove_keys(
        map_of(e.take(0)).dom(),
    ));
    for entry in it: entries.into_iter()
        invariant
            mime_types.wf(),
            keys_unique(e),
            it.seq() == e,
            mime_view(mime_types) == mime_view(old(mime_types)).remove_keys(
                map_of(e.take(it.index() as int)).dom(),
            ),
    {
        let ghost i = it.index() as int;
        remove_mime_type(mime_types, entry.0.as_str());
        proof {
            lemma_map_of_take(e, i);
        }
        assert(mime_view(mime_types) =~= mime_view(old(mime_types)).remove_keys(
            map_of(e.take(i + 1)).dom(),
        ));
    }
    assert(e.take(e.len() as int) =~= e);
}

} // verus!
