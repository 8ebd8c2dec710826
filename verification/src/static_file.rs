//! Static asset bundles: several source files joined into one text, served
//! under a path that carries the MD5 digest of that text.

use vstd::prelude::*;
use crate::text::{contains, hex_bytes, hex_string, is_hex_char, lemma_hex_bytes_shape, spec_contains};

verus! {

/// The sixteen bytes of the MD5 digest of `data`, as `md5::compute` gives them.
pub uninterp spec fn spec_md5(data: Seq<u8>) -> Seq<u8>;

/// Calls `md5::compute` on `data` and hands out the digest bytes; they are
/// named `spec_md5`. The digest type is an array of sixteen bytes.
#[verifier::external_body]
fn md5_digest(data: &[u8]) -> (d: Vec<u8>)
    ensures
        d@ == spec_md5(data@),
        d@.len() == 16,
{
    md5::compute(data).0.to_vec()
}

/// One served bundle.
pub struct Bundle {
    pub name: String,
    pub mime_type: String,
    /// `/static/<md5 of content in hex>.<name>`
    pub path: String,
    pub content: String,
}

/// What a bundle is made of: its name, its MIME type and its source files.
pub struct BundleSource {
    pub name: String,
    pub mime_type: String,
    pub files: Vec<String>,
}

/// The text of a bundle whose source files read as `files` (`None` for a file
/// that could not be read): each file that was read, followed by a line break.
pub open spec fn joined(files: Seq<Option<String>>) -> Seq<char>
    decreases files.len(),
{
    if files.len() == 0 {
        Seq::empty()
    } else {
        joined(files.drop_last()) + match files.last() {
            Some(c) => c@ + seq!['\n'],
            None => Seq::empty(),
        }
    }
}

/// The path under which a bundle named `name` with text `content` is served.
pub open spec fn bundle_path(name: Seq<char>, content: Seq<char>) -> Seq<char> {
    "/static/"@ + hex_bytes(spec_md5(vstd::utf8::encode_utf8(content))) + "."@ + name
}

/// `b` is the bundle named `name` of type `mime` built from `files`.
pub open spec fn is_bundle_of(b: Bundle, name: Seq<char>, mime: Seq<char>, files: Seq<Option<String>>) -> bool {
    &&& b.name@ == name
    &&& b.mime_type@ == mime
    &&& b.content@ == joined(files)
    &&& b.path@ == bundle_path(name, joined(files))
    &&& spec_md5(vstd::utf8::encode_utf8(joined(files))).len() == 16
}

/// The path of a bundle is `/static/`, 32 lower-case hexadecimal digits (the MD5
/// digest of its text), `.` and its name.
pub proof fn law_bundle_path_shape(b: Bundle, name: Seq<char>, mime: Seq<char>, files: Seq<Option<String>>)
    requires
        is_bundle_of(b, name, mime, files),
    ensures
        b.path@ == "/static/"@ + hex_bytes(spec_md5(vstd::utf8::encode_utf8(b.content@))) + "."@ + name,
        hex_bytes(spec_md5(vstd::utf8::encode_utf8(b.content@))).len() == 32,
        forall|i: int|
            0 <= i < 32 ==> is_hex_char(#[trigger] hex_bytes(spec_md5(vstd::utf8::encode_utf8(b.content@)))[i]),
{
    lemma_hex_bytes_shape(spec_md5(vstd::utf8::encode_utf8(b.content@)));
}

/// The number of bundles the service serves.
pub const BUNDLE_COUNT: usize = 4;

/// Name of the `i`-th bundle.
pub open spec fn source_name(i: int) -> Seq<char> {
    if i == 0 {
        "bundle.css"@
    } else if i == 1 {
        "app.js"@
    } else if i == 2 {
        "tailwind_4_dev.js"@
    } else {
        "qrcode.js"@
    }
}

/// MIME type of the `i`-th bundle.
pub open spec fn source_mime(i: int) -> Seq<char> {
    if i == 0 {
        "text/css"@
    } else {
        "text/javascript"@
    }
}

/// Source files of the `i`-th bundle, in the order they are joined.
pub open spec fn source_files(i: int) -> Seq<Seq<char>> {
    if i == 0 {
        seq!["./src/static/output.css"@]
    } else if i == 1 {
        seq![
            "./src/static/reconnecting-websocket.min.js"@,
            "./src/static/custom.js"@,
            "./src/static/alpine_3_14_3.min.js"@,
        ]
    } else if i == 2 {
        seq!["./src/static/tailwind_4_dev.js"@]
    } else {
        seq!["./src/static/qrcode.min.js"@]
    }
}

/// What the `i`-th bundle is made of.
pub open spec fn is_source(s: BundleSource, i: int) -> bool {
    &&& s.name@ == source_name(i)
    &&& s.mime_type@ == source_mime(i)
    &&& s.files@.len() == source_files(i).len()
    &&& forall|k: int| 0 <= k < s.files@.len() ==> #[trigger] s.files@[k]@ == source_files(i)[k]
}

fn source(name: &str, mime_type: &str, files: Vec<String>) -> (s: BundleSource)
    ensures
        s.name@ == name@,
        s.mime_type@ == mime_type@,
        s.files == files,
{
    BundleSource { name: name.to_owned(), mime_type: mime_type.to_owned(), files }
}

/// The bundles the service serves and the files each is made of.
pub fn bundle_sources() -> (v: Vec<BundleSource>)
    ensures
        v@.len() == BUNDLE_COUNT,
        forall|i: int| 0 <= i < BUNDLE_COUNT ==> is_source(#[trigger] v@[i], i),
{
    let mut v: Vec<BundleSource> = Vec::new();
    v.push(source("bundle.css", "text/css", vec!["./src/static/output.css".to_owned()]));
    v.push(
        source(
            "app.js",
            "text/javascript",
            vec![
                "./src/static/reconnecting-websocket.min.js".to_owned(),
                "./src/static/custom.js".to_owned(),
                "./src/static/alpine_3_14_3.min.js".to_owned(),
            ],
        ),
    );
    v.push(
        source(
            "tailwind_4_dev.js",
            "text/javascript",
            vec!["./src/static/tailwind_4_dev.js".to_owned()],
        ),
    );
    v.push(source("qrcode.js", "text/javascript", vec!["./src/static/qrcode.min.js".to_owned()]));
    v
}

/// Joins the files that were read (each followed by a line break) and names the
/// result by its MD5 digest.
pub fn create_bundle(name: &str, mime_type: &str, files: &Vec<Option<String>>) -> (b: Bundle)
    ensures
        is_bundle_of(b, name@, mime_type@, files@),
{
    let mut content = String::new();
    let mut i: usize = 0;
    while i < files.len()
        invariant
            i <= files@.len(),
            content@ == joined(files@.take(i as int)),
        decreases files.len() - i,
    {
        proof {
            assert(files@.take(i + 1).drop_last() =~= files@.take(i as int));
        }
        match &files[i] {
            Some(c) => {
                content.append(c.as_str());
                content.append("\n");
            },
            None => {},
        }
        proof {
            reveal_strlit("\n");
        }
        assert(content@ =~= joined(files@.take(i + 1)));
        i = i + 1;
    }
    assert(files@.take(files@.len() as int) =~= files@);
    let digest = md5_digest(content.as_str().as_bytes());
    let mut path = String::from_str("/static/");
    let hex = hex_string(digest.as_slice());
    path.append(hex.as_str());
    path.append(".");
    path.append(name);
    Bundle { name: name.to_owned(), mime_type: mime_type.to_owned(), path, content }
}

/// Builds every bundle of `bundle_sources()` from the files read for it:
/// `contents[i][k]` is the `k`-th file of the `i`-th bundle, `None` where it could
/// not be read.
pub fn init(contents: &Vec<Vec<Option<String>>>) -> (bundles: Vec<Bundle>)
    requires
        contents@.len() == BUNDLE_COUNT,
    ensures
        bundles@.len() == BUNDLE_COUNT,
        forall|i: int|
            0 <= i < BUNDLE_COUNT ==> is_bundle_of(
                #[trigger] bundles@[i],
                source_name(i),
                source_mime(i),
                contents@[i]@,
            ),
{
    let sources = bundle_sources();
    let mut bundles: Vec<Bundle> = Vec::new();
    let mut i: usize = 0;
    while i < BUNDLE_COUNT
        invariant
            i <= BUNDLE_COUNT,
            contents@.len() == BUNDLE_COUNT,
            sources@.len() == BUNDLE_COUNT,
            forall|j: int| 0 <= j < BUNDLE_COUNT ==> is_source(#[trigger] sources@[j], j),
            bundles@.len() == i,
            forall|j: int|
                0 <= j < i ==> is_bundle_of(
                    #[trigger] bundles@[j],
                    source_name(j),
                    source_mime(j),
                    contents@[j]@,
                ),
        decreases BUNDLE_COUNT - i,
    {
        let s = &sources[i];
        assert(is_source(sources@[i as int], i as int));
        let b = create_bundle(s.name.as_str(), s.mime_type.as_str(), &contents[i]);
        bundles.push(b);
        i = i + 1;
    }
    bundles
}

/// Position of the first bundle named `name`.
pub open spec fn first_named(bundles: Seq<Bundle>, name: Seq<char>) -> int
    decreases bundles.len(),
{
    if bundles.len() == 0 {
        0
    } else if bundles[0].name@ == name {
        0
    } else {
        1 + first_named(bundles.drop_first(), name)
    }
}

/// Position of the first bundle whose name occurs in `file_name`, if any.
pub open spec fn first_in_file_name(bundles: Seq<Bundle>, file_name: Seq<char>) -> Option<int>
    decreases bundles.len(),
{
    if bundles.len() == 0 {
        None
    } else if spec_contains(file_name, bundles[0].name@) {
        Some(0)
    } else {
        match first_in_file_name(bundles.drop_first(), file_name) {
            Some(k) => Some(k + 1),
            None => None,
        }
    }
}

/// The path of the first bundle named `bundle_name`; there must be one.
pub fn get_path(bundles: &Vec<Bundle>, bundle_name: &str) -> (p: String)
    requires
        exists|i: int| 0 <= i < bundles@.len() && (#[trigger] bundles@[i]).name@ == bundle_name@,
    ensures
        0 <= first_named(bundles@, bundle_name@) < bundles@.len(),
        p@ == bundles@[first_named(bundles@, bundle_name@)].path@,
{
    let wanted = bundle_name.to_owned();
    let mut i: usize = 0;
    assert(bundles@.skip(0) =~= bundles@);
    while i < bundles.len()
        invariant
            i <= bundles@.len(),
            wanted@ == bundle_name@,
            exists|k: int| i <= k < bundles@.len() && (#[trigger] bundles@[k]).name@ == bundle_name@,
            first_named(bundles@, bundle_name@) == i + first_named(bundles@.skip(i as int), bundle_name@),
        decreases bundles.len() - i,
    {
        let ghost rest = bundles@.skip(i as int);
        assert(rest[0] == bundles@[i as int]);
        if bundles[i].name == wanted {
            return bundles[i].path.clone();
        }
        assert(rest.drop_first() =~= bundles@.skip(i + 1));
        i = i + 1;
    }
    String::new()
}

/// The first bundle whose name occurs in the requested `file_name`, as the
/// static file handler picks it.
pub fn bundle_for_file(bundles: &Vec<Bundle>, file_name: &str) -> (r: Option<usize>)
    ensures
        match r {
            Some(k) => first_in_file_name(bundles@, file_name@) == Some(k as int) && k < bundles@.len(),
            None => first_in_file_name(bundles@, file_name@) is None,
        },
{
    let mut i: usize = 0;
    assert(bundles@.skip(0) =~= bundles@);
    while i < bundles.len()
        invariant
            i <= bundles@.len(),
            first_in_file_name(bundles@, file_name@) == (match first_in_file_name(
                bundles@.skip(i as int),
                file_name@,
            ) {
                Some(k) => Some(k + i),
                None => None,
            }),
        decreases bundles.len() - i,
    {
        let ghost rest = bundles@.skip(i as int);
        assert(rest[0] == bundles@[i as int]);
        if contains(file_name, bundles[i].name.as_str()) {
            return Some(i);
        }
        assert(rest.drop_first() =~= bundles@.skip(i + 1));
        i = i + 1;
    }
    assert(bundles@.skip(i as int).len() == 0);
    None
}

} // verus!
