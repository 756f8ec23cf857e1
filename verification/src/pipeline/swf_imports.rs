//! The imports a SWF file declares, as P4K paths.
use vstd::prelude::*;

use crate::pipeline::swf_paths::{resolve_relative_swf_path, spec_resolve_relative_swf_path};

verus! {

/// What reading a SWF file gives for its tags: for each tag in file order,
/// the URL bytes of an `ImportAssets` / `ImportAssets2` tag and `None` for any
/// other tag; `None` as a whole when the file does not decompress or parse.
pub uninterp spec fn swf_import_tags(bytes: Seq<u8>) -> Option<Seq<Option<Seq<u8>>>>;

/// The text that `swf`'s lossy decoding gives for some bytes under UTF-8.
pub uninterp spec fn swf_lossy_utf8(bytes: Seq<u8>) -> Seq<char>;

/// Every byte is ASCII.
pub open spec fn all_ascii(bytes: Seq<u8>) -> bool {
    forall|i: int| 0 <= i < bytes.len() ==> #[trigger] bytes[i] < 128
}

/// The characters of ASCII bytes.
pub open spec fn ascii_chars(bytes: Seq<u8>) -> Seq<char> {
    bytes.map_values(|b: u8| b as char)
}

pub open spec fn tags_view(v: Seq<Option<Vec<u8>>>) -> Seq<Option<Seq<u8>>> {
    v.map_values(
        |o: Option<Vec<u8>>|
            match o {
                Some(b) => Some(b@),
                None => None,
            },
    )
}

/// Reads a SWF file with `swf::decompress_swf` and `swf::parse_swf` and lists
/// its tags, the URL bytes of each import tag and `None` for the others. The
/// result is named, not described: it is `swf_import_tags` of the bytes.
#[verifier::external_body]
fn read_swf_import_tags(bytes: &[u8]) -> (r: Option<Vec<Option<Vec<u8>>>>)
    ensures
        match r {
            Some(v) => swf_import_tags(bytes@) == Some(tags_view(v@)),
            None => swf_import_tags(bytes@) is None,
        },
{
    let buf = swf::decompress_swf(std::io::Cursor::new(bytes)).ok()?;
    let parsed = swf::parse_swf(&buf).ok()?;
    Some(
        parsed.tags.iter().map(
            |t| match t {
                swf::Tag::ImportAssets { url, .. } => Some(url.as_bytes().to_vec()),
                _ => None,
            },
        ).collect(),
    )
}

/// Whether bytes read as a SWF file: they decompress and parse.
pub fn reads_as_swf(bytes: &[u8]) -> (r: bool)
    ensures
        r == swf_import_tags(bytes@) is Some,
{
    read_swf_import_tags(bytes).is_some()
}

/// Decodes bytes as UTF-8 with `swf::SwfStr::to_string_lossy`, which puts the
/// replacement character in place of invalid data. The contract claims that
/// the result is `swf_lossy_utf8` of the bytes and that ASCII bytes decode to
/// the same characters; what invalid data becomes is left unsaid.
#[verifier::external_body]
fn swf_text_lossy(bytes: &[u8]) -> (r: String)
    ensures
        r@ == swf_lossy_utf8(bytes@),
        all_ascii(bytes@) ==> r@ == ascii_chars(bytes@),
{
    swf::SwfStr::from_bytes(bytes).to_string_lossy(swf::UTF_8)
}

/// The P4K paths named by import URLs of the SWF at `current`, in order;
/// URLs that resolve to nothing are dropped.
pub open spec fn import_paths_upto(current: Seq<char>, urls: Seq<Seq<char>>, k: int) -> Seq<Seq<char>>
    decreases k,
{
    if k <= 0 {
        Seq::empty()
    } else {
        let r = spec_resolve_relative_swf_path(current, urls[k - 1]);
        import_paths_upto(current, urls, k - 1) + if r.len() > 0 {
            seq![r]
        } else {
            Seq::empty()
        }
    }
}

/// The URL texts of the import tags among the first `k` tags.
pub open spec fn import_urls_upto(tags: Seq<Option<Seq<u8>>>, k: int) -> Seq<Seq<char>>
    decreases k,
{
    if k <= 0 {
        Seq::empty()
    } else {
        import_urls_upto(tags, k - 1) + match tags[k - 1] {
            Some(u) => seq![swf_lossy_utf8(u)],
            None => Seq::empty(),
        }
    }
}

/// The import paths a SWF file declares: nothing when it does not read.
pub open spec fn spec_collect_import_swf_paths(current: Seq<char>, bytes: Seq<u8>) -> Seq<Seq<char>> {
    match swf_import_tags(bytes) {
        None => Seq::empty(),
        Some(tags) => {
            let urls = import_urls_upto(tags, tags.len() as int);
            import_paths_upto(current, urls, urls.len() as int)
        },
    }
}

pub open spec fn texts(v: Seq<String>) -> Seq<Seq<char>> {
    v.map_values(|s: String| s@)
}

/// Resolve the import URLs of the SWF at `current_path` to P4K paths,
/// dropping those that name nothing.
pub fn import_paths_from_urls(current_path: &str, urls: &[String]) -> (r: Vec<String>)
    ensures
        texts(r@) == import_paths_upto(current_path@, texts(urls@), urls@.len() as int),
{
    let ghost uv = texts(urls@);
    let mut out: Vec<String> = Vec::new();
    let mut i: usize = 0;
    assert(texts(out@) =~= Seq::<Seq<char>>::empty());
    while i < urls.len()
        invariant
            i <= urls@.len(),
            uv == texts(urls@),
            texts(out@) == import_paths_upto(current_path@, uv, i as int),
        decreases urls@.len() - i,
    {
        assert(uv[i as int] == urls@[i as int]@);
        let resolved = resolve_relative_swf_path(current_path, urls[i].as_str());
        let ghost before = texts(out@);
        if !resolved.as_str().is_empty() {
            out.push(resolved);
            assert(texts(out@) =~= before.push(resolved@));
        } else {
            assert(texts(out@) =~= before + Seq::<Seq<char>>::empty());
        }
        i += 1;
    }
    out
}

/// The P4K paths of the SWF files that the SWF at `current_path` imports,
/// resolved against its directory; empty when the bytes do not read as SWF.
pub fn collect_import_swf_paths(current_path: &str, bytes: &[u8]) -> (r: Vec<String>)
    ensures
        texts(r@) == spec_collect_import_swf_paths(current_path@, bytes@),
{
    let tags = match read_swf_import_tags(bytes) {
        Some(t) => t,
        None => {
            let r: Vec<String> = Vec::new();
            assert(texts(r@) =~= Seq::<Seq<char>>::empty());
            return r;
        },
    };
    let ghost tv = tags_view(tags@);
    let mut urls: Vec<String> = Vec::new();
    let mut i: usize = 0;
    assert(texts(urls@) =~= import_urls_upto(tv, 0));
    while i < tags.len()
        invariant
            i <= tags@.len(),
            tv == tags_view(tags@),
            texts(urls@) == import_urls_upto(tv, i as int),
        decreases tags@.len() - i,
    {
        let ghost before = texts(urls@);
        match &tags[i] {
            Some(u) => {
                assert(tv[i as int] == Some(u@));
                let text = swf_text_lossy(u.as_slice());
                urls.push(text);
                assert(texts(urls@) =~= before + seq![swf_lossy_utf8(u@)]);
            },
            None => {
                assert(tv[i as int] is None);
                assert(texts(urls@) =~= before + Seq::<Seq<char>>::empty());
            },
        }
        i += 1;
    }
    import_paths_from_urls(current_path, urls.as_slice())
}

} // verus!
