//! Pre-loaded, pre-compressed static assets and the decisions of serving
//! them: content types, ETags, conditional requests and Brotli encoding.
//! Reading the files and speaking HTTP are done by the caller.
use vstd::prelude::*;
use std::collections::hash_map::DefaultHasher;
use std::hash::{Hash, Hasher};
use vstd::std_specs::hash::DefaultHasherAdditionalSpecFns;
use crate::bot::tables::opt_view;
use crate::kv::{has_key, keys_unique, lemma_put, put, put_str, str_table_view, value_at, find_str_key};
use crate::num::{decimal, push_decimal};
use crate::text::{chars_of, is_whitespace, push_str, spec_is_whitespace, str_eq, string_from_range};
use crate::bot::scraper::{trim, trim_str};

verus! {

/// Why the assets could not be loaded.
pub enum LoadError {
    /// Reading `path` failed.
    IO { details: String, path: String },
    /// `path` is not valid UTF-8.
    InvalidPath { path: String },
}

// ---------------------------------------------------------------------------
// compression
// ---------------------------------------------------------------------------

/// The bytes a Brotli stream decodes to.
pub uninterp spec fn spec_brotli_decompress(data: Seq<u8>) -> Seq<u8>;

/// `brotli::CompressorWriter` (buffer 4096, quality 6, window 20): a
/// Brotli stream that decodes to the input (Brotli is lossless). Which
/// stream is written is left unsaid: without the crate's `portable-float`
/// feature the encoder's block splitting may differ between targets.
#[verifier::external_body]
fn compress_data(input: &[u8]) -> (r: Vec<u8>)
    ensures
        spec_brotli_decompress(r@) == input@,
{
    let mut bytes = vec![];
    let mut writer = brotli::CompressorWriter::new(&mut bytes, 4096, 6, 20);
    std::io::Write::write_all(&mut writer, input).expect("writing to a Vec cannot fail");
    drop(writer);
    bytes
}

/// `brotli::DecompressorWriter` (buffer 4096): the decoded bytes. The
/// decoder is not restated; the result is named as a function of the input.
#[verifier::external_body]
fn decompress_data(input: &[u8]) -> (r: Vec<u8>)
    ensures
        r@ == spec_brotli_decompress(input@),
{
    let mut bytes = vec![];
    let mut writer = brotli::DecompressorWriter::new(&mut bytes, 4096);
    let _ = std::io::Write::write_all(&mut writer, input);
    drop(writer);
    bytes
}

// ---------------------------------------------------------------------------
// ETags
// ---------------------------------------------------------------------------

/// `<[u8] as Hash>::hash` into a `DefaultHasher`: one write of a length
/// prefix, then one write of the bytes. The prefix (the length in native
/// byte order and width) depends on the machine and is left unsaid.
#[verifier::external_body]
fn hash_bytes_into(data: &[u8], hasher: &mut DefaultHasher)
    ensures
        exists|p: Seq<u8>| final(hasher)@ == old(hasher)@.push(p).push(data@),
{
    data.hash(hasher)
}

/// The ETag of `data` when its length prefix is written as `prefix`: the
/// `DefaultHasher` hash of the two writes.
pub open spec fn etag_of(prefix: Seq<u8>, data: Seq<u8>) -> Seq<char> {
    etag_text(DefaultHasher::spec_finish(seq![prefix, data]))
}

/// The ETag text for a hash value: the decimal hash in double quotes.
pub open spec fn etag_text(hash: u64) -> Seq<char> {
    "\""@ + decimal(hash as nat) + "\""@
}

/// The ETag for a hash value.
pub fn etag_from_hash(hash: u64) -> (r: String)
    ensures
        r@ == etag_text(hash),
{
    let mut s = String::new();
    push_str(&mut s, "\"");
    push_decimal(&mut s, hash);
    push_str(&mut s, "\"");
    s
}

/// Calculate a hash-based ETag for the given data: the `DefaultHasher`
/// hash of the bytes, in decimal, in double quotes.
pub fn calculate_etag(data: &[u8]) -> (r: String)
    ensures
        exists|p: Seq<u8>| r@ == etag_of(p, data@),
{
    let mut hasher = DefaultHasher::new();
    hash_bytes_into(data, &mut hasher);
    let ghost p = choose|p: Seq<u8>| hasher@ == Seq::<Seq<u8>>::empty().push(p).push(data@);
    assert(hasher@ =~= seq![p, data@]);
    let h = hasher.finish();
    let r = etag_from_hash(h);
    assert(r@ == etag_of(p, data@));
    r
}

/// A conditional request is answered "not modified" when its
/// `If-None-Match` value is exactly the ETag.
pub open spec fn spec_not_modified(if_none_match: Option<Seq<u8>>, etag: Seq<char>) -> bool {
    match if_none_match {
        Some(v) => v == vstd::utf8::encode_utf8(etag),
        None => false,
    }
}

/// Whether the client already has the current version: the bytes of its
/// `If-None-Match` header equal those of the ETag.
pub fn etag_matches(if_none_match: &Option<Vec<u8>>, etag: &str) -> (r: bool)
    ensures
        r == spec_not_modified(
            match if_none_match {
                Some(v) => Some(v@),
                None => None,
            },
            etag@,
        ),
{
    match if_none_match {
        Some(v) => {
            let b = etag.as_bytes();
            assert(b@ == vstd::utf8::encode_utf8(etag@));
            if v.len() != b.len() {
                return false;
            }
            let mut i: usize = 0;
            while i < v.len()
                invariant
                    i <= v.len() == b@.len(),
                    b@ == vstd::utf8::encode_utf8(etag@),
                    if_none_match matches Some(w) && w@ == v@,
                    forall|j: int| 0 <= j < i ==> v@[j] == b@[j],
                decreases v.len() - i,
            {
                if v[i] != b[i] {
                    assert(v@[i as int] != b@[i as int]);
                    assert(v@ != b@);
                    return false;
                }
                i = i + 1;
            }
            assert(v@ =~= b@);
            true
        },
        None => false,
    }
}

// ---------------------------------------------------------------------------
// content types and encodings
// ---------------------------------------------------------------------------

/// The text after the last `.` of `path`, or all of it when there is none
/// (the last piece of `path.split('.')`).
pub open spec fn last_piece(path: Seq<char>) -> Seq<char>
    decreases path.len(),
{
    if path.len() == 0 {
        seq![]
    } else if path.last() == '.' {
        seq![]
    } else {
        last_piece(path.drop_last()).push(path.last())
    }
}

/// The file extension of an asset path.
pub fn asset_ext(path: &str) -> (r: String)
    ensures
        r@ == last_piece(path@),
{
    let cs = chars_of(path);
    let mut start: usize = cs.len();
    assert(cs@.take(cs.len() as int) =~= cs@);
    assert(cs@.subrange(cs.len() as int, cs.len() as int) =~= Seq::<char>::empty());
    while start > 0 && cs[start - 1] != '.'
        invariant
            start <= cs.len(),
            cs@ == path@,
            last_piece(cs@) == last_piece(cs@.take(start as int)) + cs@.subrange(start as int, cs.len() as int),
        decreases start,
    {
        assert(cs@.take(start as int).drop_last() =~= cs@.take(start - 1));
        assert(cs@.subrange(start - 1, cs.len() as int) =~= seq![cs@[start - 1]] + cs@.subrange(
            start as int,
            cs.len() as int,
        ));
        start = start - 1;
    }
    proof {
        assert(cs@.take(cs.len() as int) =~= cs@);
    }
    string_from_range(&cs, start, cs.len())
}

/// The content type served for an extension, if it is one the assets
/// know.
pub open spec fn spec_content_type(ext: Seq<char>) -> Option<Seq<char>> {
    if ext == "js"@ {
        Some("application/javascript"@)
    } else if ext == "css"@ {
        Some("text/css"@)
    } else if ext == "svg"@ {
        Some("image/svg+xml"@)
    } else if ext == "ico"@ {
        Some("image/x-icon"@)
    } else {
        None
    }
}

/// The content type of an asset, from the extension of its path.
pub fn content_type(path: &str) -> (r: Option<&'static str>)
    ensures
        match r {
            Some(t) => spec_content_type(last_piece(path@)) == Some(t@),
            None => spec_content_type(last_piece(path@)) is None,
        },
{
    let ext = asset_ext(path);
    if str_eq(ext.as_str(), "js") {
        Some("application/javascript")
    } else if str_eq(ext.as_str(), "css") {
        Some("text/css")
    } else if str_eq(ext.as_str(), "svg") {
        Some("image/svg+xml")
    } else if str_eq(ext.as_str(), "ico") {
        Some("image/x-icon")
    } else {
        None
    }
}

/// Assets with these extensions are kept Brotli-compressed.
pub open spec fn spec_is_compressible(ext: Seq<char>) -> bool {
    ext == "css"@ || ext == "js"@ || ext == "svg"@ || ext == "json"@
}

/// Whether an asset with this extension is kept compressed.
pub fn is_compressible(ext: &str) -> (r: bool)
    ensures
        r == spec_is_compressible(ext@),
{
    str_eq(ext, "css") || str_eq(ext, "js") || str_eq(ext, "svg") || str_eq(ext, "json")
}

/// The comma-separated pieces of `s` (`s.split(',')`).
pub open spec fn comma_pieces(s: Seq<char>) -> Seq<Seq<char>>
    decreases s.len(),
{
    if s.len() == 0 {
        seq![seq![]]
    } else {
        let p = comma_pieces(s.drop_last());
        if s.last() == ',' {
            p.push(seq![])
        } else {
            p.update(p.len() - 1, p.last().push(s.last()))
        }
    }
}

/// An `Accept-Encoding` value offers Brotli when one of its
/// comma-separated entries is exactly `br` after trimming.
pub open spec fn offers_brotli(value: Seq<char>) -> bool {
    exists|i: int| 0 <= i < comma_pieces(value).len() && trim(#[trigger] comma_pieces(value)[i]) == "br"@
}

proof fn lemma_comma_pieces_nonempty(s: Seq<char>)
    ensures
        comma_pieces(s).len() >= 1,
    decreases s.len(),
{
    if s.len() > 0 {
        lemma_comma_pieces_nonempty(s.drop_last());
    }
}

/// Whether one `Accept-Encoding` value offers Brotli.
pub fn value_offers_brotli(value: &str) -> (r: bool)
    ensures
        r == offers_brotli(value@),
{
    let cs = chars_of(value);
    let mut pieces: Vec<String> = Vec::new();
    let mut cur = String::new();
    let mut i: usize = 0;
    assert(cs@.take(0) =~= Seq::<char>::empty());
    while i < cs.len()
        invariant
            i <= cs.len(),
            cs@ == value@,
            crate::text::views(pieces@).push(cur@) == comma_pieces(cs@.take(i as int)),
        decreases cs.len() - i,
    {
        let ghost p = comma_pieces(cs@.take(i as int));
        assert(cs@.take(i + 1).drop_last() =~= cs@.take(i as int));
        proof {
            lemma_comma_pieces_nonempty(cs@.take(i as int));
        }
        if cs[i] == ',' {
            let done = cur;
            pieces.push(done);
            cur = String::new();
            assert(crate::text::views(pieces@).push(cur@) =~= p.push(seq![]));
        } else {
            crate::text::push_char(&mut cur, cs[i]);
            assert(crate::text::views(pieces@).push(cur@) =~= p.update(p.len() - 1, p.last().push(cs@[i as int])));
        }
        i = i + 1;
    }
    assert(cs@.take(cs.len() as int) =~= cs@);
    pieces.push(cur);
    let ghost ps = comma_pieces(value@);
    assert(crate::text::views(pieces@) == ps);
    let mut j: usize = 0;
    while j < pieces.len()
        invariant
            j <= pieces.len(),
            ps == comma_pieces(value@),
            crate::text::views(pieces@) == ps,
            forall|k: int| 0 <= k < j ==> trim(#[trigger] ps[k]) != "br"@,
        decreases pieces.len() - j,
    {
        assert(ps[j as int] == pieces@[j as int]@);
        let t = trim_str(pieces[j].as_str());
        if str_eq(t.as_str(), "br") {
            assert(trim(ps[j as int]) == "br"@);
            assert(offers_brotli(value@));
            return true;
        }
        j = j + 1;
    }
    false
}

/// The client accepts Brotli when one of its `Accept-Encoding` header
/// values (those that are visible text) offers it.
pub open spec fn spec_accepts_brotli(values: Seq<Option<Seq<char>>>) -> bool {
    exists|i: int|
        0 <= i < values.len() && match #[trigger] values[i] {
            Some(v) => offers_brotli(v),
            None => false,
        }
}

/// Whether the request accepts Brotli, from its `Accept-Encoding` header
/// values (`None` for a value that is not visible text).
pub fn accepts_brotli(values: &Vec<Option<String>>) -> (r: bool)
    ensures
        r == spec_accepts_brotli(values@.map_values(|o: Option<String>| opt_view(o))),
{
    let ghost vs = values@.map_values(|o: Option<String>| opt_view(o));
    let mut i: usize = 0;
    while i < values.len()
        invariant
            i <= values.len(),
            vs == values@.map_values(|o: Option<String>| opt_view(o)),
            forall|k: int|
                0 <= k < i ==> match #[trigger] vs[k] {
                    Some(v) => !offers_brotli(v),
                    None => true,
                },
        decreases values.len() - i,
    {
        assert(vs[i as int] == opt_view(values@[i as int]));
        match &values[i] {
            Some(v) => {
                if value_offers_brotli(v.as_str()) {
                    return true;
                }
            },
            None => {},
        }
        i = i + 1;
    }
    false
}

/// The request path with its leading slashes removed
/// (`trim_start_matches('/')`).
pub open spec fn strip_slashes(p: Seq<char>) -> Seq<char>
    decreases p.len(),
{
    if p.len() > 0 && p[0] == '/' {
        strip_slashes(p.drop_first())
    } else {
        p
    }
}

/// The cache key of a request path.
pub fn asset_key(path: &str) -> (r: String)
    ensures
        r@ == strip_slashes(path@),
{
    let cs = chars_of(path);
    let mut a: usize = 0;
    assert(cs@.skip(0) =~= cs@);
    while a < cs.len() && cs[a] == '/'
        invariant
            a <= cs.len(),
            cs@ == path@,
            strip_slashes(path@) == strip_slashes(cs@.skip(a as int)),
        decreases cs.len() - a,
    {
        assert(cs@.skip(a as int).drop_first() =~= cs@.skip(a + 1));
        a = a + 1;
    }
    assert(cs@.skip(a as int) =~= cs@.subrange(a as int, cs.len() as int));
    string_from_range(&cs, a, cs.len())
}

// ---------------------------------------------------------------------------
// the assets
// ---------------------------------------------------------------------------

/// One pre-loaded asset: its path, and its bytes either Brotli-compressed or
/// as read.
pub struct StaticAsset {
    pub path: String,
    pub compressed: Option<Vec<u8>>,
    /// The bytes as read, when no compressed copy is kept.
    pub raw: Option<Vec<u8>>,
    pub etag: String,
}

/// What a request sees of an asset: its path, its ETag, whether a
/// compressed copy is kept, the bytes of its file, and the compressed copy.
pub struct AssetInfo {
    pub path: Seq<char>,
    pub etag: Seq<char>,
    pub compressed: bool,
    pub content: Seq<u8>,
    pub compressed_bytes: Option<Seq<u8>>,
}

impl StaticAsset {
    /// What a request sees of the asset.
    pub open spec fn info(&self) -> AssetInfo {
        AssetInfo {
            path: self.path@,
            etag: self.etag@,
            compressed: self.compressed is Some,
            content: self.content(),
            compressed_bytes: match self.compressed {
                Some(c) => Some(c@),
                None => None,
            },
        }
    }

    /// The bytes of the file the asset was loaded from.
    pub open spec fn content(&self) -> Seq<u8> {
        match self.raw {
            Some(r) => r@,
            None => match self.compressed {
                Some(c) => spec_brotli_decompress(c@),
                None => seq![],
            },
        }
    }

    /// An asset for the file at `path` with contents `data`: compressed
    /// when its extension is `css`, `js`, `svg` or `json`.
    pub fn new(path: String, ext: &str, data: Vec<u8>) -> (r: StaticAsset)
        ensures
            r.path@ == path@,
            r.content() == data@,
            r.compressed is Some <==> spec_is_compressible(ext@),
            r.compressed matches Some(c) ==> spec_brotli_decompress(c@) == data@,
            exists|p: Seq<u8>| r.etag@ == etag_of(p, data@),
    {
        let etag = calculate_etag(data.as_slice());
        if is_compressible(ext) {
            let c = compress_data(data.as_slice());
            StaticAsset { path, compressed: Some(c), raw: None, etag }
        } else {
            StaticAsset { path, compressed: None, raw: Some(data), etag }
        }
    }

    /// The file extension of the asset.
    pub fn ext(&self) -> (r: String)
        ensures
            r@ == last_piece(self.path@),
    {
        asset_ext(self.path.as_str())
    }

    /// The content type of the asset, from its file extension.
    pub fn content_type(&self) -> (r: Option<&'static str>)
        ensures
            match r {
                Some(t) => spec_content_type(last_piece(self.path@)) == Some(t@),
                None => spec_content_type(last_piece(self.path@)) is None,
            },
    {
        content_type(self.path.as_str())
    }

    /// The uncompressed bytes, decompressed when only the compressed copy is
    /// kept.
    pub fn raw(&self) -> (r: Vec<u8>)
        ensures
            r@ == self.content(),
    {
        match &self.raw {
            Some(r) => r.clone(),
            None => match &self.compressed {
                Some(c) => decompress_data(c.as_slice()),
                None => Vec::new(),
            },
        }
    }
}

/// The assets keyed by their path relative to the asset directory.
pub struct StaticAssets {
    assets: Vec<(String, StaticAsset)>,
}

impl StaticAssets {
    /// The keys are distinct.
    pub closed spec fn wf(&self) -> bool {
        keys_unique(self.keys())
    }

    /// The keys of the assets and what requests see of them.
    pub closed spec fn keys(&self) -> Seq<(Seq<char>, AssetInfo)> {
        self.assets@.map_values(|p: (String, StaticAsset)| (p.0@, p.1.info()))
    }

    /// No assets.
    pub fn new() -> (r: StaticAssets)
        ensures
            r.wf(),
            r.keys().len() == 0,
    {
        let r = StaticAssets { assets: Vec::new() };
        assert(r.keys() =~= Seq::empty());
        r
    }

    /// Adds an asset under `key`, replacing one with the same key.
    pub fn insert(&mut self, key: String, asset: StaticAsset)
        requires
            old(self).wf(),
        ensures
            final(self).wf(),
            final(self).keys() == put(old(self).keys(), key@, asset.info()),
    {
        let ghost s = self.keys();
        let ghost kv = key@;
        let ghost pv = asset.info();
        proof {
            lemma_put(s, kv, pv);
        }
        let mut i: usize = 0;
        while i < self.assets.len()
            invariant
                i <= self.assets.len(),
                s == self.keys(),
                keys_unique(s),
                kv == key@,
                pv == asset.info(),
                s == old(self).keys(),
                forall|j: int| 0 <= j < i ==> (#[trigger] s[j]).0 != kv,
            decreases self.assets.len() - i,
        {
            assert(s[i as int] == (self.assets@[i as int].0@, self.assets@[i as int].1.info()));
            if str_eq(self.assets[i].0.as_str(), key.as_str()) {
                assert(s[i as int].0 == kv);
                proof {
                    crate::kv::lemma_key_index(s, kv, i as int);
                }
                self.assets.set(i, (key, asset));
                assert(self.keys() =~= s.update(i as int, (kv, pv)));
                return;
            }
            i = i + 1;
        }
        assert(!has_key(s, kv));
        self.assets.push((key, asset));
        assert(self.keys() =~= s.push((kv, pv)));
    }

    /// Attempts to return a static asset from the cache from a cache key.
    /// If the asset is not found, `None` is returned.
    pub fn get(&self, key: &str) -> (r: Option<&StaticAsset>)
        requires
            self.wf(),
        ensures
            r is Some <==> has_key(self.keys(), key@),
            r matches Some(a) ==> a.info() == value_at(self.keys(), key@),
            r matches Some(a) ==> a.content() == value_at(self.keys(), key@).content,
    {
        let ghost s = self.keys();
        let mut i: usize = 0;
        while i < self.assets.len()
            invariant
                i <= self.assets.len(),
                s == self.keys(),
                keys_unique(s),
                forall|j: int| 0 <= j < i ==> (#[trigger] s[j]).0 != key@,
            decreases self.assets.len() - i,
        {
            assert(s[i as int] == (self.assets@[i as int].0@, self.assets@[i as int].1.info()));
            if str_eq(self.assets[i].0.as_str(), key) {
                proof {
                    crate::kv::lemma_key_index(s, key@, i as int);
                }
                return Some(&self.assets[i].1);
            }
            i = i + 1;
        }
        None
    }
}

/// How a request for an asset is answered.
pub enum AssetResponse {
    /// No asset under the path.
    NotFound,
    /// The client has the current version (304), with the content type and
    /// ETag headers.
    NotModified { content_type: &'static str },
    /// The asset's bytes, Brotli-encoded when `brotli`.
    Content { content_type: &'static str, brotli: bool },
}

/// The content type header of an asset: its known type, else
/// `application/octet-stream`.
pub open spec fn served_type(path: Seq<char>) -> Seq<char> {
    match spec_content_type(last_piece(path)) {
        Some(t) => t,
        None => "application/octet-stream"@,
    }
}

/// The answer to a request for `path`: not found without an asset under
/// its key; "not modified" when the `If-None-Match` value is the asset's
/// ETag; else the content, Brotli-encoded when the client accepts Brotli and
/// a compressed copy is kept.
pub open spec fn spec_response(
    keys: Seq<(Seq<char>, AssetInfo)>,
    path: Seq<char>,
    if_none_match: Option<Seq<u8>>,
    accept_encoding: Seq<Option<Seq<char>>>,
) -> (int, Seq<char>, bool) {
    let k = strip_slashes(path);
    if !has_key(keys, k) {
        (0, seq![], false)
    } else {
        let a = value_at(keys, k);
        if spec_not_modified(if_none_match, a.etag) {
            (1, served_type(a.path), false)
        } else {
            (2, served_type(a.path), spec_accepts_brotli(accept_encoding) && a.compressed)
        }
    }
}

/// A response as plain values: its kind (0 not found, 1 not modified, 2
/// content), content type and Brotli flag.
pub open spec fn response_view(r: AssetResponse) -> (int, Seq<char>, bool) {
    match r {
        AssetResponse::NotFound => (0, seq![], false),
        AssetResponse::NotModified { content_type } => (1, content_type@, false),
        AssetResponse::Content { content_type, brotli } => (2, content_type@, brotli),
    }
}

/// Decides the answer to a request for `path`, given its `If-None-Match`
/// header and its `Accept-Encoding` values.
pub fn plan_response(
    assets: &StaticAssets,
    path: &str,
    if_none_match: &Option<Vec<u8>>,
    accept_encoding: &Vec<Option<String>>,
) -> (r: AssetResponse)
    requires
        assets.wf(),
    ensures
        response_view(r) == spec_response(
            assets.keys(),
            path@,
            match if_none_match {
                Some(v) => Some(v@),
                None => None,
            },
            accept_encoding@.map_values(|o: Option<String>| opt_view(o)),
        ),
{
    let key = asset_key(path);
    let asset = match assets.get(key.as_str()) {
        Some(a) => a,
        None => return AssetResponse::NotFound,
    };
    let ct = match asset.content_type() {
        Some(t) => t,
        None => "application/octet-stream",
    };
    if etag_matches(if_none_match, asset.etag.as_str()) {
        return AssetResponse::NotModified { content_type: ct };
    }
    let brotli = accepts_brotli(accept_encoding) && asset.compressed.is_some();
    AssetResponse::Content { content_type: ct, brotli }
}

} // verus!
