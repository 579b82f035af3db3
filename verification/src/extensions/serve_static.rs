//! Serve static content from the file system.
use vstd::prelude::*;
use vstd::string::StringExecFns;
use vstd::string::StrSliceExecFns;
use vstd::utf8::{encode_utf8, is_ascii_chars_encode_utf8};

use crate::error::{Error, HandleError};
use crate::internal::path::{normalize_path, normalize_spec};
use crate::response::Response;
use crate::text::{
    chars_of, concat, has_prefix, has_suffix, push_str, str_eq, str_views, string_from_range,
};

verus! {

/// A file extension and its MIME type.
#[derive(Debug, Clone, Copy)]
pub struct MIME {
    extension: &'static str,
    mime_type: &'static str,
}

impl MIME {
    /// The extension.
    pub closed spec fn ext(&self) -> Seq<char> {
        self.extension@
    }

    /// The MIME type.
    pub closed spec fn mime(&self) -> Seq<char> {
        self.mime_type@
    }

    /// A new MIME type entry.
    pub fn new(extension: &'static str, mime_type: &'static str) -> (r: MIME)
        ensures
            r.ext() == extension@,
            r.mime() == mime_type@,
    {
        MIME { extension, mime_type }
    }
}

/// The extensions and MIME types of a list of entries.
pub open spec fn mime_views(v: Seq<MIME>) -> Seq<(Seq<char>, Seq<char>)> {
    v.map_values(|m: MIME| (m.ext(), m.mime()))
}

/// Common MIME types, sorted by extension.
pub open spec fn mime_table() -> Seq<(Seq<char>, Seq<char>)> {
    seq![
        ("7z"@, "application/x-7z-compressed"@),
        ("aac"@, "audio/aac"@),
        ("avi"@, "video/x-msvideo"@),
        ("bin"@, "application/octet-stream"@),
        ("bmp"@, "image/bmp"@),
        ("bz"@, "application/x-bzip"@),
        ("bz2"@, "application/x-bzip2"@),
        ("cda"@, "application/x-cdf"@),
        ("css"@, "text/css"@),
        ("csv"@, "text/csv"@),
        ("epub"@, "application/epub+zip"@),
        ("gif"@, "image/gif"@),
        ("gz"@, "application/gzip"@),
        ("htm"@, "text/html"@),
        ("html"@, "text/html"@),
        ("ico"@, "image/x-icon"@),
        ("ics"@, "text/calendar"@),
        ("jar"@, "application/java-archive"@),
        ("jpeg"@, "image/jpeg"@),
        ("jpg"@, "image/jpeg"@),
        ("js"@, "application/javascript"@),
        ("json"@, "application/json"@),
        ("jsonld"@, "application/ld+json"@),
        ("mid"@, "audio/midi audio/x-midi"@),
        ("midi"@, "audio/midi audio/x-midi"@),
        ("mjs"@, "text/javascript"@),
        ("mp3"@, "audio/mpeg"@),
        ("mp4"@, "video/mp4"@),
        ("mpeg"@, "video/mpeg"@),
        ("oga"@, "audio/ogg"@),
        ("ogv"@, "video/ogg"@),
        ("ogx"@, "application/ogg"@),
        ("opus"@, "audio/opus"@),
        ("otf"@, "font/otf"@),
        ("pdf"@, "application/pdf"@),
        ("png"@, "image/png"@),
        ("rar"@, "application/vnd.rar"@),
        ("rtf"@, "application/rtf"@),
        ("sh"@, "application/x-sh"@),
        ("svg"@, "image/svg+xml"@),
        ("swf"@, "application/x-shockwave-flash"@),
        ("tar"@, "application/x-tar"@),
        ("tif"@, "image/tiff"@),
        ("tiff"@, "image/tiff"@),
        ("ts"@, "text/x-typescript"@),
        ("ttf"@, "font/ttf"@),
        ("txt"@, "text/plain"@),
        ("wav"@, "audio/wav"@),
        ("weba"@, "audio/webm"@),
        ("webm"@, "video/webm"@),
        ("webp"@, "image/webp"@),
        ("woff"@, "font/woff"@),
        ("woff2"@, "font/woff2"@),
        ("xhtml"@, "application/xhtml+xml"@),
        ("xml"@, "application/xml"@),
        ("zip"@, "application/zip"@)
    ]
}

/// Common MIME types (sorted in alphabetical order by extension), as used by
/// the static file server.
pub fn types() -> (r: Vec<MIME>)
    ensures
        mime_views(r@) == mime_table(),
        sorted_by_extension(r@),
{
    let mut v: Vec<MIME> = Vec::new();
    v.push(MIME::new("7z", "application/x-7z-compressed"));
    v.push(MIME::new("aac", "audio/aac"));
    v.push(MIME::new("avi", "video/x-msvideo"));
    v.push(MIME::new("bin", "application/octet-stream"));
    v.push(MIME::new("bmp", "image/bmp"));
    v.push(MIME::new("bz", "application/x-bzip"));
    v.push(MIME::new("bz2", "application/x-bzip2"));
    v.push(MIME::new("cda", "application/x-cdf"));
    v.push(MIME::new("css", "text/css"));
    v.push(MIME::new("csv", "text/csv"));
    v.push(MIME::new("epub", "application/epub+zip"));
    v.push(MIME::new("gif", "image/gif"));
    v.push(MIME::new("gz", "application/gzip"));
    v.push(MIME::new("htm", "text/html"));
    v.push(MIME::new("html", "text/html"));
    v.push(MIME::new("ico", "image/x-icon"));
    v.push(MIME::new("ics", "text/calendar"));
    v.push(MIME::new("jar", "application/java-archive"));
    v.push(MIME::new("jpeg", "image/jpeg"));
    v.push(MIME::new("jpg", "image/jpeg"));
    v.push(MIME::new("js", "application/javascript"));
    v.push(MIME::new("json", "application/json"));
    v.push(MIME::new("jsonld", "application/ld+json"));
    v.push(MIME::new("mid", "audio/midi audio/x-midi"));
    v.push(MIME::new("midi", "audio/midi audio/x-midi"));
    v.push(MIME::new("mjs", "text/javascript"));
    v.push(MIME::new("mp3", "audio/mpeg"));
    v.push(MIME::new("mp4", "video/mp4"));
    v.push(MIME::new("mpeg", "video/mpeg"));
    v.push(MIME::new("oga", "audio/ogg"));
    v.push(MIME::new("ogv", "video/ogg"));
    v.push(MIME::new("ogx", "application/ogg"));
    v.push(MIME::new("opus", "audio/opus"));
    v.push(MIME::new("otf", "font/otf"));
    v.push(MIME::new("pdf", "application/pdf"));
    v.push(MIME::new("png", "image/png"));
    v.push(MIME::new("rar", "application/vnd.rar"));
    v.push(MIME::new("rtf", "application/rtf"));
    v.push(MIME::new("sh", "application/x-sh"));
    v.push(MIME::new("svg", "image/svg+xml"));
    v.push(MIME::new("swf", "application/x-shockwave-flash"));
    v.push(MIME::new("tar", "application/x-tar"));
    v.push(MIME::new("tif", "image/tiff"));
    v.push(MIME::new("tiff", "image/tiff"));
    v.push(MIME::new("ts", "text/x-typescript"));
    v.push(MIME::new("ttf", "font/ttf"));
    v.push(MIME::new("txt", "text/plain"));
    v.push(MIME::new("wav", "audio/wav"));
    v.push(MIME::new("weba", "audio/webm"));
    v.push(MIME::new("webm", "video/webm"));
    v.push(MIME::new("webp", "image/webp"));
    v.push(MIME::new("woff", "font/woff"));
    v.push(MIME::new("woff2", "font/woff2"));
    v.push(MIME::new("xhtml", "application/xhtml+xml"));
    v.push(MIME::new("xml", "application/xml"));
    v.push(MIME::new("zip", "application/zip"));
    assert(mime_views(v@) =~= mime_table());
    proof {
        lemma_table_sorted();
        assert forall|i: int, j: int| 0 <= i < j < v@.len() implies bytes_less(
            encode_utf8(#[trigger] v@[i].ext()),
            encode_utf8(#[trigger] v@[j].ext()),
        ) by {
            assert(mime_views(v@)[i] == mime_table()[i]);
            assert(mime_views(v@)[j] == mime_table()[j]);
            assert(v@[i].ext() == mime_table()[i].0);
            assert(v@[j].ext() == mime_table()[j].0);
            assert(j < mime_table().len());
        }
    }
    v
}

/// `a` comes before `b` in byte order.
pub open spec fn bytes_less(a: Seq<u8>, b: Seq<u8>) -> bool
    decreases a.len(),
{
    if a.len() == 0 {
        b.len() > 0
    } else if b.len() == 0 {
        false
    } else if a[0] != b[0] {
        a[0] < b[0]
    } else {
        bytes_less(a.drop_first(), b.drop_first())
    }
}

proof fn lemma_bytes_less_trans(a: Seq<u8>, b: Seq<u8>, c: Seq<u8>)
    requires
        bytes_less(a, b),
        bytes_less(b, c),
    ensures
        bytes_less(a, c),
    decreases a.len(),
{
    if a.len() > 0 && b.len() > 0 && c.len() > 0 && a[0] == b[0] && b[0] == c[0] {
        lemma_bytes_less_trans(a.drop_first(), b.drop_first(), c.drop_first());
    }
}

proof fn lemma_table_steps_0()
    ensures
        forall|k: int| 0 <= k <= 7 ==> bytes_less(
            encode_utf8(#[trigger] mime_table()[k].0),
            encode_utf8(mime_table()[k + 1].0),
        ),
{
    let t = mime_table();
    assert(bytes_less(encode_utf8(t[0].0), encode_utf8(t[1].0))) by {
        reveal_strlit("7z");
        reveal_strlit("aac");
        is_ascii_chars_encode_utf8("7z"@);
        is_ascii_chars_encode_utf8("aac"@);
    }
    assert(bytes_less(encode_utf8(t[1].0), encode_utf8(t[2].0))) by {
        reveal_with_fuel(bytes_less, 3);
        reveal_strlit("aac");
        reveal_strlit("avi");
        is_ascii_chars_encode_utf8("aac"@);
        is_ascii_chars_encode_utf8("avi"@);
    }
    assert(bytes_less(encode_utf8(t[2].0), encode_utf8(t[3].0))) by {
        reveal_strlit("avi");
        reveal_strlit("bin");
        is_ascii_chars_encode_utf8("avi"@);
        is_ascii_chars_encode_utf8("bin"@);
    }
    assert(bytes_less(encode_utf8(t[3].0), encode_utf8(t[4].0))) by {
        reveal_with_fuel(bytes_less, 3);
        reveal_strlit("bin");
        reveal_strlit("bmp");
        is_ascii_chars_encode_utf8("bin"@);
        is_ascii_chars_encode_utf8("bmp"@);
    }
    assert(bytes_less(encode_utf8(t[4].0), encode_utf8(t[5].0))) by {
        reveal_with_fuel(bytes_less, 3);
        reveal_strlit("bmp");
        reveal_strlit("bz");
        is_ascii_chars_encode_utf8("bmp"@);
        is_ascii_chars_encode_utf8("bz"@);
    }
    assert(bytes_less(encode_utf8(t[5].0), encode_utf8(t[6].0))) by {
        reveal_with_fuel(bytes_less, 4);
        reveal_strlit("bz");
        reveal_strlit("bz2");
        is_ascii_chars_encode_utf8("bz"@);
        is_ascii_chars_encode_utf8("bz2"@);
    }
    assert(bytes_less(encode_utf8(t[6].0), encode_utf8(t[7].0))) by {
        reveal_strlit("bz2");
        reveal_strlit("cda");
        is_ascii_chars_encode_utf8("bz2"@);
        is_ascii_chars_encode_utf8("cda"@);
    }
    assert(bytes_less(encode_utf8(t[7].0), encode_utf8(t[8].0))) by {
        reveal_with_fuel(bytes_less, 3);
        reveal_strlit("cda");
        reveal_strlit("css");
        is_ascii_chars_encode_utf8("cda"@);
        is_ascii_chars_encode_utf8("css"@);
    }
    assert forall|k: int| 0 <= k <= 7 implies bytes_less(
        encode_utf8(#[trigger] t[k].0),
        encode_utf8(t[k + 1].0),
    ) by {}
}

proof fn lemma_table_steps_1()
    ensures
        forall|k: int| 8 <= k <= 15 ==> bytes_less(
            encode_utf8(#[trigger] mime_table()[k].0),
            encode_utf8(mime_table()[k + 1].0),
        ),
{
    let t = mime_table();
    assert(bytes_less(encode_utf8(t[8].0), encode_utf8(t[9].0))) by {
        reveal_with_fuel(bytes_less, 4);
        reveal_strlit("css");
        reveal_strlit("csv");
        is_ascii_chars_encode_utf8("css"@);
        is_ascii_chars_encode_utf8("csv"@);
    }
    assert(bytes_less(encode_utf8(t[9].0), encode_utf8(t[10].0))) by {
        reveal_strlit("csv");
        reveal_strlit("epub");
        is_ascii_chars_encode_utf8("csv"@);
        is_ascii_chars_encode_utf8("epub"@);
    }
    assert(bytes_less(encode_utf8(t[10].0), encode_utf8(t[11].0))) by {
        reveal_strlit("epub");
        reveal_strlit("gif");
        is_ascii_chars_encode_utf8("epub"@);
        is_ascii_chars_encode_utf8("gif"@);
    }
    assert(bytes_less(encode_utf8(t[11].0), encode_utf8(t[12].0))) by {
        reveal_with_fuel(bytes_less, 3);
        reveal_strlit("gif");
        reveal_strlit("gz");
        is_ascii_chars_encode_utf8("gif"@);
        is_ascii_chars_encode_utf8("gz"@);
    }
    assert(bytes_less(encode_utf8(t[12].0), encode_utf8(t[13].0))) by {
        reveal_strlit("gz");
        reveal_strlit("htm");
        is_ascii_chars_encode_utf8("gz"@);
        is_ascii_chars_encode_utf8("htm"@);
    }
    assert(bytes_less(encode_utf8(t[13].0), encode_utf8(t[14].0))) by {
        reveal_with_fuel(bytes_less, 5);
        reveal_strlit("htm");
        reveal_strlit("html");
        is_ascii_chars_encode_utf8("htm"@);
        is_ascii_chars_encode_utf8("html"@);
    }
    assert(bytes_less(encode_utf8(t[14].0), encode_utf8(t[15].0))) by {
        reveal_strlit("html");
        reveal_strlit("ico");
        is_ascii_chars_encode_utf8("html"@);
        is_ascii_chars_encode_utf8("ico"@);
    }
    assert(bytes_less(encode_utf8(t[15].0), encode_utf8(t[16].0))) by {
        reveal_with_fuel(bytes_less, 4);
        reveal_strlit("ico");
        reveal_strlit("ics");
        is_ascii_chars_encode_utf8("ico"@);
        is_ascii_chars_encode_utf8("ics"@);
    }
    assert forall|k: int| 8 <= k <= 15 implies bytes_less(
        encode_utf8(#[trigger] t[k].0),
        encode_utf8(t[k + 1].0),
    ) by {}
}

proof fn lemma_table_steps_2()
    ensures
        forall|k: int| 16 <= k <= 23 ==> bytes_less(
            encode_utf8(#[trigger] mime_table()[k].0),
            encode_utf8(mime_table()[k + 1].0),
        ),
{
    let t = mime_table();
    assert(bytes_less(encode_utf8(t[16].0), encode_utf8(t[17].0))) by {
        reveal_strlit("ics");
        reveal_strlit("jar");
        is_ascii_chars_encode_utf8("ics"@);
        is_ascii_chars_encode_utf8("jar"@);
    }
    assert(bytes_less(encode_utf8(t[17].0), encode_utf8(t[18].0))) by {
        reveal_with_fuel(bytes_less, 3);
        reveal_strlit("jar");
        reveal_strlit("jpeg");
        is_ascii_chars_encode_utf8("jar"@);
        is_ascii_chars_encode_utf8("jpeg"@);
    }
    assert(bytes_less(encode_utf8(t[18].0), encode_utf8(t[19].0))) by {
        reveal_with_fuel(bytes_less, 4);
        reveal_strlit("jpeg");
        reveal_strlit("jpg");
        is_ascii_chars_encode_utf8("jpeg"@);
        is_ascii_chars_encode_utf8("jpg"@);
    }
    assert(bytes_less(encode_utf8(t[19].0), encode_utf8(t[20].0))) by {
        reveal_with_fuel(bytes_less, 3);
        reveal_strlit("jpg");
        reveal_strlit("js");
        is_ascii_chars_encode_utf8("jpg"@);
        is_ascii_chars_encode_utf8("js"@);
    }
    assert(bytes_less(encode_utf8(t[20].0), encode_utf8(t[21].0))) by {
        reveal_with_fuel(bytes_less, 4);
        reveal_strlit("js");
        reveal_strlit("json");
        is_ascii_chars_encode_utf8("js"@);
        is_ascii_chars_encode_utf8("json"@);
    }
    assert(bytes_less(encode_utf8(t[21].0), encode_utf8(t[22].0))) by {
        reveal_with_fuel(bytes_less, 6);
        reveal_strlit("json");
        reveal_strlit("jsonld");
        is_ascii_chars_encode_utf8("json"@);
        is_ascii_chars_encode_utf8("jsonld"@);
    }
    assert(bytes_less(encode_utf8(t[22].0), encode_utf8(t[23].0))) by {
        reveal_strlit("jsonld");
        reveal_strlit("mid");
        is_ascii_chars_encode_utf8("jsonld"@);
        is_ascii_chars_encode_utf8("mid"@);
    }
    assert(bytes_less(encode_utf8(t[23].0), encode_utf8(t[24].0))) by {
        reveal_with_fuel(bytes_less, 5);
        reveal_strlit("mid");
        reveal_strlit("midi");
        is_ascii_chars_encode_utf8("mid"@);
        is_ascii_chars_encode_utf8("midi"@);
    }
    assert forall|k: int| 16 <= k <= 23 implies bytes_less(
        encode_utf8(#[trigger] t[k].0),
        encode_utf8(t[k + 1].0),
    ) by {}
}

proof fn lemma_table_steps_3()
    ensures
        forall|k: int| 24 <= k <= 31 ==> bytes_less(
            encode_utf8(#[trigger] mime_table()[k].0),
            encode_utf8(mime_table()[k + 1].0),
        ),
{
    let t = mime_table();
    assert(bytes_less(encode_utf8(t[24].0), encode_utf8(t[25].0))) by {
        reveal_with_fuel(bytes_less, 3);
        reveal_strlit("midi");
        reveal_strlit("mjs");
        is_ascii_chars_encode_utf8("midi"@);
        is_ascii_chars_encode_utf8("mjs"@);
    }
    assert(bytes_less(encode_utf8(t[25].0), encode_utf8(t[26].0))) by {
        reveal_with_fuel(bytes_less, 3);
        reveal_strlit("mjs");
        reveal_strlit("mp3");
        is_ascii_chars_encode_utf8("mjs"@);
        is_ascii_chars_encode_utf8("mp3"@);
    }
    assert(bytes_less(encode_utf8(t[26].0), encode_utf8(t[27].0))) by {
        reveal_with_fuel(bytes_less, 4);
        reveal_strlit("mp3");
        reveal_strlit("mp4");
        is_ascii_chars_encode_utf8("mp3"@);
        is_ascii_chars_encode_utf8("mp4"@);
    }
    assert(bytes_less(encode_utf8(t[27].0), encode_utf8(t[28].0))) by {
        reveal_with_fuel(bytes_less, 4);
        reveal_strlit("mp4");
        reveal_strlit("mpeg");
        is_ascii_chars_encode_utf8("mp4"@);
        is_ascii_chars_encode_utf8("mpeg"@);
    }
    assert(bytes_less(encode_utf8(t[28].0), encode_utf8(t[29].0))) by {
        reveal_strlit("mpeg");
        reveal_strlit("oga");
        is_ascii_chars_encode_utf8("mpeg"@);
        is_ascii_chars_encode_utf8("oga"@);
    }
    assert(bytes_less(encode_utf8(t[29].0), encode_utf8(t[30].0))) by {
        reveal_with_fuel(bytes_less, 4);
        reveal_strlit("oga");
        reveal_strlit("ogv");
        is_ascii_chars_encode_utf8("oga"@);
        is_ascii_chars_encode_utf8("ogv"@);
    }
    assert(bytes_less(encode_utf8(t[30].0), encode_utf8(t[31].0))) by {
        reveal_with_fuel(bytes_less, 4);
        reveal_strlit("ogv");
        reveal_strlit("ogx");
        is_ascii_chars_encode_utf8("ogv"@);
        is_ascii_chars_encode_utf8("ogx"@);
    }
    assert(bytes_less(encode_utf8(t[31].0), encode_utf8(t[32].0))) by {
        reveal_with_fuel(bytes_less, 3);
        reveal_strlit("ogx");
        reveal_strlit("opus");
        is_ascii_chars_encode_utf8("ogx"@);
        is_ascii_chars_encode_utf8("opus"@);
    }
    assert forall|k: int| 24 <= k <= 31 implies bytes_less(
        encode_utf8(#[trigger] t[k].0),
        encode_utf8(t[k + 1].0),
    ) by {}
}

proof fn lemma_table_steps_4()
    ensures
        forall|k: int| 32 <= k <= 39 ==> bytes_less(
            encode_utf8(#[trigger] mime_table()[k].0),
            encode_utf8(mime_table()[k + 1].0),
        ),
{
    let t = mime_table();
    assert(bytes_less(encode_utf8(t[32].0), encode_utf8(t[33].0))) by {
        reveal_with_fuel(bytes_less, 3);
        reveal_strlit("opus");
        reveal_strlit("otf");
        is_ascii_chars_encode_utf8("opus"@);
        is_ascii_chars_encode_utf8("otf"@);
    }
    assert(bytes_less(encode_utf8(t[33].0), encode_utf8(t[34].0))) by {
        reveal_strlit("otf");
        reveal_strlit("pdf");
        is_ascii_chars_encode_utf8("otf"@);
        is_ascii_chars_encode_utf8("pdf"@);
    }
    assert(bytes_less(encode_utf8(t[34].0), encode_utf8(t[35].0))) by {
        reveal_with_fuel(bytes_less, 3);
        reveal_strlit("pdf");
        reveal_strlit("png");
        is_ascii_chars_encode_utf8("pdf"@);
        is_ascii_chars_encode_utf8("png"@);
    }
    assert(bytes_less(encode_utf8(t[35].0), encode_utf8(t[36].0))) by {
        reveal_strlit("png");
        reveal_strlit("rar");
        is_ascii_chars_encode_utf8("png"@);
        is_ascii_chars_encode_utf8("rar"@);
    }
    assert(bytes_less(encode_utf8(t[36].0), encode_utf8(t[37].0))) by {
        reveal_with_fuel(bytes_less, 3);
        reveal_strlit("rar");
        reveal_strlit("rtf");
        is_ascii_chars_encode_utf8("rar"@);
        is_ascii_chars_encode_utf8("rtf"@);
    }
    assert(bytes_less(encode_utf8(t[37].0), encode_utf8(t[38].0))) by {
        reveal_strlit("rtf");
        reveal_strlit("sh");
        is_ascii_chars_encode_utf8("rtf"@);
        is_ascii_chars_encode_utf8("sh"@);
    }
    assert(bytes_less(encode_utf8(t[38].0), encode_utf8(t[39].0))) by {
        reveal_with_fuel(bytes_less, 3);
        reveal_strlit("sh");
        reveal_strlit("svg");
        is_ascii_chars_encode_utf8("sh"@);
        is_ascii_chars_encode_utf8("svg"@);
    }
    assert(bytes_less(encode_utf8(t[39].0), encode_utf8(t[40].0))) by {
        reveal_with_fuel(bytes_less, 3);
        reveal_strlit("svg");
        reveal_strlit("swf");
        is_ascii_chars_encode_utf8("svg"@);
        is_ascii_chars_encode_utf8("swf"@);
    }
    assert forall|k: int| 32 <= k <= 39 implies bytes_less(
        encode_utf8(#[trigger] t[k].0),
        encode_utf8(t[k + 1].0),
    ) by {}
}

proof fn lemma_table_steps_5()
    ensures
        forall|k: int| 40 <= k <= 47 ==> bytes_less(
            encode_utf8(#[trigger] mime_table()[k].0),
            encode_utf8(mime_table()[k + 1].0),
        ),
{
    let t = mime_table();
    assert(bytes_less(encode_utf8(t[40].0), encode_utf8(t[41].0))) by {
        reveal_strlit("swf");
        reveal_strlit("tar");
        is_ascii_chars_encode_utf8("swf"@);
        is_ascii_chars_encode_utf8("tar"@);
    }
    assert(bytes_less(encode_utf8(t[41].0), encode_utf8(t[42].0))) by {
        reveal_with_fuel(bytes_less, 3);
        reveal_strlit("tar");
        reveal_strlit("tif");
        is_ascii_chars_encode_utf8("tar"@);
        is_ascii_chars_encode_utf8("tif"@);
    }
    assert(bytes_less(encode_utf8(t[42].0), encode_utf8(t[43].0))) by {
        reveal_with_fuel(bytes_less, 5);
        reveal_strlit("tif");
        reveal_strlit("tiff");
        is_ascii_chars_encode_utf8("tif"@);
        is_ascii_chars_encode_utf8("tiff"@);
    }
    assert(bytes_less(encode_utf8(t[43].0), encode_utf8(t[44].0))) by {
        reveal_with_fuel(bytes_less, 3);
        reveal_strlit("tiff");
        reveal_strlit("ts");
        is_ascii_chars_encode_utf8("tiff"@);
        is_ascii_chars_encode_utf8("ts"@);
    }
    assert(bytes_less(encode_utf8(t[44].0), encode_utf8(t[45].0))) by {
        reveal_with_fuel(bytes_less, 3);
        reveal_strlit("ts");
        reveal_strlit("ttf");
        is_ascii_chars_encode_utf8("ts"@);
        is_ascii_chars_encode_utf8("ttf"@);
    }
    assert(bytes_less(encode_utf8(t[45].0), encode_utf8(t[46].0))) by {
        reveal_with_fuel(bytes_less, 3);
        reveal_strlit("ttf");
        reveal_strlit("txt");
        is_ascii_chars_encode_utf8("ttf"@);
        is_ascii_chars_encode_utf8("txt"@);
    }
    assert(bytes_less(encode_utf8(t[46].0), encode_utf8(t[47].0))) by {
        reveal_strlit("txt");
        reveal_strlit("wav");
        is_ascii_chars_encode_utf8("txt"@);
        is_ascii_chars_encode_utf8("wav"@);
    }
    assert(bytes_less(encode_utf8(t[47].0), encode_utf8(t[48].0))) by {
        reveal_with_fuel(bytes_less, 3);
        reveal_strlit("wav");
        reveal_strlit("weba");
        is_ascii_chars_encode_utf8("wav"@);
        is_ascii_chars_encode_utf8("weba"@);
    }
    assert forall|k: int| 40 <= k <= 47 implies bytes_less(
        encode_utf8(#[trigger] t[k].0),
        encode_utf8(t[k + 1].0),
    ) by {}
}

proof fn lemma_table_steps_6()
    ensures
        forall|k: int| 48 <= k <= 54 ==> bytes_less(
            encode_utf8(#[trigger] mime_table()[k].0),
            encode_utf8(mime_table()[k + 1].0),
        ),
{
    let t = mime_table();
    assert(bytes_less(encode_utf8(t[48].0), encode_utf8(t[49].0))) by {
        reveal_with_fuel(bytes_less, 5);
        reveal_strlit("weba");
        reveal_strlit("webm");
        is_ascii_chars_encode_utf8("weba"@);
        is_ascii_chars_encode_utf8("webm"@);
    }
    assert(bytes_less(encode_utf8(t[49].0), encode_utf8(t[50].0))) by {
        reveal_with_fuel(bytes_less, 5);
        reveal_strlit("webm");
        reveal_strlit("webp");
        is_ascii_chars_encode_utf8("webm"@);
        is_ascii_chars_encode_utf8("webp"@);
    }
    assert(bytes_less(encode_utf8(t[50].0), encode_utf8(t[51].0))) by {
        reveal_with_fuel(bytes_less, 3);
        reveal_strlit("webp");
        reveal_strlit("woff");
        is_ascii_chars_encode_utf8("webp"@);
        is_ascii_chars_encode_utf8("woff"@);
    }
    assert(bytes_less(encode_utf8(t[51].0), encode_utf8(t[52].0))) by {
        reveal_with_fuel(bytes_less, 6);
        reveal_strlit("woff");
        reveal_strlit("woff2");
        is_ascii_chars_encode_utf8("woff"@);
        is_ascii_chars_encode_utf8("woff2"@);
    }
    assert(bytes_less(encode_utf8(t[52].0), encode_utf8(t[53].0))) by {
        reveal_strlit("woff2");
        reveal_strlit("xhtml");
        is_ascii_chars_encode_utf8("woff2"@);
        is_ascii_chars_encode_utf8("xhtml"@);
    }
    assert(bytes_less(encode_utf8(t[53].0), encode_utf8(t[54].0))) by {
        reveal_with_fuel(bytes_less, 3);
        reveal_strlit("xhtml");
        reveal_strlit("xml");
        is_ascii_chars_encode_utf8("xhtml"@);
        is_ascii_chars_encode_utf8("xml"@);
    }
    assert(bytes_less(encode_utf8(t[54].0), encode_utf8(t[55].0))) by {
        reveal_strlit("xml");
        reveal_strlit("zip");
        is_ascii_chars_encode_utf8("xml"@);
        is_ascii_chars_encode_utf8("zip"@);
    }
    assert forall|k: int| 48 <= k <= 54 implies bytes_less(
        encode_utf8(#[trigger] t[k].0),
        encode_utf8(t[k + 1].0),
    ) by {}
}

proof fn lemma_table_steps()
    ensures
        forall|k: int| 0 <= k < mime_table().len() - 1 ==> bytes_less(
            encode_utf8(#[trigger] mime_table()[k].0),
            encode_utf8(mime_table()[k + 1].0),
        ),
{
    lemma_table_steps_0();
    lemma_table_steps_1();
    lemma_table_steps_2();
    lemma_table_steps_3();
    lemma_table_steps_4();
    lemma_table_steps_5();
    lemma_table_steps_6();
    assert(mime_table().len() == 56);
}

proof fn lemma_table_chain(i: int, j: int)
    requires
        0 <= i < j < mime_table().len(),
    ensures
        bytes_less(encode_utf8(mime_table()[i].0), encode_utf8(mime_table()[j].0)),
    decreases j - i,
{
    lemma_table_steps();
    let t = mime_table();
    assert(bytes_less(encode_utf8(t[j - 1].0), encode_utf8(t[j].0)));
    if i < j - 1 {
        lemma_table_chain(i, j - 1);
        lemma_bytes_less_trans(encode_utf8(t[i].0), encode_utf8(t[j - 1].0), encode_utf8(t[j].0));
    }
}

/// The common table is sorted by extension, in byte order.
proof fn lemma_table_sorted()
    ensures
        forall|i: int, j: int|
            0 <= i < j < mime_table().len() ==> bytes_less(
                encode_utf8(#[trigger] mime_table()[i].0),
                encode_utf8(#[trigger] mime_table()[j].0),
            ),
{
    assert forall|i: int, j: int| 0 <= i < j < mime_table().len() implies bytes_less(
        encode_utf8(#[trigger] mime_table()[i].0),
        encode_utf8(#[trigger] mime_table()[j].0),
    ) by {
        lemma_table_chain(i, j);
    }
}

proof fn lemma_bytes_less_irreflexive(a: Seq<u8>)
    ensures
        !bytes_less(a, a),
    decreases a.len(),
{
    if a.len() > 0 {
        lemma_bytes_less_irreflexive(a.drop_first());
    }
}

/// The index of the entry of the common table for the extension `ext`.
pub open spec fn table_index(ext: Seq<char>) -> Option<int> {
    if exists|i: int| 0 <= i < mime_table().len() && #[trigger] mime_table()[i].0 == ext {
        Some(choose|i: int| 0 <= i < mime_table().len() && #[trigger] mime_table()[i].0 == ext)
    } else {
        None
    }
}

/// No two entries of the common table share an extension.
proof fn lemma_table_distinct(i: int, j: int)
    requires
        0 <= i < mime_table().len(),
        0 <= j < mime_table().len(),
        mime_table()[i].0 == mime_table()[j].0,
    ensures
        i == j,
{
    lemma_table_sorted();
    lemma_bytes_less_irreflexive(encode_utf8(mime_table()[i].0));
    if i < j {
        assert(bytes_less(encode_utf8(mime_table()[i].0), encode_utf8(mime_table()[j].0)));
    } else if j < i {
        assert(bytes_less(encode_utf8(mime_table()[j].0), encode_utf8(mime_table()[i].0)));
    }
}

/// The entries are in strictly increasing order of their extensions.
pub open spec fn sorted_by_extension(v: Seq<MIME>) -> bool {
    forall|i: int, j: int|
        0 <= i < j < v.len() ==> bytes_less(encode_utf8(#[trigger] v[i].ext()), encode_utf8(#[trigger] v[j].ext()))
}

/// Entry `i` of `v` has the extension `ext`.
pub open spec fn ext_at(v: Seq<MIME>, i: usize, ext: Seq<char>) -> bool {
    i < v.len() && v[i as int].ext() == ext
}

/// `slice::binary_search_by`, comparing the extension of each entry with `ext`
/// (`str` order, which is byte order). On a list sorted by extension it gives
/// the index of an entry with `ext` if there is one, and none otherwise. On
/// an unsorted list its result is left unspecified by its documentation, and
/// nothing is said of it here.
#[verifier::external_body]
fn search_extension(extensions: &[MIME], ext: &str) -> (r: Option<usize>)
    ensures
        sorted_by_extension(extensions@) ==> (r matches Some(i) ==> ext_at(extensions@, i, ext@)),
        sorted_by_extension(extensions@) && r is None ==> forall|i: int|
            0 <= i < extensions@.len() ==> extensions@[i].ext() != ext@,
{
    extensions.binary_search_by(|x| x.extension.cmp(ext)).ok()
}

/// The MIME type of the file extension `ext`, looked up in `extensions` by
/// binary search: that of the entry whose extension is `ext`, or none if no
/// entry is found. The list must be sorted by extension for the search to
/// mean anything.
pub fn get_type(ext: &str, extensions: &[MIME]) -> (r: Option<&'static str>)
    ensures
        sorted_by_extension(extensions@) ==> (r matches Some(m) ==> exists|i: int|
            0 <= i < extensions@.len() && extensions@[i].ext() == ext@ && m@ == #[trigger] extensions@[i].mime()),
        sorted_by_extension(extensions@) && r is None ==> forall|i: int|
            0 <= i < extensions@.len() ==> extensions@[i].ext() != ext@,
{
    match search_extension(extensions, ext) {
        Some(x) => {
            if x >= extensions.len() {
                return None;
            }
            let m = extensions[x].mime_type;
            assert(m@ == extensions@[x as int].mime());
            Some(m)
        },
        None => None,
    }
}

/// Parts of a path between slashes and backslashes.
pub open spec fn split_slashes(s: Seq<char>) -> Seq<Seq<char>>
    decreases s.len(),
{
    if s.len() == 0 {
        seq![Seq::empty()]
    } else {
        let prev = split_slashes(s.drop_last());
        if s.last() == '/' || s.last() == '\\' {
            prev.push(Seq::empty())
        } else {
            prev.update(prev.len() - 1, prev.last().push(s.last()))
        }
    }
}

/// The parts kept when each `..` removes the part before it; in a rooted
/// path (one whose first part is empty, as a leading slash makes it) that
/// first part is never removed.
pub open spec fn drop_dots(parts: Seq<Seq<char>>, rooted: bool) -> Seq<Seq<char>>
    decreases parts.len(),
{
    if parts.len() == 0 {
        Seq::empty()
    } else {
        let prev = drop_dots(parts.drop_last(), rooted);
        if parts.last() == ".."@ {
            if prev.len() > 1 || (prev.len() == 1 && !rooted) {
                prev.drop_last()
            } else {
                prev
            }
        } else {
            prev.push(parts.last())
        }
    }
}

/// Parts joined by slashes.
pub open spec fn join_slash(parts: Seq<Seq<char>>) -> Seq<char>
    decreases parts.len(),
{
    if parts.len() == 0 {
        Seq::empty()
    } else if parts.len() == 1 {
        parts[0]
    } else {
        join_slash(parts.drop_last()) + "/"@ + parts.last()
    }
}

/// `s` holds `..`.
pub open spec fn has_dots(s: Seq<char>) -> bool {
    exists|i: int| #[trigger] dots_at(s, i)
}

/// `s` holds `..` at index `i`.
pub open spec fn dots_at(s: Seq<char>, i: int) -> bool {
    0 <= i < s.len() - 1 && s[i] == '.' && s[i + 1] == '.'
}

/// A path with `..` parts resolved: unchanged if it holds no `..`; else
/// split at slashes and backslashes, each `..` dropping the part before it
/// (but never the root of a path that starts with a slash), and joined with
/// slashes.
pub open spec fn safe_path_spec(path: Seq<char>) -> Seq<char> {
    if !has_dots(path) {
        path
    } else {
        join_slash(drop_dots(split_slashes(path), split_slashes(path)[0].len() == 0))
    }
}

/// The character is a slash or a backslash.
pub open spec fn is_slash(c: char) -> bool {
    c == '/' || c == '\\'
}

/// `s` holds no slash or backslash.
pub open spec fn slash_free(s: Seq<char>) -> bool {
    forall|i: int| 0 <= i < s.len() ==> !is_slash(#[trigger] s[i])
}

/// `c` stands somewhere in `s`.
pub open spec fn stands_in(s: Seq<char>, c: Seq<char>) -> bool {
    exists|o: int| 0 <= o && o + c.len() <= s.len() && #[trigger] s.subrange(o, o + c.len()) == c
}

/// Each part of `split_slashes(s)` is slash-free and stands somewhere in
/// `s`; the last one ends where `s` ends.
proof fn lemma_split_slashes_parts(s: Seq<char>)
    ensures
        split_slashes(s).len() >= 1,
        forall|i: int| 0 <= i < split_slashes(s).len() ==> slash_free(#[trigger] split_slashes(s)[i]),
        forall|i: int| 0 <= i < split_slashes(s).len() ==> stands_in(s, #[trigger] split_slashes(s)[i]),
        split_slashes(s).last().len() <= s.len(),
        s.subrange(s.len() - split_slashes(s).last().len(), s.len() as int) == split_slashes(s).last(),
    decreases s.len(),
{
    if s.len() == 0 {
        let p = split_slashes(s);
        assert(p =~= seq![Seq::<char>::empty()]);
        assert forall|i: int| 0 <= i < p.len() implies stands_in(s, #[trigger] p[i]) by {
            assert(s.subrange(0int, 0int + p[i].len()) =~= p[i]);
        }
    } else {
        let d = s.drop_last();
        lemma_split_slashes_parts(d);
        let prev = split_slashes(d);
        let p = split_slashes(s);
        if is_slash(s.last()) {
            assert(p == prev.push(Seq::empty()));
            assert forall|i: int| 0 <= i < p.len() implies slash_free(#[trigger] p[i]) by {
                if i < prev.len() {
                    assert(p[i] == prev[i]);
                }
            }
            assert forall|i: int| 0 <= i < p.len() implies stands_in(s, #[trigger] p[i]) by {
                if i < prev.len() {
                    assert(p[i] == prev[i]);
                    assert(stands_in(d, prev[i]));
                    let o = choose|o: int|
                        0 <= o && o + prev[i].len() <= d.len() && #[trigger] d.subrange(o, o + prev[i].len()) == prev[i];
                    assert(s.subrange(o, o + p[i].len()) =~= d.subrange(o, o + prev[i].len()));
                } else {
                    assert(s.subrange(0int, 0int + p[i].len()) =~= p[i]);
                }
            }
            assert(s.subrange(s.len() - 0, s.len() as int) =~= p.last());
        } else {
            let c = prev.last().push(s.last());
            assert(p == prev.update(prev.len() - 1, c));
            assert(slash_free(c)) by {
                assert(slash_free(prev[prev.len() - 1]));
                assert forall|k: int| 0 <= k < c.len() implies !is_slash(#[trigger] c[k]) by {
                    if k < c.len() - 1 {
                        assert(c[k] == prev.last()[k]);
                    }
                }
            }
            let start = d.len() - prev.last().len();
            assert(s.subrange(start, s.len() as int) =~= c);
            assert forall|i: int| 0 <= i < p.len() implies slash_free(#[trigger] p[i]) by {
                if i < prev.len() - 1 {
                    assert(p[i] == prev[i]);
                }
            }
            assert forall|i: int| 0 <= i < p.len() implies stands_in(s, #[trigger] p[i]) by {
                if i < prev.len() - 1 {
                    assert(p[i] == prev[i]);
                    assert(stands_in(d, prev[i]));
                    let o = choose|o: int|
                        0 <= o && o + prev[i].len() <= d.len() && #[trigger] d.subrange(o, o + prev[i].len()) == prev[i];
                    assert(s.subrange(o, o + p[i].len()) =~= d.subrange(o, o + prev[i].len()));
                } else {
                    assert(p[i] == c);
                    assert(s.subrange(start, start + p[i].len()) == c);
                }
            }
        }
    }
}

/// A part `..` of the split path means the path holds `..`.
proof fn lemma_dots_part(s: Seq<char>, i: int)
    requires
        0 <= i < split_slashes(s).len(),
        split_slashes(s)[i] == ".."@,
    ensures
        has_dots(s),
{
    reveal_strlit("..");
    lemma_split_slashes_parts(s);
    let p = split_slashes(s);
    assert(stands_in(s, p[i]));
    let o = choose|o: int| 0 <= o && o + p[i].len() <= s.len() && #[trigger] s.subrange(o, o + p[i].len()) == p[i];
    assert(s[o] == s.subrange(o, o + 2)[0]);
    assert(s[o + 1] == s.subrange(o, o + 2)[1]);
    assert(dots_at(s, o));
}

/// The parts that remain after `..` parts are resolved are parts of the
/// path, and none is `..`.
proof fn lemma_drop_dots_parts(parts: Seq<Seq<char>>, rooted: bool)
    ensures
        forall|i: int| 0 <= i < drop_dots(parts, rooted).len() ==> #[trigger] drop_dots(parts, rooted)[i] != ".."@,
        forall|i: int| 0 <= i < drop_dots(parts, rooted).len() ==> parts.contains(#[trigger] drop_dots(parts, rooted)[i]),
    decreases parts.len(),
{
    if parts.len() > 0 {
        let init = parts.drop_last();
        lemma_drop_dots_parts(init, rooted);
        let prev = drop_dots(init, rooted);
        let r = drop_dots(parts, rooted);
        assert forall|i: int| 0 <= i < r.len() implies #[trigger] r[i] != ".."@ && parts.contains(r[i]) by {
            if i < prev.len() && r[i] == prev[i] {
                assert(init.contains(prev[i]));
                let k = choose|k: int| 0 <= k < init.len() && init[k] == prev[i];
                assert(parts[k] == init[k]);
            } else {
                assert(r[i] == parts.last());
                assert(parts[parts.len() - 1] == parts.last());
            }
        }
    }
}

/// Splitting slash-free parts joined with slashes gives them back.
proof fn lemma_split_join(ks: Seq<Seq<char>>)
    requires
        ks.len() >= 1,
        forall|i: int| 0 <= i < ks.len() ==> slash_free(#[trigger] ks[i]),
    ensures
        split_slashes(join_slash(ks)) == ks,
    decreases ks.len(),
{
    if ks.len() == 1 {
        assert(slash_free(ks[0]));
        lemma_split_free(Seq::empty(), ks[0]);
        assert(Seq::<char>::empty() + ks[0] =~= ks[0]);
        assert(split_slashes(Seq::<char>::empty()) =~= seq![Seq::<char>::empty()]);
        assert(Seq::<char>::empty() + ks[0] =~= ks[0]);
        assert(split_slashes(join_slash(ks)) =~= ks);
    } else {
        let init = ks.drop_last();
        assert forall|i: int| 0 <= i < init.len() implies slash_free(#[trigger] init[i]) by {
            assert(init[i] == ks[i]);
        }
        lemma_split_join(init);
        reveal_strlit("/");
        let head = join_slash(init) + "/"@;
        assert(head.drop_last() =~= join_slash(init));
        assert(head.last() == '/');
        assert(slash_free(ks[ks.len() - 1]));
        lemma_split_free(head, ks.last());
        assert(join_slash(ks) == head + ks.last());
        let prev = split_slashes(head);
        assert(prev =~= ks.drop_last().push(Seq::empty()));
        assert(prev.last() + ks.last() =~= ks.last());
        assert(split_slashes(join_slash(ks)) =~= ks);
    }
}

/// Splitting `s` followed by slash-free `t` extends the last part of `s` by `t`.
proof fn lemma_split_free(s: Seq<char>, t: Seq<char>)
    requires
        slash_free(t),
    ensures
        split_slashes(s + t) == split_slashes(s).update(
            split_slashes(s).len() - 1,
            split_slashes(s).last() + t,
        ),
    decreases t.len(),
{
    lemma_split_slashes_parts(s);
    if t.len() == 0 {
        assert(s + t =~= s);
        assert(split_slashes(s).last() + t =~= split_slashes(s).last());
        assert(split_slashes(s).update(split_slashes(s).len() - 1, split_slashes(s).last()) =~= split_slashes(s));
    } else {
        let t0 = t.drop_last();
        assert forall|k: int| 0 <= k < t0.len() implies !is_slash(#[trigger] t0[k]) by {
            assert(t0[k] == t[k]);
        }
        lemma_split_free(s, t0);
        assert((s + t).drop_last() =~= s + t0);
        assert((s + t).last() == t.last());
        assert(!is_slash(t[t.len() - 1]));
        let prev = split_slashes(s);
        assert((prev.last() + t0).push(t.last()) =~= prev.last() + t);
        assert(split_slashes(s + t) =~= prev.update(prev.len() - 1, prev.last() + t));
    }
}

/// A path made safe has no `..` part, whichever slashes split it.
pub proof fn lemma_safe_path_no_parent(path: Seq<char>)
    ensures
        forall|i: int|
            0 <= i < split_slashes(safe_path_spec(path)).len() ==> #[trigger] split_slashes(
                safe_path_spec(path),
            )[i] != ".."@,
{
    if !has_dots(path) {
        assert forall|i: int| 0 <= i < split_slashes(path).len() implies #[trigger] split_slashes(path)[i]
            != ".."@ by {
            if split_slashes(path)[i] == ".."@ {
                lemma_dots_part(path, i);
            }
        }
    } else {
        let parts = split_slashes(path);
        lemma_split_slashes_parts(path);
        let rooted = parts[0].len() == 0;
        lemma_drop_dots_parts(parts, rooted);
        let ks = drop_dots(parts, rooted);
        if ks.len() == 0 {
            reveal_strlit("..");
            assert(split_slashes(join_slash(ks)) =~= seq![Seq::<char>::empty()]);
        } else {
            assert forall|i: int| 0 <= i < ks.len() implies slash_free(#[trigger] ks[i]) by {
                assert(parts.contains(ks[i]));
                let k = choose|k: int| 0 <= k < parts.len() && parts[k] == ks[i];
                assert(slash_free(parts[k]));
            }
            lemma_split_join(ks);
        }
    }
}

fn holds_dots(v: &[char]) -> (r: bool)
    ensures
        r == has_dots(v@),
{
    let mut i: usize = 0;
    while v.len() > 0 && i < v.len() - 1
        invariant
            i <= v@.len(),
            forall|k: int| k < i ==> !#[trigger] dots_at(v@, k),
        decreases v.len() - i,
    {
        if v[i] == '.' && v[i + 1] == '.' {
            assert(dots_at(v@, i as int));
            return true;
        }
        i = i + 1;
    }
    false
}

/// Prevents path traversals: `/hello/../../../data.db` becomes `/data.db`.
pub fn safe_path(path: &str) -> (r: String)
    ensures
        r@ == safe_path_spec(path@),
{
    let v = chars_of(path);
    if !holds_dots(v.as_slice()) {
        return String::from_str(path);
    }
    // Split at slashes and backslashes.
    let mut parts: Vec<String> = Vec::new();
    parts.push(String::new());
    let mut i: usize = 0;
    assert(str_views(parts@) =~= split_slashes(v@.take(0)));
    while i < v.len()
        invariant
            i <= v@.len(),
            v@ == path@,
            str_views(parts@) == split_slashes(v@.take(i as int)),
            parts@.len() > 0,
        decreases v.len() - i,
    {
        let c = v[i];
        assert(v@.take(i + 1).drop_last() == v@.take(i as int));
        assert(v@.take(i + 1).last() == c);
        let ghost before = parts@;
        if c == '/' || c == '\\' {
            parts.push(String::new());
            assert(str_views(parts@) =~= str_views(before).push(Seq::empty()));
        } else {
            let last = parts.len() - 1;
            let mut piece = parts[last].clone();
            crate::text::push_char(&mut piece, c);
            parts.set(last, piece);
            assert(str_views(parts@) =~= str_views(before).update(last as int, str_views(before)[last as int].push(c)));
        }
        i = i + 1;
    }
    assert(v@.take(v@.len() as int) == v@);
    let ghost all = str_views(parts@);
    // Resolve `..` parts; a leading empty part is the root and stays.
    let rooted = parts[0].as_str().unicode_len() == 0;
    assert(rooted == (all[0].len() == 0));
    let mut kept: Vec<String> = Vec::new();
    let mut k: usize = 0;
    assert(all.take(0) =~= Seq::<Seq<char>>::empty());
    assert(str_views(kept@) =~= drop_dots(all.take(0), rooted));
    while k < parts.len()
        invariant
            k <= parts@.len(),
            all == str_views(parts@),
            str_views(kept@) == drop_dots(all.take(k as int), rooted),
        decreases parts.len() - k,
    {
        assert(all.take(k + 1).drop_last() == all.take(k as int));
        assert(all.take(k + 1).last() == parts@[k as int]@);
        let ghost before = kept@;
        if str_eq(parts[k].as_str(), "..") {
            if kept.len() > 1 || (kept.len() == 1 && !rooted) {
                kept.pop();
                assert(str_views(kept@) =~= str_views(before).drop_last());
            }
        } else {
            kept.push(parts[k].clone());
            assert(str_views(kept@) =~= str_views(before).push(parts@[k as int]@));
        }
        k = k + 1;
    }
    assert(all.take(all.len() as int) == all);
    // Join them with slashes.
    let mut out = String::new();
    let mut j: usize = 0;
    let ghost ks = str_views(kept@);
    while j < kept.len()
        invariant
            j <= kept@.len(),
            ks == str_views(kept@),
            out@ == join_slash(ks.take(j as int)),
        decreases kept.len() - j,
    {
        assert(ks.take(j + 1).drop_last() == ks.take(j as int));
        assert(ks.take(j + 1).last() == kept@[j as int]@);
        if j > 0 {
            push_str(&mut out, "/");
        }
        push_str(&mut out, kept[j].as_str());
        proof {
            if j == 0 {
                assert(ks.take(1) =~= seq![ks[0]]);
                assert(out@ =~= join_slash(ks.take(1)));
            } else {
                assert(out@ =~= join_slash(ks.take(j + 1)));
            }
        }
        j = j + 1;
    }
    assert(ks.take(ks.len() as int) == ks);
    out
}


/// The text after the last `c` in `s`, or all of `s` if it holds no `c`.
pub open spec fn after_last(s: Seq<char>, c: char) -> Seq<char>
    decreases s.len(),
{
    if s.len() == 0 {
        Seq::empty()
    } else if s.last() == c {
        Seq::empty()
    } else {
        after_last(s.drop_last(), c).push(s.last())
    }
}

fn after_last_index(v: &[char], c: char) -> (r: usize)
    ensures
        r <= v@.len(),
        v@.skip(r as int) == after_last(v@, c),
{
    let mut i = v.len();
    assert(v@.skip(v@.len() as int) =~= Seq::<char>::empty());
    assert(v@.take(v@.len() as int) == v@);
    while i > 0 && v[i - 1] != c
        invariant
            i <= v@.len(),
            after_last(v@, c) == after_last(v@.take(i as int), c) + v@.skip(i as int),
        decreases i,
    {
        assert(v@.take(i as int).drop_last() == v@.take(i - 1));
        assert(v@.take(i as int).last() == v@[i - 1]);
        assert(after_last(v@.take(i - 1), c) + v@.skip(i - 1) =~= after_last(v@.take(i - 1), c).push(v@[i - 1]) + v@.skip(i as int));
        i = i - 1;
    }
    proof {
        if i > 0 {
            assert(v@.take(i as int).last() == c);
        } else {
            assert(v@.take(0) =~= Seq::<char>::empty());
        }
        assert(after_last(v@.take(i as int), c) =~= Seq::<char>::empty());
        assert(Seq::<char>::empty() + v@.skip(i as int) =~= v@.skip(i as int));
    }
    i
}

/// Where a request for `req_path` looks in `data_dir`, when the files are
/// served on `serve_path`: the data directory, a slash and the rest of the
/// request path made safe; `index.html` added to a path that ends with a
/// slash, and `/index.html` to one whose last part has no dot.
pub open spec fn file_path_spec(data_dir: Seq<char>, serve_path: Seq<char>, req_path: Seq<char>) -> Seq<char> {
    let p0 = data_dir + "/"@ + safe_path_spec(req_path.skip(serve_path.len() as int));
    let p1 = if has_suffix(p0, "/"@) {
        p0 + "index.html"@
    } else {
        p0
    };
    if !after_last(p1, '/').contains('.') {
        p1 + "/index.html"@
    } else {
        p1
    }
}

/// Where a request is answered from.
pub struct Located {
    /// The path of the file.
    pub path: String,
    /// The file is one of the disabled files.
    pub disabled: bool,
    /// The extension of the file.
    pub ext: String,
}

/// Serve static content.
pub struct ServeStatic {
    /// Path to serve static content on; defaults to the root.
    pub serve_path: String,
    /// Content path.
    pub data_dir: String,
    /// Disabled file paths (relative from the data dir).
    pub disabled_files: Vec<String>,
    /// Extra MIME types: extension and type.
    pub types: Vec<(String, String)>,
}

/// The index of the first extra type for `ext`.
pub open spec fn extra_type_index(types: Seq<(String, String)>, ext: Seq<char>) -> Option<int>
    decreases types.len(),
{
    if types.len() == 0 {
        None
    } else if types[0].0@ == ext {
        Some(0)
    } else {
        match extra_type_index(types.drop_first(), ext) {
            Some(i) => Some(i + 1),
            None => None,
        }
    }
}

proof fn lemma_extra_type_index(types: Seq<(String, String)>, ext: Seq<char>)
    ensures
        extra_type_index(types, ext) matches Some(i) ==> 0 <= i < types.len() && types[i].0@ == ext
            && forall|k: int| 0 <= k < i ==> types[k].0@ != ext,
        extra_type_index(types, ext) is None ==> forall|k: int| 0 <= k < types.len() ==> types[k].0@ != ext,
    decreases types.len(),
{
    if types.len() > 0 && types[0].0@ != ext {
        lemma_extra_type_index(types.drop_first(), ext);
        assert forall|k: int| 1 <= k < types.len() implies types[k] == types.drop_first()[k - 1] by {}
    }
}

impl ServeStatic {
    /// A static file server for the files in `data_path`, served on the root.
    pub fn new(data_path: &str) -> (r: ServeStatic)
        ensures
            r.serve_path@ == normalize_spec("/"@),
            r.data_dir@ == data_path@,
            r.disabled_files@.len() == 0,
            r.types@.len() == 0,
    {
        ServeStatic {
            serve_path: normalize_path(String::from_str("/")),
            data_dir: String::from_str(data_path),
            disabled_files: Vec::new(),
            types: Vec::new(),
        }
    }

    /// Disable serving a file; the path is relative to the data dir.
    pub fn disable(self, file_path: &str) -> (r: ServeStatic)
        ensures
            str_views(r.disabled_files@) == str_views(self.disabled_files@).push(file_path@),
            r.serve_path == self.serve_path,
            r.data_dir == self.data_dir,
            r.types == self.types,
    {
        let mut disabled = self.disabled_files;
        let ghost before = disabled@;
        disabled.push(String::from_str(file_path));
        assert(str_views(disabled@) =~= str_views(before).push(file_path@));
        ServeStatic { disabled_files: disabled, ..self }
    }

    /// Disable serving many files at once; the paths are relative to the data dir.
    pub fn disable_vec(self, file_paths: &[String]) -> (r: ServeStatic)
        ensures
            str_views(r.disabled_files@) == str_views(self.disabled_files@) + str_views(file_paths@),
            r.serve_path == self.serve_path,
            r.data_dir == self.data_dir,
            r.types == self.types,
    {
        let ghost start = str_views(self.disabled_files@);
        let mut disabled = self.disabled_files;
        let mut i: usize = 0;
        assert(str_views(file_paths@.take(0)) =~= Seq::<Seq<char>>::empty());
        assert(start + Seq::<Seq<char>>::empty() =~= start);
        while i < file_paths.len()
            invariant
                i <= file_paths@.len(),
                str_views(disabled@) == start + str_views(file_paths@.take(i as int)),
            decreases file_paths.len() - i,
        {
            let ghost before = disabled@;
            disabled.push(file_paths[i].clone());
            assert(file_paths@.take(i + 1) =~= file_paths@.take(i as int).push(file_paths@[i as int]));
            assert(str_views(disabled@) =~= str_views(before).push(file_paths@[i as int]@));
            assert(str_views(file_paths@.take(i + 1)) =~= str_views(file_paths@.take(i as int)).push(file_paths@[i as int]@));
            i = i + 1;
        }
        assert(file_paths@.take(file_paths@.len() as int) == file_paths@);
        ServeStatic { disabled_files: disabled, ..self }
    }

    /// Add a MIME type for a file extension.
    pub fn mime_type(self, key: &str, value: &str) -> (r: ServeStatic)
        ensures
            r.types@.len() == self.types@.len() + 1,
            r.types@.take(self.types@.len() as int) == self.types@,
            r.types@.last().0@ == key@,
            r.types@.last().1@ == value@,
            r.serve_path == self.serve_path,
            r.data_dir == self.data_dir,
            r.disabled_files == self.disabled_files,
    {
        let mut types = self.types;
        let ghost before = types@;
        types.push((String::from_str(key), String::from_str(value)));
        assert(types@.take(before.len() as int) =~= before);
        ServeStatic { types, ..self }
    }

    /// Add a list of MIME types: extension and type.
    pub fn mime_types(self, new_types: &[(String, String)]) -> (r: ServeStatic)
        ensures
            r.types@.len() == self.types@.len() + new_types@.len(),
            r.types@.take(self.types@.len() as int) == self.types@,
            forall|k: int|
                0 <= k < new_types@.len() ==> #[trigger] r.types@[self.types@.len() + k].0@
                    == new_types@[k].0@ && r.types@[self.types@.len() + k].1@ == new_types@[k].1@,
            r.serve_path == self.serve_path,
            r.data_dir == self.data_dir,
            r.disabled_files == self.disabled_files,
    {
        let ghost start = self.types@;
        let mut types = self.types;
        let mut i: usize = 0;
        while i < new_types.len()
            invariant
                i <= new_types@.len(),
                types@.len() == start.len() + i,
                types@.take(start.len() as int) == start,
                forall|k: int|
                    0 <= k < i ==> #[trigger] types@[start.len() + k].0@ == new_types@[k].0@
                        && types@[start.len() + k].1@ == new_types@[k].1@,
            decreases new_types.len() - i,
        {
            let ghost before = types@;
            types.push((new_types[i].0.clone(), new_types[i].1.clone()));
            assert(types@.take(start.len() as int) =~= before.take(start.len() as int));
            i = i + 1;
        }
        ServeStatic { types, ..self }
    }

    /// Set the path to serve static files on.
    pub fn path(self, path: &str) -> (r: ServeStatic)
        ensures
            r.serve_path@ == normalize_spec(path@),
            r.data_dir == self.data_dir,
            r.disabled_files == self.disabled_files,
            r.types == self.types,
    {
        ServeStatic { serve_path: normalize_path(String::from_str(path)), ..self }
    }

    /// Where a request for `req_path`, which starts with the serve path, is
    /// answered from: the file path, whether it is disabled, and its extension.
    pub fn locate(&self, req_path: &str) -> (r: Located)
        requires
            has_prefix(req_path@, self.serve_path@),
        ensures
            r.path@ == file_path_spec(self.data_dir@, self.serve_path@, req_path@),
            r.disabled == str_views(self.disabled_files@).contains(r.path@.skip(self.data_dir@.len() as int)),
            r.ext@ == after_last(r.path@, '.'),
    {
        let rv = chars_of(req_path);
        let rest = string_from_range(rv.as_slice(), self.serve_path.as_str().unicode_len(), rv.len());
        assert(rv@.subrange(self.serve_path@.len() as int, rv@.len() as int) == req_path@.skip(self.serve_path@.len() as int));
        let safe = safe_path(rest.as_str());
        let mut path = self.data_dir.clone();
        push_str(&mut path, "/");
        push_str(&mut path, safe.as_str());
        let pv = chars_of(path.as_str());
        if pv.len() > 0 && pv[pv.len() - 1] == '/' {
            push_str(&mut path, "index.html");
            proof {
                reveal_strlit("/");
                assert(pv@.skip(pv@.len() - 1) =~= "/"@);
            }
        } else {
            proof {
                reveal_strlit("/");
                if has_suffix(pv@, "/"@) {
                    assert(pv@.skip(pv@.len() - 1)[0] == pv@[pv@.len() - 1]);
                }
            }
        }
        let pv1 = chars_of(path.as_str());
        let k = after_last_index(pv1.as_slice(), '/');
        let mut has_dot = false;
        let mut j = k;
        while j < pv1.len()
            invariant
                k <= j <= pv1@.len(),
                has_dot == exists|m: int| k <= m < j && pv1@[m] == '.',
            decreases pv1.len() - j,
        {
            if pv1[j] == '.' {
                has_dot = true;
            }
            j = j + 1;
        }
        proof {
            let tail = pv1@.skip(k as int);
            if has_dot {
                let m = choose|m: int| k <= m < pv1@.len() && pv1@[m] == '.';
                assert(tail[m - k] == '.');
            } else {
                assert forall|m: int| 0 <= m < tail.len() implies tail[m] != '.' by {
                    assert(tail[m] == pv1@[m + k]);
                }
            }
        }
        if !has_dot {
            push_str(&mut path, "/index.html");
        }
        let fv = chars_of(path.as_str());
        let rel = string_from_range(fv.as_slice(), self.data_dir.as_str().unicode_len(), fv.len());
        proof {
            assert(fv@.subrange(self.data_dir@.len() as int, fv@.len() as int) == fv@.skip(self.data_dir@.len() as int));
        }
        let mut disabled = false;
        let mut i: usize = 0;
        while i < self.disabled_files.len()
            invariant
                i <= self.disabled_files@.len(),
                disabled == exists|m: int| 0 <= m < i && self.disabled_files@[m]@ == rel@,
            decreases self.disabled_files.len() - i,
        {
            if str_eq(self.disabled_files[i].as_str(), rel.as_str()) {
                disabled = true;
            }
            i = i + 1;
        }
        proof {
            let names = str_views(self.disabled_files@);
            if disabled {
                let m = choose|m: int| 0 <= m < self.disabled_files@.len() && self.disabled_files@[m]@ == rel@;
                assert(names[m] == rel@);
            } else {
                assert forall|m: int| 0 <= m < names.len() implies names[m] != rel@ by {
                    assert(names[m] == self.disabled_files@[m]@);
                }
            }
        }
        let k2 = after_last_index(fv.as_slice(), '.');
        let ext = string_from_range(fv.as_slice(), k2, fv.len());
        assert(fv@.subrange(k2 as int, fv@.len() as int) == fv@.skip(k2 as int));
        Located { path, disabled, ext }
    }

    /// The MIME type of files with the extension `ext`: that of the common
    /// table, or else the first extra type for it, or else
    /// `application/octet-stream`.
    pub fn content_type_for(&self, ext: &str) -> (r: String)
        ensures
            match table_index(ext@) {
                Some(i) => r@ == mime_table()[i].1,
                None => match extra_type_index(self.types@, ext@) {
                    Some(i) => r@ == self.types@[i].1@,
                    None => r@ == "application/octet-stream"@,
                },
            },
    {
        let t = types();
        proof {
            assert forall|i: int| 0 <= i < t@.len() && t@[i].ext() == ext@ implies i < mime_table().len() by {
                assert(mime_views(t@)[i] == mime_table()[i]);
            }
        }
        match get_type(ext, t.as_slice()) {
            Some(m) => {
                proof {
                    let i = choose|i: int| 0 <= i < t@.len() && t@[i].ext() == ext@ && m@ == #[trigger] t@[i].mime();
                    assert(mime_views(t@)[i] == mime_table()[i]);
                    assert(mime_table()[i].0 == ext@);
                    let c = choose|c: int| 0 <= c < mime_table().len() && #[trigger] mime_table()[c].0 == ext@;
                    lemma_table_distinct(i, c);
                }
                return String::from_str(m);
            },
            None => {},
        }
        proof {
            lemma_extra_type_index(self.types@, ext@);
            assert forall|c: int| 0 <= c < mime_table().len() implies #[trigger] mime_table()[c].0 != ext@ by {
                assert(mime_views(t@)[c] == mime_table()[c]);
                assert(t@[c].ext() != ext@);
            }
        }
        let mut i: usize = 0;
        while i < self.types.len()
            invariant
                i <= self.types@.len(),
                forall|k: int| 0 <= k < i ==> self.types@[k].0@ != ext@,
                extra_type_index(self.types@, ext@) matches Some(j) ==> 0 <= j < self.types@.len()
                    && self.types@[j].0@ == ext@ && forall|k: int| 0 <= k < j ==> self.types@[k].0@ != ext@,
                extra_type_index(self.types@, ext@) is None ==> forall|k: int| 0 <= k < self.types@.len() ==> self.types@[k].0@ != ext@,
                forall|c: int| 0 <= c < mime_table().len() ==> #[trigger] mime_table()[c].0 != ext@,
            decreases self.types.len() - i,
        {
            if str_eq(self.types[i].0.as_str(), ext) {
                return self.types[i].1.clone();
            }
            i = i + 1;
        }
        String::from_str("application/octet-stream")
    }

    /// The path of a request that was not found by any route and that this
    /// server handles: one under the serve path.
    pub fn handles<'a>(&self, res: &'a Result<Response, Error>) -> (r: Option<&'a String>)
        ensures
            match res {
                Err(Error::Handle(HandleError::NotFound(_, p))) => if has_prefix(p@, self.serve_path@) {
                    r == Some(p)
                } else {
                    r is None
                },
                _ => r is None,
            },
    {
        match res {
            Err(Error::Handle(HandleError::NotFound(_, p))) => {
                if crate::text::starts_with(p.as_str(), self.serve_path.as_str()) {
                    Some(p)
                } else {
                    None
                }
            },
            _ => None,
        }
    }
}

/// The table holds the entry `(ext, mime)`.
pub open spec fn has_mime(table: Seq<(Seq<char>, Seq<char>)>, ext: Seq<char>, mime: Seq<char>) -> bool {
    exists|i: int| 0 <= i < table.len() && #[trigger] table[i] == (ext, mime)
}

/// The common MIME table maps each extension to its registered media type:
/// it has exactly these entries (its extensions are distinct, as it is
/// sorted by them).
pub proof fn lemma_mime_table_registered()
    ensures
        mime_table().len() == 56,
        has_mime(mime_table(), "7z"@, "application/x-7z-compressed"@),
        has_mime(mime_table(), "aac"@, "audio/aac"@),
        has_mime(mime_table(), "avi"@, "video/x-msvideo"@),
        has_mime(mime_table(), "bin"@, "application/octet-stream"@),
        has_mime(mime_table(), "bmp"@, "image/bmp"@),
        has_mime(mime_table(), "bz"@, "application/x-bzip"@),
        has_mime(mime_table(), "bz2"@, "application/x-bzip2"@),
        has_mime(mime_table(), "cda"@, "application/x-cdf"@),
        has_mime(mime_table(), "css"@, "text/css"@),
        has_mime(mime_table(), "csv"@, "text/csv"@),
        has_mime(mime_table(), "epub"@, "application/epub+zip"@),
        has_mime(mime_table(), "gif"@, "image/gif"@),
        has_mime(mime_table(), "gz"@, "application/gzip"@),
        has_mime(mime_table(), "htm"@, "text/html"@),
        has_mime(mime_table(), "html"@, "text/html"@),
        has_mime(mime_table(), "ico"@, "image/x-icon"@),
        has_mime(mime_table(), "ics"@, "text/calendar"@),
        has_mime(mime_table(), "jar"@, "application/java-archive"@),
        has_mime(mime_table(), "jpeg"@, "image/jpeg"@),
        has_mime(mime_table(), "jpg"@, "image/jpeg"@),
        has_mime(mime_table(), "js"@, "application/javascript"@),
        has_mime(mime_table(), "json"@, "application/json"@),
        has_mime(mime_table(), "jsonld"@, "application/ld+json"@),
        has_mime(mime_table(), "mid"@, "audio/midi audio/x-midi"@),
        has_mime(mime_table(), "midi"@, "audio/midi audio/x-midi"@),
        has_mime(mime_table(), "mjs"@, "text/javascript"@),
        has_mime(mime_table(), "mp3"@, "audio/mpeg"@),
        has_mime(mime_table(), "mp4"@, "video/mp4"@),
        has_mime(mime_table(), "mpeg"@, "video/mpeg"@),
        has_mime(mime_table(), "oga"@, "audio/ogg"@),
        has_mime(mime_table(), "ogv"@, "video/ogg"@),
        has_mime(mime_table(), "ogx"@, "application/ogg"@),
        has_mime(mime_table(), "opus"@, "audio/opus"@),
        has_mime(mime_table(), "otf"@, "font/otf"@),
        has_mime(mime_table(), "pdf"@, "application/pdf"@),
        has_mime(mime_table(), "png"@, "image/png"@),
        has_mime(mime_table(), "rar"@, "application/vnd.rar"@),
        has_mime(mime_table(), "rtf"@, "application/rtf"@),
        has_mime(mime_table(), "sh"@, "application/x-sh"@),
        has_mime(mime_table(), "svg"@, "image/svg+xml"@),
        has_mime(mime_table(), "swf"@, "application/x-shockwave-flash"@),
        has_mime(mime_table(), "tar"@, "application/x-tar"@),
        has_mime(mime_table(), "tif"@, "image/tiff"@),
        has_mime(mime_table(), "tiff"@, "image/tiff"@),
        has_mime(mime_table(), "ts"@, "text/x-typescript"@),
        has_mime(mime_table(), "ttf"@, "font/ttf"@),
        has_mime(mime_table(), "txt"@, "text/plain"@),
        has_mime(mime_table(), "wav"@, "audio/wav"@),
        has_mime(mime_table(), "weba"@, "audio/webm"@),
        has_mime(mime_table(), "webm"@, "video/webm"@),
        has_mime(mime_table(), "webp"@, "image/webp"@),
        has_mime(mime_table(), "woff"@, "font/woff"@),
        has_mime(mime_table(), "woff2"@, "font/woff2"@),
        has_mime(mime_table(), "xhtml"@, "application/xhtml+xml"@),
        has_mime(mime_table(), "xml"@, "application/xml"@),
        has_mime(mime_table(), "zip"@, "application/zip"@),
{
    assert(mime_table()[0] == ("7z"@, "application/x-7z-compressed"@));
    assert(mime_table()[1] == ("aac"@, "audio/aac"@));
    assert(mime_table()[2] == ("avi"@, "video/x-msvideo"@));
    assert(mime_table()[3] == ("bin"@, "application/octet-stream"@));
    assert(mime_table()[4] == ("bmp"@, "image/bmp"@));
    assert(mime_table()[5] == ("bz"@, "application/x-bzip"@));
    assert(mime_table()[6] == ("bz2"@, "application/x-bzip2"@));
    assert(mime_table()[7] == ("cda"@, "application/x-cdf"@));
    assert(mime_table()[8] == ("css"@, "text/css"@));
    assert(mime_table()[9] == ("csv"@, "text/csv"@));
    assert(mime_table()[10] == ("epub"@, "application/epub+zip"@));
    assert(mime_table()[11] == ("gif"@, "image/gif"@));
    assert(mime_table()[12] == ("gz"@, "application/gzip"@));
    assert(mime_table()[13] == ("htm"@, "text/html"@));
    assert(mime_table()[14] == ("html"@, "text/html"@));
    assert(mime_table()[15] == ("ico"@, "image/x-icon"@));
    assert(mime_table()[16] == ("ics"@, "text/calendar"@));
    assert(mime_table()[17] == ("jar"@, "application/java-archive"@));
    assert(mime_table()[18] == ("jpeg"@, "image/jpeg"@));
    assert(mime_table()[19] == ("jpg"@, "image/jpeg"@));
    assert(mime_table()[20] == ("js"@, "application/javascript"@));
    assert(mime_table()[21] == ("json"@, "application/json"@));
    assert(mime_table()[22] == ("jsonld"@, "application/ld+json"@));
    assert(mime_table()[23] == ("mid"@, "audio/midi audio/x-midi"@));
    assert(mime_table()[24] == ("midi"@, "audio/midi audio/x-midi"@));
    assert(mime_table()[25] == ("mjs"@, "text/javascript"@));
    assert(mime_table()[26] == ("mp3"@, "audio/mpeg"@));
    assert(mime_table()[27] == ("mp4"@, "video/mp4"@));
    assert(mime_table()[28] == ("mpeg"@, "video/mpeg"@));
    assert(mime_table()[29] == ("oga"@, "audio/ogg"@));
    assert(mime_table()[30] == ("ogv"@, "video/ogg"@));
    assert(mime_table()[31] == ("ogx"@, "application/ogg"@));
    assert(mime_table()[32] == ("opus"@, "audio/opus"@));
    assert(mime_table()[33] == ("otf"@, "font/otf"@));
    assert(mime_table()[34] == ("pdf"@, "application/pdf"@));
    assert(mime_table()[35] == ("png"@, "image/png"@));
    assert(mime_table()[36] == ("rar"@, "application/vnd.rar"@));
    assert(mime_table()[37] == ("rtf"@, "application/rtf"@));
    assert(mime_table()[38] == ("sh"@, "application/x-sh"@));
    assert(mime_table()[39] == ("svg"@, "image/svg+xml"@));
    assert(mime_table()[40] == ("swf"@, "application/x-shockwave-flash"@));
    assert(mime_table()[41] == ("tar"@, "application/x-tar"@));
    assert(mime_table()[42] == ("tif"@, "image/tiff"@));
    assert(mime_table()[43] == ("tiff"@, "image/tiff"@));
    assert(mime_table()[44] == ("ts"@, "text/x-typescript"@));
    assert(mime_table()[45] == ("ttf"@, "font/ttf"@));
    assert(mime_table()[46] == ("txt"@, "text/plain"@));
    assert(mime_table()[47] == ("wav"@, "audio/wav"@));
    assert(mime_table()[48] == ("weba"@, "audio/webm"@));
    assert(mime_table()[49] == ("webm"@, "video/webm"@));
    assert(mime_table()[50] == ("webp"@, "image/webp"@));
    assert(mime_table()[51] == ("woff"@, "font/woff"@));
    assert(mime_table()[52] == ("woff2"@, "font/woff2"@));
    assert(mime_table()[53] == ("xhtml"@, "application/xhtml+xml"@));
    assert(mime_table()[54] == ("xml"@, "application/xml"@));
    assert(mime_table()[55] == ("zip"@, "application/zip"@));
}

} // verus!
