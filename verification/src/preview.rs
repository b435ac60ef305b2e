//! The preview pane: what kind of preview a file gets, the text shown for a
//! text file, the pane's messages, and decoding a picture.

use vstd::prelude::*;
use crate::fmt::{dec, push_dec};
use crate::paths::{extension, path_extension, push_str};
use crate::state::FileViewState;
use crate::text::{chars_of, lines_of, lowercase, push_char, str_lines, string_of, strings_view, to_lowercase};

verus! {

/// How a file is previewed.
#[derive(Clone, Copy, Debug, PartialEq, Eq, Structural)]
pub enum PreviewKind {
    /// Its text is shown.
    Text,
    /// It is decoded and drawn (PNG, JPEG).
    Image,
    /// A picture format that is not drawn.
    UnsupportedImage,
    /// Anything else.
    Binary,
}

/// The extensions of files shown as text.
pub open spec fn text_extensions() -> Seq<Seq<char>> {
    seq![
        "txt"@, "md"@, "rs"@, "toml"@, "json"@, "yaml"@, "yml"@, "py"@, "js"@, "ts"@, "sh"@, "html"@,
        "css"@, "c"@, "h"@, "cpp"@, "hpp"@, "go"@, "java"@, "xml"@, "cfg"@, "ini"@, "log"@, "csv"@,
    ]
}

/// The preview of a file whose lowercased extension is `ext` (empty for
/// none).
pub open spec fn preview_kind_spec(ext: Seq<char>) -> PreviewKind {
    if text_extensions().contains(ext) {
        PreviewKind::Text
    } else if ext == "png"@ || ext == "jpg"@ || ext == "jpeg"@ {
        PreviewKind::Image
    } else if ext == "gif"@ || ext == "bmp"@ || ext == "svg"@ || ext == "webp"@ {
        PreviewKind::UnsupportedImage
    } else {
        PreviewKind::Binary
    }
}

/// The lowercased extension of `path`, empty when it has none.
pub open spec fn lower_extension(path: Seq<char>) -> Seq<char> {
    match path_extension(path) {
        Some(e) => lowercase(e),
        None => lowercase(Seq::empty()),
    }
}

fn eq_str(a: &str, b: &str) -> (r: bool)
    ensures
        r == (a@ == b@),
{
    crate::lru_cache::str_equal(a, b)
}

/// How the file at `path` is previewed, by its extension.
pub fn preview_kind(path: &str) -> (k: PreviewKind)
    ensures
        k == preview_kind_spec(lower_extension(path@)),
{
    let ext = match extension(path) {
        Some(e) => to_lowercase(e.as_str()),
        None => {
            proof {
                reveal_strlit("");
            }
            assert(""@ =~= Seq::<char>::empty());
            to_lowercase("")
        },
    };
    assert(ext@ == lower_extension(path@));
    let e = ext.as_str();
    proof {
        reveal_strlit("txt"); reveal_strlit("md"); reveal_strlit("rs"); reveal_strlit("toml");
        reveal_strlit("json"); reveal_strlit("yaml"); reveal_strlit("yml"); reveal_strlit("py");
        reveal_strlit("js"); reveal_strlit("ts"); reveal_strlit("sh"); reveal_strlit("html");
        reveal_strlit("css"); reveal_strlit("c"); reveal_strlit("h"); reveal_strlit("cpp");
        reveal_strlit("hpp"); reveal_strlit("go"); reveal_strlit("java"); reveal_strlit("xml");
        reveal_strlit("cfg"); reveal_strlit("ini"); reveal_strlit("log"); reveal_strlit("csv");
        reveal_strlit("png"); reveal_strlit("jpg"); reveal_strlit("jpeg"); reveal_strlit("gif");
        reveal_strlit("bmp"); reveal_strlit("svg"); reveal_strlit("webp");
    }
    let texts: [&str; 24] = [
        "txt", "md", "rs", "toml", "json", "yaml", "yml", "py", "js", "ts", "sh", "html",
        "css", "c", "h", "cpp", "hpp", "go", "java", "xml", "cfg", "ini", "log", "csv",
    ];
    let mut i: usize = 0;
    while i < 24
        invariant
            i <= 24,
            e@ == lower_extension(path@),
            texts@.len() == 24,
            forall|j: int| 0 <= j < 24 ==> #[trigger] texts@[j]@ == text_extensions()[j],
            forall|j: int| 0 <= j < i ==> text_extensions()[j] != e@,
        decreases 24 - i,
    {
        if eq_str(e, texts[i]) {
            assert(text_extensions()[i as int] == e@);
            assert(text_extensions().contains(e@));
            return PreviewKind::Text;
        }
        i = i + 1;
    }
    assert(!text_extensions().contains(e@));
    if eq_str(e, "png") || eq_str(e, "jpg") || eq_str(e, "jpeg") {
        PreviewKind::Image
    } else if eq_str(e, "gif") || eq_str(e, "bmp") || eq_str(e, "svg") || eq_str(e, "webp") {
        PreviewKind::UnsupportedImage
    } else {
        PreviewKind::Binary
    }
}

/// The most characters of a text file read into the preview.
pub const PREVIEW_CHARS: usize = 16384;
/// The most lines of a text file shown.
pub const PREVIEW_LINES: usize = 100;

/// `ls` joined with line feeds between them.
pub open spec fn join_lines(ls: Seq<Seq<char>>) -> Seq<char>
    decreases ls.len(),
{
    if ls.len() == 0 {
        Seq::empty()
    } else if ls.len() == 1 {
        ls[0]
    } else {
        join_lines(ls.drop_last()) + seq!['\n'] + ls.last()
    }
}

/// The preview of a text: its first 16384 characters, of which the first
/// 100 lines, joined with line feeds.
pub open spec fn text_preview_spec(content: Seq<char>) -> Seq<char> {
    let head = if content.len() <= PREVIEW_CHARS { content } else { content.take(PREVIEW_CHARS as int) };
    let ls = str_lines(head);
    join_lines(if ls.len() <= PREVIEW_LINES { ls } else { ls.take(PREVIEW_LINES as int) })
}

/// The preview of a text (see [`text_preview_spec`]).
pub fn text_preview(content: &str) -> (t: String)
    ensures
        t@ == text_preview_spec(content@),
{
    let cs = chars_of(content);
    let k = if cs.len() <= PREVIEW_CHARS { cs.len() } else { PREVIEW_CHARS };
    let mut head: Vec<char> = Vec::new();
    let mut i: usize = 0;
    while i < k
        invariant
            i <= k,
            k <= cs.len(),
            head@ == cs@.take(i as int),
        decreases k - i,
    {
        head.push(cs[i]);
        i = i + 1;
        assert(head@ =~= cs@.take(i as int));
    }
    let hs = string_of(&head);
    assert(hs@ =~= (if content@.len() <= PREVIEW_CHARS { content@ } else { content@.take(PREVIEW_CHARS as int) }));
    let ls = lines_of(hs.as_str());
    let n = if ls.len() <= PREVIEW_LINES { ls.len() } else { PREVIEW_LINES };
    let ghost all = strings_view(ls@);
    let mut t = String::new();
    let mut j: usize = 0;
    assert(all.take(0) =~= Seq::<Seq<char>>::empty());
    while j < n
        invariant
            j <= n,
            n <= ls.len(),
            all == strings_view(ls@),
            t@ == join_lines(all.take(j as int)),
        decreases n - j,
    {
        assert(all.take(j + 1).drop_last() =~= all.take(j as int));
        assert(all.take(j + 1).last() == ls@[j as int]@);
        if j > 0 {
            push_char(&mut t, '\n');
        } else {
            assert(all.take(1) =~= seq![ls@[0]@]);
        }
        push_str(&mut t, ls[j].as_str());
        j = j + 1;
        assert(t@ =~= join_lines(all.take(j as int)));
    }
    assert(all.take(n as int) =~= (if all.len() <= PREVIEW_LINES { all } else { all.take(PREVIEW_LINES as int) }));
    t
}

/// The title shown with no entry under the cursor.
pub fn no_selection_title() -> (t: &'static str)
    ensures
        t@ == "No selection"@,
{
    "No selection"
}

/// The text shown with no entry under the cursor.
pub fn no_selection_text() -> (t: &'static str)
    ensures
        t@ == "Select a file to preview"@,
{
    "Select a file to preview"
}

/// The text shown for a directory of `count` entries.
pub fn directory_text(count: u64) -> (t: String)
    ensures
        t@ == "Directory: "@ + dec(count as nat) + " items"@,
{
    let mut t = String::new();
    push_str(&mut t, "Directory: ");
    push_dec(&mut t, count);
    push_str(&mut t, " items");
    t
}

/// The information line: the size text, the type and whether the file is
/// read-only.
pub open spec fn info_text_spec(size_text: Seq<char>, is_dir: bool, readonly: bool) -> Seq<char> {
    "Size: "@ + size_text + "  Type: "@ + (if is_dir { "Directory"@ } else { "File"@ }) + "  Readonly: "@
        + (if readonly { "true"@ } else { "false"@ })
}

/// The information line (see [`info_text_spec`]).
pub fn info_text(size_text: &str, is_dir: bool, readonly: bool) -> (t: String)
    ensures
        t@ == info_text_spec(size_text@, is_dir, readonly),
{
    let mut t = String::new();
    push_str(&mut t, "Size: ");
    push_str(&mut t, size_text);
    push_str(&mut t, "  Type: ");
    push_str(&mut t, if is_dir { "Directory" } else { "File" });
    push_str(&mut t, "  Readonly: ");
    push_str(&mut t, if readonly { "true" } else { "false" });
    assert(t@ =~= info_text_spec(size_text@, is_dir, readonly));
    t
}

/// The text shown for a picture format that is not drawn.
pub fn unsupported_image_text() -> (t: &'static str)
    ensures
        t@ == "Image file (format not yet supported)"@,
{
    "Image file (format not yet supported)"
}

/// The text shown for a file that is neither text nor a picture.
pub fn binary_text() -> (t: &'static str)
    ensures
        t@ == "Binary file"@,
{
    "Binary file"
}

/// The text shown when a file cannot be read.
pub fn error_text(message: &str) -> (t: String)
    ensures
        t@ == "Error: "@ + message@,
{
    let mut t = String::new();
    push_str(&mut t, "Error: ");
    push_str(&mut t, message);
    t
}

/// The text shown for a picture that could not be decoded.
pub fn undecodable_image_text(name: &str, size_text: &str) -> (t: String)
    ensures
        t@ == "Image: "@ + name@ + "\nSize: "@ + size_text@ + "\n(Preview not available)"@,
{
    let mut t = String::new();
    push_str(&mut t, "Image: ");
    push_str(&mut t, name);
    push_str(&mut t, "\nSize: ");
    push_str(&mut t, size_text);
    push_str(&mut t, "\n(Preview not available)");
    t
}

/// The largest picture side drawn.
pub const MAX_DECODE_DIM: u32 = 2048;

/// A picture's dimensions as the pane writes them, `W` x `H`.
pub fn dimensions_text(w: u32, h: u32) -> (t: String)
    ensures
        t@ == dec(w as nat) + "x"@ + dec(h as nat),
{
    let mut t = String::new();
    push_dec(&mut t, w as u64);
    push_char(&mut t, 'x');
    push_dec(&mut t, h as u64);
    proof {
        reveal_strlit("x");
    }
    assert(t@ =~= dec(w as nat) + "x"@ + dec(h as nat));
    t
}

/// The text shown for a picture too large to draw, or `None` when it is
/// small enough (no side above [`MAX_DECODE_DIM`]).
pub fn too_large_text(w: u32, h: u32) -> (t: Option<String>)
    ensures
        (w > MAX_DECODE_DIM || h > MAX_DECODE_DIM) ==> (t matches Some(s)
            && s@ == "Image too large: "@ + dec(w as nat) + "x"@ + dec(h as nat)),
        !(w > MAX_DECODE_DIM || h > MAX_DECODE_DIM) ==> t is None,
{
    if w > MAX_DECODE_DIM || h > MAX_DECODE_DIM {
        let mut t = String::new();
        push_str(&mut t, "Image too large: ");
        let d = dimensions_text(w, h);
        push_str(&mut t, d.as_str());
        Some(t)
    } else {
        None
    }
}

/// What the preview shows for the entry under the cursor: its name, whether
/// it is a directory, and its path.
pub fn preview_target(s: &FileViewState) -> (r: Option<(String, bool, String)>)
    ensures
        match s.cursor {
            Some(i) => if i < s.entries.len() {
                r matches Some(t) && t.0@ == s.entries@[i as int].name@ && t.1 == s.entries@[i as int].is_dir
                    && t.2@ == crate::paths::path_join(s.current_path@, s.entries@[i as int].name@)
            } else {
                r is None
            },
            None => r is None,
        },
{
    match s.cursor {
        Some(i) => if i < s.entries.len() {
            let e = &s.entries[i];
            let path = crate::paths::join_path(s.current_path.as_str(), e.name.as_str());
            Some((e.name.clone(), e.is_dir, path))
        } else {
            None
        },
        None => None,
    }
}

// ── Pictures ──

/// What `image::load_from_memory`, followed by conversion to 8-bit RGBA,
/// makes of `data`: the pixels, width and height, or none when it cannot
/// decode it.
pub uninterp spec fn decoded_rgba(data: Seq<u8>) -> Option<(Seq<u8>, u32, u32)>;

/// What `ImageReader::with_guessed_format` and `decode`, followed by
/// conversion to 8-bit RGBA, make of `data`.
pub uninterp spec fn guessed_rgba(data: Seq<u8>) -> Option<(Seq<u8>, u32, u32)>;

/// The pixels of an optional decoded picture as plain values.
pub open spec fn rgba_view(r: Option<(Vec<u8>, u32, u32)>) -> Option<(Seq<u8>, u32, u32)> {
    match r {
        Some(t) => Some((t.0@, t.1, t.2)),
        None => None,
    }
}

/// `image::load_from_memory` then `DynamicImage::to_rgba8`: the RGBA bytes,
/// width and height of the picture `data` holds, the decoding error mapped
/// to `None`.
#[verifier::external_body]
fn load_rgba(data: &[u8]) -> (r: Option<(Vec<u8>, u32, u32)>)
    ensures
        rgba_view(r) == decoded_rgba(data@),
{
    match image::load_from_memory(data) {
        Ok(img) => {
            let rgba = img.to_rgba8();
            let (w, h) = (rgba.width(), rgba.height());
            Some((rgba.into_raw(), w, h))
        },
        Err(_) => None,
    }
}

/// `ImageReader::new(Cursor::new(data)).with_guessed_format()` then
/// `decode` and `to_rgba8`, either error mapped to `None`.
#[verifier::external_body]
fn load_rgba_guessed(data: &[u8]) -> (r: Option<(Vec<u8>, u32, u32)>)
    ensures
        rgba_view(r) == guessed_rgba(data@),
{
    let reader = match image::ImageReader::new(std::io::Cursor::new(data)).with_guessed_format() {
        Ok(r) => r,
        Err(_) => return None,
    };
    match reader.decode() {
        Ok(img) => {
            let rgba = img.to_rgba8();
            let (w, h) = (rgba.width(), rgba.height());
            Some((rgba.into_raw(), w, h))
        },
        Err(_) => None,
    }
}

/// The RGBA pixels, width and height of the picture in `data`: the plain
/// decoding, or, where that fails, a decoding with the format guessed again.
pub fn decode_image(data: &[u8]) -> (r: Option<(Vec<u8>, u32, u32)>)
    ensures
        rgba_view(r) == (match decoded_rgba(data@) {
            Some(p) => Some(p),
            None => guessed_rgba(data@),
        }),
{
    match load_rgba(data) {
        Some(p) => Some(p),
        None => load_rgba_guessed(data),
    }
}

} // verus!
