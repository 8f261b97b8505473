//! Where images come from: the rules for locations, cache paths and formats.
//! Reading files and fetching URLs is left to the caller.

use vstd::prelude::*;
use vstd::string::{StrSliceExecFns, StringExecFns};
use crate::canvas::Canvas;
use crate::error::AppError;
use crate::palette::Color;

verus! {

/// Configures the loading of images.
#[derive(Debug)]
pub struct ImageLoaderOptions {
    /// Directory that fetched images are kept in.
    pub cache_dir: String,
}

/// Whether two paths are equal as `std::path::Path` compares them:
/// component by component.
pub uninterp spec fn same_path(a: Seq<char>, b: Seq<char>) -> bool;

/// Wraps the `==` of `std::path::Path`.
#[verifier::external_body]
fn paths_equal(a: &str, b: &str) -> (equal: bool)
    ensures
        equal == same_path(a@, b@),
{
    std::path::Path::new(a) == std::path::Path::new(b)
}

impl ImageLoaderOptions {
    /// Accepts the options unless they would have images cached in the
    /// current directory itself.
    pub fn check(&self, current_dir: &str) -> (r: Result<(), AppError>)
        ensures
            r is Ok <==> !same_path(self.cache_dir@, current_dir@),
            r matches Err(e) ==> (e matches AppError::InvalidConfigError(why) && why@
                == "Image loader may not cache to the current directory."@),
    {
        if paths_equal(self.cache_dir.as_str(), current_dir) {
            return Err(
                AppError::InvalidConfigError(
                    "Image loader may not cache to the current directory.",
                ),
            );
        }
        Ok(())
    }
}

impl Default for ImageLoaderOptions {
    fn default() -> (options: Self)
        ensures
            options.cache_dir@ == ".cache/images"@,
    {
        ImageLoaderOptions { cache_dir: String::from_str(".cache/images") }
    }
}

/// The encodings fetched images are cached in.
#[derive(Clone, Copy, Debug, PartialEq, Eq, Structural)]
pub enum ImageFormat {
    Jpeg,
    Png,
    Unknown,
}

/// The extension of a path, as `std::path::Path::extension` finds it.
pub uninterp spec fn path_extension(path: Seq<char>) -> Option<Seq<char>>;

/// Wraps `std::path::Path::extension`: the part of the file name after its
/// last dot, if the path has a file name with a dot that is not its first
/// character.
#[verifier::external_body]
fn extension_of(path: &str) -> (extension: Option<String>)
    ensures
        extension matches Some(e) ==> path_extension(path@) == Some(e@),
        extension is None ==> path_extension(path@) is None,
{
    std::path::Path::new(path).extension().map(|e| e.to_string_lossy().into_owned())
}

/// `c` in lower case if it is an upper-case ASCII letter, else `c`.
pub open spec fn ascii_lower(c: char) -> char {
    if 'A' <= c <= 'Z' {
        ((c as u8) + 32) as char
    } else {
        c
    }
}

/// `text` with its upper-case ASCII letters in lower case.
pub open spec fn ascii_lowered(text: Seq<char>) -> Seq<char> {
    Seq::new(text.len(), |i: int| ascii_lower(text[i]))
}

/// The format an extension stands for, whatever the case of its letters.
pub open spec fn format_named(extension: Option<Seq<char>>) -> ImageFormat {
    match extension {
        Some(e) => if ascii_lowered(e) == "jpg"@ || ascii_lowered(e) == "jpeg"@ {
            ImageFormat::Jpeg
        } else if ascii_lowered(e) == "png"@ {
            ImageFormat::Png
        } else {
            ImageFormat::Unknown
        },
        None => ImageFormat::Unknown,
    }
}

fn lower(c: char) -> (l: char)
    ensures
        l == ascii_lower(c),
{
    if 'A' <= c && c <= 'Z' {
        ((c as u8) + 32) as char
    } else {
        c
    }
}

/// `text` spells `name` when the case of its ASCII letters is ignored.
/// `name` is in lower case.
fn spells(text: &str, name: &str) -> (yes: bool)
    ensures
        yes == (ascii_lowered(text@) == name@),
{
    let length = text.unicode_len();
    if length != name.unicode_len() {
        return false;
    }
    let mut index: usize = 0;
    while index < length
        invariant
            length == text@.len(),
            length == name@.len(),
            index <= length,
            forall|i: int| 0 <= i < index ==> ascii_lower(text@[i]) == name@[i],
        decreases length - index,
    {
        if lower(text.get_char(index)) != name.get_char(index) {
            assert(ascii_lowered(text@)[index as int] != name@[index as int]);
            return false;
        }
        index += 1;
    }
    assert(ascii_lowered(text@) =~= name@);
    true
}

/// Computes [`format_named`].
pub fn format_of_extension(extension: Option<&str>) -> (format: ImageFormat)
    ensures
        format == format_named(
            match extension {
                Some(e) => Some(e@),
                None => None,
            },
        ),
{
    match extension {
        Some(e) => {
            if spells(e, "jpg") || spells(e, "jpeg") {
                ImageFormat::Jpeg
            } else if spells(e, "png") {
                ImageFormat::Png
            } else {
                ImageFormat::Unknown
            }
        },
        None => ImageFormat::Unknown,
    }
}

/// The format a cached image is stored in, told by the extension of its
/// path: JPEG for `jpg` and `jpeg`, PNG for `png`, in any case of letters.
pub fn get_encoding_from_extension(path: &str) -> (format: ImageFormat)
    ensures
        format == format_named(path_extension(path@)),
{
    match extension_of(path) {
        Some(extension) => format_of_extension(Some(extension.as_str())),
        None => format_of_extension(None),
    }
}

/// The pieces of `text` between its separators: one more than it has
/// separators, some of them empty where separators meet or stand at an end.
pub open spec fn split(text: Seq<char>, separator: char) -> Seq<Seq<char>>
    decreases text.len(),
{
    if text.len() == 0 {
        seq![Seq::empty()]
    } else {
        let before = split(text.drop_last(), separator);
        if text.last() == separator {
            before.push(Seq::empty())
        } else {
            before.drop_last().push(before.last().push(text.last()))
        }
    }
}

/// The texts of a sequence of strings.
pub open spec fn texts_of(strings: Seq<String>) -> Seq<Seq<char>> {
    Seq::new(strings.len(), |i: int| strings[i]@)
}

/// Computes [`split`].
pub fn split_text(text: &str, separator: char) -> (pieces: Vec<String>)
    ensures
        texts_of(pieces@) == split(text@, separator),
{
    let length = text.unicode_len();
    let mut pieces: Vec<String> = Vec::new();
    let mut start: usize = 0;
    let mut index: usize = 0;
    assert(text@.take(0) =~= Seq::empty());
    assert(texts_of(pieces@).push(text@.subrange(0, 0)) =~= split(text@.take(0), separator));
    while index < length
        invariant
            length == text@.len(),
            start <= index <= length,
            texts_of(pieces@).push(text@.subrange(start as int, index as int)) == split(
                text@.take(index as int),
                separator,
            ),
        decreases length - index,
    {
        let ghost before = texts_of(pieces@);
        let ghost tail = text@.subrange(start as int, index as int);
        proof {
            let prefix = text@.take(index + 1);
            assert(prefix.drop_last() =~= text@.take(index as int));
            assert(prefix.last() == text@[index as int]);
            assert(before.push(tail).drop_last() =~= before);
            assert(before.push(tail).last() == tail);
        }
        if text.get_char(index) == separator {
            pieces.push(String::from_str(text.substring_char(start, index)));
            start = index + 1;
            assert(texts_of(pieces@) =~= before.push(tail));
            assert(text@.subrange(start as int, index + 1) =~= Seq::empty());
        } else {
            assert(text@.subrange(start as int, index + 1) =~= tail.push(text@[index as int]));
        }
        index += 1;
    }
    let ghost before = texts_of(pieces@);
    pieces.push(String::from_str(text.substring_char(start, length)));
    assert(texts_of(pieces@) =~= before.push(text@.subrange(start as int, length as int)));
    assert(text@.take(length as int) =~= text@);
    pieces
}

#[verifier::external_type_specification]
#[verifier::external_body]
pub struct ExUrl(url::Url);

/// What a URL holds: its text, as `url::Url` writes it out.
pub uninterp spec fn url_text(url: url::Url) -> Seq<char>;

/// The text of the URL that `url::Url::parse` reads out of a text, if it
/// reads one.
pub uninterp spec fn parsed_url(text: Seq<char>) -> Option<Seq<char>>;

/// The scheme of the URL with the text `url`, in lower case and without
/// the colon.
pub uninterp spec fn url_scheme(url: Seq<char>) -> Seq<char>;

/// The host of the URL with the text `url`, if it has one.
pub uninterp spec fn url_host(url: Seq<char>) -> Option<Seq<char>>;

/// The path of the URL with the text `url`.
pub uninterp spec fn url_path(url: Seq<char>) -> Seq<char>;

/// The URL with the text `url` after its scheme is changed to `https`,
/// where it allows that.
pub uninterp spec fn url_secured(url: Seq<char>) -> Option<Seq<char>>;

/// Wraps `url::Url::parse`.
#[verifier::external_body]
fn parse_url(text: &str) -> (r: Result<url::Url, url::ParseError>)
    ensures
        r matches Ok(url) ==> parsed_url(text@) == Some(url_text(url)),
        r is Err ==> parsed_url(text@) is None,
{
    url::Url::parse(text)
}

/// Wraps `url::Url::scheme`.
#[verifier::external_body]
fn scheme_of(url: &url::Url) -> (scheme: String)
    ensures
        scheme@ == url_scheme(url_text(*url)),
{
    url.scheme().to_string()
}

/// Wraps `url::Url::host_str`.
#[verifier::external_body]
fn host_of(url: &url::Url) -> (host: Option<String>)
    ensures
        host matches Some(h) ==> url_host(url_text(*url)) == Some(h@),
        host is None ==> url_host(url_text(*url)) is None,
{
    url.host_str().map(|h| h.to_string())
}

/// Wraps `url::Url::path`.
#[verifier::external_body]
fn path_of(url: &url::Url) -> (path: String)
    ensures
        path@ == url_path(url_text(*url)),
{
    url.path().to_string()
}

/// Wraps `url::Url::as_str`.
#[verifier::external_body]
fn text_of(url: &url::Url) -> (text: String)
    ensures
        text@ == url_text(*url),
{
    url.as_str().to_string()
}

/// Wraps `url::Url::set_scheme` with the scheme `https`. Where the URL
/// refuses, it is left as it was; where it accepts, its scheme becomes
/// `https` while host and path stay.
#[verifier::external_body]
fn secure(url: &mut url::Url) -> (done: bool)
    ensures
        done ==> url_secured(url_text(*old(url))) == Some(url_text(*final(url))),
        done ==> url_scheme(url_text(*final(url))) == "https"@,
        done ==> url_host(url_text(*final(url))) == url_host(url_text(*old(url))),
        done ==> url_path(url_text(*final(url))) == url_path(url_text(*old(url))),
        !done ==> url_secured(url_text(*old(url))) is None && url_text(*final(url)) == url_text(
            *old(url),
        ),
{
    url.set_scheme("https").is_ok()
}

/// Why the parts of a URL do not make a cache path, if they do not.
pub open spec fn refusal(
    scheme: Seq<char>,
    host: Option<Seq<char>>,
    path: Seq<char>,
    has_extension: bool,
) -> Option<Seq<char>> {
    if scheme != "http"@ && scheme != "https"@ {
        Some("must be an http or https URL"@)
    } else if host is None {
        Some("must specify a hostname"@)
    } else if path == "/"@ || !has_extension || path.len() == 0 || path[0] != '/' {
        Some("must specify a path to a file"@)
    } else {
        None
    }
}

/// The cache path of a web image: the labels of its host, then the
/// segments of its path.
pub open spec fn cache_path(host: Seq<char>, path: Seq<char>) -> Seq<Seq<char>> {
    split(host, '.') + split(path.skip(1), '/')
}

/// Works out where the image behind the parts of a URL is cached: in a
/// directory for each label of the host, and below them for each segment
/// of the path but the last, which names the file.
///
/// Only `http` and `https` URLs with a host and a path to a file with an
/// extension have a cache path.
pub fn cache_path_of(scheme: &str, host: Option<&str>, path: &str, has_extension: bool) -> (r:
    Result<Vec<String>, AppError>)
    ensures
        match refusal(
            scheme@,
            match host {
                Some(h) => Some(h@),
                None => None,
            },
            path@,
            has_extension,
        ) {
            Some(why) => r matches Err(AppError::InvalidArgumentError(what, reason)) && what@
                == "url"@ && reason@ == why,
            None => r matches Ok(fragments) && texts_of(fragments@) == cache_path(
                host.unwrap()@,
                path@,
            ),
        },
{
    proof {
        reveal_strlit("http");
        reveal_strlit("https");
        reveal_strlit("/");
    }
    if !spells_exactly(scheme, "http") && !spells_exactly(scheme, "https") {
        return Err(AppError::InvalidArgumentError("url", "must be an http or https URL"));
    }
    let host = match host {
        Some(host) => host,
        None => {
            return Err(AppError::InvalidArgumentError("url", "must specify a hostname"));
        },
    };
    let length = path.unicode_len();
    if length <= 1 || !has_extension || path.get_char(0) != '/' {
        assert(length == 1 && path@[0] == '/' ==> path@ =~= "/"@);
        return Err(AppError::InvalidArgumentError("url", "must specify a path to a file"));
    }
    let mut fragments = split_text(host, '.');
    let ghost labels = texts_of(fragments@);
    let mut segments = split_text(path.substring_char(1, length), '/');
    let ghost names = texts_of(segments@);
    assert(path@.subrange(1, length as int) =~= path@.skip(1));
    fragments.append(&mut segments);
    assert(texts_of(fragments@) =~= labels + names);
    Ok(fragments)
}

/// Two texts are the same, character by character.
fn spells_exactly(text: &str, other: &str) -> (yes: bool)
    ensures
        yes == (text@ == other@),
{
    let length = text.unicode_len();
    if length != other.unicode_len() {
        return false;
    }
    let mut index: usize = 0;
    while index < length
        invariant
            length == text@.len(),
            length == other@.len(),
            index <= length,
            forall|i: int| 0 <= i < index ==> text@[i] == other@[i],
        decreases length - index,
    {
        if text.get_char(index) != other.get_char(index) {
            return false;
        }
        index += 1;
    }
    assert(text@ =~= other@);
    true
}

/// The URL an image is fetched from: `url` itself, or `url` with the scheme
/// `https` in place of `http`.
pub open spec fn web_url(url: Seq<char>) -> Option<Seq<char>> {
    if url_scheme(url) == "http"@ {
        url_secured(url)
    } else {
        Some(url)
    }
}

/// Reads `url` as the URL of a web image and works out where the image is
/// cached. Returns the URL to fetch, with `http` raised to `https`, and
/// the fragments of the cache path, outermost directory first.
///
/// Fails if `url` is no URL at all, and for the reasons given at
/// [`cache_path_of`].
pub fn parse_web_url_and_cache_path(url: &str) -> (r: Result<(String, Vec<String>), AppError>)
    ensures
        match parsed_url(url@) {
            None => r matches Err(AppError::UrlParseError(_)),
            Some(parsed) => match web_url(parsed) {
                None => r matches Err(AppError::InvalidArgumentError(what, reason)) && what@
                    == "url"@ && reason@ == "must be an http or https URL"@,
                Some(web) => {
                    // raising the scheme keeps host and path
                    &&& url_scheme(parsed) == "http"@ ==> url_scheme(web) == "https"@
                        && url_host(web) == url_host(parsed) && url_path(web) == url_path(parsed)
                    &&& match refusal(
                        url_scheme(web),
                        url_host(web),
                        url_path(web),
                        path_extension(url_path(web)) is Some,
                    ) {
                        Some(why) => r matches Err(AppError::InvalidArgumentError(what, reason))
                            && what@ == "url"@ && reason@ == why,
                        None => r matches Ok((text, fragments)) && text@ == web && texts_of(
                            fragments@,
                        ) == cache_path(url_host(web).unwrap(), url_path(web)),
                    }
                },
            },
        },
{
    let mut url = match parse_url(url) {
        Ok(url) => url,
        Err(e) => {
            return Err(AppError::UrlParseError(e));
        },
    };
    if spells_exactly(scheme_of(&url).as_str(), "http") {
        if !secure(&mut url) {
            return Err(AppError::InvalidArgumentError("url", "must be an http or https URL"));
        }
    }
    let scheme = scheme_of(&url);
    let host = host_of(&url);
    let path = path_of(&url);
    let has_extension = extension_of(path.as_str()).is_some();
    let host = match &host {
        Some(host) => Some(host.as_str()),
        None => None,
    };
    let fragments = cache_path_of(scheme.as_str(), host, path.as_str(), has_extension);
    match fragments {
        Ok(fragments) => Ok((text_of(&url), fragments)),
        Err(e) => Err(e),
    }
}

/// Where a location points.
#[derive(Clone, Copy, Debug, PartialEq, Eq, Structural)]
pub enum ImageSource {
    /// To the web: the location is an `http` or `https` URL.
    Web,
    /// To a file: the location is a path.
    File,
}

/// Where `location` points: to the web if it reads as a URL with the
/// scheme `http` or `https`, else to a file.
pub open spec fn source(location: Seq<char>) -> ImageSource {
    match parsed_url(location) {
        Some(url) => if url_scheme(url) == "http"@ || url_scheme(url) == "https"@ {
            ImageSource::Web
        } else {
            ImageSource::File
        },
        None => ImageSource::File,
    }
}

/// Computes [`source`].
pub fn source_of(location: &str) -> (found: ImageSource)
    ensures
        found == source(location@),
{
    match parse_url(location) {
        Ok(url) => {
            let scheme = scheme_of(&url);
            if spells_exactly(scheme.as_str(), "http") || spells_exactly(scheme.as_str(), "https") {
                ImageSource::Web
            } else {
                ImageSource::File
            }
        },
        Err(_) => ImageSource::File,
    }
}

/// The pixel at column `x`, row `y` of an image of the given width that
/// is laid out row by row, four bytes to a pixel: red, green, blue, alpha.
pub open spec fn rgba8_pixel(raw: Seq<u8>, width: int, x: int, y: int) -> Color {
    let at = 4 * (y * width + x);
    Color { r: raw[at], g: raw[at + 1], b: raw[at + 2], a: raw[at + 3] }
}

/// The grid of an image of `width` by `height` pixels laid out as for
/// [`rgba8_pixel`].
pub open spec fn rgba8_rows(raw: Seq<u8>, width: int, height: int) -> Seq<Seq<Color>> {
    Seq::new(height as nat, |y: int| Seq::new(width as nat, |x: int| rgba8_pixel(raw, width, x, y)))
}

/// The bytes are those of an image of `width` by `height` pixels that a
/// canvas can hold.
pub open spec fn holds_rgba8(raw: Seq<u8>, width: int, height: int) -> bool {
    &&& width >= 1
    &&& height >= 1
    &&& width * height <= u32::MAX
    &&& raw.len() == 4 * (width * height)
}

/// Makes a canvas of decoded pixels: `raw` holds `height` rows of `width`
/// pixels, four bytes to a pixel. Nothing comes of bytes that are not such
/// an image.
pub fn canvas_from_rgba8(width: u32, height: u32, raw: &Vec<u8>) -> (canvas: Option<Canvas>)
    ensures
        canvas is Some <==> holds_rgba8(raw@, width as int, height as int),
        canvas matches Some(c) ==> c@ == rgba8_rows(raw@, width as int, height as int),
{
    if width < 1 || height < 1 {
        return None;
    }
    assert(width * height <= 0xffff_ffff * 0xffff_ffff) by (nonlinear_arith)
        requires
            0 <= width <= 0xffff_ffff,
            0 <= height <= 0xffff_ffff,
    ;
    let area: u64 = width as u64 * height as u64;
    if area > u32::MAX as u64 || raw.len() as u64 != 4 * area {
        return None;
    }
    let pixel = |x: u32, y: u32| -> (c: Color)
        requires
            x < width,
            y < height,
        ensures
            c == rgba8_pixel(raw@, width as int, x as int, y as int),
        {
            assert(y * width + x < width * height) by (nonlinear_arith)
                requires
                    0 <= x < width,
                    0 <= y < height,
            ;
            assert(y * width >= 0) by (nonlinear_arith)
                requires
                    0 <= y,
                    0 <= width,
            ;
            let at: usize = 4 * (y as usize * width as usize + x as usize);
            Color { r: raw[at], g: raw[at + 1], b: raw[at + 2], a: raw[at + 3] }
        };
    let canvas = Canvas::from_fn(width, height, pixel);
    assert(canvas@ =~~= rgba8_rows(raw@, width as int, height as int)) by {
        assert forall|y: int| 0 <= y < height implies #[trigger] canvas@[y] =~= rgba8_rows(
            raw@,
            width as int,
            height as int,
        )[y] by {
            assert forall|x: int| 0 <= x < width implies canvas@[y][x] == rgba8_pixel(
                raw@,
                width as int,
                x,
                y,
            ) by {
                let (column, row) = (x as u32, y as u32);
                assert(pixel.ensures((column, row), canvas@[row as int][column as int]));
            }
        }
    }
    Some(canvas)
}

/// Wraps `image::load_from_memory` and the conversion of what it decodes
/// to 8-bit RGBA: width, height and the bytes of the pixels, row by row.
/// What decodes, and to what, depends on the decoders registered with
/// `image` in the running process as well as on the bytes, so nothing is
/// claimed of the result; [`canvas_of_decoded`] says what is made of it.
#[verifier::external_body]
fn decode_rgba8(bytes: &[u8]) -> (r: Result<(u32, u32, Vec<u8>), image::ImageError>) {
    let decoded = image::load_from_memory(bytes)?.to_rgba8();
    Ok((decoded.width(), decoded.height(), decoded.into_raw()))
}

/// What a decoded image amounts to: a canvas of its pixels, or the
/// decoder's error passed on; an image without pixels is refused.
pub fn canvas_of_decoded(decoded: Result<(u32, u32, Vec<u8>), image::ImageError>) -> (r: Result<
    Canvas,
    AppError,
>)
    ensures
        match decoded {
            Ok((width, height, raw)) => if holds_rgba8(raw@, width as int, height as int) {
                r matches Ok(canvas) && canvas@ == rgba8_rows(raw@, width as int, height as int)
            } else {
                r matches Err(AppError::InvalidArgumentError(what, reason)) && what@ == "bytes"@
                    && reason@ == "must hold an image of at least one pixel"@
            },
            Err(e) => r matches Err(AppError::ImageError(cause)) && cause == e,
        },
{
    match decoded {
        Ok((width, height, raw)) => match canvas_from_rgba8(width, height, &raw) {
            Some(canvas) => Ok(canvas),
            None => Err(
                AppError::InvalidArgumentError("bytes", "must hold an image of at least one pixel"),
            ),
        },
        Err(e) => Err(AppError::ImageError(e)),
    }
}

/// Decodes an image held in memory, in whatever format its first bytes
/// tell, into a canvas.
pub fn ril_image_from_bytes(bytes: &[u8]) -> (r: Result<Canvas, AppError>)
    ensures
        r matches Err(e) ==> e is ImageError || e is InvalidArgumentError,
{
    canvas_of_decoded(decode_rgba8(bytes))
}

} // verus!
