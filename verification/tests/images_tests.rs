use std::path::PathBuf;

use tileboard::canvas::Canvas;
use tileboard::error::AppError;
use tileboard::images::{
    cache_path_of, canvas_from_rgba8, canvas_of_decoded, format_of_extension,
    get_encoding_from_extension, parse_web_url_and_cache_path, ril_image_from_bytes, source_of,
    split_text, ImageFormat, ImageLoaderOptions, ImageSource,
};
use tileboard::palette::Color;

fn rgba(r: u8, g: u8, b: u8, a: u8) -> Color {
    Color { r, g, b, a }
}

/// A PNG of 3 by 2 pixels with an alpha channel.
fn png_with_alpha() -> Vec<u8> {
    vec![137, 80, 78, 71, 13, 10, 26, 10, 0, 0, 0, 13, 73, 72, 68, 82, 0, 0, 0, 3, 0, 0, 0, 2, 8, 6, 0, 0, 0, 157, 116, 102, 26, 0, 0, 0, 30, 73, 68, 65, 84, 120, 218, 99, 248, 207, 192, 240, 31, 8, 27, 64, 20, 3, 35, 19, 51, 139, 145, 141, 91, 0, 39, 7, 251, 127, 0, 98, 221, 6, 162, 5, 125, 54, 88, 0, 0, 0, 0, 73, 69, 78, 68, 174, 66, 96, 130]
}

/// A PNG of 2 by 1 pixels without an alpha channel.
fn png_without_alpha() -> Vec<u8> {
    vec![137, 80, 78, 71, 13, 10, 26, 10, 0, 0, 0, 13, 73, 72, 68, 82, 0, 0, 0, 2, 0, 0, 0, 1, 8, 2, 0, 0, 0, 123, 64, 232, 221, 0, 0, 0, 15, 73, 68, 65, 84, 120, 218, 99, 224, 18, 145, 211, 48, 178, 1, 0, 2, 55, 0, 211, 226, 45, 237, 159, 0, 0, 0, 0, 73, 69, 78, 68, 174, 66, 96, 130]
}

fn strings(texts: &[&str]) -> Vec<String> {
    texts.iter().map(|t| t.to_string()).collect()
}

fn expect_refused(r: Result<Vec<String>, AppError>, why: &str) {
    match r {
        Err(AppError::InvalidArgumentError(what, reason)) => assert_eq!((what, reason), ("url", why)),
        other => panic!("expected a refusal, got {other:?}"),
    }
}

#[test]
fn it_parses() {
    let (_, cache_path) = parse_web_url_and_cache_path(
        "https://oldschool.runescape.wiki/images/Serpentine_helm_detail.png",
    )
    .expect("expected parse to succeed");
    let actual: PathBuf = cache_path.iter().collect();
    let actual = actual.as_path();
    let expected = {
        let mut buf = PathBuf::new();
        buf.push("oldschool");
        buf.push("runescape");
        buf.push("wiki");
        buf.push("images");
        buf.push("Serpentine_helm_detail.png");
        buf
    };
    let expected = expected.as_path();
    assert_eq!(expected, actual);
}

#[test]
fn web_url_keeps_https_and_names_the_fragments() {
    let (url, fragments) =
        parse_web_url_and_cache_path("https://example.com/a/b/c.png?size=2#top").unwrap();
    assert_eq!(url, "https://example.com/a/b/c.png?size=2#top");
    assert_eq!(fragments, strings(&["example", "com", "a", "b", "c.png"]));
}

#[test]
fn web_url_is_raised_to_https() {
    let (url, fragments) = parse_web_url_and_cache_path("http://example.com/icons/x.jpg").unwrap();
    assert_eq!(url, "https://example.com/icons/x.jpg");
    assert_eq!(fragments, strings(&["example", "com", "icons", "x.jpg"]));
    let (url, _) = parse_web_url_and_cache_path("HTTP://Example.COM:80/x.jpg").unwrap();
    assert_eq!(url, "https://example.com/x.jpg");
}

#[test]
fn web_url_that_is_no_url_is_refused() {
    assert!(matches!(parse_web_url_and_cache_path("not a url"), Err(AppError::UrlParseError(_))));
    assert!(matches!(parse_web_url_and_cache_path(""), Err(AppError::UrlParseError(_))));
    assert!(matches!(parse_web_url_and_cache_path("https://"), Err(AppError::UrlParseError(_))));
}

#[test]
fn web_url_of_another_scheme_is_refused() {
    for url in ["ftp://example.com/a.png", "file:///tmp/a.png", "data:image/png,abc"] {
        match parse_web_url_and_cache_path(url) {
            Err(AppError::InvalidArgumentError(what, why)) => {
                assert_eq!((what, why), ("url", "must be an http or https URL"));
            }
            _ => panic!("expected a refusal of {url}"),
        }
    }
}

#[test]
fn web_url_without_a_file_is_refused() {
    for url in [
        "https://example.com",
        "https://example.com/",
        "https://example.com/images",
        "https://example.com/images/",
        "https://example.com/.hidden",
        "http://example.com",
        "http://example.com/",
        "http://example.com/images",
        "http://example.com:8080/images/",
    ] {
        match parse_web_url_and_cache_path(url) {
            Err(AppError::InvalidArgumentError(what, why)) => {
                assert_eq!((what, why), ("url", "must specify a path to a file"));
            }
            _ => panic!("expected a refusal of {url}"),
        }
    }
}

#[test]
fn cache_path_is_host_labels_then_path_segments() {
    let fragments = cache_path_of("https", Some("a.b"), "/c/d.png", true).unwrap();
    assert_eq!(fragments, strings(&["a", "b", "c", "d.png"]));
    let fragments = cache_path_of("http", Some("localhost"), "/d.png", true).unwrap();
    assert_eq!(fragments, strings(&["localhost", "d.png"]));
    // empty labels and segments are kept
    let fragments = cache_path_of("https", Some("a..b"), "/c//d.png", true).unwrap();
    assert_eq!(fragments, strings(&["a", "", "b", "c", "", "d.png"]));
}

#[test]
fn cache_path_refusals_come_in_order() {
    expect_refused(cache_path_of("ftp", None, "/", false), "must be an http or https URL");
    expect_refused(cache_path_of("", Some("a.b"), "/c.png", true), "must be an http or https URL");
    expect_refused(cache_path_of("HTTPS", Some("a"), "/c.png", true), "must be an http or https URL");
    expect_refused(cache_path_of("https", None, "/", false), "must specify a hostname");
    expect_refused(cache_path_of("http", None, "/c.png", true), "must specify a hostname");
    expect_refused(cache_path_of("https", Some("a.b"), "/", true), "must specify a path to a file");
    expect_refused(cache_path_of("https", Some("a.b"), "/c", false), "must specify a path to a file");
    expect_refused(cache_path_of("https", Some("a.b"), "", true), "must specify a path to a file");
    expect_refused(cache_path_of("https", Some("a.b"), "c.png", true), "must specify a path to a file");
}

#[test]
fn split_text_cuts_at_every_separator() {
    assert_eq!(split_text("a.b.c", '.'), strings(&["a", "b", "c"]));
    assert_eq!(split_text("abc", '.'), strings(&["abc"]));
    assert_eq!(split_text("", '.'), strings(&[""]));
    assert_eq!(split_text(".", '.'), strings(&["", ""]));
    assert_eq!(split_text("a..b", '.'), strings(&["a", "", "b"]));
    assert_eq!(split_text(".a.", '.'), strings(&["", "a", ""]));
    assert_eq!(split_text("vi\u{1ec7}t/nam", '/'), strings(&["vi\u{1ec7}t", "nam"]));
}

#[test]
fn encoding_is_told_by_the_extension() {
    assert_eq!(get_encoding_from_extension("a/b/c.jpg"), ImageFormat::Jpeg);
    assert_eq!(get_encoding_from_extension("a/b/c.jpeg"), ImageFormat::Jpeg);
    assert_eq!(get_encoding_from_extension("a/b/c.png"), ImageFormat::Png);
    assert_eq!(get_encoding_from_extension("c.JPG"), ImageFormat::Jpeg);
    assert_eq!(get_encoding_from_extension("c.JpEg"), ImageFormat::Jpeg);
    assert_eq!(get_encoding_from_extension("c.PNG"), ImageFormat::Png);
    assert_eq!(get_encoding_from_extension("c.tar.png"), ImageFormat::Png);
}

#[test]
fn encoding_of_other_extensions_is_unknown() {
    assert_eq!(get_encoding_from_extension("c.gif"), ImageFormat::Unknown);
    assert_eq!(get_encoding_from_extension("c.pngx"), ImageFormat::Unknown);
    assert_eq!(get_encoding_from_extension("c.jp"), ImageFormat::Unknown);
    assert_eq!(get_encoding_from_extension("c"), ImageFormat::Unknown);
    assert_eq!(get_encoding_from_extension(""), ImageFormat::Unknown);
    assert_eq!(get_encoding_from_extension(".png"), ImageFormat::Unknown);
    assert_eq!(get_encoding_from_extension("dir.png/file"), ImageFormat::Unknown);
}

#[test]
fn format_of_an_extension() {
    assert_eq!(format_of_extension(Some("jpg")), ImageFormat::Jpeg);
    assert_eq!(format_of_extension(Some("JPEG")), ImageFormat::Jpeg);
    assert_eq!(format_of_extension(Some("pNg")), ImageFormat::Png);
    assert_eq!(format_of_extension(Some("")), ImageFormat::Unknown);
    assert_eq!(format_of_extension(Some("png ")), ImageFormat::Unknown);
    assert_eq!(format_of_extension(Some("p\u{4e}g")), ImageFormat::Png);
    assert_eq!(format_of_extension(Some("p\u{ff2e}g")), ImageFormat::Unknown);
    assert_eq!(format_of_extension(None), ImageFormat::Unknown);
}

#[test]
fn locations_point_to_the_web_or_to_files() {
    assert_eq!(source_of("https://example.com/a.png"), ImageSource::Web);
    assert_eq!(source_of("http://example.com/a.png"), ImageSource::Web);
    assert_eq!(source_of("HTTPS://example.com"), ImageSource::Web);
    assert_eq!(source_of("ftp://example.com/a.png"), ImageSource::File);
    assert_eq!(source_of("file:///tmp/a.png"), ImageSource::File);
    assert_eq!(source_of("icons/a.png"), ImageSource::File);
    assert_eq!(source_of("/tmp/a.png"), ImageSource::File);
    assert_eq!(source_of(""), ImageSource::File);
}

#[test]
fn default_loader_options() {
    assert_eq!(ImageLoaderOptions::default().cache_dir, ".cache/images");
}

#[test]
fn cache_may_not_be_the_current_directory() {
    let options = ImageLoaderOptions { cache_dir: "/home/me/boards".to_string() };
    assert!(options.check("/home/me").is_ok());
    assert!(options.check("/home/me/boards/cache").is_ok());
    for current in ["/home/me/boards", "/home/me/boards/", "/home/me//boards", "/home/me/./boards"] {
        match options.check(current) {
            Err(AppError::InvalidConfigError(why)) => {
                assert_eq!(why, "Image loader may not cache to the current directory.");
            }
            _ => panic!("expected a refusal of {current}"),
        }
    }
    assert!(ImageLoaderOptions::default().check("/home/me").is_ok());
}

#[test]
fn canvas_from_fn_asks_for_every_pixel() {
    let canvas = Canvas::from_fn(3, 2, |x, y| rgba(x as u8, y as u8, 7, 255));
    assert_eq!(canvas.dimensions(), (3, 2));
    for y in 0..2u32 {
        for x in 0..3u32 {
            assert_eq!(canvas.get_pixel(x, y), Some(rgba(x as u8, y as u8, 7, 255)));
        }
    }
}

#[test]
fn canvas_from_rgba8_reads_rows_of_pixels() {
    let raw: Vec<u8> = (1..=24).collect();
    let canvas = canvas_from_rgba8(3, 2, &raw).expect("the bytes are an image");
    assert_eq!(canvas.dimensions(), (3, 2));
    assert_eq!(canvas.get_pixel(0, 0), Some(rgba(1, 2, 3, 4)));
    assert_eq!(canvas.get_pixel(1, 0), Some(rgba(5, 6, 7, 8)));
    assert_eq!(canvas.get_pixel(2, 0), Some(rgba(9, 10, 11, 12)));
    assert_eq!(canvas.get_pixel(0, 1), Some(rgba(13, 14, 15, 16)));
    assert_eq!(canvas.get_pixel(2, 1), Some(rgba(21, 22, 23, 24)));
    let canvas = canvas_from_rgba8(2, 3, &raw).expect("the bytes are an image");
    assert_eq!(canvas.dimensions(), (2, 3));
    assert_eq!(canvas.get_pixel(0, 1), Some(rgba(9, 10, 11, 12)));
}

#[test]
fn canvas_from_rgba8_wants_every_byte() {
    let raw: Vec<u8> = (1..=24).collect();
    assert!(canvas_from_rgba8(3, 3, &raw).is_none());
    assert!(canvas_from_rgba8(5, 1, &raw).is_none());
    assert!(canvas_from_rgba8(0, 2, &raw).is_none());
    assert!(canvas_from_rgba8(3, 0, &raw).is_none());
    assert!(canvas_from_rgba8(0, 0, &Vec::new()).is_none());
    assert!(canvas_from_rgba8(1, 1, &vec![1, 2, 3]).is_none());
    assert!(canvas_from_rgba8(65536, 65536, &Vec::new()).is_none());
    assert!(canvas_from_rgba8(u32::MAX, u32::MAX, &raw).is_none());
}

#[test]
fn image_is_decoded_from_bytes() {
    let canvas = ril_image_from_bytes(&png_with_alpha()).expect("the bytes are a PNG");
    assert_eq!(canvas.dimensions(), (3, 2));
    assert_eq!(canvas.get_pixel(0, 0), Some(rgba(255, 0, 0, 255)));
    assert_eq!(canvas.get_pixel(1, 0), Some(rgba(0, 255, 0, 128)));
    assert_eq!(canvas.get_pixel(2, 0), Some(rgba(0, 0, 255, 0)));
    assert_eq!(canvas.get_pixel(0, 1), Some(rgba(1, 2, 3, 4)));
    assert_eq!(canvas.get_pixel(1, 1), Some(rgba(50, 60, 70, 80)));
    assert_eq!(canvas.get_pixel(2, 1), Some(rgba(9, 8, 7, 255)));
}

#[test]
fn image_without_alpha_is_opaque() {
    let canvas = ril_image_from_bytes(&png_without_alpha()).expect("the bytes are a PNG");
    assert_eq!(canvas.dimensions(), (2, 1));
    assert_eq!(canvas.get_pixel(0, 0), Some(rgba(10, 20, 30, 255)));
    assert_eq!(canvas.get_pixel(1, 0), Some(rgba(40, 50, 60, 255)));
}

#[test]
fn bytes_that_are_no_image_are_refused() {
    assert!(matches!(ril_image_from_bytes(&[1, 2, 3]), Err(AppError::ImageError(_))));
    assert!(matches!(ril_image_from_bytes(&[]), Err(AppError::ImageError(_))));
    let mut cut = png_with_alpha();
    cut.truncate(40);
    assert!(matches!(ril_image_from_bytes(&cut), Err(AppError::ImageError(_))));
}

#[test]
fn decoded_image_without_pixels_is_refused() {
    match canvas_of_decoded(Ok((0, 0, Vec::new()))) {
        Err(AppError::InvalidArgumentError(what, why)) => {
            assert_eq!((what, why), ("bytes", "must hold an image of at least one pixel"));
        }
        _ => panic!("expected a refusal"),
    }
    assert!(matches!(
        canvas_of_decoded(Ok((2, 2, vec![0; 15]))),
        Err(AppError::InvalidArgumentError("bytes", _))
    ));
    let canvas = canvas_of_decoded(Ok((1, 1, vec![4, 3, 2, 1]))).expect("one pixel is enough");
    assert_eq!(canvas.get_pixel(0, 0), Some(rgba(4, 3, 2, 1)));
    let failed = image::load_from_memory(&[1, 2, 3]).map(|_| (1, 1, Vec::new()));
    assert!(matches!(canvas_of_decoded(failed), Err(AppError::ImageError(_))));
}
