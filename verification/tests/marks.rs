//! A mark, the link it opens, its favicon, and where its favicons are kept.

use marks_client::icon_cache::{server_name, IconFiles};
use marks_client::icons::{decode, IconCache, IconState, ICON_PIXELS};
use marks_client::mark::{looks_like_host, web_link, Mark};
use std::path::PathBuf;

fn mark(id: &str, icon_id: Option<&str>) -> Mark {
    Mark {
        id: id.to_owned(),
        name: id.to_owned(),
        content: "https://example.com/".to_owned(),
        icon_id: icon_id.map(str::to_owned),
    }
}

#[test]
fn a_bare_host_opens_as_https() {
    assert_eq!(web_link("github.com").map(|l| l.address), Some("https://github.com/".to_owned()));
    assert_eq!(
        web_link("localhost:5173").map(|l| l.address),
        Some("https://localhost:5173/".to_owned())
    );
    assert_eq!(
        web_link("http://example.com/a").map(|l| l.address),
        Some("http://example.com/a".to_owned())
    );
}

#[test]
fn a_note_or_another_scheme_is_not_a_link() {
    assert!(web_link("milk").is_none());
    assert!(web_link("buy milk").is_none());
    assert!(web_link("mailto:someone@example.com").is_none());
    assert!(web_link("javascript:alert(1)").is_none());
    assert!(web_link("   ").is_none());
    assert!(looks_like_host("example.com:8080/path"));
    assert!(!looks_like_host("milk"));
}

#[test]
fn a_mark_s_link_is_its_content_read_as_one() {
    let m = Mark {
        id: "1".to_owned(),
        name: "GitHub".to_owned(),
        content: "github.com/emilk".to_owned(),
        icon_id: None,
    };

    assert_eq!(m.link().map(|l| l.address), Some("https://github.com/emilk".to_owned()));
}

#[test]
fn a_favicon_is_fetched_once_and_a_missing_one_is_remembered() {
    let mut cache = IconCache::new();

    assert_eq!(cache.icon(&mark("a", Some("icon-a"))), (IconState::Loading, true));
    assert_eq!(cache.icon(&mark("a", Some("icon-a"))), (IconState::Loading, false));
    assert_eq!(cache.icon(&mark("b", None)), (IconState::Missing, false));
    assert_eq!(cache.icon(&mark("b", None)), (IconState::Missing, false));

    assert!(!cache.is_ready("a"));
    cache.store("a", true);
    assert!(cache.is_ready("a"));
    assert_eq!(cache.icon(&mark("a", Some("icon-a"))), (IconState::Ready, false));

    cache.store("c", false);
    assert_eq!(cache.icon(&mark("c", Some("icon-c"))), (IconState::Missing, false));
}

#[test]
fn a_forgotten_favicon_is_asked_for_again() {
    let mut cache = IconCache::new();
    cache.icon(&mark("a", Some("icon-a")));
    cache.store("a", true);

    cache.forget("a");

    assert!(!cache.is_ready("a"));
    assert_eq!(cache.icon(&mark("a", Some("icon-a"))), (IconState::Loading, true));
}

#[test]
fn bytes_that_are_no_picture_decode_to_nothing() {
    assert!(decode(b"").is_none());
    assert!(decode(b"<html>not an icon</html>").is_none());
}

#[test]
fn a_picture_is_decoded_to_fit_the_row() {
    // A 64x64 image in the smallest PNG there is to write by hand is more than this test needs;
    // one encoded with the decoder's own crate is the honest fixture.
    let mut png = Vec::new();
    let picture = image::RgbaImage::from_pixel(64, 48, image::Rgba([10, 20, 30, 255]));
    image::DynamicImage::ImageRgba8(picture)
        .write_to(&mut std::io::Cursor::new(&mut png), image::ImageFormat::Png)
        .expect("a png");

    let decoded = decode(&png).expect("a picture");

    assert!(decoded.width <= ICON_PIXELS && decoded.height <= ICON_PIXELS);
    assert_eq!(decoded.width, 32);
    assert_eq!(decoded.height, 24);
    assert_eq!(decoded.rgba.len(), (decoded.width * decoded.height * 4) as usize);
    assert_eq!(&decoded.rgba[..4], &[10, 20, 30, 255]);
}

#[test]
fn a_server_is_named_by_its_scheme_host_and_port() {
    assert_eq!(server_name("http://localhost:5173"), "http_localhost_5173");
    assert_eq!(server_name("https://marks.example.com/"), "https_marks.example.com");
    assert_eq!(server_name("not a url/../x"), "not_a_url_.._x");
    assert!(server_name("https://a.example:1/x?y").chars().all(|c| c.is_ascii_alphanumeric() || ".-_".contains(c)));
}

#[test]
fn favicons_are_kept_per_server_under_the_cache_directory() {
    let files = IconFiles::for_server(Some(PathBuf::from("/cache")), "http://localhost:5173")
        .expect("a place for the favicons");
    assert!(files.dir().ends_with("http_localhost_5173"));
    assert!(files.dir().starts_with("/cache"));
    assert!(IconFiles::for_server(None, "http://localhost:5173").is_none());

    let chosen = IconFiles::in_dir(PathBuf::from("/somewhere"));
    assert_eq!(chosen.dir(), &PathBuf::from("/somewhere"));
}

#[test]
fn one_servers_favicons_are_not_anothers() {
    let cache = Some(PathBuf::from("/cache"));
    let first = IconFiles::for_server(cache.clone(), "http://localhost:5173").expect("a cache");
    let second = IconFiles::for_server(cache, "https://marks.example.com").expect("a cache");

    assert_ne!(first.dir(), second.dir());
    assert!(first.dir().ends_with("http_localhost_5173"), "{:?}", first.dir());
    assert!(second.dir().ends_with("https_marks.example.com"), "{:?}", second.dir());
}

#[test]
fn an_address_that_is_not_a_url_still_names_a_directory() {
    let name = server_name("not a url at all");

    assert!(!name.is_empty());
    assert!(
        name.chars()
            .all(|character| character.is_ascii_alphanumeric() || matches!(character, '.' | '-' | '_')),
        "{name:?}"
    );
    assert!(!name.contains(std::path::MAIN_SEPARATOR));
}

#[test]
fn a_favicon_that_was_fetched_once_is_not_fetched_again() {
    let mut cache = IconCache::new();

    let (_, first) = cache.icon(&mark("mark-1", Some("icon-1")));
    cache.store("mark-1", true);
    let (state, again) = cache.icon(&mark("mark-1", Some("icon-1")));

    assert!(first);
    assert!(!again);
    assert_eq!(state, IconState::Ready);
}
