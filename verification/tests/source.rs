use comicli::ascii::AsciiError;
use comicli::source::{
    comic_image_url, comic_lookup_status, decimal_string, latest_comic_num, parse_source,
    pick_random_comic, xkcd_info_url,
};

#[test]
fn bare_source_has_no_id() {
    assert_eq!(parse_source("xkcd"), Ok(None));
}

#[test]
fn source_with_id_keeps_it_verbatim() {
    assert_eq!(parse_source("xkcd:614"), Ok(Some(String::from("614"))));
}

#[test]
fn source_with_empty_id_keeps_it_empty() {
    assert_eq!(parse_source("xkcd:"), Ok(Some(String::from(""))));
}

#[test]
fn source_with_extra_fields_uses_the_second() {
    assert_eq!(parse_source("xkcd:1:2"), Ok(Some(String::from("1"))));
}

#[test]
fn unknown_prefix_is_unknown_source() {
    assert_eq!(parse_source("dilbert"), Err(AsciiError::UnknownSource));
    assert_eq!(parse_source("xkcdx:4"), Err(AsciiError::UnknownSource));
    assert_eq!(parse_source(""), Err(AsciiError::UnknownSource));
}

#[test]
fn info_url_embeds_the_id() {
    assert_eq!(xkcd_info_url("614").as_str(), "https://xkcd.com/614/info.0.json");
    assert_eq!(xkcd_info_url("").as_str(), "https://xkcd.com//info.0.json");
}

#[test]
fn decimal_strings_match() {
    assert_eq!(decimal_string(0).as_str(), "0");
    assert_eq!(decimal_string(7).as_str(), "7");
    assert_eq!(decimal_string(1234).as_str(), "1234");
    assert_eq!(decimal_string(u64::MAX).as_str(), "18446744073709551615");
}

#[test]
fn random_comic_stays_in_range() {
    for _ in 0..50 {
        let id = pick_random_comic(5).expect("a non-trivial range draws");
        assert!((1..5).contains(&id));
    }
    assert_eq!(pick_random_comic(2), Some(1));
    assert_eq!(pick_random_comic(1), None);
    assert_eq!(pick_random_comic(0), None);
}

#[test]
fn latest_num_reads_the_num_field() {
    assert_eq!(latest_comic_num("{\"num\": 3105, \"img\": \"x\"}"), Some(3105));
    assert_eq!(latest_comic_num("{\"num\": \"text\"}"), None);
    assert_eq!(latest_comic_num("{\"other\": 1}"), None);
    assert_eq!(latest_comic_num("not json"), None);
}

#[test]
fn not_found_status_is_unknown_comic() {
    assert_eq!(comic_lookup_status(404), Err(AsciiError::UnknownComicId));
    assert_eq!(comic_lookup_status(200), Ok(()));
    assert_eq!(comic_lookup_status(500), Ok(()));
}

#[test]
fn image_url_reads_the_img_field() {
    assert_eq!(
        comic_image_url("{\"num\": 1, \"img\": \"https://imgs.xkcd.com/comics/a.png\"}"),
        Some(String::from("https://imgs.xkcd.com/comics/a.png"))
    );
    assert_eq!(comic_image_url("{\"img\": 7}"), None);
    assert_eq!(comic_image_url("{}"), None);
    assert_eq!(comic_image_url("]["), None);
}
