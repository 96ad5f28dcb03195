use ferrous_comics::http::{
    comic_url, download_image, fetch_comic, fetch_comic_by_num, latest_url, local_filename,
    missing_comic, user_agent, ApiReply, Comic, DownloadError, FetchError, ImageReply,
    XKCD_BASE_URL,
};

fn make_comic(num: u32) -> Comic {
    Comic {
        num,
        safe_title: "Test Comic".to_string(),
        img: "https://imgs.xkcd.com/comics/test.png".to_string(),
        alt: "Alt text here".to_string(),
        year: "2025".to_string(),
        month: "3".to_string(),
        day: "15".to_string(),
    }
}

/// The description in a page, if the page holds one.
fn read_comic(body: &str) -> Option<Comic> {
    let page: serde_json::Value = serde_json::from_str(body).ok()?;
    let text = |key: &str| page.get(key).and_then(|v| v.as_str()).map(|s| s.to_string());
    Some(Comic {
        num: u32::try_from(page.get("num")?.as_u64()?).ok()?,
        safe_title: text("safe_title")?,
        img: text("img")?,
        alt: text("alt")?,
        year: text("year")?,
        month: text("month")?,
        day: text("day")?,
    })
}

/// The reply of a server that answers with a status and a page.
fn reply(status: u16, body: &str) -> ApiReply {
    if status != 200 {
        return ApiReply::Status(status);
    }
    match read_comic(body) {
        Some(comic) => ApiReply::Described(comic),
        None => ApiReply::Unreadable,
    }
}

#[test]
fn local_filename_strips_path() {
    let mut c = make_comic(123);
    c.img = "https://imgs.xkcd.com/comics/foo.png".to_string();
    assert_eq!(local_filename(&c), "123-foo.png");
}

#[test]
fn local_filename_no_slash() {
    let mut c = make_comic(123);
    c.img = "bare".to_string();
    assert_eq!(local_filename(&c), "123-bare");
}

#[test]
fn fetch_comic_success() {
    let body = r#"{"num":3222,"safe_title":"Test","img":"https://imgs.xkcd.com/comics/test.png","alt":"Alt","year":"2025","month":"3","day":"15","title":"Test"}"#;
    assert!(latest_url("http://127.0.0.1:1234").ends_with("/info.0.json"));
    let comic = fetch_comic(reply(200, body)).unwrap();
    assert_eq!(comic.num, 3222);
    assert_eq!(comic.safe_title, "Test");
}

#[test]
fn fetch_comic_http_error() {
    let err = fetch_comic(reply(500, "")).unwrap_err();
    assert!(err.message().contains("500"));
}

#[test]
fn fetch_comic_bad_json() {
    let result = fetch_comic(reply(200, "not json"));
    assert!(result.is_err());
}

#[test]
fn fetch_comic_by_num_success() {
    let body = r#"{"num":42,"safe_title":"Answer","img":"https://imgs.xkcd.com/comics/answer.png","alt":"Alt","year":"2025","month":"1","day":"1","title":"Answer"}"#;
    assert!(comic_url("http://127.0.0.1:1234", 42).ends_with("/42/info.0.json"));
    let comic = fetch_comic_by_num(reply(200, body), 42).unwrap().unwrap();
    assert_eq!(comic.num, 42);
}

#[test]
fn fetch_comic_by_num_404() {
    let result = fetch_comic_by_num(reply(404, ""), 404).unwrap();
    assert!(result.is_none(), "404 should return Ok(None)");
}

#[test]
fn fetch_comic_by_num_500() {
    let result = fetch_comic_by_num(reply(500, ""), 99);
    assert!(result.is_err());
    assert!(result.unwrap_err().message().contains("500"));
}

#[test]
fn fetch_comic_by_num_wrong_num() {
    let body = r#"{"num":1,"safe_title":"Barrel","img":"https://imgs.xkcd.com/comics/barrel.jpg","alt":"Alt","year":"2006","month":"1","day":"1","title":"Barrel"}"#;
    let result = fetch_comic_by_num(reply(200, body), 99);
    assert!(result.is_err(), "mismatched num should be an error");
}

#[test]
fn download_image_success() {
    let mut comic = make_comic(99);
    comic.img = format!("{}/comics/test.png", "http://127.0.0.1:1234");
    let download = download_image(&comic, ImageReply::Whole(b"fakepngbytes".to_vec())).unwrap();
    assert_eq!(download.bytes, b"fakepngbytes");
    assert_eq!(download.filename, "99-test.png");
}

#[test]
fn download_image_http_error() {
    let mut comic = make_comic(99);
    comic.img = format!("{}/comics/notfound.png", "http://127.0.0.1:1234");
    let result = download_image(&comic, ImageReply::Status(404));
    assert!(result.is_err());
}

#[test]
fn replies_that_are_no_comic() {
    assert_eq!(fetch_comic(ApiReply::Unreachable).unwrap_err(), FetchError::Unreachable);
    assert_eq!(fetch_comic(ApiReply::Unreadable).unwrap_err(), FetchError::Unreadable);
    assert_eq!(fetch_comic(ApiReply::Status(404)).unwrap_err(), FetchError::Status(404));
    assert_eq!(
        fetch_comic_by_num(ApiReply::Unreachable, 7).unwrap_err(),
        FetchError::Unreachable
    );
    assert_eq!(
        fetch_comic_by_num(ApiReply::Unreadable, 7).unwrap_err(),
        FetchError::Unreadable
    );
    assert_eq!(
        fetch_comic_by_num(ApiReply::Status(403), 7).unwrap_err(),
        FetchError::Status(403)
    );
    assert_eq!(
        fetch_comic_by_num(ApiReply::Described(make_comic(8)), 7).unwrap_err(),
        FetchError::WrongNumber { got: 8, wanted: 7 }
    );
}

#[test]
fn fetch_error_messages() {
    assert_eq!(FetchError::Status(503).message(), "xkcd API returned HTTP 503");
    assert_eq!(FetchError::Unreachable.message(), "failed to reach xkcd API");
    assert_eq!(FetchError::Unreadable.message(), "failed to parse xkcd JSON");
    assert_eq!(
        FetchError::WrongNumber { got: 1, wanted: 99 }.message(),
        "xkcd API returned comic #1 for request #99"
    );
}

#[test]
fn download_errors() {
    let comic = make_comic(1);
    for (reply, error, message) in [
        (ImageReply::Status(404), DownloadError::Status(404), "image URL returned HTTP 404"),
        (ImageReply::Unreachable, DownloadError::Unreachable, "failed to fetch comic image"),
        (ImageReply::Broken, DownloadError::Broken, "failed to read image bytes"),
    ] {
        match download_image(&comic, reply) {
            Ok(_) => panic!("no image was sent"),
            Err(e) => {
                assert_eq!(e, error);
                assert_eq!(e.message(), message);
            }
        }
    }
}

#[test]
fn addresses() {
    assert_eq!(latest_url(XKCD_BASE_URL), "https://xkcd.com/info.0.json");
    assert_eq!(comic_url(XKCD_BASE_URL, 0), "https://xkcd.com/0/info.0.json");
    assert_eq!(comic_url(XKCD_BASE_URL, u32::MAX), "https://xkcd.com/4294967295/info.0.json");
    assert_eq!(user_agent("1.4.6"), "ferrous-comics/1.4.6");
}

#[test]
fn end_slashes_of_the_base_are_ignored() {
    assert_eq!(latest_url("https://xkcd.com///"), "https://xkcd.com/info.0.json");
    assert_eq!(comic_url("http://a/b/", 12), "http://a/b/12/info.0.json");
    assert_eq!(latest_url(""), "/info.0.json");
    assert_eq!(latest_url("//"), "/info.0.json");
}

#[test]
fn local_filename_has_no_slash() {
    for (img, name) in [
        ("", "5-"),
        ("/", "5-"),
        ("a/", "5-"),
        ("/a", "5-a"),
        ("../../é.png", "5-é.png"),
        ("https://imgs.xkcd.com/comics/a_b-c.d.jpg", "5-a_b-c.d.jpg"),
    ] {
        let mut comic = make_comic(5);
        comic.img = img.to_string();
        assert_eq!(local_filename(&comic), name);
    }
}

#[test]
fn missing_comic_has_a_number_only() {
    let comic = missing_comic(404);
    assert_eq!(comic.num, 404);
    assert!(comic.safe_title.is_empty() && comic.img.is_empty() && comic.alt.is_empty());
    assert!(comic.year.is_empty() && comic.month.is_empty() && comic.day.is_empty());
}

#[test]
fn clone_keeps_everything() {
    let comic = make_comic(9);
    let copy = comic.clone();
    assert_eq!(format!("{comic:?}"), format!("{copy:?}"));
}
