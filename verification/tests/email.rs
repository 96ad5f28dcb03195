use ferrous_comics::config::Config;
use ferrous_comics::date::format_day;
use ferrous_comics::email::{
    build_email, build_transport, content_type, format_date, page_url, send_email, write_letter,
    EmailError, ImageFile,
};
use ferrous_comics::html::escape_html;
use ferrous_comics::http::Comic;
use ferrous_comics::text::NumberFault;
use lettre::address::AddressError;
use lettre::message::Mailbox;

fn make_config() -> Config {
    Config {
        mail_to: vec!["to@example.com".to_string()],
        mail_from: "from@example.com".to_string(),
        download: true,
        mail_attachment: false,
        smtp_server: "smtp.example.com".to_string(),
        smtp_port: 587,
        smtp_starttls: true,
        smtp_username: None,
        smtp_password: None,
        backfill_limit: 0,
    }
}

fn make_comic(num: u32) -> Comic {
    Comic {
        num,
        safe_title: "Test Comic".to_string(),
        img: "https://imgs.xkcd.com/comics/test.png".to_string(),
        alt: "Alt text here".to_string(),
        year: "2025".to_string(),
        month: "3".to_string(),
        day: "15".to_string(),
    }
}

fn make_image(extension: Option<&str>, bytes: &[u8]) -> ImageFile {
    ImageFile {
        path: "comics/1-test.png".to_string(),
        extension: extension.map(|e| e.to_string()),
        bytes: Some(bytes.to_vec()),
    }
}

fn email_bytes(config: &Config, comic: &Comic, image: Option<ImageFile>) -> String {
    let mail = build_email(config, comic, image).unwrap();
    String::from_utf8(mail.message().formatted()).unwrap()
}

/// Why there is no mail.
fn fault(config: &Config, comic: &Comic, image: Option<ImageFile>) -> EmailError {
    match build_email(config, comic, image) {
        Ok(_) => panic!("there is a mail"),
        Err(e) => e,
    }
}

#[test]
fn escape_html_basic() {
    assert_eq!(escape_html("& < > \" '"), "&amp; &lt; &gt; &quot; &#39;");
}

#[test]
fn escape_html_no_change() {
    let s = "plain string with no special chars";
    assert_eq!(escape_html(s), s);
}

#[test]
fn format_date_valid() {
    let c = make_comic(1);
    assert_eq!(format_date(&c).unwrap(), "Sat 15 Mar 25");
}

#[test]
fn format_date_invalid_month() {
    let mut c = make_comic(1);
    c.month = "13".to_string();
    assert!(format_date(&c).is_err());
}

#[test]
fn email_subject_format() {
    let config = make_config();
    let comic = make_comic(3222);
    let raw = email_bytes(&config, &comic, None);
    assert!(raw.contains("3222"));
    assert!(raw.contains("Test Comic"));
}

#[test]
fn email_html_contains_title() {
    let config = make_config();
    let comic = make_comic(1);
    let raw = email_bytes(&config, &comic, None);
    assert!(raw.contains("Test Comic"));
    assert!(raw.contains("https://xkcd.com/1/"));
}

#[test]
fn email_html_escapes_special_chars() {
    let config = make_config();
    let mut comic = make_comic(1);
    comic.safe_title = "<script>".to_string();
    let raw = email_bytes(&config, &comic, None);
    // HTML body is quoted-printable encoded; &lt; may be split across lines.
    // Check that the escape entity prefix appears (confirms < was escaped).
    assert!(raw.contains("&lt"), "expected &lt in HTML body");
    assert!(raw.contains("&gt"), "expected &gt in HTML body");
}

#[test]
fn email_plain_text_contains_url() {
    let config = make_config();
    let comic = make_comic(42);
    let raw = email_bytes(&config, &comic, None);
    assert!(raw.contains("https://xkcd.com/42/"));
    assert!(raw.contains("Alt text here"));
}

#[test]
fn email_no_attachment_is_alternative() {
    let config = make_config();
    let comic = make_comic(1);
    let raw = email_bytes(&config, &comic, None);
    assert!(raw.contains("multipart/alternative"));
}

#[test]
fn email_with_attachment_is_mixed() {
    let config = make_config();
    let comic = make_comic(1);
    let path = std::path::Path::new("1-test.png");
    let image = make_image(path.extension().and_then(|e| e.to_str()), b"fakepng");
    let raw = email_bytes(&config, &comic, Some(image));
    assert!(raw.contains("multipart/mixed"));
}

#[test]
fn email_from_to_addresses() {
    let config = make_config();
    let comic = make_comic(1);
    let raw = email_bytes(&config, &comic, None);
    assert!(raw.contains("to@example.com"));
    assert!(raw.contains("from@example.com"));
}

#[test]
fn email_html_has_meta_charset() {
    let config = make_config();
    let comic = make_comic(1);
    let raw = email_bytes(&config, &comic, None);
    // "<meta charset" appears before the = so is not QP-encoded
    assert!(raw.contains("<meta charset"), "meta charset missing");
}

#[test]
fn email_html_title_is_text_link() {
    let config = make_config();
    let comic = make_comic(1);
    let raw = email_bytes(&config, &comic, None);
    // h1 contains the title as link text, not wrapped in an img tag
    assert!(raw.contains("Test Comic</a></h1>"), "title not rendered as h1 link text");
}

#[test]
fn email_html_alt_title_attributes() {
    let config = make_config();
    let mut comic = make_comic(1);
    comic.safe_title = "SafeTitle".to_string();
    comic.alt = "AltText".to_string();
    let raw = email_bytes(&config, &comic, None);
    // QP encodes `=` as `=3D`; check both forms to be safe
    let has_correct_alt = raw.contains("alt=3D\"AltText\"") || raw.contains("alt=\"AltText\"");
    let has_correct_title =
        raw.contains("title=3D\"SafeTitle\"") || raw.contains("title=\"SafeTitle\"");
    assert!(has_correct_alt, "img alt attribute does not contain alt text");
    assert!(has_correct_title, "img title attribute does not contain safe_title");
}

#[test]
fn email_html_meta_line() {
    let config = make_config();
    let comic = make_comic(42);
    let raw = email_bytes(&config, &comic, None);
    assert!(raw.contains("#42"), "comic number missing from meta line");
    assert!(raw.contains("&middot;"), "middot separator missing from meta line");
}

#[test]
fn email_multiple_recipients() {
    let mut config = make_config();
    config.mail_to = vec!["a@example.com".to_string(), "b@example.com".to_string()];
    let comic = make_comic(1);
    let raw = email_bytes(&config, &comic, None);
    assert!(raw.contains("a@example.com"), "first recipient missing");
    assert!(raw.contains("b@example.com"), "second recipient missing");
}

#[test]
fn escaped_text_has_no_markup() {
    let escaped = escape_html("<a href='x'>\"a\" && b</a> \u{e9}");
    assert_eq!(
        escaped,
        "&lt;a href=&#39;x&#39;&gt;&quot;a&quot; &amp;&amp; b&lt;/a&gt; \u{e9}"
    );
    assert_eq!(escape_html("&lt;"), "&amp;lt;");
    assert_eq!(escape_html(""), "");
    assert_ne!(escape_html("<"), escape_html("&lt;"));
}

#[test]
fn every_day_is_written_as_chrono_writes_it() {
    for year in [-262143, -1, 0, 1, 99, 1900, 1999, 2000, 2023, 2024, 2025, 2100, 10000, 262142] {
        for month in 0..=13u32 {
            for day in 0..=32u32 {
                let expected = chrono::NaiveDate::from_ymd_opt(year, month, day)
                    .map(|date| date.format("%a %d %b %y").to_string());
                assert_eq!(format_day(year, month, day), expected, "{year}-{month}-{day}");
            }
        }
    }
}

#[test]
fn dates_that_there_are_not() {
    assert_eq!(format_day(2024, 2, 29).as_deref(), Some("Thu 29 Feb 24"));
    assert_eq!(format_day(2025, 2, 29), None);
    assert_eq!(format_day(1900, 2, 29), None);
    assert_eq!(format_day(2000, 2, 29).as_deref(), Some("Tue 29 Feb 00"));
    assert_eq!(format_day(262143, 1, 1), None);
    assert_eq!(format_day(-262144, 12, 31), None);
    assert_eq!(format_day(i32::MAX, 1, 1), None);
    assert_eq!(format_day(2025, u32::MAX, 1), None);
    assert_eq!(format_day(2025, 1, u32::MAX), None);
}

fn date_fault(year: &str, month: &str, day: &str) -> String {
    let mut comic = make_comic(1);
    comic.year = year.to_string();
    comic.month = month.to_string();
    comic.day = day.to_string();
    format_date(&comic).unwrap_err().message()
}

#[test]
fn date_faults() {
    assert_eq!(date_fault("", "x", "x"), "invalid year");
    assert_eq!(date_fault("2147483648", "1", "1"), "invalid year");
    assert_eq!(date_fault(" 2025", "1", "1"), "invalid year");
    assert_eq!(date_fault("2025", "-1", "x"), "invalid month");
    assert_eq!(date_fault("2025", "1", ""), "invalid day");
    assert_eq!(date_fault("2025", "13", "1"), "invalid date 2025-13-1");
    assert_eq!(date_fault("-300000", "01", "007"), "invalid date -300000-1-7");
}

#[test]
fn date_fault_causes() {
    let mut comic = make_comic(1);
    comic.day = String::new();
    assert!(matches!(format_date(&comic), Err(EmailError::InvalidDay(NumberFault::Empty))));
    comic.month = "4294967296".to_string();
    assert!(matches!(format_date(&comic), Err(EmailError::InvalidMonth(NumberFault::TooLarge))));
    comic.year = "-2147483649".to_string();
    assert!(matches!(format_date(&comic), Err(EmailError::InvalidYear(NumberFault::TooSmall))));
}

#[test]
fn letter_about_a_comic() {
    let mut comic = make_comic(7);
    comic.safe_title = "A & B".to_string();
    comic.img = "https://imgs.xkcd.com/comics/a.png?x=1&y=2".to_string();
    comic.alt = "\"Hi\"".to_string();
    let letter = write_letter(&comic, None).unwrap_or_else(|e| panic!("{}", e.message()));
    assert_eq!(letter.subject, "New xkcd 7: A & B from Sat 15 Mar 25");
    assert_eq!(letter.plain_text, "A & B\nhttps://xkcd.com/7/\n\n\"Hi\"");
    assert!(letter.attachment.is_none());
    assert_eq!(
        letter.html_body,
        r#"<!DOCTYPE html>
<html>
<head>
<meta charset="utf-8">
<style>
  body{font-family:sans-serif;max-width:640px;margin:0 auto;padding:16px;background:#fff;color:#222}
  h1{font-size:1.1em;margin:0 0 4px 0}
  .meta{color:#666;font-size:0.85em;margin-bottom:14px}
  .comic img{max-width:100%;height:auto;display:block}
  .alt{background:#f5f5f5;border-left:3px solid #999;padding:8px 12px;margin:12px 0;font-style:italic;font-size:0.95em}
  .footer{font-size:0.8em;color:#aaa;margin-top:20px;border-top:1px solid #eee;padding-top:8px}
  a{color:#1a0dab}
</style>
</head>
<body>
<h1><a href="https://xkcd.com/7/">A &amp; B</a></h1>
<div class="meta">#7 &middot; Sat 15 Mar 25</div>
<div class="comic"><a href="https://xkcd.com/7/"><img src="https://imgs.xkcd.com/comics/a.png?x=1&amp;y=2" alt="&quot;Hi&quot;" title="A &amp; B" style="max-width:100%;display:block"></a></div>
<div class="alt">&quot;Hi&quot;</div>
<div class="footer">Mailed by <a href="https://github.com/bryanhiestand/ferrous-comics">ferrous-comics</a></div>
</body>
</html>"#
    );
}

#[test]
fn letter_with_an_image() {
    let comic = make_comic(7);
    let letter = match write_letter(&comic, Some(make_image(Some("jpeg"), &[1, 2, 3]))) {
        Ok(letter) => letter,
        Err(e) => panic!("{}", e.message()),
    };
    let attachment = letter.attachment.unwrap();
    assert_eq!(attachment.filename, "7-test.png");
    assert_eq!(attachment.content_type, "image/jpeg");
    assert_eq!(attachment.bytes, vec![1, 2, 3]);
}

#[test]
fn content_types() {
    for (extension, kind) in [
        (Some("png"), "image/png"),
        (Some("jpg"), "image/jpeg"),
        (Some("jpeg"), "image/jpeg"),
        (Some("gif"), "image/gif"),
        (Some("PNG"), "application/octet-stream"),
        (Some("webp"), "application/octet-stream"),
        (Some(""), "application/octet-stream"),
        (None, "application/octet-stream"),
    ] {
        assert_eq!(content_type(&extension.map(|e| e.to_string())), kind);
    }
}

#[test]
fn message_holds_all_parts() {
    let mut config = make_config();
    config.mail_from = "Comics <from@example.com>".to_string();
    config.mail_to = vec!["a@example.com".to_string(), "Bee <b@example.com>".to_string()];
    let comic = make_comic(1);
    let raw = email_bytes(&config, &comic, Some(make_image(Some("gif"), b"fakegif")));
    assert!(raw.contains("From: Comics <from@example.com>\r\n"), "{raw}");
    assert!(raw.contains("To: a@example.com, Bee <b@example.com>\r\n"), "{raw}");
    assert!(raw.contains("Subject: New xkcd 1: Test Comic from Sat 15 Mar 25\r\n"), "{raw}");
    assert!(raw.contains("multipart/mixed"));
    assert!(raw.contains("multipart/alternative"));
    assert!(raw.contains("Content-Type: text/plain"));
    assert!(raw.contains("Content-Type: text/html"));
    assert!(raw.contains("Content-Type: image/gif"));
    assert!(raw.contains("1-test.png"));
    assert!(raw.contains("fakegif"));
    assert!(!raw.contains("image/png"));
}

#[test]
fn envelope_of_a_message() {
    let mut config = make_config();
    config.mail_to = vec!["a@example.com".to_string(), "b@example.com".to_string()];
    let mail = match build_email(&config, &make_comic(1), None) {
        Ok(mail) => mail,
        Err(e) => panic!("{}", e.message()),
    };
    let envelope = mail.message().envelope();
    assert_eq!(envelope.from().unwrap().to_string(), "from@example.com");
    let to: Vec<String> = envelope.to().iter().map(|a| a.to_string()).collect();
    assert_eq!(to, vec!["a@example.com", "b@example.com"]);
}

/// Why lettre takes this for no mailbox.
fn refusal(address: &str) -> AddressError {
    address.parse::<Mailbox>().unwrap_err()
}

#[test]
fn mail_faults_in_order() {
    let mut config = make_config();
    config.mail_from = "nobody".to_string();
    config.mail_to =
        vec!["ok@example.com".to_string(), "bad".to_string(), "worse@".to_string()];
    let mut comic = make_comic(1);
    comic.day = "32".to_string();
    let unread =
        || Some(ImageFile { path: "comics/x".to_string(), extension: None, bytes: None });

    let error = fault(&config, &comic, unread());
    assert!(matches!(error, EmailError::InvalidDate { year: 2025, month: 3, day: 32 }));
    comic.day = "1".to_string();
    let error = fault(&config, &comic, unread());
    assert!(matches!(&error, EmailError::UnreadableAttachment(path) if path == "comics/x"));
    assert_eq!(error.message(), "failed to read attachment comics/x");
    let error = fault(&config, &comic, None);
    assert!(matches!(error, EmailError::InvalidSender(e) if e == refusal("nobody")));
    assert_eq!(error.message(), "invalid XKCD_MAIL_FROM address");
    config.mail_from = "Some Body <some@example.com>".to_string();
    let error = fault(&config, &comic, None);
    assert!(matches!(&error, EmailError::InvalidRecipient(a, e)
        if a == "bad" && *e == refusal("bad")));
    assert_eq!(error.message(), "invalid XKCD_MAIL_TO address: bad");
    config.mail_to.remove(1);
    let error = fault(&config, &comic, None);
    assert!(matches!(&error, EmailError::InvalidRecipient(a, e)
        if a == "worse@" && *e == refusal("worse@")));
    config.mail_to.pop();
    assert!(build_email(&config, &comic, None).is_ok());
    config.mail_to.pop();
    let error = fault(&config, &comic, None);
    assert!(matches!(error, EmailError::NotBuilt(_)));
    assert_eq!(error.message(), "failed to build email message");
}

/// All about the way to the mail server.
fn way(config: &Config) -> String {
    match build_transport(config) {
        Ok(relay) => format!("{:?}", relay.transport()),
        Err(e) => panic!("{}", e.message()),
    }
}

#[test]
fn way_to_the_server() {
    let mut config = make_config();
    let starttls = way(&config);
    assert!(starttls.contains("server: \"smtp.example.com\""), "{starttls}");
    assert!(starttls.contains("port: 587"), "{starttls}");
    assert!(starttls.contains("tls: Required"), "{starttls}");
    assert!(starttls.contains("credentials: None"), "{starttls}");
    config.smtp_port = 2525;
    assert!(way(&config).contains("port: 2525"));
    config.smtp_starttls = false;
    let secret = way(&config);
    assert!(secret.contains("port: 2525"), "{secret}");
    assert!(secret.contains("tls: Wrapper"), "{secret}");
    config.smtp_username = Some("user".to_string());
    assert!(way(&config).contains("credentials: None"));
    config.smtp_password = Some("pass".to_string());
    assert!(way(&config).contains("credentials: Some"));
    config.smtp_username = None;
    assert!(way(&config).contains("credentials: None"));
}

#[test]
fn outgoing_mail() {
    let config = make_config();
    match send_email(&config, &make_comic(12), None) {
        Ok(outgoing) => {
            let raw = String::from_utf8(outgoing.mail.message().formatted()).unwrap();
            assert!(raw.contains("Subject: New xkcd 12: Test Comic from Sat 15 Mar 25\r\n"));
            assert!(format!("{:?}", outgoing.relay.transport()).contains("smtp.example.com"));
        }
        Err(e) => panic!("{}", e.message()),
    }
    let mut comic = make_comic(12);
    comic.year = "MMXXV".to_string();
    assert!(matches!(
        send_email(&config, &comic, None),
        Err(EmailError::InvalidYear(NumberFault::InvalidDigit))
    ));
}

#[test]
fn pages() {
    assert_eq!(page_url(0), "https://xkcd.com/0/");
    assert_eq!(page_url(3222), "https://xkcd.com/3222/");
}

#[test]
fn recipients_that_cannot_be_read_back_are_lost() {
    let mut config = make_config();
    config.mail_to = vec!["\"\\\"a b\\\"\"@x.com".to_string(), "c@example.com".to_string()];
    let mail = match build_email(&config, &make_comic(1), None) {
        Ok(mail) => mail,
        Err(e) => panic!("{}", e.message()),
    };
    let to: Vec<String> = mail.message().envelope().to().iter().map(|a| a.to_string()).collect();
    assert_eq!(to, vec!["c@example.com"]);
}
