//! The mail about a comic.
use vstd::prelude::*;

use crate::config::Config;
use crate::date::{self, format_day};
use crate::html::{self, escape_html};
use crate::http::{self, local_filename, Comic};
use crate::post::{
    self, add_recipient, alternative_part, draft_from, finish, log_in, mixed_part, on_port,
    parse_mailbox, pave, secret_relay, starttls_relay, Addressee, Draft, GivenFile, GivenMail,
    GivenRelay, Mail, MailBody, Relay, RelayDraft,
};
use crate::text::{self, decimal_text, parse_i32, parse_u32, same_text, signed_text, NumberFault};

verus! {

// ---- errors ----

/// Why there is no mail.
#[derive(Debug)]
pub enum EmailError {
    InvalidYear(NumberFault),
    InvalidMonth(NumberFault),
    InvalidDay(NumberFault),
    /// There is no such day.
    InvalidDate { year: i32, month: u32, day: u32 },
    /// The image could not be read out of this file.
    UnreadableAttachment(String),
    InvalidSender(lettre::address::AddressError),
    /// This address is no mailbox.
    InvalidRecipient(String, lettre::address::AddressError),
    NotBuilt(lettre::error::Error),
    NoStarttls(lettre::transport::smtp::Error),
    NoRelay(lettre::transport::smtp::Error),
}

impl EmailError {
    /// What the reader is told, apart from the cause.
    pub open spec fn text(self) -> Seq<char> {
        match self {
            EmailError::InvalidYear(_) => "invalid year"@,
            EmailError::InvalidMonth(_) => "invalid month"@,
            EmailError::InvalidDay(_) => "invalid day"@,
            EmailError::InvalidDate { year, month, day } => "invalid date "@
                + text::signed_decimal(year as int) + "-"@ + text::decimal(month as nat) + "-"@
                + text::decimal(day as nat),
            EmailError::UnreadableAttachment(path) => "failed to read attachment "@ + path@,
            EmailError::InvalidSender(_) => "invalid XKCD_MAIL_FROM address"@,
            EmailError::InvalidRecipient(address, _) => "invalid XKCD_MAIL_TO address: "@ + address@,
            EmailError::NotBuilt(_) => "failed to build email message"@,
            EmailError::NoStarttls(_) => "failed to create STARTTLS transport"@,
            EmailError::NoRelay(_) => "failed to create SMTP relay transport"@,
        }
    }

    /// What the reader is told, apart from the cause.
    pub fn message(&self) -> (s: String)
        ensures
            s@ == self.text(),
    {
        match self {
            EmailError::InvalidYear(_) => String::from_str("invalid year"),
            EmailError::InvalidMonth(_) => String::from_str("invalid month"),
            EmailError::InvalidDay(_) => String::from_str("invalid day"),
            EmailError::InvalidDate { year, month, day } => {
                let mut s: String = String::from_str("invalid date ");
                s.append(signed_text(*year as i64).as_str());
                s.append("-");
                s.append(decimal_text(*month as u64).as_str());
                s.append("-");
                s.append(decimal_text(*day as u64).as_str());
                s
            },
            EmailError::UnreadableAttachment(path) => {
                let mut s: String = String::from_str("failed to read attachment ");
                s.append(path.as_str());
                s
            },
            EmailError::InvalidSender(_) => String::from_str("invalid XKCD_MAIL_FROM address"),
            EmailError::InvalidRecipient(address, _) => {
                let mut s: String = String::from_str("invalid XKCD_MAIL_TO address: ");
                s.append(address.as_str());
                s
            },
            EmailError::NotBuilt(_) => String::from_str("failed to build email message"),
            EmailError::NoStarttls(_) => String::from_str("failed to create STARTTLS transport"),
            EmailError::NoRelay(_) => String::from_str("failed to create SMTP relay transport"),
        }
    }
}

// ---- the date ----

/// The date of a comic as it is written, or what is wrong with it.
pub open spec fn date_of(comic: Comic) -> Result<Seq<char>, EmailError> {
    match text::parsed_i32(comic.year@) {
        Err(fault) => Err(EmailError::InvalidYear(fault)),
        Ok(year) => match text::parsed_unsigned(comic.month@, u32::MAX as nat) {
            Err(fault) => Err(EmailError::InvalidMonth(fault)),
            Ok(month) => match text::parsed_unsigned(comic.day@, u32::MAX as nat) {
                Err(fault) => Err(EmailError::InvalidDay(fault)),
                Ok(day) => if date::is_date(year, month as int, day as int) {
                    Ok(date::date_text(year, month as int, day as int))
                } else {
                    Err(
                        EmailError::InvalidDate {
                            year: year as i32,
                            month: month as u32,
                            day: day as u32,
                        },
                    )
                },
            },
        },
    }
}

/// The date of a comic as it is written in mails.
pub fn format_date(comic: &Comic) -> (r: Result<String, EmailError>)
    ensures
        match date_of(*comic) {
            Ok(written) => r matches Ok(s) && s@ == written,
            Err(e) => r == Err::<String, _>(e),
        },
{
    let year: i32 = match parse_i32(comic.year.as_str()) {
        Ok(year) => year,
        Err(fault) => {
            return Err(EmailError::InvalidYear(fault));
        },
    };
    let month: u32 = match parse_u32(comic.month.as_str()) {
        Ok(month) => month,
        Err(fault) => {
            return Err(EmailError::InvalidMonth(fault));
        },
    };
    let day: u32 = match parse_u32(comic.day.as_str()) {
        Ok(day) => day,
        Err(fault) => {
            return Err(EmailError::InvalidDay(fault));
        },
    };
    match format_day(year, month, day) {
        Some(written) => Ok(written),
        None => Err(EmailError::InvalidDate { year, month, day }),
    }
}

// ---- what the mail says ----

/// The page of a comic.
pub open spec fn page_address(num: u32) -> Seq<char> {
    "https://xkcd.com/"@ + text::decimal(num as nat) + "/"@
}

/// The subject of the mail about a comic.
pub open spec fn subject_of(comic: Comic, written_date: Seq<char>) -> Seq<char> {
    "New xkcd "@ + text::decimal(comic.num as nat) + ": "@ + comic.safe_title@ + " from "@
        + written_date
}

/// The mail about a comic as plain text.
pub open spec fn plain_text_of(comic: Comic) -> Seq<char> {
    comic.safe_title@ + "\n"@ + page_address(comic.num) + "\n\n"@ + comic.alt@
}

/// The page in a mail, up to the address in its heading.
pub const PAGE_HEAD: &'static str = r#"<!DOCTYPE html>
<html>
<head>
<meta charset="utf-8">
<style>
  body{font-family:sans-serif;max-width:640px;margin:0 auto;padding:16px;background:#fff;color:#222}
  h1{font-size:1.1em;margin:0 0 4px 0}
  .meta{color:#666;font-size:0.85em;margin-bottom:14px}
  .comic img{max-width:100%;height:auto;display:block}
  .alt{background:#f5f5f5;border-left:3px solid #999;padding:8px 12px;margin:12px 0;font-style:italic;font-size:0.95em}
  .footer{font-size:0.8em;color:#aaa;margin-top:20px;border-top:1px solid #eee;padding-top:8px}
  a{color:#1a0dab}
</style>
</head>
<body>
<h1><a href=""#;

/// The page in a mail, from behind the alternative text.
pub const PAGE_FOOT: &'static str = r#"</div>
<div class="footer">Mailed by <a href="https://github.com/bryanhiestand/ferrous-comics">ferrous-comics</a></div>
</body>
</html>"#;

/// The mail about a comic as HTML.
pub open spec fn html_of(comic: Comic, written_date: Seq<char>) -> Seq<char> {
    let url = html::escaped(page_address(comic.num));
    let title = html::escaped(comic.safe_title@);
    let alt = html::escaped(comic.alt@);
    PAGE_HEAD@ + url + "\">"@ + title + "</a></h1>\n<div class=\"meta\">#"@ + text::decimal(
        comic.num as nat,
    ) + " &middot; "@ + html::escaped(written_date)
        + "</div>\n<div class=\"comic\"><a href=\""@ + url + "\"><img src=\""@ + html::escaped(
        comic.img@,
    ) + "\" alt=\""@ + alt + "\" title=\""@ + title
        + "\" style=\"max-width:100%;display:block\"></a></div>\n<div class=\"alt\">"@ + alt
        + PAGE_FOOT@
}

/// The page of a comic.
pub fn page_url(num: u32) -> (url: String)
    ensures
        url@ == page_address(num),
{
    let mut url: String = String::from_str("https://xkcd.com/");
    url.append(decimal_text(num as u64).as_str());
    url.append("/");
    url
}

fn write_subject(comic: &Comic, written_date: &str) -> (s: String)
    ensures
        s@ == subject_of(*comic, written_date@),
{
    let mut s: String = String::from_str("New xkcd ");
    s.append(decimal_text(comic.num as u64).as_str());
    s.append(": ");
    s.append(comic.safe_title.as_str());
    s.append(" from ");
    s.append(written_date);
    s
}

fn write_plain_text(comic: &Comic) -> (s: String)
    ensures
        s@ == plain_text_of(*comic),
{
    let mut s: String = comic.safe_title.clone();
    s.append("\n");
    s.append(page_url(comic.num).as_str());
    s.append("\n\n");
    s.append(comic.alt.as_str());
    s
}

fn write_html(comic: &Comic, written_date: &str) -> (s: String)
    ensures
        s@ == html_of(*comic, written_date@),
{
    let url: String = escape_html(page_url(comic.num).as_str());
    let title: String = escape_html(comic.safe_title.as_str());
    let alt: String = escape_html(comic.alt.as_str());
    let mut s: String = String::from_str(PAGE_HEAD);
    s.append(url.as_str());
    s.append("\">");
    s.append(title.as_str());
    s.append("</a></h1>\n<div class=\"meta\">#");
    s.append(decimal_text(comic.num as u64).as_str());
    s.append(" &middot; ");
    s.append(escape_html(written_date).as_str());
    s.append("</div>\n<div class=\"comic\"><a href=\"");
    s.append(url.as_str());
    s.append("\"><img src=\"");
    s.append(escape_html(comic.img.as_str()).as_str());
    s.append("\" alt=\"");
    s.append(alt.as_str());
    s.append("\" title=\"");
    s.append(title.as_str());
    s.append("\" style=\"max-width:100%;display:block\"></a></div>\n<div class=\"alt\">");
    s.append(alt.as_str());
    s.append(PAGE_FOOT);
    s
}

// ---- the attachment ----

/// An image file that is to be attached, as far as it could be read.
pub struct ImageFile {
    /// Where the file is.
    pub path: String,
    /// What follows the last dot of the file's name, if there is a dot.
    pub extension: Option<String>,
    /// What the file holds, if it could be read.
    pub bytes: Option<Vec<u8>>,
}

/// An attachment.
pub struct Attachment {
    pub filename: String,
    pub content_type: String,
    pub bytes: Vec<u8>,
}

/// The content type of a file with such an extension.
pub open spec fn content_type_of(extension: Option<String>) -> Seq<char> {
    match extension {
        Some(e) => if e@ == "png"@ {
            "image/png"@
        } else if e@ == "jpg"@ || e@ == "jpeg"@ {
            "image/jpeg"@
        } else if e@ == "gif"@ {
            "image/gif"@
        } else {
            "application/octet-stream"@
        },
        None => "application/octet-stream"@,
    }
}

/// The content type of a file with such an extension.
pub fn content_type(extension: &Option<String>) -> (r: String)
    ensures
        r@ == content_type_of(*extension),
{
    match extension {
        Some(e) => {
            if same_text(e, "png") {
                String::from_str("image/png")
            } else if same_text(e, "jpg") || same_text(e, "jpeg") {
                String::from_str("image/jpeg")
            } else if same_text(e, "gif") {
                String::from_str("image/gif")
            } else {
                String::from_str("application/octet-stream")
            }
        },
        None => String::from_str("application/octet-stream"),
    }
}

// ---- the letter ----

/// What the mail about a comic says, whoever it is from and whoever it is for.
pub struct Letter {
    pub subject: String,
    pub plain_text: String,
    pub html_body: String,
    pub attachment: Option<Attachment>,
}

/// Why there is no letter about this comic with this image, if there is none.
pub open spec fn letter_fault(comic: Comic, image: Option<ImageFile>) -> Option<EmailError> {
    match date_of(comic) {
        Err(e) => Some(e),
        Ok(_) => if image is Some && image->0.bytes is None {
            Some(EmailError::UnreadableAttachment(image->0.path))
        } else {
            None
        },
    }
}

/// Is this the letter about this comic with this image?
pub open spec fn letter_of(letter: Letter, comic: Comic, image: Option<ImageFile>) -> bool {
    let written_date = date_of(comic)->Ok_0;
    &&& letter.subject@ == subject_of(comic, written_date)
    &&& letter.plain_text@ == plain_text_of(comic)
    &&& letter.html_body@ == html_of(comic, written_date)
    &&& match image {
        Some(image) => {
            &&& letter.attachment matches Some(a)
            &&& a.filename@ == http::file_name(comic)
            &&& a.content_type@ == content_type_of(image.extension)
            &&& Some(a.bytes) == image.bytes
        },
        None => letter.attachment is None,
    }
}

/// Writes the letter about a comic.
pub fn write_letter(comic: &Comic, image: Option<ImageFile>) -> (r: Result<Letter, EmailError>)
    ensures
        match letter_fault(*comic, image) {
            Some(e) => r == Err::<Letter, _>(e),
            None => r matches Ok(letter) && letter_of(letter, *comic, image),
        },
{
    let written_date: String = match format_date(comic) {
        Ok(written_date) => written_date,
        Err(e) => {
            return Err(e);
        },
    };
    let attachment: Option<Attachment> = match image {
        Some(image) => match image.bytes {
            Some(bytes) => Some(
                Attachment {
                    filename: local_filename(comic),
                    content_type: content_type(&image.extension),
                    bytes,
                },
            ),
            None => {
                return Err(EmailError::UnreadableAttachment(image.path));
            },
        },
        None => None,
    };
    Ok(
        Letter {
            subject: write_subject(comic, written_date.as_str()),
            plain_text: write_plain_text(comic),
            html_body: write_html(comic, written_date.as_str()),
            attachment,
        },
    )
}

// ---- the message ----

/// The first of the addresses that is no mailbox, and why, if there is any.
pub open spec fn first_rejected(addresses: Seq<String>) -> Option<
    (String, lettre::address::AddressError),
>
    decreases addresses.len(),
{
    if addresses.len() == 0 {
        None
    } else {
        match post::mailbox_fault(addresses[0]@) {
            Some(e) => Some((addresses[0], e)),
            None => first_rejected(addresses.drop_first()),
        }
    }
}

/// Why there is no mail about this comic, if there is none, as far as it does not come from
/// putting the message together.
pub open spec fn mail_fault(config: Config, comic: Comic, image: Option<ImageFile>) -> Option<
    EmailError,
> {
    match letter_fault(comic, image) {
        Some(e) => Some(e),
        None => match post::mailbox_fault(config.mail_from@) {
            Some(e) => Some(EmailError::InvalidSender(e)),
            None => match first_rejected(config.mail_to@) {
                Some((address, e)) => Some(EmailError::InvalidRecipient(address, e)),
                None => None,
            },
        },
    }
}

/// Is this what the message about this comic is given?
pub open spec fn mail_of(
    given: GivenMail,
    config: Config,
    comic: Comic,
    image: Option<ImageFile>,
) -> bool {
    let written_date = date_of(comic)->Ok_0;
    &&& given.from == config.mail_from@
    &&& given.to == text::texts(config.mail_to@)
    &&& given.subject == subject_of(comic, written_date)
    &&& given.body.plain_text == plain_text_of(comic)
    &&& given.body.html_body == html_of(comic, written_date)
    &&& given.body.file == match image {
        Some(image) => Some(
            GivenFile {
                filename: http::file_name(comic),
                content_type: content_type_of(image.extension),
                bytes: image.bytes->0@,
            },
        ),
        None => None,
    }
}

/// Adds all the addresses as recipients, or tells the first that is no mailbox.
fn address_to(draft: Draft, addresses: &Vec<String>) -> (r: Result<Draft, EmailError>)
    requires
        draft.recipients().len() == 0,
    ensures
        match first_rejected(addresses@) {
            Some((address, e)) => r == Err::<Draft, _>(EmailError::InvalidRecipient(address, e)),
            None => r matches Ok(d) && d.sender() == draft.sender() && d.recipients()
                == text::texts(addresses@),
        },
{
    let mut addressed: Draft = draft;
    let mut i: usize = 0;
    assert(addresses@.skip(0) == addresses@);
    assert(text::texts(addresses@).take(0) =~= Seq::<Seq<char>>::empty());
    assert(draft.recipients() =~= Seq::<Seq<char>>::empty());
    while i < addresses.len()
        invariant
            i <= addresses@.len(),
            addressed.sender() == draft.sender(),
            addressed.recipients() == text::texts(addresses@).take(i as int),
            first_rejected(addresses@) == first_rejected(addresses@.skip(i as int)),
        decreases addresses@.len() - i,
    {
        match parse_mailbox(addresses[i].as_str()) {
            Ok(to) => {
                addressed = add_recipient(addressed, to);
            },
            Err(e) => {
                return Err(EmailError::InvalidRecipient(addresses[i].clone(), e));
            },
        }
        assert(addresses@.skip(i as int).drop_first() == addresses@.skip(i + 1));
        assert(text::texts(addresses@).take(i + 1) == text::texts(addresses@).take(i as int).push(
            addresses@[i as int]@,
        ));
        i = i + 1;
    }
    assert(text::texts(addresses@).take(i as int) == text::texts(addresses@));
    Ok(addressed)
}

/// The mail about a comic.
pub fn build_email(config: &Config, comic: &Comic, image: Option<ImageFile>) -> (r: Result<
    Mail,
    EmailError,
>)
    ensures
        match mail_fault(*config, *comic, image) {
            Some(e) => r == Err::<Mail, _>(e),
            None => {
                &&& r is Ok == post::is_addressed(config.mail_from@, text::texts(config.mail_to@))
                &&& r matches Ok(mail) ==> mail_of(mail.given(), *config, *comic, image)
                &&& r matches Err(e) ==> e is NotBuilt
                &&& config.mail_to@.len() == 0 ==> r is Err
            },
        },
{
    let letter: Letter = match write_letter(comic, image) {
        Ok(letter) => letter,
        Err(e) => {
            return Err(e);
        },
    };
    let from: Addressee = match parse_mailbox(config.mail_from.as_str()) {
        Ok(from) => from,
        Err(e) => {
            return Err(EmailError::InvalidSender(e));
        },
    };
    let draft: Draft = match address_to(draft_from(from), &config.mail_to) {
        Ok(draft) => draft,
        Err(e) => {
            return Err(e);
        },
    };
    let versions: MailBody = alternative_part(letter.plain_text, letter.html_body);
    let body: MailBody = match letter.attachment {
        Some(attachment) => mixed_part(versions, attachment),
        None => versions,
    };
    match finish(draft, letter.subject, body) {
        Ok(mail) => Ok(mail),
        Err(e) => Err(EmailError::NotBuilt(e)),
    }
}

// ---- the mail server ----

/// What the way to the mail server is given.
pub open spec fn relay_of(config: Config) -> GivenRelay {
    GivenRelay {
        server: config.smtp_server@,
        starttls: config.smtp_starttls,
        port: config.smtp_port,
        credentials: match (config.smtp_username, config.smtp_password) {
            (Some(user), Some(password)) => Some((user@, password@)),
            _ => None,
        },
    }
}

/// Completes a way to the mail server by port and credentials.
fn equip(draft: RelayDraft, config: &Config) -> (r: Relay)
    requires
        draft.given().credentials is None,
    ensures
        r.given() == (GivenRelay {
            port: config.smtp_port,
            credentials: relay_of(*config).credentials,
            ..draft.given()
        }),
{
    let draft: RelayDraft = on_port(draft, config.smtp_port);
    match (&config.smtp_username, &config.smtp_password) {
        (Some(user), Some(password)) => pave(log_in(draft, user.clone(), password.clone())),
        _ => pave(draft),
    }
}

/// The way to the mail server, if it can be had. Whether it can is not up to this function.
pub fn build_transport(config: &Config) -> (r: Result<Relay, EmailError>)
    ensures
        r matches Ok(relay) ==> relay.given() == relay_of(*config),
        r matches Err(e) ==> if config.smtp_starttls {
            e is NoStarttls
        } else {
            e is NoRelay
        },
{
    if config.smtp_starttls {
        match starttls_relay(config.smtp_server.as_str()) {
            Ok(draft) => Ok(equip(draft, config)),
            Err(e) => Err(EmailError::NoStarttls(e)),
        }
    } else {
        match secret_relay(config.smtp_server.as_str()) {
            Ok(draft) => Ok(equip(draft, config)),
            Err(e) => Err(EmailError::NoRelay(e)),
        }
    }
}

// ---- sending ----

/// A mail, and the way that it is to be sent.
pub struct Outgoing {
    pub mail: Mail,
    pub relay: Relay,
}

/// The mail about a comic, and the way that it is to be sent.
pub fn send_email(config: &Config, comic: &Comic, image: Option<ImageFile>) -> (r: Result<
    Outgoing,
    EmailError,
>)
    ensures
        match mail_fault(*config, *comic, image) {
            Some(e) => r == Err::<Outgoing, _>(e),
            None => if post::is_addressed(config.mail_from@, text::texts(config.mail_to@)) {
                match r {
                    Ok(o) => mail_of(o.mail.given(), *config, *comic, image) && o.relay.given()
                        == relay_of(*config),
                    Err(e) => if config.smtp_starttls {
                        e is NoStarttls
                    } else {
                        e is NoRelay
                    },
                }
            } else {
                r matches Err(e) && e is NotBuilt
            },
        },
{
    let mail: Mail = match build_email(config, comic, image) {
        Ok(mail) => mail,
        Err(e) => {
            return Err(e);
        },
    };
    match build_transport(config) {
        Ok(relay) => Ok(Outgoing { mail, relay }),
        Err(e) => Err(e),
    }
}

// ---- laws on what the functions are for ----

/// Texts in a row.
spec fn row(parts: Seq<Seq<char>>) -> Seq<char>
    decreases parts.len(),
{
    if parts.len() == 0 {
        Seq::empty()
    } else {
        row(parts.drop_last()) + parts.last()
    }
}

proof fn lemma_row_push(parts: Seq<Seq<char>>, part: Seq<char>)
    ensures
        row(parts.push(part)) == row(parts) + part,
{
    assert(parts.push(part).drop_last() =~= parts);
}

/// A row holds each of its texts with the next behind it.
proof fn lemma_row_holds(parts: Seq<Seq<char>>, i: int)
    requires
        0 <= i < parts.len() - 1,
    ensures
        text::holds(row(parts), parts[i] + parts[i + 1]),
    decreases parts.len(),
{
    let less = parts.drop_last();
    if i < parts.len() - 2 {
        lemma_row_holds(less, i);
        text::lemma_holds_more(row(less), parts[i] + parts[i + 1], parts.last());
    } else {
        assert(less.last() == parts[i]);
        assert(row(less) == row(less.drop_last()) + parts[i]);
        text::lemma_holds_end(row(less.drop_last()), parts[i], parts[i + 1]);
    }
}

/// The parts of the page, one after the other.
spec fn page_parts(comic: Comic, written_date: Seq<char>) -> Seq<Seq<char>> {
    seq![
        PAGE_HEAD@,
        html::escaped(page_address(comic.num)),
        "\">"@,
        html::escaped(comic.safe_title@),
        "</a></h1>\n<div class=\"meta\">#"@,
        text::decimal(comic.num as nat),
        " &middot; "@,
        html::escaped(written_date),
        "</div>\n<div class=\"comic\"><a href=\""@,
        html::escaped(page_address(comic.num)),
        "\"><img src=\""@,
        html::escaped(comic.img@),
        "\" alt=\""@,
        html::escaped(comic.alt@),
        "\" title=\""@,
        html::escaped(comic.safe_title@),
        "\" style=\"max-width:100%;display:block\"></a></div>\n<div class=\"alt\">"@,
        html::escaped(comic.alt@),
        PAGE_FOOT@,
    ]
}

proof fn lemma_page_is_a_row(comic: Comic, written_date: Seq<char>)
    ensures
        html_of(comic, written_date) == row(page_parts(comic, written_date)),
{
    let p = page_parts(comic, written_date);
    let q0 = Seq::<Seq<char>>::empty();
    let q1 = q0.push(p[0]);
    let q2 = q1.push(p[1]);
    let q3 = q2.push(p[2]);
    let q4 = q3.push(p[3]);
    let q5 = q4.push(p[4]);
    let q6 = q5.push(p[5]);
    let q7 = q6.push(p[6]);
    let q8 = q7.push(p[7]);
    let q9 = q8.push(p[8]);
    let q10 = q9.push(p[9]);
    let q11 = q10.push(p[10]);
    let q12 = q11.push(p[11]);
    let q13 = q12.push(p[12]);
    let q14 = q13.push(p[13]);
    let q15 = q14.push(p[14]);
    let q16 = q15.push(p[15]);
    let q17 = q16.push(p[16]);
    let q18 = q17.push(p[17]);
    let q19 = q18.push(p[18]);
    lemma_row_push(q0, p[0]);
    assert(row(q0) + p[0] =~= p[0]);
    lemma_row_push(q1, p[1]);
    lemma_row_push(q2, p[2]);
    lemma_row_push(q3, p[3]);
    lemma_row_push(q4, p[4]);
    lemma_row_push(q5, p[5]);
    lemma_row_push(q6, p[6]);
    lemma_row_push(q7, p[7]);
    lemma_row_push(q8, p[8]);
    lemma_row_push(q9, p[9]);
    lemma_row_push(q10, p[10]);
    lemma_row_push(q11, p[11]);
    lemma_row_push(q12, p[12]);
    lemma_row_push(q13, p[13]);
    lemma_row_push(q14, p[14]);
    lemma_row_push(q15, p[15]);
    lemma_row_push(q16, p[16]);
    lemma_row_push(q17, p[17]);
    lemma_row_push(q18, p[18]);
    assert(q19 =~= p);
}

/// Is this the page about a comic? It starts and ends as every page does; title, number, date,
/// image, alternative text and the address of the comic's own page stand in it, each in its place
/// and escaped.
pub open spec fn is_page_about(page: Seq<char>, comic: Comic, written_date: Seq<char>) -> bool {
    let address = html::escaped(
        "https://xkcd.com/"@ + text::decimal(comic.num as nat) + "/"@,
    );
    let title = html::escaped(comic.safe_title@);
    let alt = html::escaped(comic.alt@);
    &&& (PAGE_HEAD@ + address).is_prefix_of(page)
    &&& (alt + PAGE_FOOT@).is_suffix_of(page)
    &&& text::holds(page, "\">"@ + title)
    &&& text::holds(page, title + "</a></h1>\n<div class=\"meta\">#"@)
    &&& text::holds(
        page,
        "</a></h1>\n<div class=\"meta\">#"@ + text::decimal(comic.num as nat),
    )
    &&& text::holds(page, " &middot; "@ + html::escaped(written_date))
    &&& text::holds(page, "</div>\n<div class=\"comic\"><a href=\""@ + address)
    &&& text::holds(page, "\"><img src=\""@ + html::escaped(comic.img@))
    &&& text::holds(page, html::escaped(comic.img@) + "\" alt=\""@)
    &&& text::holds(page, "\" alt=\""@ + alt)
    &&& text::holds(page, alt + "\" title=\""@)
    &&& text::holds(page, "\" title=\""@ + title)
    &&& text::holds(
        page,
        "\" style=\"max-width:100%;display:block\"></a></div>\n<div class=\"alt\">"@ + alt,
    )
    &&& page.len() == PAGE_HEAD@.len() + 2 * address.len() + 2 * title.len() + 2 * alt.len()
        + html::escaped(comic.img@).len() + html::escaped(written_date).len() + text::decimal(
        comic.num as nat,
    ).len() + PAGE_FOOT@.len() + fixed_between()
}

/// How many characters of a page stand between head and foot, whatever comic it is about.
pub open spec fn fixed_between() -> nat {
    "\">"@.len() + "</a></h1>\n<div class=\"meta\">#"@.len() + " &middot; "@.len()
        + "</div>\n<div class=\"comic\"><a href=\""@.len() + "\"><img src=\""@.len()
        + "\" alt=\""@.len() + "\" title=\""@.len()
        + "\" style=\"max-width:100%;display:block\"></a></div>\n<div class=\"alt\">"@.len()
}

proof fn lemma_page_is_about(comic: Comic, written_date: Seq<char>)
    ensures
        is_page_about(html_of(comic, written_date), comic, written_date),
{
    let p = page_parts(comic, written_date);
    let page = html_of(comic, written_date);
    lemma_page_is_a_row(comic, written_date);
    lemma_row_holds(p, 2);
    lemma_row_holds(p, 3);
    lemma_row_holds(p, 4);
    lemma_row_holds(p, 6);
    lemma_row_holds(p, 8);
    lemma_row_holds(p, 10);
    lemma_row_holds(p, 11);
    lemma_row_holds(p, 12);
    lemma_row_holds(p, 13);
    lemma_row_holds(p, 14);
    lemma_row_holds(p, 16);
    lemma_page_ends(p);
}

proof fn lemma_page_ends(p: Seq<Seq<char>>)
    requires
        p.len() >= 2,
    ensures
        (p[0] + p[1]).is_prefix_of(row(p)),
        (p[p.len() - 2] + p.last()).is_suffix_of(row(p)),
    decreases p.len(),
{
    let less = p.drop_last();
    let least = less.drop_last();
    let pair = p[p.len() - 2] + p.last();
    assert(less.last() == p[p.len() - 2]);
    assert(row(less) == row(least) + less.last());
    assert(row(p) =~= row(least) + pair);
    assert((row(least) + pair).subrange(row(least).len() as int, row(p).len() as int) =~= pair);
    if p.len() == 2 {
        assert(row(least) =~= Seq::<char>::empty());
        assert(row(p) =~= p[0] + p[1]);
    } else {
        lemma_page_ends(less);
    }
}

/// The letter about a comic says of it what there is to say, in each of its versions in the way of
/// that version: the subject and the plain text as they are, the page with head and foot, and its
/// image under the name of the comic's file, byte for byte.
pub proof fn law_letter_tells_of_the_comic(
    comic: &Comic,
    image: Option<ImageFile>,
    letter: Letter,
    written_date: String,
    name: String,
)
    requires
        call_ensures(write_letter, (comic, image), Ok(letter)),
        call_ensures(format_date, (comic,), Ok(written_date)),
        call_ensures(local_filename, (comic,), name),
    ensures
        letter.subject@ == "New xkcd "@ + text::decimal(comic.num as nat) + ": "@
            + comic.safe_title@ + " from "@ + written_date@,
        letter.plain_text@ == comic.safe_title@ + "\n"@ + ("https://xkcd.com/"@ + text::decimal(
            comic.num as nat,
        ) + "/"@) + "\n\n"@ + comic.alt@,
        is_page_about(letter.html_body@, *comic, written_date@),
        letter.attachment is Some <==> image is Some,
        image matches Some(file) ==> {
            &&& file.bytes is Some
            &&& letter.attachment->0.bytes@ == file.bytes->0@
            &&& letter.attachment->0.filename@ == name@
            &&& says_what_it_is(letter.attachment->0.content_type@, file.extension)
        },
{
    lemma_page_is_about(*comic, written_date@);
    if image is Some {
        lemma_says_what_it_is(image->0.extension);
    }
}

/// Is this what a file with such an extension is sent as? Three kinds of images have a name, under
/// four extensions; anything else is a row of bytes.
pub open spec fn says_what_it_is(kind: Seq<char>, extension: Option<String>) -> bool {
    &&& kind == "image/png"@ <==> (extension matches Some(e) && e@ == seq!['p', 'n', 'g'])
    &&& kind == "image/jpeg"@ <==> (extension matches Some(e) && (e@ == seq!['j', 'p', 'g'] || e@
        == seq!['j', 'p', 'e', 'g']))
    &&& kind == "image/gif"@ <==> (extension matches Some(e) && e@ == seq!['g', 'i', 'f'])
    &&& kind == "image/png"@ || kind == "image/jpeg"@ || kind == "image/gif"@ || kind
        == "application/octet-stream"@
}

proof fn lemma_says_what_it_is(extension: Option<String>)
    ensures
        says_what_it_is(content_type_of(extension), extension),
{
    reveal_strlit("png");
    reveal_strlit("jpg");
    reveal_strlit("jpeg");
    reveal_strlit("gif");
    reveal_strlit("image/png");
    reveal_strlit("image/jpeg");
    reveal_strlit("image/gif");
    reveal_strlit("application/octet-stream");
    assert("png"@ =~= seq!['p', 'n', 'g']);
    assert("jpg"@ =~= seq!['j', 'p', 'g']);
    assert("jpeg"@ =~= seq!['j', 'p', 'e', 'g']);
    assert("gif"@ =~= seq!['g', 'i', 'f']);
    assert("image/png"@.len() == 9 && "image/png"@[6] == 'p');
    assert("image/gif"@.len() == 9 && "image/gif"@[6] == 'g');
    assert("image/jpeg"@.len() == 10);
    assert("application/octet-stream"@.len() == 24);
    assert(seq!['p', 'n', 'g'][0] == 'p' && seq!['j', 'p', 'g'][0] == 'j' && seq!['g', 'i', 'f'][0]
        == 'g');
    assert(seq!['j', 'p', 'e', 'g'].len() == 4);
}

/// A file is sent as what its extension says, whatever the extension is.
pub proof fn law_content_type_goes_by_the_extension(extension: &Option<String>, kind: String)
    requires
        call_ensures(content_type, (extension,), kind),
    ensures
        says_what_it_is(kind@, *extension),
{
    lemma_says_what_it_is(*extension);
}

/// A mail is from the sender and for all the recipients in order, and says what the letter about
/// the comic says: its plain version is the plain text, with the title first and the alternative
/// text last, and its HTML version is the page, from the head to the foot.
pub proof fn law_mail_tells_of_the_comic(
    config: &Config,
    comic: &Comic,
    image: Option<ImageFile>,
    mail: Mail,
    written_date: String,
    name: String,
)
    requires
        call_ensures(build_email, (config, comic, image), Ok(mail)),
        call_ensures(format_date, (comic,), Ok(written_date)),
        call_ensures(local_filename, (comic,), name),
    ensures
        is_mail_about(mail.given(), *config, *comic, image, written_date@, name@),
{
    lemma_mail_is_about(mail.given(), *config, *comic, image, written_date@);
}

/// Was `lettre` handed the mail about a comic for these settings?
pub open spec fn is_mail_about(
    given: GivenMail,
    config: Config,
    comic: Comic,
    image: Option<ImageFile>,
    written_date: Seq<char>,
    name: Seq<char>,
) -> bool {
    &&& given.from == config.mail_from@
    &&& given.to.len() == config.mail_to@.len()
    &&& forall|i: int| 0 <= i < given.to.len() ==> #[trigger] given.to[i] == config.mail_to@[i]@
    &&& given.subject == "New xkcd "@ + text::decimal(comic.num as nat) + ": "@ + comic.safe_title@
        + " from "@ + written_date
    &&& given.body.plain_text == comic.safe_title@ + "\n"@ + ("https://xkcd.com/"@ + text::decimal(
        comic.num as nat,
    ) + "/"@) + "\n\n"@ + comic.alt@
    &&& comic.safe_title@.is_prefix_of(given.body.plain_text)
    &&& comic.alt@.is_suffix_of(given.body.plain_text)
    &&& PAGE_HEAD@.is_prefix_of(given.body.html_body)
    &&& PAGE_FOOT@.is_suffix_of(given.body.html_body)
    &&& is_page_about(given.body.html_body, comic, written_date)
    &&& given.body.file is Some <==> image is Some
    &&& image matches Some(file) ==> {
        &&& file.bytes is Some
        &&& given.body.file->0.bytes == file.bytes->0@
        &&& given.body.file->0.filename == name
        &&& says_what_it_is(given.body.file->0.content_type, file.extension)
    }
}

proof fn lemma_mail_is_about(
    given: GivenMail,
    config: Config,
    comic: Comic,
    image: Option<ImageFile>,
    written_date: Seq<char>,
)
    requires
        mail_of(given, config, comic, image),
        date_of(comic) == Ok::<_, EmailError>(written_date),
        letter_fault(comic, image) is None,
    ensures
        is_mail_about(given, config, comic, image, written_date, http::file_name(comic)),
{
    lemma_page_is_about(comic, written_date);
    let page = given.body.html_body;
    let address = html::escaped("https://xkcd.com/"@ + text::decimal(comic.num as nat) + "/"@);
    let alt = html::escaped(comic.alt@);
    assert(PAGE_HEAD@.is_prefix_of(page)) by {
        let head = PAGE_HEAD@ + address;
        assert(head.is_prefix_of(page));
        assert(page.subrange(0, PAGE_HEAD@.len() as int) =~= head.subrange(
            0,
            PAGE_HEAD@.len() as int,
        ));
        assert(head.subrange(0, PAGE_HEAD@.len() as int) =~= PAGE_HEAD@);
    }
    assert(PAGE_FOOT@.is_suffix_of(page)) by {
        let end = alt + PAGE_FOOT@;
        assert(end.is_suffix_of(page));
        let foot = page.subrange(page.len() - PAGE_FOOT@.len(), page.len() as int);
        assert forall|k: int| 0 <= k < PAGE_FOOT@.len() implies foot[k] == PAGE_FOOT@[k] by {
            let tail = page.subrange(page.len() - end.len(), page.len() as int);
            assert(tail == end);
            assert(tail[alt.len() + k] == end[alt.len() + k]);
        }
        assert(foot =~= PAGE_FOOT@);
    }
    let plain = given.body.plain_text;
    assert(plain.subrange(0, comic.safe_title@.len() as int) =~= comic.safe_title@);
    assert(plain.subrange(plain.len() - comic.alt@.len(), plain.len() as int) =~= comic.alt@);
    if image is Some {
        lemma_says_what_it_is(image->0.extension);
    }
}

/// A mail that goes out is the mail about the comic, on the way that the settings say.
pub proof fn law_what_goes_out(
    config: &Config,
    comic: &Comic,
    image: Option<ImageFile>,
    outgoing: Outgoing,
    written_date: String,
    name: String,
)
    requires
        call_ensures(send_email, (config, comic, image), Ok(outgoing)),
        call_ensures(format_date, (comic,), Ok(written_date)),
        call_ensures(local_filename, (comic,), name),
    ensures
        is_mail_about(outgoing.mail.given(), *config, *comic, image, written_date@, name@),
        is_way_of(outgoing.relay.given(), *config),
{
    lemma_mail_is_about(outgoing.mail.given(), *config, *comic, image, written_date@);
}

/// Is this the way to the mail server that the settings say? Server, port and STARTTLS are theirs.
/// Where both are set, the user name is what they have as user name and the password what they
/// have as password; otherwise nobody logs in.
pub open spec fn is_way_of(given: GivenRelay, config: Config) -> bool {
    &&& given.server == config.smtp_server@
    &&& given.port == config.smtp_port
    &&& given.starttls == config.smtp_starttls
    &&& given.credentials is Some <==> config.smtp_username is Some && config.smtp_password is Some
    &&& given.credentials matches Some((user, password)) ==> {
        &&& config.smtp_username matches Some(u) && u@ == user
        &&& config.smtp_password matches Some(p) && p@ == password
    }
}

/// The way to the mail server is what the settings say, and user name and password keep their
/// places.
pub proof fn law_way_is_what_the_settings_say(config: &Config, relay: Relay)
    requires
        call_ensures(build_transport, (config,), Ok(relay)),
    ensures
        is_way_of(relay.given(), *config),
{
}

/// A date that is written in numbers is read as these numbers, whatever they are: it is written
/// out if there is such a day, and otherwise named.
pub proof fn law_date_is_read_as_it_is_written(
    comic: &Comic,
    year: i32,
    month: u32,
    day: u32,
    r: Result<String, EmailError>,
    written: Option<String>,
)
    requires
        comic.year@ == text::signed_decimal(year as int),
        comic.month@ == text::decimal(month as nat),
        comic.day@ == text::decimal(day as nat),
        call_ensures(format_date, (comic,), r),
        call_ensures(format_day, (year, month, day), written),
    ensures
        match written {
            Some(w) => r matches Ok(s) && s@ == w@,
            None => r == Err::<String, _>((EmailError::InvalidDate { year, month, day })),
        },
{
    text::law_signed_is_read_back(year as int);
    text::law_decimal_reads_back(month as nat);
    text::law_decimal_reads_back(day as nat);
}

/// What is wrong with a date is told of its first part that is no number.
pub proof fn law_first_bad_part_of_a_date(
    comic: &Comic,
    r: Result<String, EmailError>,
    fault: NumberFault,
)
    requires
        call_ensures(format_date, (comic,), r),
    ensures
        r == Err::<String, _>(EmailError::InvalidYear(fault)) <==> text::parsed_i32(comic.year@)
            == Err::<int, _>(fault),
        r == Err::<String, _>(EmailError::InvalidMonth(fault)) <==> text::parsed_i32(comic.year@)
            is Ok && text::parsed_unsigned(comic.month@, 4294967295) == Err::<nat, _>(fault),
        r == Err::<String, _>(EmailError::InvalidDay(fault)) <==> text::parsed_i32(comic.year@)
            is Ok && text::parsed_unsigned(comic.month@, 4294967295) is Ok
            && text::parsed_unsigned(comic.day@, 4294967295) == Err::<nat, _>(fault),
{
}

proof fn lemma_first_rejected(addresses: Seq<String>)
    ensures
        match first_rejected(addresses) {
            None => forall|i: int|
                0 <= i < addresses.len() ==> post::mailbox_fault((#[trigger] addresses[i])@)
                    is None,
            Some((address, e)) => exists|i: int|
                {
                    &&& 0 <= i < addresses.len()
                    &&& #[trigger] addresses[i] == address
                    &&& post::mailbox_fault(address@) == Some(e)
                    &&& forall|j: int|
                        0 <= j < i ==> post::mailbox_fault((#[trigger] addresses[j])@) is None
                },
        },
    decreases addresses.len(),
{
    if addresses.len() > 0 && post::mailbox_fault(addresses[0]@) is None {
        let rest = addresses.drop_first();
        lemma_first_rejected(rest);
        match first_rejected(rest) {
            None => {
                assert forall|i: int| 0 <= i < addresses.len() implies post::mailbox_fault(
                    (#[trigger] addresses[i])@,
                ) is None by {
                    if i > 0 {
                        assert(rest[i - 1] == addresses[i]);
                    }
                }
            },
            Some((address, e)) => {
                let i = choose|i: int|
                    {
                        &&& 0 <= i < rest.len()
                        &&& #[trigger] rest[i] == address
                        &&& post::mailbox_fault(address@) == Some(e)
                        &&& forall|j: int|
                            0 <= j < i ==> post::mailbox_fault((#[trigger] rest[j])@) is None
                    };
                assert(addresses[i + 1] == address);
                assert forall|j: int| 0 <= j < i + 1 implies post::mailbox_fault(
                    (#[trigger] addresses[j])@,
                ) is None by {
                    if j > 0 {
                        assert(rest[j - 1] == addresses[j]);
                    }
                }
            },
        }
    } else if addresses.len() > 0 {
        let (address, _) = first_rejected(addresses)->0;
        assert(addresses[0] == address);
    }
}

/// There is a mail only if the comic has a date, the image could be read, and sender and all
/// recipients are mailboxes. The first of these that fails is told, of the recipients the first
/// that is no mailbox.
pub proof fn law_why_there_is_no_mail(
    config: &Config,
    comic: &Comic,
    image: Option<ImageFile>,
    r: Result<Mail, EmailError>,
    written_date: Result<String, EmailError>,
)
    requires
        call_ensures(build_email, (config, comic, image), r),
        call_ensures(format_date, (comic,), written_date),
    ensures
        written_date matches Err(e) ==> r == Err::<Mail, _>(e),
        written_date is Ok && image is Some && image->0.bytes is None ==> r == Err::<Mail, _>(
            EmailError::UnreadableAttachment(image->0.path),
        ),
        written_date is Ok && (image is Some ==> image->0.bytes is Some) ==> {
            match post::mailbox_fault(config.mail_from@) {
                Some(e) => r == Err::<Mail, _>(EmailError::InvalidSender(e)),
                None => match r {
                    Ok(_) => forall|i: int|
                        0 <= i < config.mail_to@.len() ==> post::mailbox_fault(
                            (#[trigger] config.mail_to@[i])@,
                        ) is None,
                    Err(EmailError::InvalidRecipient(address, e)) => exists|i: int|
                        {
                            &&& 0 <= i < config.mail_to@.len()
                            &&& #[trigger] config.mail_to@[i] == address
                            &&& post::mailbox_fault(address@) == Some(e)
                            &&& forall|j: int|
                                0 <= j < i ==> post::mailbox_fault(
                                    (#[trigger] config.mail_to@[j])@,
                                ) is None
                        },
                    Err(e) => e is NotBuilt,
                },
            }
        },
        config.mail_to@.len() == 0 ==> r is Err,
{
    lemma_first_rejected(config.mail_to@);
}

/// The page of a comic is under its number.
pub proof fn law_page_is_under_the_number(num: u32, url: String)
    requires
        call_ensures(page_url, (num,), url),
    ensures
        url@ == "https://xkcd.com/"@ + text::decimal(num as nat) + "/"@,
{
}

/// What the reader is told names the day, the address and the file that it is about.
pub proof fn law_messages_name_what_is_wrong(
    year: i32,
    month: u32,
    day: u32,
    address: String,
    cause: lettre::address::AddressError,
    path: String,
)
    ensures
        (EmailError::InvalidDate { year, month, day }).text() == "invalid date "@
            + text::signed_decimal(year as int) + "-"@ + text::decimal(month as nat) + "-"@
            + text::decimal(day as nat),
        address@.is_suffix_of(EmailError::InvalidRecipient(address, cause).text()),
        path@.is_suffix_of(EmailError::UnreadableAttachment(path).text()),
{
    let told = EmailError::InvalidRecipient(address, cause).text();
    assert(told.subrange(told.len() - address@.len(), told.len() as int) =~= address@);
    let file = EmailError::UnreadableAttachment(path).text();
    assert(file.subrange(file.len() - path@.len(), file.len() as int) =~= path@);
}

/// Each failure is told in its own words.
pub proof fn law_mail_failures_have_their_words(error: &EmailError, s: String)
    requires
        call_ensures(EmailError::message, (error,), s),
    ensures
        s@ == error.text(),
        error is InvalidYear ==> s@ == "invalid year"@,
        error is InvalidMonth ==> s@ == "invalid month"@,
        error is InvalidDay ==> s@ == "invalid day"@,
        error is InvalidSender ==> s@ == "invalid XKCD_MAIL_FROM address"@,
        error matches EmailError::InvalidRecipient(address, _) ==> s@
            == "invalid XKCD_MAIL_TO address: "@ + address@,
        error matches EmailError::UnreadableAttachment(path) ==> s@
            == "failed to read attachment "@ + path@,
        error is NotBuilt ==> s@ == "failed to build email message"@,
        error is NoStarttls ==> s@ == "failed to create STARTTLS transport"@,
        error is NoRelay ==> s@ == "failed to create SMTP relay transport"@,
{
}

} // verus!
