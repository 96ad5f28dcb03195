//! Mails and the way to the mail server, as `lettre` puts them together.
//!
//! What `lettre` is handed is kept beside what comes of it. Nothing else can make or change either.
use vstd::prelude::*;

use crate::email::Attachment;

verus! {

// ---- errors ----

/// `lettre::error::Error`, carried through.
#[verifier::external_type_specification]
#[verifier::external_body]
pub struct ExLettreError(lettre::error::Error);

/// `lettre::transport::smtp::Error`, carried through.
#[verifier::external_type_specification]
#[verifier::external_body]
pub struct ExSmtpError(lettre::transport::smtp::Error);

/// `lettre::address::AddressError`, carried through.
#[verifier::external_type_specification]
#[verifier::external_body]
pub struct ExAddressError(lettre::address::AddressError);

// ---- the message ----

/// `lettre::message::Mailbox`, carried through.
#[verifier::external_type_specification]
#[verifier::external_body]
pub struct ExMailbox(lettre::message::Mailbox);

/// `lettre::message::MultiPart`, carried through.
#[verifier::external_type_specification]
#[verifier::external_body]
pub struct ExMultiPart(lettre::message::MultiPart);

/// `lettre::message::MessageBuilder`, carried through.
#[verifier::external_type_specification]
#[verifier::external_body]
pub struct ExMessageBuilder(lettre::message::MessageBuilder);

/// `lettre::Message`, carried through.
#[verifier::external_type_specification]
#[verifier::external_body]
pub struct ExMessage(lettre::Message);

/// A file that a message was given.
pub struct GivenFile {
    pub filename: Seq<char>,
    pub content_type: Seq<char>,
    pub bytes: Seq<u8>,
}

/// What the body of a message was given: two versions of a text, and a file if it has one.
pub struct GivenBody {
    pub plain_text: Seq<char>,
    pub html_body: Seq<char>,
    pub file: Option<GivenFile>,
}

/// What `lettre` was handed for a message.
pub struct GivenMail {
    pub from: Seq<char>,
    pub to: Seq<Seq<char>>,
    pub subject: Seq<char>,
    pub body: GivenBody,
}

/// A mailbox, and the text that it was read from.
pub(crate) struct Addressee {
    mailbox: lettre::message::Mailbox,
    read_from: Ghost<Seq<char>>,
}

impl Addressee {
    /// The text that the mailbox was read from.
    pub(crate) closed spec fn text(self) -> Seq<char> {
        self.read_from@
    }
}

/// A body, and what it was given.
pub(crate) struct MailBody {
    part: lettre::message::MultiPart,
    given: Ghost<GivenBody>,
}

impl MailBody {
    /// What the body was given.
    pub(crate) closed spec fn given(self) -> GivenBody {
        self.given@
    }
}

/// The start of a message, and the texts of the mailboxes that it was given.
pub(crate) struct Draft {
    builder: lettre::message::MessageBuilder,
    from: Ghost<Seq<char>>,
    to: Ghost<Seq<Seq<char>>>,
}

impl Draft {
    /// The text of the sender's mailbox.
    pub(crate) closed spec fn sender(self) -> Seq<char> {
        self.from@
    }

    /// The texts of the recipients' mailboxes, in the order of giving.
    pub(crate) closed spec fn recipients(self) -> Seq<Seq<char>> {
        self.to@
    }
}

/// A message, and what `lettre` was handed for it.
pub struct Mail {
    message: lettre::Message,
    given: Ghost<GivenMail>,
}

impl Mail {
    /// What `lettre` was handed for the message, which need not be what the message holds: when one
    /// more recipient is added, `lettre` reads the recipients so far back out of its own header,
    /// and where it cannot read them, they are lost.
    pub closed spec fn given(self) -> GivenMail {
        self.given@
    }

    /// The message itself.
    pub closed spec fn content(self) -> lettre::Message {
        self.message
    }

    /// The message itself.
    pub fn message(&self) -> (r: &lettre::Message)
        ensures
            *r == self.content(),
    {
        &self.message
    }
}

/// What keeps `lettre` from taking the text for a mailbox, with or without a display name, if
/// anything does.
pub uninterp spec fn mailbox_fault(address: Seq<char>) -> Option<lettre::address::AddressError>;

/// `FromStr::from_str` of `lettre::message::Mailbox`: the mailbox that the text stands for, or why
/// it stands for none. Both depend on the text alone.
#[verifier::external_body]
pub(crate) fn parse_mailbox(address: &str) -> (r: Result<
    Addressee,
    lettre::address::AddressError,
>)
    ensures
        r matches Ok(a) ==> mailbox_fault(address@) is None && a.text() == address@,
        r matches Err(e) ==> mailbox_fault(address@) == Some(e),
{
    let mailbox = address.parse()?;
    Ok(Addressee { mailbox, read_from: Ghost(address@) })
}

/// `lettre::message::MultiPart::alternative_plain_html`: a part of the kind
/// `multipart/alternative` that holds a plain text and an HTML text. The part itself also has a
/// boundary, which is drawn at random.
#[verifier::external_body]
pub(crate) fn alternative_part(plain_text: String, html_body: String) -> (r: MailBody)
    ensures
        r.given() == (GivenBody { plain_text: plain_text@, html_body: html_body@, file: None }),
{
    let given = Ghost(GivenBody { plain_text: plain_text@, html_body: html_body@, file: None });
    let part = lettre::message::MultiPart::alternative_plain_html(plain_text, html_body);
    MailBody { part, given }
}

/// What a body was given, once it was given a file too.
pub open spec fn with_file(body: GivenBody, file: Attachment) -> GivenBody {
    GivenBody {
        file: Some(
            GivenFile {
                filename: file.filename@,
                content_type: file.content_type@,
                bytes: file.bytes@,
            },
        ),
        ..body
    }
}

/// `lettre::message::MultiPart::mixed`: a part of the kind `multipart/mixed` that holds a part
/// and, by `lettre::message::Attachment`, a file. `lettre::message::header::ContentType::parse`
/// takes the four content types. The part itself also has a boundary, which is drawn at random.
#[verifier::external_body]
pub(crate) fn mixed_part(body: MailBody, file: Attachment) -> (r: MailBody)
    requires
        file.content_type@ == "image/png"@ || file.content_type@ == "image/jpeg"@
            || file.content_type@ == "image/gif"@ || file.content_type@
            == "application/octet-stream"@,
        body.given().file is None,
    ensures
        r.given() == with_file(body.given(), file),
{
    let given = Ghost(with_file(body.given@, file));
    let kind = lettre::message::header::ContentType::parse(&file.content_type).unwrap();
    let attached = lettre::message::Attachment::new(file.filename).body(file.bytes, kind);
    let part = lettre::message::MultiPart::mixed().multipart(body.part).singlepart(attached);
    MailBody { part, given }
}

/// `lettre::message::MessageBuilder::from` on a new builder: the draft is given its sender, and
/// no recipient yet.
#[verifier::external_body]
pub(crate) fn draft_from(from: Addressee) -> (r: Draft)
    ensures
        r.sender() == from.text(),
        r.recipients() == Seq::<Seq<char>>::empty(),
{
    let builder = lettre::Message::builder().from(from.mailbox);
    Draft { builder, from: from.read_from, to: Ghost(Seq::empty()) }
}

/// `lettre::message::MessageBuilder::to`: the draft is given one more recipient, after those that
/// it was given before.
#[verifier::external_body]
pub(crate) fn add_recipient(draft: Draft, to: Addressee) -> (r: Draft)
    ensures
        r.sender() == draft.sender(),
        r.recipients() == draft.recipients().push(to.text()),
{
    let recipients = Ghost(draft.to@.push(to.read_from@));
    let builder = draft.builder.to(to.mailbox);
    Draft { builder, from: draft.from, to: recipients }
}

/// Does `lettre` put a message together that is from and for these mailboxes?
pub uninterp spec fn is_addressed(from: Seq<char>, to: Seq<Seq<char>>) -> bool;

/// `lettre::message::MessageBuilder::subject` and `lettre::message::MessageBuilder::multipart`:
/// the message, if it can be put together. Whether it can depends on the mailboxes that it is
/// from and for; without a recipient it cannot. The message itself is also dated by the clock,
/// which must not stand before 1970 or after 9999.
#[verifier::external_body]
pub(crate) fn finish(draft: Draft, subject: String, body: MailBody) -> (r: Result<
    Mail,
    lettre::error::Error,
>)
    ensures
        r is Ok == is_addressed(draft.sender(), draft.recipients()),
        draft.recipients().len() == 0 ==> r is Err,
        r matches Ok(mail) ==> mail.given() == (GivenMail {
            from: draft.sender(),
            to: draft.recipients(),
            subject: subject@,
            body: body.given(),
        }),
{
    let given = Ghost(
        GivenMail { from: draft.from@, to: draft.to@, subject: subject@, body: body.given@ },
    );
    let message = draft.builder.subject(subject).multipart(body.part)?;
    Ok(Mail { message, given })
}

// ---- the mail server ----

/// `lettre::transport::smtp::SmtpTransportBuilder`, carried through.
#[verifier::external_type_specification]
#[verifier::external_body]
pub struct ExSmtpTransportBuilder(lettre::transport::smtp::SmtpTransportBuilder);

/// `lettre::SmtpTransport`, carried through.
#[verifier::external_type_specification]
#[verifier::external_body]
pub struct ExSmtpTransport(lettre::SmtpTransport);

/// What the way to a mail server was given.
pub struct GivenRelay {
    pub server: Seq<char>,
    /// Does the connection become secret by STARTTLS, or is it so from the start?
    pub starttls: bool,
    pub port: u16,
    /// User name and password.
    pub credentials: Option<(Seq<char>, Seq<char>)>,
}

/// The start of a way to a mail server, and what it was given.
pub(crate) struct RelayDraft {
    builder: lettre::transport::smtp::SmtpTransportBuilder,
    given: Ghost<GivenRelay>,
}

impl RelayDraft {
    /// What the way was given so far.
    pub(crate) closed spec fn given(self) -> GivenRelay {
        self.given@
    }
}

/// The way to a mail server, and what it was given.
pub struct Relay {
    transport: lettre::SmtpTransport,
    given: Ghost<GivenRelay>,
}

impl Relay {
    /// What the way was given.
    pub closed spec fn given(self) -> GivenRelay {
        self.given@
    }

    /// The way itself.
    pub closed spec fn content(self) -> lettre::SmtpTransport {
        self.transport
    }

    /// The way itself.
    pub fn transport(&self) -> (r: &lettre::SmtpTransport)
        ensures
            *r == self.content(),
    {
        &self.transport
    }
}

/// `lettre::SmtpTransport::starttls_relay`: by STARTTLS, on port 587. Whether it can be had is up
/// to the TLS library in use.
#[verifier::external_body]
pub(crate) fn starttls_relay(server: &str) -> (r: Result<
    RelayDraft,
    lettre::transport::smtp::Error,
>)
    ensures
        r matches Ok(draft) ==> draft.given() == (GivenRelay {
            server: server@,
            starttls: true,
            port: 587,
            credentials: None,
        }),
{
    let given = Ghost(
        GivenRelay { server: server@, starttls: true, port: 587, credentials: None },
    );
    Ok(RelayDraft { builder: lettre::SmtpTransport::starttls_relay(server)?, given })
}

/// `lettre::SmtpTransport::relay`: secret from the start, on port 465. Whether it can be had is
/// up to the TLS library in use.
#[verifier::external_body]
pub(crate) fn secret_relay(server: &str) -> (r: Result<
    RelayDraft,
    lettre::transport::smtp::Error,
>)
    ensures
        r matches Ok(draft) ==> draft.given() == (GivenRelay {
            server: server@,
            starttls: false,
            port: 465,
            credentials: None,
        }),
{
    let given = Ghost(
        GivenRelay { server: server@, starttls: false, port: 465, credentials: None },
    );
    Ok(RelayDraft { builder: lettre::SmtpTransport::relay(server)?, given })
}

/// `lettre::transport::smtp::SmtpTransportBuilder::port`: another port.
#[verifier::external_body]
pub(crate) fn on_port(draft: RelayDraft, port: u16) -> (r: RelayDraft)
    ensures
        r.given() == (GivenRelay { port, ..draft.given() }),
{
    let given = Ghost(GivenRelay { port, ..draft.given@ });
    RelayDraft { builder: draft.builder.port(port), given }
}

/// `lettre::transport::smtp::SmtpTransportBuilder::credentials`: a user name and a password, by
/// `lettre::transport::smtp::authentication::Credentials::new`.
#[verifier::external_body]
pub(crate) fn log_in(draft: RelayDraft, user: String, password: String) -> (r: RelayDraft)
    ensures
        r.given() == (GivenRelay { credentials: Some((user@, password@)), ..draft.given() }),
{
    let given = Ghost(GivenRelay { credentials: Some((user@, password@)), ..draft.given@ });
    let both = lettre::transport::smtp::authentication::Credentials::new(user, password);
    RelayDraft { builder: draft.builder.credentials(both), given }
}

/// `lettre::transport::smtp::SmtpTransportBuilder::build`: the way with all that it was given.
#[verifier::external_body]
pub(crate) fn pave(draft: RelayDraft) -> (r: Relay)
    ensures
        r.given() == draft.given(),
{
    Relay { transport: draft.builder.build(), given: draft.given }
}

} // verus!
