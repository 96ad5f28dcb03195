//! The settings, out of environment variables.
use vstd::prelude::*;

use crate::text::{self, parse_u16, parse_u32, same_text, split_list, to_lower, trim, NumberFault};

verus! {

/// The settings.
#[derive(Debug)]
pub struct Config {
    pub mail_to: Vec<String>,
    pub mail_from: String,
    pub download: bool,
    pub mail_attachment: bool,
    pub smtp_server: String,
    pub smtp_port: u16,
    pub smtp_starttls: bool,
    pub smtp_username: Option<String>,
    pub smtp_password: Option<String>,
    pub backfill_limit: u32,
}

/// Why an environment variable cannot be used.
#[derive(Debug, Clone, PartialEq, Eq)]
pub enum Unset {
    /// It is not set.
    NotPresent,
    /// It is not Unicode, but this, in quotes and escapes.
    NotUnicode(String),
}

impl Unset {
    /// What the reader is told.
    pub open spec fn text(self) -> Seq<char> {
        match self {
            Unset::NotPresent => "environment variable not found"@,
            Unset::NotUnicode(found) => "environment variable was not valid unicode: "@ + found@,
        }
    }

    /// What the reader is told.
    pub fn message(&self) -> (s: String)
        ensures
            s@ == self.text(),
    {
        match self {
            Unset::NotPresent => String::from_str("environment variable not found"),
            Unset::NotUnicode(found) => {
                let mut s: String = String::from_str("environment variable was not valid unicode: ");
                s.append(found.as_str());
                s
            },
        }
    }
}

/// The environment variables that hold settings, as far as they can be used. Each field stands
/// for the variable of its name, in capitals and after `XKCD_`.
pub struct Environment {
    pub mail_to: Result<String, Unset>,
    pub mail_from: Result<String, Unset>,
    pub download: Option<String>,
    pub mail_attachment: Option<String>,
    pub smtp_server: Result<String, Unset>,
    pub smtp_port: Option<String>,
    pub smtp_starttls: Option<String>,
    pub smtp_username: Option<String>,
    pub smtp_password: Option<String>,
    pub backfill_limit: Option<String>,
}

/// What is wrong with the settings.
#[derive(Debug, Clone, PartialEq, Eq)]
pub enum ConfigError {
    MissingMailTo(Unset),
    MissingMailFrom(Unset),
    MissingSmtpServer(Unset),
    InvalidSmtpPort(NumberFault),
    InvalidBackfillLimit(NumberFault),
    NoRecipient,
    AttachmentWithoutDownload,
    PartialCredentials,
}

impl ConfigError {
    /// What the reader is told, apart from the cause.
    pub open spec fn text(self) -> Seq<char> {
        match self {
            ConfigError::MissingMailTo(_) => "missing env var XKCD_MAIL_TO"@,
            ConfigError::MissingMailFrom(_) => "missing env var XKCD_MAIL_FROM"@,
            ConfigError::MissingSmtpServer(_) => "missing env var XKCD_SMTP_SERVER"@,
            ConfigError::InvalidSmtpPort(_) => "XKCD_SMTP_PORT must be a number"@,
            ConfigError::InvalidBackfillLimit(_) =>
                "XKCD_BACKFILL_LIMIT must be a non-negative integer"@,
            ConfigError::NoRecipient => "XKCD_MAIL_TO must contain at least one address"@,
            ConfigError::AttachmentWithoutDownload =>
                "XKCD_DOWNLOAD must be true when XKCD_MAIL_ATTACHMENT is true"@,
            ConfigError::PartialCredentials =>
                "XKCD_SMTP_USERNAME and XKCD_SMTP_PASSWORD must both be set or both be unset"@,
        }
    }

    /// What lies behind it, if anything does.
    pub open spec fn cause_text(self) -> Option<Seq<char>> {
        match self {
            ConfigError::MissingMailTo(unset) => Some(unset.text()),
            ConfigError::MissingMailFrom(unset) => Some(unset.text()),
            ConfigError::MissingSmtpServer(unset) => Some(unset.text()),
            ConfigError::InvalidSmtpPort(fault) => Some(fault.text()),
            ConfigError::InvalidBackfillLimit(fault) => Some(fault.text()),
            _ => None,
        }
    }

    /// What the reader is told, apart from the cause.
    pub fn message(&self) -> (s: String)
        ensures
            s@ == self.text(),
    {
        String::from_str(
            match self {
                ConfigError::MissingMailTo(_) => "missing env var XKCD_MAIL_TO",
                ConfigError::MissingMailFrom(_) => "missing env var XKCD_MAIL_FROM",
                ConfigError::MissingSmtpServer(_) => "missing env var XKCD_SMTP_SERVER",
                ConfigError::InvalidSmtpPort(_) => "XKCD_SMTP_PORT must be a number",
                ConfigError::InvalidBackfillLimit(_) =>
                    "XKCD_BACKFILL_LIMIT must be a non-negative integer",
                ConfigError::NoRecipient => "XKCD_MAIL_TO must contain at least one address",
                ConfigError::AttachmentWithoutDownload =>
                    "XKCD_DOWNLOAD must be true when XKCD_MAIL_ATTACHMENT is true",
                ConfigError::PartialCredentials =>
                    "XKCD_SMTP_USERNAME and XKCD_SMTP_PASSWORD must both be set or both be unset",
            },
        )
    }

    /// What lies behind it, if anything does.
    pub fn cause(&self) -> (r: Option<String>)
        ensures
            match self.cause_text() {
                Some(told) => r matches Some(s) && s@ == told,
                None => r is None,
            },
    {
        match self {
            ConfigError::MissingMailTo(unset) => Some(unset.message()),
            ConfigError::MissingMailFrom(unset) => Some(unset.message()),
            ConfigError::MissingSmtpServer(unset) => Some(unset.message()),
            ConfigError::InvalidSmtpPort(fault) => Some(fault.message()),
            ConfigError::InvalidBackfillLimit(fault) => Some(fault.message()),
            _ => None,
        }
    }
}

// ---- single settings ----

/// A switch is on if it says so in one of three words, in any case; one that is not set has its
/// default.
pub open spec fn switch_value(setting: Option<String>, default: bool) -> bool {
    match setting {
        Some(v) => {
            let word = text::lower(text::trimmed(v@));
            word == "true"@ || word == "1"@ || word == "yes"@
        },
        None => default,
    }
}

/// The port, 587 if it is not set.
pub open spec fn port_value(setting: Option<String>) -> Result<nat, NumberFault> {
    match setting {
        Some(v) => text::parsed_unsigned(v@, u16::MAX as nat),
        None => Ok(587),
    }
}

/// The limit, 5 if it is not set.
pub open spec fn limit_value(setting: Option<String>) -> Result<nat, NumberFault> {
    match setting {
        Some(v) => text::parsed_unsigned(v@, u32::MAX as nat),
        None => Ok(5),
    }
}

/// The recipients in a list with commas.
pub open spec fn recipients(list: Seq<char>) -> Seq<Seq<char>> {
    text::list_items(list, ',')
}

fn switch(setting: &Option<String>, default: bool) -> (r: bool)
    ensures
        r == switch_value(*setting, default),
{
    match setting {
        Some(v) => {
            let word: String = to_lower(trim(v.as_str()).as_str());
            same_text(&word, "true") || same_text(&word, "1") || same_text(&word, "yes")
        },
        None => default,
    }
}

/// The recipients in a list with commas.
pub fn parse_recipients(list: &str) -> (mail_to: Vec<String>)
    ensures
        text::texts(mail_to@) == recipients(list@),
{
    split_list(list, ',')
}

// ---- all settings ----

/// What is wrong with settings that could all be read: the first thing, if there is any.
pub open spec fn config_fault(config: Config) -> Option<ConfigError> {
    if config.mail_to@.len() == 0 {
        Some(ConfigError::NoRecipient)
    } else if config.mail_attachment && !config.download {
        Some(ConfigError::AttachmentWithoutDownload)
    } else if config.smtp_username is Some != config.smtp_password is Some {
        Some(ConfigError::PartialCredentials)
    } else {
        None
    }
}

/// The setting that is missing or unreadable, if there is any.
pub open spec fn environment_fault(env: Environment) -> Option<ConfigError> {
    if env.mail_to is Err {
        Some(ConfigError::MissingMailTo(env.mail_to->Err_0))
    } else if env.mail_from is Err {
        Some(ConfigError::MissingMailFrom(env.mail_from->Err_0))
    } else if env.smtp_server is Err {
        Some(ConfigError::MissingSmtpServer(env.smtp_server->Err_0))
    } else if port_value(env.smtp_port) is Err {
        Some(ConfigError::InvalidSmtpPort(port_value(env.smtp_port)->Err_0))
    } else if limit_value(env.backfill_limit) is Err {
        Some(ConfigError::InvalidBackfillLimit(limit_value(env.backfill_limit)->Err_0))
    } else {
        None
    }
}

/// Are these the settings that the environment gives?
pub open spec fn config_of(config: Config, env: Environment) -> bool {
    &&& text::texts(config.mail_to@) == recipients(env.mail_to->Ok_0@)
    &&& config.mail_from == env.mail_from->Ok_0
    &&& config.download == switch_value(env.download, true)
    &&& config.mail_attachment == switch_value(env.mail_attachment, false)
    &&& config.smtp_server == env.smtp_server->Ok_0
    &&& port_value(env.smtp_port) == Ok::<_, NumberFault>(config.smtp_port as nat)
    &&& config.smtp_starttls == switch_value(env.smtp_starttls, true)
    &&& config.smtp_username == env.smtp_username
    &&& config.smtp_password == env.smtp_password
    &&& limit_value(env.backfill_limit) == Ok::<_, NumberFault>(config.backfill_limit as nat)
}

/// What is wrong with settings that the environment gives, if they could all be read: the first
/// thing, if there is any.
pub open spec fn combined_fault(env: Environment) -> Option<ConfigError> {
    if recipients(env.mail_to->Ok_0@).len() == 0 {
        Some(ConfigError::NoRecipient)
    } else if switch_value(env.mail_attachment, false) && !switch_value(env.download, true) {
        Some(ConfigError::AttachmentWithoutDownload)
    } else if env.smtp_username is Some != env.smtp_password is Some {
        Some(ConfigError::PartialCredentials)
    } else {
        None
    }
}

/// Reads the settings.
pub fn load_config(env: Environment) -> (r: Result<Config, ConfigError>)
    ensures
        match environment_fault(env) {
            Some(e) => r == Err::<Config, _>(e),
            None => match combined_fault(env) {
                Some(e) => r == Err::<Config, _>(e),
                None => r matches Ok(config) && config_of(config, env) && config_fault(config)
                    is None,
            },
        },
{
    let mail_to: Vec<String> = match env.mail_to {
        Ok(list) => parse_recipients(list.as_str()),
        Err(unset) => {
            return Err(ConfigError::MissingMailTo(unset));
        },
    };
    let mail_from: String = match env.mail_from {
        Ok(v) => v,
        Err(unset) => {
            return Err(ConfigError::MissingMailFrom(unset));
        },
    };
    let download: bool = switch(&env.download, true);
    let mail_attachment: bool = switch(&env.mail_attachment, false);
    let smtp_server: String = match env.smtp_server {
        Ok(v) => v,
        Err(unset) => {
            return Err(ConfigError::MissingSmtpServer(unset));
        },
    };
    let smtp_port: u16 = match &env.smtp_port {
        Some(v) => match parse_u16(v.as_str()) {
            Ok(port) => port,
            Err(fault) => {
                return Err(ConfigError::InvalidSmtpPort(fault));
            },
        },
        None => 587,
    };
    let smtp_starttls: bool = switch(&env.smtp_starttls, true);
    let backfill_limit: u32 = match &env.backfill_limit {
        Some(v) => match parse_u32(v.as_str()) {
            Ok(limit) => limit,
            Err(fault) => {
                return Err(ConfigError::InvalidBackfillLimit(fault));
            },
        },
        None => 5,
    };
    let config: Config = Config {
        mail_to,
        mail_from,
        download,
        mail_attachment,
        smtp_server,
        smtp_port,
        smtp_starttls,
        smtp_username: env.smtp_username,
        smtp_password: env.smtp_password,
        backfill_limit,
    };
    assert(text::texts(config.mail_to@).len() == config.mail_to@.len());
    match validate_config(&config) {
        Ok(()) => Ok(config),
        Err(e) => Err(e),
    }
}

/// Do the settings go together?
pub fn validate_config(config: &Config) -> (r: Result<(), ConfigError>)
    ensures
        match config_fault(*config) {
            Some(e) => r == Err::<(), _>(e),
            None => r == Ok::<_, ConfigError>(()),
        },
{
    if config.mail_to.len() == 0 {
        return Err(ConfigError::NoRecipient);
    }
    if config.mail_attachment && !config.download {
        return Err(ConfigError::AttachmentWithoutDownload);
    }
    if config.smtp_username.is_some() != config.smtp_password.is_some() {
        return Err(ConfigError::PartialCredentials);
    }
    Ok(())
}

/// No recipient out of a list is empty or has white space around it.
pub proof fn law_recipients_are_trimmed(list: Seq<char>)
    ensures
        forall|i: int|
            0 <= i < recipients(list).len() ==> (#[trigger] recipients(list)[i]).len() > 0
                && !text::is_white_space(recipients(list)[i][0]) && !text::is_white_space(
                recipients(list)[i].last(),
            ),
{
    lemma_filled_are_trimmed(text::pieces(list, ','));
}

proof fn lemma_filled_are_trimmed(parts: Seq<Seq<char>>)
    ensures
        forall|i: int|
            0 <= i < text::filled(parts).len() ==> (#[trigger] text::filled(parts)[i]).len() > 0
                && !text::is_white_space(text::filled(parts)[i][0]) && !text::is_white_space(
                text::filled(parts)[i].last(),
            ),
    decreases parts.len(),
{
    if parts.len() > 0 {
        lemma_filled_are_trimmed(parts.drop_last());
        text::law_trimmed_has_no_white_ends(parts.last());
        let before = text::filled(parts.drop_last());
        assert forall|i: int| 0 <= i < text::filled(parts).len() implies (#[trigger] text::filled(
            parts,
        )[i]).len() > 0 && !text::is_white_space(text::filled(parts)[i][0])
            && !text::is_white_space(text::filled(parts)[i].last()) by {
            if i < before.len() {
                assert(text::filled(parts)[i] == before[i]);
            }
        }
    }
}

/// Does the text say yes? That is one of three words, in letters of any size, with white space
/// around it or without.
pub open spec fn says_yes(v: Seq<char>) -> bool {
    exists|left: Seq<char>, word: Seq<char>, right: Seq<char>|
        {
            &&& v == #[trigger] (left + word + right)
            &&& forall|k: int| 0 <= k < left.len() ==> text::is_white_space(#[trigger] left[k])
            &&& forall|k: int| 0 <= k < right.len() ==> text::is_white_space(#[trigger] right[k])
            &&& text::lower(word) == seq!['t', 'r', 'u', 'e'] || text::lower(word) == seq!['1']
                || text::lower(word) == seq!['y', 'e', 's']
        }
}

proof fn lemma_words()
    ensures
        "true"@ == seq!['t', 'r', 'u', 'e'],
        "1"@ == seq!['1'],
        "yes"@ == seq!['y', 'e', 's'],
{
    reveal_strlit("true");
    reveal_strlit("1");
    reveal_strlit("yes");
    assert("true"@ =~= seq!['t', 'r', 'u', 'e']);
    assert("1"@ =~= seq!['1']);
    assert("yes"@ =~= seq!['y', 'e', 's']);
}

/// A switch that is set is on exactly if it says yes, whatever its default; one that is not set
/// has its default.
pub proof fn law_switch_is_on_if_it_says_yes(v: String, default: bool)
    ensures
        switch_value(Some(v), default) <==> says_yes(v@),
        switch_value(None, default) == default,
{
    lemma_words();
    let s = v@;
    if switch_value(Some(v), default) {
        text::law_trimming_takes_white_space_only(s);
        let (i, j) = choose|i: int, j: int|
            {
                &&& 0 <= i <= j <= s.len()
                &&& text::trimmed(s) == #[trigger] s.subrange(i, j)
                &&& forall|k: int| 0 <= k < i ==> text::is_white_space(#[trigger] s[k])
                &&& forall|k: int| j <= k < s.len() ==> text::is_white_space(#[trigger] s[k])
            };
        let left = s.take(i);
        let right = s.skip(j);
        assert(s =~= left + text::trimmed(s) + right);
        assert forall|k: int| 0 <= k < left.len() implies text::is_white_space(
            #[trigger] left[k],
        ) by {
            assert(left[k] == s[k]);
        }
        assert forall|k: int| 0 <= k < right.len() implies text::is_white_space(
            #[trigger] right[k],
        ) by {
            assert(right[k] == s[j + k]);
        }
        assert(says_yes(s));
    }
    if says_yes(s) {
        let (left, word, right) = choose|left: Seq<char>, word: Seq<char>, right: Seq<char>|
            {
                &&& s == #[trigger] (left + word + right)
                &&& forall|k: int| 0 <= k < left.len() ==> text::is_white_space(#[trigger] left[k])
                &&& forall|k: int|
                    0 <= k < right.len() ==> text::is_white_space(#[trigger] right[k])
                &&& text::lower(word) == seq!['t', 'r', 'u', 'e'] || text::lower(word) == seq!['1']
                    || text::lower(word) == seq!['y', 'e', 's']
            };
        assert(text::lower(word).len() == word.len());
        text::law_lower_case(word, 0);
        text::law_lower_case(word, word.len() - 1);
        text::law_padding_is_taken_off(left, word, right);
    }
}

/// The settings are what the environment says. A number is taken as it is written, whatever it is,
/// and what is not set has its default.
pub proof fn law_settings_are_what_the_environment_says(
    env: Environment,
    config: Config,
    port: nat,
    limit: nat,
    items: Seq<Seq<char>>,
)
    requires
        call_ensures(load_config, (env,), Ok(config)),
    ensures
        env.mail_from matches Ok(v) && config.mail_from@ == v@,
        env.smtp_server matches Ok(v) && config.smtp_server@ == v@,
        config.smtp_username == env.smtp_username,
        config.smtp_password == env.smtp_password,
        env.smtp_port is None ==> config.smtp_port == 587,
        env.smtp_port matches Some(v) && v@ == text::decimal(port) ==> config.smtp_port == port,
        env.backfill_limit is None ==> config.backfill_limit == 5,
        env.backfill_limit matches Some(v) && v@ == text::decimal(limit) ==> config.backfill_limit
            == limit,
        config.download == (env.download matches Some(v) ==> says_yes(v@)),
        config.mail_attachment == (env.mail_attachment matches Some(v) && says_yes(v@)),
        config.smtp_starttls == (env.smtp_starttls matches Some(v) ==> says_yes(v@)),
        items.len() > 0 && (forall|i: int|
            0 <= i < items.len() ==> (#[trigger] items[i]).len() > 0 && !items[i].contains(',')
                && !text::is_white_space(items[i][0]) && !text::is_white_space(items[i].last()))
            && (env.mail_to matches Ok(v) && v@ == text::joined(items, ',')) ==> {
            &&& config.mail_to@.len() == items.len()
            &&& forall|i: int| 0 <= i < items.len() ==> (#[trigger] config.mail_to@[i])@ == items[i]
        },
{
    if env.download is Some {
        law_switch_is_on_if_it_says_yes(env.download->0, true);
    }
    if env.mail_attachment is Some {
        law_switch_is_on_if_it_says_yes(env.mail_attachment->0, false);
    }
    if env.smtp_starttls is Some {
        law_switch_is_on_if_it_says_yes(env.smtp_starttls->0, true);
    }
    lemma_decimal_within(port, u16::MAX as nat);
    lemma_decimal_within(limit, u32::MAX as nat);
    if items.len() > 0 && (forall|i: int|
        0 <= i < items.len() ==> (#[trigger] items[i]).len() > 0 && !items[i].contains(',')
            && !text::is_white_space(items[i][0]) && !text::is_white_space(items[i].last())) {
        text::law_list_reads_back(items, ',');
        if env.mail_to matches Ok(v) && v@ == text::joined(items, ',') {
            assert(text::texts(config.mail_to@) == items);
            assert forall|i: int| 0 <= i < items.len() implies (
            #[trigger] config.mail_to@[i])@ == items[i] by {
                assert(text::texts(config.mail_to@)[i] == config.mail_to@[i]@);
            }
        }
    }
}

/// A written number is read as itself if it is within the limit, and not at all otherwise.
proof fn lemma_decimal_within(n: nat, max: nat)
    ensures
        n <= max ==> text::parsed_unsigned(text::decimal(n), max) == Ok::<_, NumberFault>(n),
        n > max ==> text::parsed_unsigned(text::decimal(n), max) is Err,
{
    text::law_decimal_reads_back(n);
    text::lemma_decimal_digits(n);
    assert(text::is_digit(text::decimal(n)[0]));
    text::law_faultless_is_a_number(text::decimal(n), max, NumberFault::TooLarge);
}

/// Settings are accepted if what must be set is set, numbers are within their types, somebody is
/// to be mailed, nothing is attached that is not downloaded, and there are both or none of user
/// name and password. Any number that fits is accepted.
pub proof fn law_good_settings_are_accepted(
    env: Environment,
    r: Result<Config, ConfigError>,
    port: nat,
    limit: nat,
    items: Seq<Seq<char>>,
)
    requires
        call_ensures(load_config, (env,), r),
        items.len() > 0,
        forall|i: int|
            0 <= i < items.len() ==> (#[trigger] items[i]).len() > 0 && !items[i].contains(',')
                && !text::is_white_space(items[i][0]) && !text::is_white_space(items[i].last()),
        env.mail_to matches Ok(v) && v@ == text::joined(items, ','),
        env.mail_from is Ok,
        env.smtp_server is Ok,
        env.smtp_port matches Some(v) ==> v@ == text::decimal(port),
        env.backfill_limit matches Some(v) ==> v@ == text::decimal(limit),
        env.mail_attachment matches Some(v) && says_yes(v@) ==> (env.download matches Some(d)
            ==> says_yes(d@)),
        env.smtp_username is Some <==> env.smtp_password is Some,
    ensures
        port <= u16::MAX && limit <= u32::MAX ==> r is Ok,
        env.smtp_port is Some && port > u16::MAX ==> r is Err,
        env.backfill_limit is Some && limit > u32::MAX ==> r is Err,
{
    text::law_list_reads_back(items, ',');
    lemma_decimal_within(port, u16::MAX as nat);
    lemma_decimal_within(limit, u32::MAX as nat);
    if env.download is Some {
        law_switch_is_on_if_it_says_yes(env.download->0, true);
    }
    if env.mail_attachment is Some {
        law_switch_is_on_if_it_says_yes(env.mail_attachment->0, false);
    }
}

/// Settings are refused for what must be set and is not, in a fixed order, then for a number that
/// cannot be read, each with its cause.
pub proof fn law_what_must_be_set(
    env: Environment,
    r: Result<Config, ConfigError>,
    u: Unset,
    fault: NumberFault,
)
    requires
        call_ensures(load_config, (env,), r),
    ensures
        r == Err::<Config, _>(ConfigError::MissingMailTo(u)) <==> env.mail_to == Err::<String, _>(
            u,
        ),
        r == Err::<Config, _>(ConfigError::MissingMailFrom(u)) <==> env.mail_to is Ok
            && env.mail_from == Err::<String, _>(u),
        r == Err::<Config, _>(ConfigError::MissingSmtpServer(u)) <==> env.mail_to is Ok
            && env.mail_from is Ok && env.smtp_server == Err::<String, _>(u),
        r == Err::<Config, _>(ConfigError::InvalidSmtpPort(fault)) <==> env.mail_to is Ok
            && env.mail_from is Ok && env.smtp_server is Ok && (env.smtp_port matches Some(v)
            && text::parsed_unsigned(v@, 65535) == Err::<nat, _>(fault)),
        r == Err::<Config, _>(ConfigError::InvalidBackfillLimit(fault)) <==> env.mail_to is Ok
            && env.mail_from is Ok && env.smtp_server is Ok && (env.smtp_port matches Some(v)
            ==> text::parsed_unsigned(v@, 65535) is Ok) && (env.backfill_limit matches Some(v)
            && text::parsed_unsigned(v@, 4294967295) == Err::<nat, _>(fault)),
{
}

/// Settings go together exactly if somebody is to be mailed, nothing is attached that is not
/// downloaded, and there are both or none of user name and password. If more than one of these
/// fails, the first of them is named.
pub proof fn law_what_must_go_together(config: &Config, r: Result<(), ConfigError>)
    requires
        call_ensures(validate_config, (config,), r),
    ensures
        r is Ok <==> config.mail_to@.len() > 0 && (config.mail_attachment ==> config.download) && (
        config.smtp_username is Some <==> config.smtp_password is Some),
        r == Err::<(), _>(ConfigError::NoRecipient) <==> config.mail_to@.len() == 0,
        r == Err::<(), _>(ConfigError::AttachmentWithoutDownload) <==> config.mail_to@.len() > 0
            && config.mail_attachment && !config.download,
        r == Err::<(), _>(ConfigError::PartialCredentials) <==> config.mail_to@.len() > 0 && (
        config.mail_attachment ==> config.download) && (config.smtp_username is Some)
            != (config.smtp_password is Some),
{
}

/// The settings that are accepted go together.
pub proof fn law_accepted_settings_go_together(env: Environment, config: Config)
    requires
        call_ensures(load_config, (env,), Ok(config)),
    ensures
        config.mail_to@.len() > 0,
        config.mail_attachment ==> config.download,
        config.smtp_username is Some <==> config.smtp_password is Some,
{
}

/// Recipients that are written with commas between them are read back, however many they are.
pub proof fn law_recipients_read_back(items: Seq<Seq<char>>, list: &str, mail_to: Vec<String>)
    requires
        items.len() > 0,
        forall|i: int|
            0 <= i < items.len() ==> (#[trigger] items[i]).len() > 0 && !items[i].contains(',')
                && !text::is_white_space(items[i][0]) && !text::is_white_space(items[i].last()),
        list@ == text::joined(items, ','),
        call_ensures(parse_recipients, (list,), mail_to),
    ensures
        mail_to@.len() == items.len(),
        forall|i: int| 0 <= i < items.len() ==> (#[trigger] mail_to@[i])@ == items[i],
{
    text::law_list_reads_back(items, ',');
    assert(text::texts(mail_to@) == items);
    assert forall|i: int| 0 <= i < items.len() implies (#[trigger] mail_to@[i])@ == items[i] by {
        assert(text::texts(mail_to@)[i] == mail_to@[i]@);
    }
}

/// Nobody in a list of recipients is left out, and nobody else is mailed: the recipients are the
/// pieces between the commas that are not blank, in order, each trimmed.
pub proof fn law_nobody_is_left_out(env: Environment, config: Config)
    requires
        call_ensures(load_config, (env,), Ok(config)),
    ensures
        env.mail_to matches Ok(list) && exists|spots: Seq<int>| #[trigger]
            text::are_spots(spots, text::texts(config.mail_to@), list@, ','),
{
    text::law_items_are_the_pieces_that_are_not_blank(env.mail_to->Ok_0@, ',');
}

/// Each thing that is wrong with the settings is told by the variable that it is about, and what
/// lies behind it is told in the words of the cause.
pub proof fn law_settings_errors_have_their_words(
    error: &ConfigError,
    s: String,
    cause: Option<String>,
    unset: &Unset,
    why_unset: String,
    fault: &NumberFault,
    why_no_number: String,
)
    requires
        call_ensures(ConfigError::message, (error,), s),
        call_ensures(ConfigError::cause, (error,), cause),
        call_ensures(Unset::message, (unset,), why_unset),
        call_ensures(NumberFault::message, (fault,), why_no_number),
    ensures
        error is MissingMailTo ==> s@ == "missing env var XKCD_MAIL_TO"@,
        error is MissingMailFrom ==> s@ == "missing env var XKCD_MAIL_FROM"@,
        error is MissingSmtpServer ==> s@ == "missing env var XKCD_SMTP_SERVER"@,
        error is InvalidSmtpPort ==> s@ == "XKCD_SMTP_PORT must be a number"@,
        error is InvalidBackfillLimit ==> s@
            == "XKCD_BACKFILL_LIMIT must be a non-negative integer"@,
        error is NoRecipient ==> s@ == "XKCD_MAIL_TO must contain at least one address"@,
        error is AttachmentWithoutDownload ==> s@
            == "XKCD_DOWNLOAD must be true when XKCD_MAIL_ATTACHMENT is true"@,
        error is PartialCredentials ==> s@
            == "XKCD_SMTP_USERNAME and XKCD_SMTP_PASSWORD must both be set or both be unset"@,
        cause is None <==> error is NoRecipient || error is AttachmentWithoutDownload || error
            is PartialCredentials,
        *error == ConfigError::MissingMailTo(*unset) || *error == ConfigError::MissingMailFrom(
            *unset,
        ) || *error == ConfigError::MissingSmtpServer(*unset) ==> (cause matches Some(c) && c@
            == why_unset@),
        *error == ConfigError::InvalidSmtpPort(*fault) || *error
            == ConfigError::InvalidBackfillLimit(*fault) ==> (cause matches Some(c) && c@
            == why_no_number@),
        unset is NotPresent ==> why_unset@ == "environment variable not found"@,
        unset matches Unset::NotUnicode(found) ==> why_unset@
            == "environment variable was not valid unicode: "@ + found@,
{
}

} // verus!
