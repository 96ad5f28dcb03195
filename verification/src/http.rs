//! Comics, and what the comic server's replies mean.
use vstd::prelude::*;

use crate::text::{self, chars_of, decimal_text, text_of};

verus! {

/// Where the comics are published.
pub const XKCD_BASE_URL: &'static str = "https://xkcd.com";

/// A comic as its publisher describes it.
#[derive(Debug)]
pub struct Comic {
    pub num: u32,
    pub safe_title: String,
    pub img: String,
    pub alt: String,
    pub year: String,
    pub month: String,
    pub day: String,
}

impl Clone for Comic {
    fn clone(&self) -> (r: Self)
        ensures
            r == *self,
    {
        Comic {
            num: self.num,
            safe_title: self.safe_title.clone(),
            img: self.img.clone(),
            alt: self.alt.clone(),
            year: self.year.clone(),
            month: self.month.clone(),
            day: self.day.clone(),
        }
    }
}

/// Stands for a comic that has a number and nothing else, because it was never published.
pub fn missing_comic(num: u32) -> (comic: Comic)
    ensures
        comic.num == num,
        comic.safe_title@ == Seq::<char>::empty(),
        comic.img@ == Seq::<char>::empty(),
        comic.alt@ == Seq::<char>::empty(),
        comic.year@ == Seq::<char>::empty(),
        comic.month@ == Seq::<char>::empty(),
        comic.day@ == Seq::<char>::empty(),
{
    Comic {
        num,
        safe_title: String::new(),
        img: String::new(),
        alt: String::new(),
        year: String::new(),
        month: String::new(),
        day: String::new(),
    }
}

// ---- addresses ----

/// The name under which this program asks for pages.
pub open spec fn agent_name(version: Seq<char>) -> Seq<char> {
    "ferrous-comics/"@ + version
}

/// The name under which this program asks for pages.
pub fn user_agent(version: &str) -> (name: String)
    ensures
        name@ == agent_name(version@),
{
    let mut name: String = String::from_str("ferrous-comics/");
    name.append(version);
    name
}

/// `url` without the slashes that it ends with.
pub open spec fn without_end_slashes(url: Seq<char>) -> Seq<char>
    decreases url.len(),
{
    if url.len() > 0 && url.last() == '/' {
        without_end_slashes(url.drop_last())
    } else {
        url
    }
}

/// Where the description of the latest comic is.
pub open spec fn latest_address(base_url: Seq<char>) -> Seq<char> {
    without_end_slashes(base_url) + "/info.0.json"@
}

/// Where the description of comic `num` is.
pub open spec fn comic_address(base_url: Seq<char>, num: u32) -> Seq<char> {
    without_end_slashes(base_url) + "/"@ + text::decimal(num as nat) + "/info.0.json"@
}

/// A base address means the same with a slash at its end as without one.
pub proof fn law_end_slash_is_ignored(base_url: Seq<char>, num: u32)
    ensures
        latest_address(base_url.push('/')) == latest_address(base_url),
        comic_address(base_url.push('/'), num) == comic_address(base_url, num),
{
    assert(base_url.push('/').drop_last() == base_url);
}

/// `url` without the slashes that it ends with.
fn strip_end_slashes(url: &str) -> (r: String)
    ensures
        r@ == without_end_slashes(url@),
{
    let chars: Vec<char> = chars_of(url);
    let mut end: usize = chars.len();
    assert(chars@.subrange(0, end as int) == url@);
    while end > 0 && chars[end - 1] == '/'
        invariant
            end <= chars@.len(),
            without_end_slashes(url@) == without_end_slashes(chars@.subrange(0, end as int)),
        ensures
            end <= chars@.len(),
            without_end_slashes(url@) == chars@.subrange(0, end as int),
        decreases end,
    {
        assert(chars@.subrange(0, end as int).drop_last() == chars@.subrange(0, end - 1));
        end = end - 1;
    }
    text_of(&chars, 0, end)
}

/// Where the description of the latest comic is.
pub fn latest_url(base_url: &str) -> (url: String)
    ensures
        url@ == latest_address(base_url@),
{
    let mut url: String = strip_end_slashes(base_url);
    url.append("/info.0.json");
    url
}

/// Where the description of comic `num` is.
pub fn comic_url(base_url: &str, num: u32) -> (url: String)
    ensures
        url@ == comic_address(base_url@, num),
{
    let mut url: String = strip_end_slashes(base_url);
    url.append("/");
    url.append(decimal_text(num as u64).as_str());
    url.append("/info.0.json");
    url
}

// ---- replies ----

/// What came of asking for the description of a comic.
pub enum ApiReply {
    /// A description that could be read.
    Described(Comic),
    /// A page that holds no description.
    Unreadable,
    /// The server's refusal.
    Status(u16),
    /// The server could not be reached.
    Unreachable,
}

/// Why there is no comic.
#[derive(Debug, Clone, Copy, PartialEq, Eq, Structural)]
pub enum FetchError {
    Status(u16),
    Unreachable,
    Unreadable,
    WrongNumber { got: u32, wanted: u32 },
}

impl FetchError {
    /// What the reader is told.
    pub open spec fn text(self) -> Seq<char> {
        match self {
            FetchError::Status(code) => "xkcd API returned HTTP "@ + text::decimal(
                code as nat,
            ),
            FetchError::Unreachable => "failed to reach xkcd API"@,
            FetchError::Unreadable => "failed to parse xkcd JSON"@,
            FetchError::WrongNumber { got, wanted } => "xkcd API returned comic #"@
                + text::decimal(got as nat) + " for request #"@ + text::decimal(
                wanted as nat,
            ),
        }
    }

    /// What the reader is told.
    pub fn message(&self) -> (s: String)
        ensures
            s@ == self.text(),
    {
        match *self {
            FetchError::Status(code) => {
                let mut s: String = String::from_str("xkcd API returned HTTP ");
                s.append(decimal_text(code as u64).as_str());
                s
            },
            FetchError::Unreachable => String::from_str("failed to reach xkcd API"),
            FetchError::Unreadable => String::from_str("failed to parse xkcd JSON"),
            FetchError::WrongNumber { got, wanted } => {
                let mut s: String = String::from_str("xkcd API returned comic #");
                s.append(decimal_text(got as u64).as_str());
                s.append(" for request #");
                s.append(decimal_text(wanted as u64).as_str());
                s
            },
        }
    }
}

/// What a reply to the question for the latest comic means.
pub open spec fn latest_of(reply: ApiReply) -> Result<Comic, FetchError> {
    match reply {
        ApiReply::Described(comic) => Ok(comic),
        ApiReply::Unreadable => Err(FetchError::Unreadable),
        ApiReply::Status(code) => Err(FetchError::Status(code)),
        ApiReply::Unreachable => Err(FetchError::Unreachable),
    }
}

/// What a reply to the question for comic `num` means. There is no such comic if the server
/// says so with status 404; any other failure may pass.
pub open spec fn numbered_of(reply: ApiReply, num: u32) -> Result<Option<Comic>, FetchError> {
    match reply {
        ApiReply::Described(comic) => if comic.num == num {
            Ok(Some(comic))
        } else {
            Err(FetchError::WrongNumber { got: comic.num, wanted: num })
        },
        ApiReply::Unreadable => Err(FetchError::Unreadable),
        ApiReply::Status(code) => if code == 404 {
            Ok(None)
        } else {
            Err(FetchError::Status(code))
        },
        ApiReply::Unreachable => Err(FetchError::Unreachable),
    }
}

/// The latest comic, out of the server's reply.
pub fn fetch_comic(reply: ApiReply) -> (r: Result<Comic, FetchError>)
    ensures
        r == latest_of(reply),
{
    match reply {
        ApiReply::Described(comic) => Ok(comic),
        ApiReply::Unreadable => Err(FetchError::Unreadable),
        ApiReply::Status(code) => Err(FetchError::Status(code)),
        ApiReply::Unreachable => Err(FetchError::Unreachable),
    }
}

/// Comic `num`, out of the server's reply: `None` if it does not exist.
pub fn fetch_comic_by_num(reply: ApiReply, num: u32) -> (r: Result<Option<Comic>, FetchError>)
    ensures
        r == numbered_of(reply, num),
{
    match reply {
        ApiReply::Described(comic) => {
            if comic.num != num {
                return Err(FetchError::WrongNumber { got: comic.num, wanted: num });
            }
            Ok(Some(comic))
        },
        ApiReply::Unreadable => Err(FetchError::Unreadable),
        ApiReply::Status(code) => {
            if code == 404 {
                Ok(None)
            } else {
                Err(FetchError::Status(code))
            }
        },
        ApiReply::Unreachable => Err(FetchError::Unreachable),
    }
}

// ---- images ----

/// What follows the last slash of `url`.
pub open spec fn base_name(url: Seq<char>) -> Seq<char>
    decreases url.len(),
{
    if url.len() == 0 || url.last() == '/' {
        Seq::empty()
    } else {
        base_name(url.drop_last()).push(url.last())
    }
}

/// The name of the file that a comic's image is kept in.
pub open spec fn file_name(comic: Comic) -> Seq<char> {
    text::decimal(comic.num as nat) + "-"@ + base_name(comic.img@)
}

proof fn lemma_base_name(url: Seq<char>, start: int)
    requires
        0 <= start <= url.len(),
        start > 0 ==> url[start - 1] == '/',
        forall|i: int| start <= i < url.len() ==> url[i] != '/',
    ensures
        base_name(url) == url.skip(start),
    decreases url.len(),
{
    if start < url.len() {
        lemma_base_name(url.drop_last(), start);
        assert(url.skip(start) == url.drop_last().skip(start).push(url.last()));
    } else {
        assert(url.skip(start) == Seq::<char>::empty());
    }
}

proof fn lemma_base_name_has_no_slash(url: Seq<char>)
    ensures
        !base_name(url).contains('/'),
    decreases url.len(),
{
    if url.len() > 0 && url.last() != '/' {
        lemma_base_name_has_no_slash(url.drop_last());
        assert forall|i: int| 0 <= i < base_name(url).len() implies base_name(url)[i] != '/' by {
            if i < base_name(url).len() - 1 {
                assert(base_name(url)[i] == base_name(url.drop_last())[i]);
                assert(base_name(url.drop_last()).contains(base_name(url)[i]));
            }
        }
    }
}

/// An image's file name is a name in one directory: it holds no slash, whatever the address of
/// the image is.
pub proof fn law_file_name_has_no_slash(comic: Comic)
    ensures
        !file_name(comic).contains('/'),
{
    lemma_base_name_has_no_slash(comic.img@);
    text::lemma_decimal_digits(comic.num as nat);
    reveal_strlit("-");
    let number = text::decimal(comic.num as nat);
    let base = base_name(comic.img@);
    let name = file_name(comic);
    assert forall|i: int| 0 <= i < name.len() implies name[i] != '/' by {
        if i < number.len() {
            assert(text::is_digit(number[i]));
        } else if i > number.len() {
            assert(base.contains(base[i - number.len() - 1]));
        }
    }
}

/// The name of the file that a comic's image is kept in.
pub fn local_filename(comic: &Comic) -> (name: String)
    ensures
        name@ == file_name(*comic),
{
    let chars: Vec<char> = chars_of(comic.img.as_str());
    let mut start: usize = chars.len();
    while start > 0 && chars[start - 1] != '/'
        invariant
            start <= chars@.len(),
            forall|i: int| start <= i < chars@.len() ==> chars@[i] != '/',
        ensures
            start <= chars@.len(),
            forall|i: int| start <= i < chars@.len() ==> chars@[i] != '/',
            start > 0 ==> chars@[start - 1] == '/',
        decreases start,
    {
        start = start - 1;
    }
    proof {
        lemma_base_name(comic.img@, start as int);
        assert(chars@.subrange(start as int, chars@.len() as int) == chars@.skip(start as int));
    }
    let mut name: String = decimal_text(comic.num as u64);
    name.append("-");
    name.append(text_of(&chars, start, chars.len()).as_str());
    name
}

/// What came of asking for an image.
pub enum ImageReply {
    /// The image, whole.
    Whole(Vec<u8>),
    /// The reply broke off.
    Broken,
    /// The server's refusal.
    Status(u16),
    /// The server could not be reached.
    Unreachable,
}

/// Why there is no image.
#[derive(Debug, Clone, Copy, PartialEq, Eq, Structural)]
pub enum DownloadError {
    Status(u16),
    Unreachable,
    Broken,
}

impl DownloadError {
    /// What the reader is told.
    pub open spec fn text(self) -> Seq<char> {
        match self {
            DownloadError::Status(code) => "image URL returned HTTP "@ + text::decimal(
                code as nat,
            ),
            DownloadError::Unreachable => "failed to fetch comic image"@,
            DownloadError::Broken => "failed to read image bytes"@,
        }
    }

    /// What the reader is told.
    pub fn message(&self) -> (s: String)
        ensures
            s@ == self.text(),
    {
        match *self {
            DownloadError::Status(code) => {
                let mut s: String = String::from_str("image URL returned HTTP ");
                s.append(decimal_text(code as u64).as_str());
                s
            },
            DownloadError::Unreachable => String::from_str("failed to fetch comic image"),
            DownloadError::Broken => String::from_str("failed to read image bytes"),
        }
    }
}

/// An image, and the file that it belongs in.
pub struct Download {
    pub filename: String,
    pub bytes: Vec<u8>,
}

/// What to keep of a comic's image, out of the server's reply.
pub fn download_image(comic: &Comic, reply: ImageReply) -> (r: Result<Download, DownloadError>)
    ensures
        match reply {
            ImageReply::Whole(bytes) => r matches Ok(d) && d.bytes == bytes && d.filename@
                == file_name(*comic),
            ImageReply::Broken => r == Err::<Download, _>(DownloadError::Broken),
            ImageReply::Status(code) => r == Err::<Download, _>(DownloadError::Status(code)),
            ImageReply::Unreachable => r == Err::<Download, _>(DownloadError::Unreachable),
        },
{
    match reply {
        ImageReply::Whole(bytes) => Ok(Download { filename: local_filename(comic), bytes }),
        ImageReply::Broken => Err(DownloadError::Broken),
        ImageReply::Status(code) => Err(DownloadError::Status(code)),
        ImageReply::Unreachable => Err(DownloadError::Unreachable),
    }
}

// ---- laws on what the functions are for ----

/// The program tells its name and its version.
pub proof fn law_agent_tells_its_version(version: &str, name: String)
    requires
        call_ensures(user_agent, (version,), name),
    ensures
        name@ == seq![
            'f',
            'e',
            'r',
            'r',
            'o',
            'u',
            's',
            '-',
            'c',
            'o',
            'm',
            'i',
            'c',
            's',
            '/',
        ] + version@,
{
    reveal_strlit("ferrous-comics/");
    assert(name@ =~= seq![
        'f',
        'e',
        'r',
        'r',
        'o',
        'u',
        's',
        '-',
        'c',
        'o',
        'm',
        'i',
        'c',
        's',
        '/',
    ] + version@);
}

/// Descriptions are asked for under the base address, whatever it is, at the place of the latest or
/// of the number, with one slash between. Slashes at the end of the base address make no
/// difference.
pub proof fn law_descriptions_are_under_the_base(
    base: &str,
    slashed: &str,
    num: u32,
    urls: (String, String),
    slashed_urls: (String, String),
)
    requires
        base@.len() == 0 || base@.last() != '/',
        slashed@.len() >= base@.len(),
        slashed@.take(base@.len() as int) == base@,
        forall|i: int| base@.len() <= i < slashed@.len() ==> #[trigger] slashed@[i] == '/',
        call_ensures(latest_url, (base,), urls.0),
        call_ensures(comic_url, (base, num), urls.1),
        call_ensures(latest_url, (slashed,), slashed_urls.0),
        call_ensures(comic_url, (slashed, num), slashed_urls.1),
    ensures
        urls.0@ == base@ + "/info.0.json"@,
        urls.1@ == base@ + "/"@ + text::decimal(num as nat) + "/info.0.json"@,
        slashed_urls.0@ == urls.0@,
        slashed_urls.1@ == urls.1@,
{
    lemma_slashes_go(base@, slashed@);
}

proof fn lemma_slashes_go(base: Seq<char>, slashed: Seq<char>)
    requires
        base.len() == 0 || base.last() != '/',
        slashed.len() >= base.len(),
        slashed.take(base.len() as int) == base,
        forall|i: int| base.len() <= i < slashed.len() ==> #[trigger] slashed[i] == '/',
    ensures
        without_end_slashes(slashed) == base,
    decreases slashed.len(),
{
    if slashed.len() > base.len() {
        let less = slashed.drop_last();
        assert(slashed[slashed.len() - 1] == '/');
        assert(less.take(base.len() as int) =~= slashed.take(base.len() as int));
        assert forall|i: int| base.len() <= i < less.len() implies #[trigger] less[i] == '/' by {
            assert(less[i] == slashed[i]);
        }
        lemma_slashes_go(base, less);
    } else {
        assert(slashed =~= base);
    }
}

/// Each comic has an address of its own.
pub proof fn law_each_comic_has_its_own_address(
    base: &str,
    a: u32,
    b: u32,
    urls: (String, String),
)
    requires
        call_ensures(comic_url, (base, a), urls.0),
        call_ensures(comic_url, (base, b), urls.1),
        urls.0@ == urls.1@,
    ensures
        a == b,
{
    let start = without_end_slashes(base@) + "/"@;
    let end = "/info.0.json"@;
    let x = text::decimal(a as nat);
    let y = text::decimal(b as nat);
    assert(x.len() == y.len()) by {
        assert((start + x + end).len() == (start + y + end).len());
    }
    assert forall|i: int| 0 <= i < x.len() implies x[i] == y[i] by {
        assert((start + x + end)[start.len() + i] == x[i]);
        assert((start + y + end)[start.len() + i] == y[i]);
    }
    assert(x =~= y);
    text::law_decimal_is_unambiguous(a as int, b as int);
}

/// A description is taken as it came, in all that it says; for a number, only if it is that of the
/// number. That a comic does not exist is learnt from status 404 alone, and only when it was asked
/// for by its number. Anything else is an error that tells what came.
pub proof fn law_description_is_taken_as_it_came(
    reply: ApiReply,
    num: u32,
    latest: Result<Comic, FetchError>,
    numbered: Result<Option<Comic>, FetchError>,
    comic: Comic,
)
    requires
        call_ensures(fetch_comic, (reply,), latest),
        call_ensures(fetch_comic_by_num, (reply, num), numbered),
    ensures
        latest == Ok::<_, FetchError>(comic) <==> reply == ApiReply::Described(comic),
        numbered == Ok::<_, FetchError>(Some(comic)) <==> reply == ApiReply::Described(comic)
            && comic.num == num,
        numbered == Ok::<_, FetchError>(None::<Comic>) <==> reply == ApiReply::Status(404),
        reply matches ApiReply::Status(code) ==> latest == Err::<Comic, _>(
            FetchError::Status(code),
        ) && (code != 404 ==> numbered == Err::<Option<Comic>, _>(FetchError::Status(code))),
        reply is Unreachable ==> latest == Err::<Comic, _>(FetchError::Unreachable) && numbered
            == Err::<Option<Comic>, _>(FetchError::Unreachable),
        reply is Unreadable ==> latest == Err::<Comic, _>(FetchError::Unreadable) && numbered
            == Err::<Option<Comic>, _>(FetchError::Unreadable),
        reply == ApiReply::Described(comic) && comic.num != num ==> numbered == Err::<
            Option<Comic>,
            _,
        >(FetchError::WrongNumber { got: comic.num, wanted: num }),
{
}

/// An image is kept in a file that is named by the comic's number, a dash, and what follows the
/// last slash of the image's address, all of it.
pub proof fn law_file_is_named_by_number_and_address(comic: &Comic, name: String)
    requires
        call_ensures(local_filename, (comic,), name),
    ensures
        exists|start: int|
            {
                &&& 0 <= start <= comic.img@.len()
                &&& start == 0 || comic.img@[start - 1] == '/'
                &&& !(#[trigger] comic.img@.skip(start)).contains('/')
                &&& name@ == text::decimal(comic.num as nat) + seq!['-'] + comic.img@.skip(start)
            },
{
    reveal_strlit("-");
    assert("-"@ =~= seq!['-']);
    let start = lemma_base_start(comic.img@);
    assert(!comic.img@.skip(start).contains('/')) by {
        lemma_base_name_has_no_slash(comic.img@);
    }
}

proof fn lemma_base_start(url: Seq<char>) -> (start: int)
    ensures
        0 <= start <= url.len(),
        start == 0 || url[start - 1] == '/',
        base_name(url) == url.skip(start),
    decreases url.len(),
{
    if url.len() == 0 || url.last() == '/' {
        assert(url.skip(url.len() as int) =~= Seq::<char>::empty());
        url.len() as int
    } else {
        let start = lemma_base_start(url.drop_last());
        assert(url.skip(start) =~= url.drop_last().skip(start).push(url.last()));
        start
    }
}

/// An image that came whole is kept whole, byte for byte, in the file of its comic; anything else
/// is an error that tells what came.
pub proof fn law_image_is_kept_whole(
    comic: &Comic,
    reply: ImageReply,
    r: Result<Download, DownloadError>,
    name: String,
)
    requires
        call_ensures(download_image, (comic, reply), r),
        call_ensures(local_filename, (comic,), name),
    ensures
        reply matches ImageReply::Whole(bytes) ==> r is Ok && r->Ok_0.bytes@ == bytes@
            && r->Ok_0.filename@ == name@,
        reply matches ImageReply::Status(code) ==> r == Err::<Download, _>(
            DownloadError::Status(code),
        ),
        reply is Broken ==> r == Err::<Download, _>(DownloadError::Broken),
        reply is Unreachable ==> r == Err::<Download, _>(DownloadError::Unreachable),
{
}

/// A comic that was never published has its number and says nothing.
pub proof fn law_missing_comic_says_nothing(num: u32, comic: Comic)
    requires
        call_ensures(missing_comic, (num,), comic),
    ensures
        comic.num == num,
        comic.safe_title@.len() == 0 && comic.img@.len() == 0 && comic.alt@.len() == 0,
        comic.year@.len() == 0 && comic.month@.len() == 0 && comic.day@.len() == 0,
{
}

/// What the reader is told names the status that came and the numbers that do not agree.
pub proof fn law_messages_tell_what_came(code: u16, got: u32, wanted: u32)
    ensures
        text::decimal(code as nat).is_suffix_of(FetchError::Status(code).text()),
        text::decimal(code as nat).is_suffix_of(DownloadError::Status(code).text()),
        text::decimal(wanted as nat).is_suffix_of(FetchError::WrongNumber { got, wanted }.text()),
        text::holds(FetchError::WrongNumber { got, wanted }.text(), text::decimal(got as nat)),
{
    let number = text::decimal(got as nat);
    text::lemma_holds_end("xkcd API returned comic #"@, number, " for request #"@);
    text::lemma_holds_more("xkcd API returned comic #"@ + number, number, " for request #"@);
    text::lemma_holds_more(
        "xkcd API returned comic #"@ + number + " for request #"@,
        number,
        text::decimal(wanted as nat),
    );
}

/// Each failure is told in its own words.
pub proof fn law_failures_have_their_words(
    no_comic: &FetchError,
    s: String,
    no_image: &DownloadError,
    t: String,
)
    requires
        call_ensures(FetchError::message, (no_comic,), s),
        call_ensures(DownloadError::message, (no_image,), t),
    ensures
        no_comic is Unreachable ==> s@ == "failed to reach xkcd API"@,
        no_comic is Unreadable ==> s@ == "failed to parse xkcd JSON"@,
        no_comic matches FetchError::Status(code) ==> s@ == "xkcd API returned HTTP "@
            + text::decimal(code as nat),
        no_comic matches FetchError::WrongNumber { got, wanted } ==> s@
            == "xkcd API returned comic #"@ + text::decimal(got as nat) + " for request #"@
            + text::decimal(wanted as nat),
        no_image is Unreachable ==> t@ == "failed to fetch comic image"@,
        no_image is Broken ==> t@ == "failed to read image bytes"@,
        no_image matches DownloadError::Status(code) ==> t@ == "image URL returned HTTP "@
            + text::decimal(code as nat),
{
}

} // verus!
