//! The listing sites: their addresses, the text conventions each one uses for
//! dates, pay and links, and what to do when one of them cannot be scraped.

use crate::clock::{local_date_before_now, local_date_now};
use crate::repository::{Job, JobView};
use crate::scraper::{
    board_gaps, board_jobs_from, board_postings, crypto_jobs_list_gaps,
    all_dates, crypto_jobs_list_postings, dated_each, dates_of, distinct, first_some, lemma_first_occurrences_views,
    lemma_first_some_skip, missing_part, unique, use_web3_gaps, use_web3_postings, views,
    web3_careers_all, web3_careers_failures, web3_careers_page_failure, BoardCard,
    CryptoJobsListItem, Error, Scraper, UseWeb3Panel, Web3CareersRow,
};
use crate::text::{
    concat, count_of, is_ascii_digit, lemma_replaced_char, lemma_split_on_len,
    lemma_split_on_once, until_first, lowercase, parse_i64, parsed_i64, replace, replaced, split,
    split_on, text_eq, to_lowercase, trim, trimmed, without_char,
};
use vstd::prelude::*;

verus! {

/// Job site URLs used for scraping.
pub const WEB3_CAREERS_URL: &'static str = "https://web3.career";

pub const USE_WEB3_URL: &'static str = "https://useweb3.xyz/jobs";

pub const CRYPTO_JOBS_LIST_URL: &'static str = "https://cryptojobslist.com";

pub const SOLANA_JOBS_URL: &'static str =
    "https://jobs.solana.com/jobs?filter=eyJqb2JfZnVuY3Rpb25zIjpbIlNvZnR3YXJlIEVuZ2luZWVyaW5nIl19";

pub const SUBSTRATE_JOBS_URL: &'static str =
    "https://careers.substrate.io/jobs?filter=eyJqb2JfZnVuY3Rpb25zIjpbIlNvZnR3YXJlIEVuZ2luZWVyaW5nIl19";

pub const NEAR_JOBS_URL: &'static str =
    "https://careers.near.org/jobs?filter=eyJqb2JfZnVuY3Rpb25zIjpbIlNvZnR3YXJlIEVuZ2luZWVyaW5nIl19";

/// The notice shown when the site at `url` could not be scraped because of
/// the error whose `Debug` rendering is `error`.
pub open spec fn scrape_error_notice(url: Seq<char>, error: Seq<char>) -> Seq<char> {
    "There was an error while scraping the site \""@ + url + "\".\n"@ + error
        + ".\nJob Hunt will not be able to include jobs from this site."@
}

/// Writes the notice for a site that could not be scraped.
pub fn scrape_error_message(url: &str, err: &Error) -> (notice: String)
    ensures
        notice@ == scrape_error_notice(url@, err.debug_view()),
{
    let rendered = err.debug_text();
    let a = concat("There was an error while scraping the site \"", url);
    let b = concat(a.as_str(), "\".\n");
    let c = concat(b.as_str(), rendered.as_str());
    concat(c.as_str(), ".\nJob Hunt will not be able to include jobs from this site.")
}

/// All website structs must implement the Site trait and conform to the
/// structure: a private `url` and a public `jobs` vector.
pub trait Site: Sized {
    /// The address at which sites of this kind are found.
    spec fn home() -> Seq<char>;

    /// The address of the site.
    spec fn address(&self) -> Seq<char>;

    /// The postings the site holds.
    spec fn postings(&self) -> Seq<Job>;

    /// Creates a new instance, at the address of its kind and with no
    /// postings.
    fn new() -> (site: Self)
        ensures
            site.address() == Self::home(),
            site.postings() == Seq::<Job>::empty(),
    ;

    /// Getter for non-public url value.
    fn get_url(&self) -> (url: &'static str)
        ensures
            url@ == self.address(),
    ;

    /// Returns a default for the website type, with no postings, when a
    /// scrape error has occurred, together with the notice for the user.
    fn default_if_scrape_error(err: Error) -> (fallback: (Self, String))
        ensures
            fallback.0.address() == Self::home(),
            fallback.0.postings() == Seq::<Job>::empty(),
            fallback.1@ == scrape_error_notice(Self::home(), err.debug_view()),
    {
        let site = Self::new();
        let notice = scrape_error_message(site.get_url(), &err);
        (site, notice)
    }
}

/// Represents the Web3 Careers website.
pub struct Web3Careers {
    url: &'static str,
    pub jobs: Vec<Job>,
}

impl Site for Web3Careers {
    open spec fn home() -> Seq<char> {
        WEB3_CAREERS_URL@
    }

    closed spec fn address(&self) -> Seq<char> {
        self.url@
    }

    closed spec fn postings(&self) -> Seq<Job> {
        self.jobs@
    }

    fn new() -> (site: Self) {
        Web3Careers { url: WEB3_CAREERS_URL, jobs: Vec::new() }
    }

    fn get_url(&self) -> (url: &'static str) {
        self.url
    }
}

/// The link that an `onclick` handler of the form `name 'path')` leads to:
/// the second of exactly two space-separated parts, without quotes and
/// closing parentheses; empty for any other shape.
pub open spec fn apply_link(onclick: Seq<char>) -> Seq<char> {
    let parts = split_on(onclick, ' ');
    if parts.len() == 2 {
        without_char(without_char(parts[1], '\''), ')')
    } else {
        Seq::empty()
    }
}

/// The link of an `onclick` handler is empty unless the handler holds
/// exactly one space; then it is what follows the space, without quotes and
/// closing parentheses.
pub proof fn lemma_apply_link(onclick: Seq<char>)
    ensures
        count_of(onclick, ' ') != 1 ==> apply_link(onclick) == Seq::<char>::empty(),
        count_of(onclick, ' ') == 1 ==> apply_link(onclick) == without_char(
            without_char(onclick.skip(until_first(onclick, ' ') + 1), '\''),
            ')',
        ),
{
    lemma_split_on_len(onclick, ' ');
    if count_of(onclick, ' ') == 1 {
        lemma_split_on_once(onclick, ' ');
    }
}

impl Web3Careers {
    /// Formats an onclick function (as an &str) into a URL path string.
    pub fn format_apply_link(a: &str) -> (link: String)
        ensures
            link@ == apply_link(a@),
    {
        let v = split(a, ' ');
        if v.len() == 2 {
            proof {
                reveal_strlit("'");
                reveal_strlit(")");
                reveal_strlit("");
            }
            let unquoted = replace(v[1], "'", "");
            let link = replace(unquoted.as_str(), ")", "");
            proof {
                assert("'"@ =~= seq!['\'']);
                assert(")"@ =~= seq![')']);
                assert(""@ =~= Seq::<char>::empty());
                lemma_replaced_char(v[1]@, '\'');
                lemma_replaced_char(unquoted@, ')');
            }
            link
        } else {
            String::new()
        }
    }
}

/// The longest span of time, in seconds, in either direction, that a date
/// can be moved by.
pub const MAX_SPAN_SECONDS: i64 = 9_223_372_036_854_775;

pub const SECONDS_PER_HOUR: i64 = 3_600;

pub const SECONDS_PER_DAY: i64 = 86_400;

pub const SECONDS_PER_WEEK: i64 = 604_800;

/// Whether a number of seconds is a span a date can be moved by.
pub open spec fn span_fits(seconds: int) -> bool {
    -MAX_SPAN_SECONDS <= seconds <= MAX_SPAN_SECONDS
}

/// The span of `seconds` seconds, where there is one.
pub open spec fn span(seconds: int) -> Option<int> {
    if span_fits(seconds) {
        Some(seconds)
    } else {
        None
    }
}

/// A span of time before now, in whole seconds. A negative span lies after
/// now.
#[derive(Debug, Clone, Copy)]
pub struct Ago {
    seconds: i64,
}

impl View for Ago {
    type V = int;

    closed spec fn view(&self) -> int {
        self.seconds as int
    }
}

/// `made` is the span of `wanted` seconds if there is such a span, and
/// nothing otherwise.
pub open spec fn is_span(made: Option<Ago>, wanted: Option<int>) -> bool {
    match made {
        Some(ago) => wanted == Some(ago@),
        None => wanted is None,
    }
}

impl Ago {
    #[verifier::type_invariant]
    spec fn inv(self) -> bool {
        span_fits(self.seconds as int)
    }

    /// A span of whole seconds.
    pub fn seconds(seconds: i64) -> (made: Option<Ago>)
        ensures
            is_span(made, span(seconds as int)),
    {
        if -MAX_SPAN_SECONDS <= seconds && seconds <= MAX_SPAN_SECONDS {
            Some(Ago { seconds })
        } else {
            None
        }
    }

    /// A span of whole hours.
    pub fn hours(hours: i64) -> (made: Option<Ago>)
        ensures
            is_span(made, span(hours * SECONDS_PER_HOUR)),
    {
        if -(MAX_SPAN_SECONDS / SECONDS_PER_HOUR) <= hours && hours <= MAX_SPAN_SECONDS
            / SECONDS_PER_HOUR {
            Ago::seconds(hours * SECONDS_PER_HOUR)
        } else {
            None
        }
    }

    /// A span of whole days.
    pub fn days(days: i64) -> (made: Option<Ago>)
        ensures
            is_span(made, span(days * SECONDS_PER_DAY)),
    {
        if -(MAX_SPAN_SECONDS / SECONDS_PER_DAY) <= days && days <= MAX_SPAN_SECONDS
            / SECONDS_PER_DAY {
            Ago::seconds(days * SECONDS_PER_DAY)
        } else {
            None
        }
    }

    /// A span of whole weeks.
    pub fn weeks(weeks: i64) -> (made: Option<Ago>)
        ensures
            is_span(made, span(weeks * SECONDS_PER_WEEK)),
    {
        if -(MAX_SPAN_SECONDS / SECONDS_PER_WEEK) <= weeks && weeks <= MAX_SPAN_SECONDS
            / SECONDS_PER_WEEK {
            Ago::seconds(weeks * SECONDS_PER_WEEK)
        } else {
            None
        }
    }

    /// The length of the span in seconds.
    pub fn as_seconds(&self) -> (seconds: i64)
        ensures
            seconds == self@,
            span_fits(seconds as int),
    {
        proof {
            use_type_invariant(self);
        }
        self.seconds
    }
}

/// Whether a text has the shape of a date written as year, month and day:
/// a year of at least four characters, then a dash, the two digits of the
/// month, a dash, and the two digits of the day.
pub open spec fn is_date_text(s: Seq<char>) -> bool {
    let n = s.len() as int;
    &&& n >= 10
    &&& s[n - 6] == '-'
    &&& is_ascii_digit(s[n - 5])
    &&& is_ascii_digit(s[n - 4])
    &&& s[n - 3] == '-'
    &&& is_ascii_digit(s[n - 2])
    &&& is_ascii_digit(s[n - 1])
}

/// Website structs can implement the Formatter trait where needed.
pub trait Formatter {
    /// How long ago a posting appeared, read from an elapsed time string
    /// such as "1 hour", "3 days", "today" or "3d"; `None` where the string
    /// names no span, which stands for "now".
    spec fn span_of(time_elapsed: Seq<char>) -> Option<int>;

    /// A pay range as the site writes it, in the common form `$a - $b`.
    spec fn remuneration_of(r: Seq<char>) -> Seq<char>;

    /// Reads the span that an elapsed time string names.
    fn elapsed(time_elapsed: &str) -> (made: Option<Ago>)
        ensures
            is_span(made, Self::span_of(time_elapsed@)),
    ;

    /// Formats a date from a given elapsed time string, e.g. "1 hour",
    /// "3 days", "today", "3d": the date that lies the named span before
    /// now, or the date of now where no span is named.
    fn format_date_from(time_elapsed: String) -> (date: String)
        ensures
            is_date_text(date@),
    {
        match Self::elapsed(time_elapsed.as_str()) {
            Some(ago) => Self::sub_duration_and_format(ago),
            None => Self::now_and_format(),
        }
    }

    /// Formats a remuneration string.
    fn format_remuneration(r: String) -> (out: String)
        ensures
            out@ == Self::remuneration_of(r@),
    ;

    /// Returns a formatted ("%Y-%m-%d") version of now minus a time
    /// duration, or of now where that day cannot be represented.
    fn sub_duration_and_format(duration: Ago) -> (date: String)
        ensures
            is_date_text(date@),
    {
        match local_date_before_now(duration.as_seconds()) {
            Some(date) => date,
            None => local_date_now(),
        }
    }

    /// Returns a formatted ("%Y-%m-%d") version of now.
    fn now_and_format() -> (date: String)
        ensures
            is_date_text(date@),
    {
        local_date_now()
    }
}

/// The pay range `$a - $b` read from a text `a-b`: the two sides of the one
/// dash, each without surrounding whitespace. Empty unless there is exactly
/// one dash.
pub open spec fn pay_range(r: Seq<char>) -> Seq<char> {
    let sides = split_on(r, '-');
    if sides.len() == 2 {
        "$"@ + trimmed(sides[0]) + " - $"@ + trimmed(sides[1])
    } else {
        Seq::empty()
    }
}

/// The pay range of a text is empty unless the text holds exactly one dash;
/// then it is made of what stands before the dash and what stands after it.
pub proof fn lemma_pay_range(r: Seq<char>)
    ensures
        count_of(r, '-') != 1 ==> pay_range(r) == Seq::<char>::empty(),
        count_of(r, '-') == 1 ==> pay_range(r) == "$"@ + trimmed(r.take(until_first(r, '-')))
            + " - $"@ + trimmed(r.skip(until_first(r, '-') + 1)),
{
    lemma_split_on_len(r, '-');
    if count_of(r, '-') == 1 {
        lemma_split_on_once(r, '-');
    }
}

/// Writes the pay range `$a - $b` from a text `a-b`.
pub fn format_pay_range(r: &str) -> (out: String)
    ensures
        out@ == pay_range(r@),
{
    let sides = split(r, '-');
    if sides.len() == 2 {
        let low = concat("$", trim(sides[0]));
        let mid = concat(low.as_str(), " - $");
        concat(mid.as_str(), trim(sides[1]))
    } else {
        String::new()
    }
}

/// Represents the Use Web3 Jobs website.
pub struct UseWeb3 {
    url: &'static str,
    pub jobs: Vec<Job>,
}

impl Site for UseWeb3 {
    open spec fn home() -> Seq<char> {
        USE_WEB3_URL@
    }

    closed spec fn address(&self) -> Seq<char> {
        self.url@
    }

    closed spec fn postings(&self) -> Seq<Job> {
        self.jobs@
    }

    fn new() -> (site: Self) {
        UseWeb3 { url: USE_WEB3_URL, jobs: Vec::new() }
    }

    fn get_url(&self) -> (url: &'static str) {
        self.url
    }
}

/// The span of `count` units as Use Web3 names them: hours, days and weeks
/// in singular or plural; "month" for 31 days whatever the count; "months"
/// for 30 days each.
pub open spec fn use_web3_span(unit: Seq<char>, count: int) -> Option<int> {
    if unit == "hour"@ || unit == "hours"@ {
        span(count * SECONDS_PER_HOUR)
    } else if unit == "day"@ || unit == "days"@ {
        span(count * SECONDS_PER_DAY)
    } else if unit == "week"@ || unit == "weeks"@ {
        span(count * SECONDS_PER_WEEK)
    } else if unit == "month"@ {
        span(31 * SECONDS_PER_DAY)
    } else if unit == "months"@ {
        span(count * 30 * SECONDS_PER_DAY)
    } else {
        None
    }
}

impl Formatter for UseWeb3 {
    open spec fn span_of(time_elapsed: Seq<char>) -> Option<int> {
        let words = split_on(time_elapsed, ' ');
        if words.len() < 2 {
            None
        } else {
            match parsed_i64(words[0]) {
                Some(count) => use_web3_span(words[1], count as int),
                None => None,
            }
        }
    }

    open spec fn remuneration_of(r: Seq<char>) -> Seq<char> {
        lowercase(pay_range(replaced(r, "💰 "@, ""@)))
    }

    fn elapsed(time_elapsed: &str) -> (made: Option<Ago>) {
        let ghost wanted = <UseWeb3 as Formatter>::span_of(time_elapsed@);
        let v = split(time_elapsed, ' ');
        if v.len() < 2 {
            assert(wanted is None);
            return None;
        }
        match parse_i64(v[0]) {
            Some(d) => {
                let unit = v[1];
                if text_eq(unit, "hour") || text_eq(unit, "hours") {
                    Ago::hours(d)
                } else if text_eq(unit, "day") || text_eq(unit, "days") {
                    Ago::days(d)
                } else if text_eq(unit, "week") || text_eq(unit, "weeks") {
                    Ago::weeks(d)
                } else if text_eq(unit, "month") {
                    Ago::days(31)
                } else if text_eq(unit, "months") {
                    if -(MAX_SPAN_SECONDS / (30 * SECONDS_PER_DAY)) <= d && d <= MAX_SPAN_SECONDS
                        / (30 * SECONDS_PER_DAY) {
                        Ago::days(d * 30)
                    } else {
                        None
                    }
                } else {
                    None
                }
            },
            None => None,
        }
    }

    fn format_remuneration(r: String) -> (out: String) {
        proof {
            reveal_strlit("💰 ");
        }
        let cleaned = replace(r.as_str(), "💰 ", "");
        let range = format_pay_range(cleaned.as_str());
        to_lowercase(range.as_str())
    }
}

/// Represents the Crypto Jobs List website.
pub struct CryptoJobsList {
    url: &'static str,
    pub jobs: Vec<Job>,
}

impl Site for CryptoJobsList {
    open spec fn home() -> Seq<char> {
        CRYPTO_JOBS_LIST_URL@
    }

    closed spec fn address(&self) -> Seq<char> {
        self.url@
    }

    closed spec fn postings(&self) -> Seq<Job> {
        self.jobs@
    }

    fn new() -> (site: Self) {
        CryptoJobsList { url: CRYPTO_JOBS_LIST_URL, jobs: Vec::new() }
    }

    fn get_url(&self) -> (url: &'static str) {
        self.url
    }
}

/// The number that a character stands for when it is read as a decimal
/// digit: its code point less that of `'0'`.
pub open spec fn digit_value(c: char) -> int {
    c as u32 as int - 0x30
}

impl Formatter for CryptoJobsList {
    open spec fn span_of(time_elapsed: Seq<char>) -> Option<int> {
        if time_elapsed.len() < 2 {
            None
        } else {
            let count = digit_value(time_elapsed[0]);
            let unit = time_elapsed[1];
            if unit == 'd' {
                span(count * SECONDS_PER_DAY)
            } else if unit == 'w' {
                span(count * SECONDS_PER_WEEK)
            } else if unit == 'm' {
                span(count * 30 * SECONDS_PER_DAY)
            } else {
                None
            }
        }
    }

    open spec fn remuneration_of(r: Seq<char>) -> Seq<char> {
        pay_range(replaced(r, "$"@, ""@))
    }

    fn elapsed(time_elapsed: &str) -> (made: Option<Ago>) {
        let ghost wanted = <CryptoJobsList as Formatter>::span_of(time_elapsed@);
        if time_elapsed.unicode_len() < 2 {
            assert(wanted is None);
            return None;
        }
        let first = time_elapsed.get_char(0);
        let d: i64 = (first as u32) as i64 - 0x30;
        let unit = time_elapsed.get_char(1);
        if unit == 'd' {
            Ago::days(d)
        } else if unit == 'w' {
            Ago::weeks(d)
        } else if unit == 'm' {
            Ago::days(d * 30)
        } else {
            None
        }
    }

    fn format_remuneration(r: String) -> (out: String) {
        proof {
            reveal_strlit("$");
        }
        let cleaned = replace(r.as_str(), "$", "");
        format_pay_range(cleaned.as_str())
    }
}

/// Represents the Solana Jobs website.
pub struct SolanaJobs {
    url: &'static str,
    pub jobs: Vec<Job>,
}

impl Site for SolanaJobs {
    open spec fn home() -> Seq<char> {
        SOLANA_JOBS_URL@
    }

    closed spec fn address(&self) -> Seq<char> {
        self.url@
    }

    closed spec fn postings(&self) -> Seq<Job> {
        self.jobs@
    }

    fn new() -> (site: Self) {
        SolanaJobs { url: SOLANA_JOBS_URL, jobs: Vec::new() }
    }

    fn get_url(&self) -> (url: &'static str) {
        self.url
    }
}

/// Represents the Substrate Jobs website.
pub struct SubstrateJobs {
    url: &'static str,
    pub jobs: Vec<Job>,
}

impl Site for SubstrateJobs {
    open spec fn home() -> Seq<char> {
        SUBSTRATE_JOBS_URL@
    }

    closed spec fn address(&self) -> Seq<char> {
        self.url@
    }

    closed spec fn postings(&self) -> Seq<Job> {
        self.jobs@
    }

    fn new() -> (site: Self) {
        SubstrateJobs { url: SUBSTRATE_JOBS_URL, jobs: Vec::new() }
    }

    fn get_url(&self) -> (url: &'static str) {
        self.url
    }
}

/// Represents the Near Jobs website.
pub struct NearJobs {
    url: &'static str,
    pub jobs: Vec<Job>,
}

impl Site for NearJobs {
    open spec fn home() -> Seq<char> {
        NEAR_JOBS_URL@
    }

    closed spec fn address(&self) -> Seq<char> {
        self.url@
    }

    closed spec fn postings(&self) -> Seq<Job> {
        self.jobs@
    }

    fn new() -> (site: Self) {
        NearJobs { url: NEAR_JOBS_URL, jobs: Vec::new() }
    }

    fn get_url(&self) -> (url: &'static str) {
        self.url
    }
}

impl Scraper for Web3Careers {
    type Pages = Vec<Result<Vec<Web3CareersRow>, Error>>;

    open spec fn failure(pages: &Self::Pages) -> Option<Error> {
        first_some(web3_careers_failures(pages@))
    }

    open spec fn lists(
        held: Seq<JobView>,
        url: Seq<char>,
        pages: &Self::Pages,
        jobs: Seq<JobView>,
    ) -> bool {
        jobs == distinct(held + web3_careers_all(pages@, url))
    }

    fn scrape(self, pages: Self::Pages) -> (scraped: Result<Self, Error>) {
        let url = self.url;
        let mut jobs = self.jobs;
        let ghost held = views(jobs@);
        let ghost fetched = pages@;
        let ghost failures = web3_careers_failures(fetched);
        assert(fetched.take(0) =~= Seq::<Result<Vec<Web3CareersRow>, Error>>::empty());
        assert(views(jobs@) =~= held + web3_careers_all(fetched.take(0), url@));
        for page in it: pages
            invariant
                it.seq() == fetched,
                failures == web3_careers_failures(fetched),
                forall|k: int| 0 <= k < it.index() ==> failures[k] is None,
                views(jobs@) == held + web3_careers_all(fetched.take(it.index() as int), url@),
        {
            let ghost n = it.index() as int;
            let ghost before = jobs@;
            proof {
                lemma_first_some_skip(failures, n);
                assert(failures.skip(n)[0] == web3_careers_page_failure(page));
                assert(fetched.take(n + 1).drop_last() =~= fetched.take(n));
                assert(fetched.take(n + 1).last() == page);
            }
            match page {
                Ok(rows) => {
                    match Web3Careers::jobs_from(&rows, url) {
                        Ok(found) => {
                            let mut found = found;
                            assert(views(before + found@) =~= views(before) + found.deep_view());
                            jobs.append(&mut found);
                        },
                        Err(err) => {
                            return Err(err);
                        },
                    }
                },
                Err(err) => {
                    return Err(err);
                },
            }
        }
        proof {
            lemma_first_some_skip(failures, fetched.len() as int);
            assert(fetched.take(fetched.len() as int) =~= fetched);
            lemma_first_occurrences_views(jobs@);
        }
        Ok(Web3Careers { url, jobs: unique(jobs) })
    }
}

impl Scraper for UseWeb3 {
    type Pages = Vec<UseWeb3Panel>;

    open spec fn failure(pages: &Self::Pages) -> Option<Error> {
        missing_part(first_some(use_web3_gaps(pages@)))
    }

    open spec fn lists(
        held: Seq<JobView>,
        url: Seq<char>,
        pages: &Self::Pages,
        jobs: Seq<JobView>,
    ) -> bool {
        exists|dates: Seq<Seq<char>>|
            dates.len() == pages@.len() && all_dates(dates) && jobs == distinct(
                held + #[trigger] dated_each(use_web3_postings(pages@, url), dates),
            )
    }

    fn scrape(self, pages: Self::Pages) -> (scraped: Result<Self, Error>) {
        let url = self.url;
        let mut jobs = self.jobs;
        let ghost before = jobs@;
        match UseWeb3::jobs_from(&pages, url) {
            Ok(found) => {
                let mut found = found;
                let ghost dates = dates_of(found@);
                proof {
                    assert(views(before + found@) =~= views(before) + found.deep_view());
                    lemma_first_occurrences_views(before + found@);
                }
                jobs.append(&mut found);
                let site = UseWeb3 { url, jobs: unique(jobs) };
                assert(views(site.jobs@) == distinct(
                    views(before) + dated_each(use_web3_postings(pages@, url@), dates),
                ));
                Ok(site)
            },
            Err(err) => Err(err),
        }
    }
}

impl Scraper for CryptoJobsList {
    type Pages = Vec<CryptoJobsListItem>;

    open spec fn failure(pages: &Self::Pages) -> Option<Error> {
        missing_part(first_some(crypto_jobs_list_gaps(pages@)))
    }

    open spec fn lists(
        held: Seq<JobView>,
        url: Seq<char>,
        pages: &Self::Pages,
        jobs: Seq<JobView>,
    ) -> bool {
        exists|dates: Seq<Seq<char>>|
            dates.len() == pages@.len() && all_dates(dates) && jobs == distinct(
                held + #[trigger] dated_each(crypto_jobs_list_postings(pages@, url), dates),
            )
    }

    fn scrape(self, pages: Self::Pages) -> (scraped: Result<Self, Error>) {
        let url = self.url;
        let mut jobs = self.jobs;
        let ghost before = jobs@;
        match CryptoJobsList::jobs_from(&pages, url) {
            Ok(found) => {
                let mut found = found;
                let ghost dates = dates_of(found@);
                proof {
                    assert(views(before + found@) =~= views(before) + found.deep_view());
                    lemma_first_occurrences_views(before + found@);
                }
                jobs.append(&mut found);
                let site = CryptoJobsList { url, jobs: unique(jobs) };
                assert(views(site.jobs@) == distinct(
                    views(before) + dated_each(crypto_jobs_list_postings(pages@, url@), dates),
                ));
                Ok(site)
            },
            Err(err) => Err(err),
        }
    }
}

impl Scraper for SolanaJobs {
    type Pages = Vec<BoardCard>;

    open spec fn failure(pages: &Self::Pages) -> Option<Error> {
        missing_part(first_some(board_gaps(pages@)))
    }

    open spec fn lists(
        held: Seq<JobView>,
        url: Seq<char>,
        pages: &Self::Pages,
        jobs: Seq<JobView>,
    ) -> bool {
        jobs == distinct(board_postings(pages@, url))
    }

    fn scrape(self, pages: Self::Pages) -> (scraped: Result<Self, Error>) {
        let url = self.url;
        match board_jobs_from(&pages, url) {
            Ok(jobs) => {
                assert(views(jobs@) =~= jobs.deep_view());
                Ok(SolanaJobs { url, jobs })
            },
            Err(err) => Err(err),
        }
    }
}

impl Scraper for SubstrateJobs {
    type Pages = Vec<BoardCard>;

    open spec fn failure(pages: &Self::Pages) -> Option<Error> {
        missing_part(first_some(board_gaps(pages@)))
    }

    open spec fn lists(
        held: Seq<JobView>,
        url: Seq<char>,
        pages: &Self::Pages,
        jobs: Seq<JobView>,
    ) -> bool {
        jobs == distinct(board_postings(pages@, url))
    }

    fn scrape(self, pages: Self::Pages) -> (scraped: Result<Self, Error>) {
        let url = self.url;
        match board_jobs_from(&pages, url) {
            Ok(jobs) => {
                assert(views(jobs@) =~= jobs.deep_view());
                Ok(SubstrateJobs { url, jobs })
            },
            Err(err) => Err(err),
        }
    }
}

impl Scraper for NearJobs {
    type Pages = Vec<BoardCard>;

    open spec fn failure(pages: &Self::Pages) -> Option<Error> {
        missing_part(first_some(board_gaps(pages@)))
    }

    open spec fn lists(
        held: Seq<JobView>,
        url: Seq<char>,
        pages: &Self::Pages,
        jobs: Seq<JobView>,
    ) -> bool {
        jobs == distinct(board_postings(pages@, url))
    }

    fn scrape(self, pages: Self::Pages) -> (scraped: Result<Self, Error>) {
        let url = self.url;
        match board_jobs_from(&pages, url) {
            Ok(jobs) => {
                assert(views(jobs@) =~= jobs.deep_view());
                Ok(NearJobs { url, jobs })
            },
            Err(err) => Err(err),
        }
    }
}

} // verus!
