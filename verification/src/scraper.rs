//! Turning what a listing site returned into postings, and the failures that
//! can occur on the way.

use crate::repository::{push_if, Job, JobView};
use crate::site::{
    apply_link, is_date_text, CryptoJobsList, Formatter, Site, UseWeb3, Web3Careers,
};
use crate::text::{
    any_is, concat, contains, debug_string, decimal, decimal_string, has_ascii_digit, has_prefix,
    is_substring, lemma_split_on_nonempty, lowercase, quoted, regex_is_match, replace, replaced,
    split, starts_with, until_first, text_eq, to_lowercase, trim, trim_all, trimmed, trimmed_each,
};
use vstd::prelude::*;

verus! {

/// Represents specific errors that can occur during the scraping process.
#[derive(Debug)]
pub enum Error {
    /// A selector could not be parsed; carries the parser's message.
    Selector(String),
    /// The site could not be reached; carries the transport's message.
    Request(String),
    /// The site answered with a status code other than success.
    Response(u16),
    /// The response body could not be read; carries the reader's message.
    Parser(String),
    /// An expected part of a listing is missing; carries its name.
    Iterator(&'static str),
}

impl Error {
    /// The error as its `Debug` rendering: the variant's name with its
    /// payload in parentheses. Messages and part names are quoted; a status
    /// code is written in decimal; a transport or reader message is shown as
    /// it was handed over.
    pub open spec fn debug_view(&self) -> Seq<char> {
        match self {
            Error::Selector(message) => "Selector("@ + quoted(message@) + ")"@,
            Error::Request(message) => "Request("@ + message@ + ")"@,
            Error::Response(code) => "Response("@ + decimal(*code as nat) + ")"@,
            Error::Parser(message) => "Parser("@ + message@ + ")"@,
            Error::Iterator(part) => "Iterator("@ + quoted(part@) + ")"@,
        }
    }

    /// The error as a sentence for the user.
    pub open spec fn message_view(&self) -> Seq<char> {
        match self {
            Error::Selector(message) => "Selector error: "@ + message@,
            Error::Request(message) => "Could not load url: "@ + message@,
            Error::Response(code) => "Request failed with code: "@ + decimal(*code as nat),
            Error::Parser(message) => "Error getting response body: "@ + message@,
            Error::Iterator(part) => "Could not get "@ + part@,
        }
    }

    /// Renders the error as `Debug` would.
    pub fn debug_text(&self) -> (out: String)
        ensures
            out@ == self.debug_view(),
    {
        match self {
            Error::Selector(message) => {
                let inner = debug_string(message.as_str());
                let head = concat("Selector(", inner.as_str());
                concat(head.as_str(), ")")
            },
            Error::Request(message) => {
                let head = concat("Request(", message.as_str());
                concat(head.as_str(), ")")
            },
            Error::Response(code) => {
                let inner = decimal_string(*code as u64);
                let head = concat("Response(", inner.as_str());
                concat(head.as_str(), ")")
            },
            Error::Parser(message) => {
                let head = concat("Parser(", message.as_str());
                concat(head.as_str(), ")")
            },
            Error::Iterator(part) => {
                let inner = debug_string(part);
                let head = concat("Iterator(", inner.as_str());
                concat(head.as_str(), ")")
            },
        }
    }

    /// Renders the error as a sentence for the user.
    pub fn message(&self) -> (out: String)
        ensures
            out@ == self.message_view(),
    {
        match self {
            Error::Selector(message) => concat("Selector error: ", message.as_str()),
            Error::Request(message) => concat("Could not load url: ", message.as_str()),
            Error::Response(code) => {
                let digits = decimal_string(*code as u64);
                concat("Request failed with code: ", digits.as_str())
            },
            Error::Parser(message) => concat("Error getting response body: ", message.as_str()),
            Error::Iterator(part) => concat("Could not get ", part),
        }
    }
}

/// Whether a posting equal to `job` occurs in `earlier`.
pub open spec fn occurs_in(earlier: Seq<Job>, job: Job) -> bool {
    exists|i: int| 0 <= i < earlier.len() && (#[trigger] earlier[i])@ == job@
}

/// The postings of `jobs` without repetitions: of all postings equal to one
/// another only the first stays, and the order is kept.
pub open spec fn first_occurrences(jobs: Seq<Job>) -> Seq<Job>
    decreases jobs.len(),
{
    if jobs.len() == 0 {
        jobs
    } else {
        push_if(
            first_occurrences(jobs.drop_last()),
            !occurs_in(jobs.drop_last(), jobs.last()),
            jobs.last(),
        )
    }
}

/// After removing repetitions no two postings are equal, every posting that
/// stays was there before, and every posting that was there before still has
/// an equal one among those that stay.
pub proof fn lemma_first_occurrences(jobs: Seq<Job>)
    ensures
        forall|i: int, j: int|
            0 <= i < j < first_occurrences(jobs).len() ==> (#[trigger] first_occurrences(
                jobs,
            )[i])@ != (#[trigger] first_occurrences(jobs)[j])@,
        forall|job: Job| #[trigger]
            occurs_in(first_occurrences(jobs), job) <==> occurs_in(jobs, job),
        forall|i: int|
            0 <= i < first_occurrences(jobs).len() ==> jobs.contains(
                #[trigger] first_occurrences(jobs)[i],
            ),
        first_occurrences(jobs).len() <= jobs.len(),
    decreases jobs.len(),
{
    if jobs.len() > 0 {
        let front = jobs.drop_last();
        let last = jobs.last();
        lemma_first_occurrences(front);
        let kept = first_occurrences(front);
        let out = first_occurrences(jobs);
        assert forall|job: Job| #[trigger] occurs_in(out, job) <==> occurs_in(jobs, job) by {
            assert(occurs_in(kept, job) <==> occurs_in(front, job));
            if occurs_in(out, job) {
                let i = choose|i: int| 0 <= i < out.len() && (#[trigger] out[i])@ == job@;
                if i < kept.len() {
                    assert(kept[i]@ == job@);
                    let k = choose|k: int| 0 <= k < front.len() && (#[trigger] front[k])@ == job@;
                    assert(jobs[k]@ == job@);
                } else {
                    assert(jobs[jobs.len() - 1]@ == job@);
                }
            }
            if occurs_in(jobs, job) {
                let k = choose|k: int| 0 <= k < jobs.len() && (#[trigger] jobs[k])@ == job@;
                if k < front.len() {
                    assert(front[k]@ == job@);
                    let i = choose|i: int| 0 <= i < kept.len() && (#[trigger] kept[i])@ == job@;
                    assert(out[i]@ == job@);
                } else if occurs_in(front, last) {
                    assert(occurs_in(kept, last));
                    let i = choose|i: int| 0 <= i < kept.len() && (#[trigger] kept[i])@ == last@;
                    assert(out[i]@ == job@);
                } else {
                    assert(out[kept.len() as int]@ == job@);
                }
            }
        }
        assert forall|i: int, j: int| 0 <= i < j < out.len() implies (#[trigger] out[i])@ != (
        #[trigger] out[j])@ by {
            if j == kept.len() {
                assert(kept[i]@ == out[i]@);
                if out[i]@ == out[j]@ {
                    assert(occurs_in(kept, last));
                }
            } else {
                assert(kept[i]@ != kept[j]@);
            }
        }
        assert forall|i: int| 0 <= i < out.len() implies jobs.contains(#[trigger] out[i]) by {
            if i < kept.len() {
                assert(front.contains(kept[i]));
                let k = choose|k: int| 0 <= k < front.len() && front[k] == kept[i];
                assert(jobs[k] == out[i]);
            } else {
                assert(jobs[jobs.len() - 1] == out[i]);
            }
        }
    }
}

/// Whether a posting equal to `job` is among `jobs`.
pub fn contains_job(jobs: &Vec<Job>, job: &Job) -> (found: bool)
    ensures
        found == occurs_in(jobs@, *job),
{
    let mut i: usize = 0;
    while i < jobs.len()
        invariant
            i <= jobs.len(),
            forall|k: int| 0 <= k < i ==> (#[trigger] jobs[k])@ != job@,
        decreases jobs.len() - i,
    {
        if jobs[i] == *job {
            return true;
        }
        i += 1;
    }
    false
}

/// Removes exact duplicates from one site's postings, keeping the first of
/// each and the order.
pub fn unique(jobs: Vec<Job>) -> (kept: Vec<Job>)
    ensures
        kept@ == first_occurrences(jobs@),
{
    let mut kept: Vec<Job> = Vec::new();
    let ghost all = jobs@;
    for job in it: jobs
        invariant
            it.seq() == all,
            kept@ == first_occurrences(all.take(it.index() as int)),
    {
        let ghost n = it.index() as int;
        proof {
            lemma_first_occurrences(all.take(n));
            assert(all.take(n + 1).drop_last() =~= all.take(n));
            assert(all.take(n + 1).last() == job);
        }
        if !contains_job(&kept, &job) {
            kept.push(job);
        }
    }
    assert(all.take(all.len() as int) =~= all);
    kept
}

/// The views of a sequence of postings.
pub open spec fn views(jobs: Seq<Job>) -> Seq<JobView> {
    jobs.map_values(|job: Job| job@)
}

/// A sequence without repetitions: of equal items only the first stays, and
/// the order is kept.
pub open spec fn distinct<A>(items: Seq<A>) -> Seq<A>
    decreases items.len(),
{
    if items.len() == 0 {
        items
    } else {
        push_if(
            distinct(items.drop_last()),
            !items.drop_last().contains(items.last()),
            items.last(),
        )
    }
}

/// Removing repeated postings is removing repetitions among their views.
pub proof fn lemma_first_occurrences_views(jobs: Seq<Job>)
    ensures
        views(first_occurrences(jobs)) == distinct(views(jobs)),
    decreases jobs.len(),
{
    if jobs.len() == 0 {
        assert(views(jobs) =~= Seq::<JobView>::empty());
        assert(views(first_occurrences(jobs)) =~= distinct(views(jobs)));
    } else {
        let front = jobs.drop_last();
        let last = jobs.last();
        lemma_first_occurrences_views(front);
        assert(views(jobs).drop_last() =~= views(front));
        assert(views(jobs).last() == last@);
        assert(occurs_in(front, last) <==> views(front).contains(last@)) by {
            if occurs_in(front, last) {
                let i = choose|i: int| 0 <= i < front.len() && (#[trigger] front[i])@ == last@;
                assert(views(front)[i] == last@);
            }
            if views(front).contains(last@) {
                let i = choose|i: int| 0 <= i < views(front).len() && views(front)[i] == last@;
                assert(front[i]@ == last@);
            }
        }
        let kept = first_occurrences(front);
        if occurs_in(front, last) {
            assert(views(first_occurrences(jobs)) =~= distinct(views(jobs)));
        } else {
            assert(views(kept.push(last)) =~= views(kept).push(last@));
            assert(views(first_occurrences(jobs)) =~= distinct(views(jobs)));
        }
    }
}

/// An element that a selector matched: its text content, and the value of
/// the one attribute that is read from such an element, where it has one.
#[derive(Debug)]
pub struct Found {
    pub text: String,
    pub attr: Option<String>,
}

/// The value of an attribute, empty where the attribute is absent.
pub open spec fn attr_text(attr: Option<String>) -> Seq<char> {
    match attr {
        Some(value) => value@,
        None => Seq::empty(),
    }
}

/// Reads an attribute, taking an absent one as empty.
pub fn attr_or_empty(attr: &Option<String>) -> (text: &str)
    ensures
        text@ == attr_text(*attr),
{
    match attr {
        Some(value) => value.as_str(),
        None => {
            proof {
                reveal_strlit("");
            }
            assert(""@ =~= Seq::<char>::empty());
            ""
        },
    }
}

/// Whether a response status code reports success.
pub open spec fn is_success(status: u16) -> bool {
    200 <= status < 300
}

/// Accepts a response by its status code: any code outside the success
/// range is an error that carries the code.
pub fn check_status(status: u16) -> (checked: Result<(), Error>)
    ensures
        is_success(status) ==> checked is Ok,
        !is_success(status) ==> checked == Err::<(), Error>(Error::Response(status)),
{
    if 200 <= status && status < 300 {
        Ok(())
    } else {
        Err(Error::Response(status))
    }
}

/// All website structs must implement the Scraper trait.
pub trait Scraper: Site {
    /// What fetching the site yields once its pages are taken apart: the
    /// listings as plain values.
    type Pages;

    /// The failure that stops the scrape of `pages`, if there is one.
    spec fn failure(pages: &Self::Pages) -> Option<Error>;

    /// Whether `jobs` are the postings that a site at `url`, which held the
    /// postings `held` before, holds after a scrape of `pages` in which
    /// nothing fails.
    spec fn lists(
        held: Seq<JobView>,
        url: Seq<char>,
        pages: &Self::Pages,
        jobs: Seq<JobView>,
    ) -> bool;

    /// Scrapes the fetched pages of the job website and adds Job instances
    /// to the site's jobs array. On any failure nothing is kept.
    fn scrape(self, pages: Self::Pages) -> (scraped: Result<Self, Error>)
        ensures
            match scraped {
                Ok(site) => {
                    &&& Self::failure(&pages) is None
                    &&& site.address() == self.address()
                    &&& Self::lists(
                        views(self.postings()),
                        self.address(),
                        &pages,
                        views(site.postings()),
                    )
                },
                Err(err) => Self::failure(&pages) == Some(err),
            },
    ;
}

/// The first finding in a sequence of optional findings, if there is one.
pub open spec fn first_some<A>(findings: Seq<Option<A>>) -> Option<A>
    decreases findings.len(),
{
    if findings.len() == 0 {
        None
    } else if findings[0] is Some {
        findings[0]
    } else {
        first_some(findings.skip(1))
    }
}

/// Where the first `n` entries hold no finding, the first finding is the
/// first one from the `n`-th entry on.
pub proof fn lemma_first_some_skip<A>(findings: Seq<Option<A>>, n: int)
    requires
        0 <= n <= findings.len(),
        forall|k: int| 0 <= k < n ==> findings[k] is None,
    ensures
        first_some(findings) == first_some(findings.skip(n)),
    decreases n,
{
    if n > 0 {
        lemma_first_some_skip(findings.skip(1), n - 1);
        assert(findings.skip(1).skip(n - 1) =~= findings.skip(n));
    } else {
        assert(findings.skip(0) =~= findings);
    }
}

/// The failure that a missing part amounts to.
pub open spec fn missing_part(part: Option<&'static str>) -> Option<Error> {
    match part {
        Some(name) => Some(Error::Iterator(name)),
        None => None,
    }
}

/// One table row of a Web3 Careers page.
#[derive(Debug)]
pub struct Web3CareersRow {
    /// The row's `onclick` attribute.
    pub onclick: Option<String>,
    /// The text of each cell of the row, in order.
    pub cells: Vec<String>,
    /// The first `time` element inside the third cell, with its `datetime`
    /// attribute.
    pub time: Option<Found>,
    /// The text of each link inside the sixth cell.
    pub tags: Vec<String>,
}

/// The part that a Web3 Careers row lacks, if it lacks one: the cells are,
/// in order, title, company, time, location, remuneration and tags, and the
/// time cell must hold a `time` element.
pub open spec fn web3_careers_missing(row: Web3CareersRow) -> Option<&'static str> {
    if row.cells.len() < 1 {
        Some("job title")
    } else if row.cells.len() < 2 {
        Some("company")
    } else if row.cells.len() < 3 || row.time is None {
        Some("time")
    } else if row.cells.len() < 4 {
        Some("location")
    } else if row.cells.len() < 5 {
        Some("remuneration")
    } else if row.cells.len() < 6 {
        Some("tags")
    } else {
        None
    }
}

/// The text before the first `sep`, or the whole text where it holds none.
pub open spec fn before_first(s: Seq<char>, sep: char) -> Seq<char> {
    s.take(until_first(s, sep))
}

/// The posting that a complete Web3 Careers row lists.
pub open spec fn web3_careers_posting(row: Web3CareersRow, site: Seq<char>) -> JobView {
    JobView {
        title: trimmed(row.cells[0]@),
        company: trimmed(row.cells[1]@),
        date_posted: before_first(attr_text(row.time->0.attr), ' '),
        location: replaced(trimmed(row.cells[3]@), "\n"@, " "@),
        remuneration: trimmed(row.cells[4]@),
        tags: trimmed_each(row.tags.deep_view()),
        apply: site + apply_link(attr_text(row.onclick)),
        site,
    }
}

/// The part that each of `rows` lacks.
pub open spec fn web3_careers_gaps(rows: Seq<Web3CareersRow>) -> Seq<Option<&'static str>> {
    Seq::new(rows.len(), |i: int| web3_careers_missing(rows[i]))
}

/// The postings that `rows` list.
pub open spec fn web3_careers_postings(rows: Seq<Web3CareersRow>, site: Seq<char>) -> Seq<
    JobView,
> {
    Seq::new(rows.len(), |i: int| web3_careers_posting(rows[i], site))
}

/// The failure that stops the scrape of a Web3 Careers page: the reason it
/// could not be fetched, or else the part that its first incomplete row
/// lacks.
pub open spec fn web3_careers_page_failure(page: Result<Vec<Web3CareersRow>, Error>) -> Option<
    Error,
> {
    match page {
        Ok(rows) => missing_part(first_some(web3_careers_gaps(rows@))),
        Err(err) => Some(err),
    }
}

/// The failure of each of `pages`.
pub open spec fn web3_careers_failures(pages: Seq<Result<Vec<Web3CareersRow>, Error>>) -> Seq<
    Option<Error>,
> {
    Seq::new(pages.len(), |i: int| web3_careers_page_failure(pages[i]))
}

/// The postings that `pages` list, page after page.
pub open spec fn web3_careers_all(
    pages: Seq<Result<Vec<Web3CareersRow>, Error>>,
    site: Seq<char>,
) -> Seq<JobView>
    decreases pages.len(),
{
    if pages.len() == 0 {
        Seq::empty()
    } else {
        web3_careers_all(pages.drop_last(), site) + match pages.last() {
            Ok(rows) => web3_careers_postings(rows@, site),
            Err(_) => Seq::empty(),
        }
    }
}

impl Web3Careers {
    /// Makes the posting of one table row, or reports the part that the row
    /// lacks.
    pub fn job_from(row: &Web3CareersRow, site: &'static str) -> (made: Result<Job, Error>)
        ensures
            match made {
                Ok(job) => web3_careers_missing(*row) is None && job@ == web3_careers_posting(
                    *row,
                    site@,
                ),
                Err(err) => Some(err) == missing_part(web3_careers_missing(*row)),
            },
    {
        let onclick = attr_or_empty(&row.onclick);
        let link = Web3Careers::format_apply_link(onclick);
        let apply = concat(site, link.as_str());
        if row.cells.len() < 1 {
            return Err(Error::Iterator("job title"));
        }
        let title = trim(row.cells[0].as_str()).to_owned();
        if row.cells.len() < 2 {
            return Err(Error::Iterator("company"));
        }
        let company = trim(row.cells[1].as_str()).to_owned();
        if row.cells.len() < 3 {
            return Err(Error::Iterator("time"));
        }
        let date_posted = match &row.time {
            Some(time) => {
                let datetime = attr_or_empty(&time.attr);
                let words = split(datetime, ' ');
                proof {
                    lemma_split_on_nonempty(datetime@, ' ');
                }
                words[0].to_owned()
            },
            None => {
                return Err(Error::Iterator("time"));
            },
        };
        if row.cells.len() < 4 {
            return Err(Error::Iterator("location"));
        }
        proof {
            reveal_strlit("\n");
        }
        let location = replace(trim(row.cells[3].as_str()), "\n", " ");
        if row.cells.len() < 5 {
            return Err(Error::Iterator("remuneration"));
        }
        let remuneration = trim(row.cells[4].as_str()).to_owned();
        if row.cells.len() < 6 {
            return Err(Error::Iterator("tags"));
        }
        let tags = trim_all(&row.tags);
        Ok(Job { title, company, date_posted, location, remuneration, tags, apply, site })
    }

    /// Makes the postings of one page of rows, in order, or reports the part
    /// that the first incomplete row lacks.
    pub fn jobs_from(rows: &Vec<Web3CareersRow>, site: &'static str) -> (made: Result<
        Vec<Job>,
        Error,
    >)
        ensures
            match made {
                Ok(jobs) => first_some(web3_careers_gaps(rows@)) is None && jobs.deep_view()
                    == web3_careers_postings(rows@, site@),
                Err(err) => Some(err) == missing_part(first_some(web3_careers_gaps(rows@))),
            },
    {
        let mut jobs: Vec<Job> = Vec::new();
        let ghost gaps = web3_careers_gaps(rows@);
        let mut i: usize = 0;
        while i < rows.len()
            invariant
                i <= rows.len(),
                gaps == web3_careers_gaps(rows@),
                forall|k: int| 0 <= k < i ==> gaps[k] is None,
                jobs.len() == i,
                forall|k: int|
                    0 <= k < i ==> (#[trigger] jobs[k])@ == web3_careers_posting(rows[k], site@),
            decreases rows.len() - i,
        {
            proof {
                lemma_first_some_skip(gaps, i as int);
                assert(gaps.skip(i as int)[0] == web3_careers_missing(rows[i as int]));
            }
            match Web3Careers::job_from(&rows[i], site) {
                Ok(job) => {
                    jobs.push(job);
                },
                Err(err) => {
                    return Err(err);
                },
            }
            i += 1;
        }
        proof {
            lemma_first_some_skip(gaps, rows.len() as int);
            assert(jobs.deep_view() =~= web3_careers_postings(rows@, site@));
        }
        Ok(jobs)
    }
}

/// One card of a job board of the kind that Solana, Substrate and Near run.
#[derive(Debug)]
pub struct BoardCard {
    /// The text of the card's title element, where it has one.
    pub title: Option<String>,
    /// The first company element, with its `content` attribute.
    pub company: Option<Found>,
    /// The text of each `span` of the card, in order.
    pub spans: Vec<String>,
    /// The first date element, with its `content` attribute.
    pub posted: Option<Found>,
    /// The first "read more" link, with its `href` attribute.
    pub link: Option<Found>,
}

/// The part that a board card lacks, if it lacks one. A card without a
/// title is no listing and lacks nothing.
pub open spec fn board_missing(card: BoardCard) -> Option<&'static str> {
    if card.title is None {
        None
    } else if card.company is None {
        Some("company")
    } else if card.posted is None {
        Some("date posted")
    } else if card.link is None {
        Some("apply link")
    } else {
        None
    }
}

/// The location that the spans of a board card give: the first span, then
/// the second after a comma, as far as they are there.
pub open spec fn board_location(spans: Seq<Seq<char>>) -> Seq<char> {
    if spans.len() == 0 {
        Seq::empty()
    } else if spans.len() == 1 {
        trimmed(spans[0])
    } else {
        trimmed(spans[0]) + ", "@ + trimmed(spans[1])
    }
}

/// A link if it is a secure web address, and nothing otherwise.
pub open spec fn secure_link(href: Seq<char>) -> Seq<char> {
    if has_prefix(href, "https"@) {
        href
    } else {
        Seq::empty()
    }
}

/// The posting that a complete board card with a title lists.
pub open spec fn board_posting(card: BoardCard, site: Seq<char>) -> JobView {
    JobView {
        title: trimmed(card.title->0@),
        company: attr_text(card.company->0.attr),
        date_posted: attr_text(card.posted->0.attr),
        location: board_location(card.spans.deep_view()),
        remuneration: Seq::empty(),
        tags: Seq::empty(),
        apply: secure_link(attr_text(card.link->0.attr)),
        site,
    }
}

/// The part that each of `cards` lacks.
pub open spec fn board_gaps(cards: Seq<BoardCard>) -> Seq<Option<&'static str>> {
    Seq::new(cards.len(), |i: int| board_missing(cards[i]))
}

/// The postings that `cards` list: one for each card with a title, in
/// order.
pub open spec fn board_postings(cards: Seq<BoardCard>, site: Seq<char>) -> Seq<JobView>
    decreases cards.len(),
{
    if cards.len() == 0 {
        Seq::empty()
    } else {
        push_if(
            board_postings(cards.drop_last(), site),
            cards.last().title is Some,
            board_posting(cards.last(), site),
        )
    }
}

/// Makes the posting of one board card, if the card is a listing, or
/// reports the part that it lacks.
pub fn board_job_from(card: &BoardCard, site: &'static str) -> (made: Result<Option<Job>, Error>)
    ensures
        match made {
            Ok(Some(job)) => board_missing(*card) is None && card.title is Some && job@
                == board_posting(*card, site@),
            Ok(None) => card.title is None,
            Err(err) => Some(err) == missing_part(board_missing(*card)),
        },
{
    let title = match &card.title {
        Some(text) => trim(text.as_str()).to_owned(),
        None => {
            return Ok(None);
        },
    };
    let company = match &card.company {
        Some(found) => attr_or_empty(&found.attr).to_owned(),
        None => {
            return Err(Error::Iterator("company"));
        },
    };
    proof {
        reveal_strlit(", ");
        reveal_strlit("");
    }
    let mut location = String::new();
    if card.spans.len() > 0 {
        location = trim(card.spans[0].as_str()).to_owned();
        if card.spans.len() > 1 {
            let head = concat(location.as_str(), ", ");
            location = concat(head.as_str(), trim(card.spans[1].as_str()));
        }
    }
    assert(location@ =~= board_location(card.spans.deep_view())) by {
        if card.spans.len() > 0 {
            assert(card.spans.deep_view()[0] == card.spans[0]@);
        }
        if card.spans.len() > 1 {
            assert(card.spans.deep_view()[1] == card.spans[1]@);
        }
    }
    let date_posted = match &card.posted {
        Some(found) => attr_or_empty(&found.attr).to_owned(),
        None => {
            return Err(Error::Iterator("date posted"));
        },
    };
    let href = match &card.link {
        Some(found) => attr_or_empty(&found.attr),
        None => {
            return Err(Error::Iterator("apply link"));
        },
    };
    let apply = if starts_with(href, "https") {
        href.to_owned()
    } else {
        String::new()
    };
    let tags: Vec<String> = Vec::new();
    assert(tags.deep_view() =~= Seq::<Seq<char>>::empty());
    Ok(
        Some(
            Job {
                title,
                company,
                date_posted,
                location,
                remuneration: String::new(),
                tags,
                apply,
                site,
            },
        ),
    )
}

/// Makes the postings of a page of board cards, in order and without
/// repetitions, or reports the part that the first incomplete card lacks.
pub fn board_jobs_from(cards: &Vec<BoardCard>, site: &'static str) -> (made: Result<
    Vec<Job>,
    Error,
>)
    ensures
        match made {
            Ok(jobs) => first_some(board_gaps(cards@)) is None && jobs.deep_view() == distinct(
                board_postings(cards@, site@),
            ),
            Err(err) => Some(err) == missing_part(first_some(board_gaps(cards@))),
        },
{
    let mut jobs: Vec<Job> = Vec::new();
    let ghost gaps = board_gaps(cards@);
    let mut i: usize = 0;
    while i < cards.len()
        invariant
            i <= cards.len(),
            gaps == board_gaps(cards@),
            forall|k: int| 0 <= k < i ==> gaps[k] is None,
            jobs.deep_view() == board_postings(cards@.take(i as int), site@),
        decreases cards.len() - i,
    {
        let ghost before = jobs.deep_view();
        proof {
            lemma_first_some_skip(gaps, i as int);
            assert(gaps.skip(i as int)[0] == board_missing(cards[i as int]));
            assert(cards@.take(i + 1).drop_last() =~= cards@.take(i as int));
            assert(cards@.take(i + 1).last() == cards[i as int]);
        }
        match board_job_from(&cards[i], site) {
            Ok(Some(job)) => {
                jobs.push(job);
                assert(jobs.deep_view() =~= before.push(job@));
            },
            Ok(None) => {},
            Err(err) => {
                return Err(err);
            },
        }
        i += 1;
    }
    proof {
        lemma_first_some_skip(gaps, cards.len() as int);
        assert(cards@.take(cards.len() as int) =~= cards@);
        lemma_first_occurrences_views(jobs@);
        assert(views(jobs@) =~= jobs.deep_view());
    }
    let kept = unique(jobs);
    assert(views(kept@) =~= kept.deep_view());
    Ok(kept)
}

/// A posting with its date set to `date`.
pub open spec fn dated(job: JobView, date: Seq<char>) -> JobView {
    JobView {
        title: job.title,
        company: job.company,
        date_posted: date,
        location: job.location,
        remuneration: job.remuneration,
        tags: job.tags,
        apply: job.apply,
        site: job.site,
    }
}

/// The dates of a sequence of postings.
pub open spec fn dates_of(jobs: Seq<Job>) -> Seq<Seq<char>> {
    Seq::new(jobs.len(), |i: int| jobs[i]@.date_posted)
}

/// Whether each of `dates` has the shape of a date written as year, month
/// and day.
pub open spec fn all_dates(dates: Seq<Seq<char>>) -> bool {
    forall|i: int| 0 <= i < dates.len() ==> is_date_text(#[trigger] dates[i])
}

/// `drafts` with their dates taken from `dates`, one for one.
pub open spec fn dated_each(drafts: Seq<JobView>, dates: Seq<Seq<char>>) -> Seq<JobView> {
    Seq::new(drafts.len(), |i: int| dated(drafts[i], dates[i]))
}

/// One panel of the Use Web3 listing page.
#[derive(Debug)]
pub struct UseWeb3Panel {
    /// The text of each link of the panel, in order.
    pub links: Vec<String>,
    /// The text of each `span` of the panel, in order.
    pub spans: Vec<String>,
    /// The text of each bordered note of the panel, in order.
    pub notes: Vec<String>,
    /// The first action link, with its `href` attribute.
    pub action: Option<Found>,
}

/// The part that a Use Web3 panel lacks, if it lacks one: the links are
/// title and company, the spans location and elapsed time.
pub open spec fn use_web3_missing(panel: UseWeb3Panel) -> Option<&'static str> {
    if panel.links.len() < 1 {
        Some("job title")
    } else if panel.links.len() < 2 {
        Some("company")
    } else if panel.spans.len() < 1 {
        Some("location")
    } else if panel.spans.len() < 2 {
        Some("elapsed time")
    } else if panel.action is None {
        Some("apply link")
    } else {
        None
    }
}

/// The location of a Use Web3 panel: the location it states, extended by
/// each note that carries the globe mark, as long as the location does not
/// yet say "remote".
pub open spec fn use_web3_location(stated: Seq<char>, notes: Seq<Seq<char>>) -> Seq<char>
    decreases notes.len(),
{
    if notes.len() == 0 {
        stated
    } else {
        let so_far = use_web3_location(stated, notes.drop_last());
        let note = trimmed(notes.last());
        if is_substring("🌐"@, note) && !is_substring("remote"@, lowercase(so_far)) {
            so_far + ", "@ + replaced(note, "🌐 "@, ""@)
        } else {
            so_far
        }
    }
}

/// The pay of a Use Web3 panel: that of the last note that carries the
/// money mark, and nothing where no note does.
pub open spec fn use_web3_pay(notes: Seq<Seq<char>>) -> Seq<char>
    decreases notes.len(),
{
    if notes.len() == 0 {
        Seq::empty()
    } else {
        let note = trimmed(notes.last());
        if is_substring("💰"@, note) {
            <UseWeb3 as Formatter>::remuneration_of(note)
        } else {
            use_web3_pay(notes.drop_last())
        }
    }
}

/// The posting that a complete Use Web3 panel lists, without its date.
pub open spec fn use_web3_posting(panel: UseWeb3Panel, site: Seq<char>) -> JobView {
    JobView {
        title: trimmed(panel.links[0]@),
        company: trimmed(panel.links[1]@),
        date_posted: Seq::empty(),
        location: use_web3_location(trimmed(panel.spans[0]@), panel.notes.deep_view()),
        remuneration: use_web3_pay(panel.notes.deep_view()),
        tags: Seq::empty(),
        apply: attr_text(panel.action->0.attr),
        site,
    }
}

/// The part that each of `panels` lacks.
pub open spec fn use_web3_gaps(panels: Seq<UseWeb3Panel>) -> Seq<Option<&'static str>> {
    Seq::new(panels.len(), |i: int| use_web3_missing(panels[i]))
}

/// The postings that `panels` list, without their dates.
pub open spec fn use_web3_postings(panels: Seq<UseWeb3Panel>, site: Seq<char>) -> Seq<JobView> {
    Seq::new(panels.len(), |i: int| use_web3_posting(panels[i], site))
}

impl UseWeb3 {
    /// Makes the posting of one panel, or reports the part that the panel
    /// lacks. The date is that of the panel's elapsed time before now.
    pub fn job_from(panel: &UseWeb3Panel, site: &'static str) -> (made: Result<Job, Error>)
        ensures
            match made {
                Ok(job) => use_web3_missing(*panel) is None && job@ == dated(
                    use_web3_posting(*panel, site@),
                    job@.date_posted,
                ) && is_date_text(job@.date_posted),
                Err(err) => Some(err) == missing_part(use_web3_missing(*panel)),
            },
    {
        if panel.links.len() < 1 {
            return Err(Error::Iterator("job title"));
        }
        let title = trim(panel.links[0].as_str()).to_owned();
        if panel.links.len() < 2 {
            return Err(Error::Iterator("company"));
        }
        let company = trim(panel.links[1].as_str()).to_owned();
        if panel.spans.len() < 1 {
            return Err(Error::Iterator("location"));
        }
        let mut location = trim(panel.spans[0].as_str()).to_owned();
        if panel.spans.len() < 2 {
            return Err(Error::Iterator("elapsed time"));
        }
        let time_elapsed = trim(panel.spans[1].as_str()).to_owned();
        let date_posted = UseWeb3::format_date_from(time_elapsed);
        let mut remuneration = String::new();
        let ghost notes = panel.notes.deep_view();
        proof {
            reveal_strlit("");
            reveal_strlit("🌐 ");
            assert(notes.take(0) =~= Seq::<Seq<char>>::empty());
        }
        let mut i: usize = 0;
        while i < panel.notes.len()
            invariant
                i <= panel.notes.len(),
                notes == panel.notes.deep_view(),
                panel.spans.len() >= 2,
                "🌐 "@.len() > 0,
                location@ == use_web3_location(trimmed(panel.spans[0]@), notes.take(i as int)),
                remuneration@ == use_web3_pay(notes.take(i as int)),
            decreases panel.notes.len() - i,
        {
            proof {
                assert(notes.take(i + 1).drop_last() =~= notes.take(i as int));
                assert(notes.take(i + 1).last() == panel.notes[i as int]@);
            }
            let note = trim(panel.notes[i].as_str());
            if contains(note, "🌐") {
                let lower = to_lowercase(location.as_str());
                if !contains(lower.as_str(), "remote") {
                    let place = replace(note, "🌐 ", "");
                    let head = concat(location.as_str(), ", ");
                    location = concat(head.as_str(), place.as_str());
                }
            }
            if contains(note, "💰") {
                remuneration = UseWeb3::format_remuneration(note.to_owned());
            }
            i += 1;
        }
        assert(notes.take(panel.notes.len() as int) =~= notes);
        let apply = match &panel.action {
            Some(found) => attr_or_empty(&found.attr).to_owned(),
            None => {
                return Err(Error::Iterator("apply link"));
            },
        };
        let tags: Vec<String> = Vec::new();
        assert(tags.deep_view() =~= Seq::<Seq<char>>::empty());
        Ok(Job { title, company, date_posted, location, remuneration, tags, apply, site })
    }

    /// Makes the postings of the panels of a page, in order, or reports the
    /// part that the first incomplete panel lacks.
    pub fn jobs_from(panels: &Vec<UseWeb3Panel>, site: &'static str) -> (made: Result<
        Vec<Job>,
        Error,
    >)
        ensures
            match made {
                Ok(jobs) => first_some(use_web3_gaps(panels@)) is None && jobs.len()
                    == panels.len() && jobs.deep_view() == dated_each(
                    use_web3_postings(panels@, site@),
                    dates_of(jobs@),
                ) && all_dates(dates_of(jobs@)),
                Err(err) => Some(err) == missing_part(first_some(use_web3_gaps(panels@))),
            },
    {
        let mut jobs: Vec<Job> = Vec::new();
        let ghost gaps = use_web3_gaps(panels@);
        let mut i: usize = 0;
        while i < panels.len()
            invariant
                i <= panels.len(),
                gaps == use_web3_gaps(panels@),
                forall|k: int| 0 <= k < i ==> gaps[k] is None,
                jobs.len() == i,
                forall|k: int|
                    0 <= k < i ==> (#[trigger] jobs[k])@ == dated(
                        use_web3_posting(panels[k], site@),
                        jobs[k]@.date_posted,
                    ) && is_date_text(jobs[k]@.date_posted),
            decreases panels.len() - i,
        {
            proof {
                lemma_first_some_skip(gaps, i as int);
                assert(gaps.skip(i as int)[0] == use_web3_missing(panels[i as int]));
            }
            match UseWeb3::job_from(&panels[i], site) {
                Ok(job) => {
                    jobs.push(job);
                },
                Err(err) => {
                    return Err(err);
                },
            }
            i += 1;
        }
        proof {
            lemma_first_some_skip(gaps, panels.len() as int);
            assert(jobs.deep_view() =~= dated_each(
                use_web3_postings(panels@, site@),
                dates_of(jobs@),
            ));
        }
        Ok(jobs)
    }
}

/// One item of the Crypto Jobs List listing page.
#[derive(Debug)]
pub struct CryptoJobsListItem {
    /// Each link of the item, in order, with its `href` attribute.
    pub links: Vec<Found>,
    /// The text of the first element that tells when the item was created.
    pub created: Option<String>,
    /// The text of the first detail of the item, which is either where the
    /// job is or what it pays.
    pub detail: Option<String>,
    /// The text of each tag of the item, in order.
    pub tags: Vec<String>,
}

/// The part that a Crypto Jobs List item lacks, if it lacks one: the links
/// are title and company.
pub open spec fn crypto_jobs_list_missing(item: CryptoJobsListItem) -> Option<&'static str> {
    if item.links.len() < 1 {
        Some("job title")
    } else if item.links.len() < 2 {
        Some("company")
    } else if item.created is None {
        Some("elapsed time")
    } else if item.detail is None {
        Some("location or remuneration")
    } else {
        None
    }
}

/// What a detail says of pay: a detail with a dollar sign is a pay range.
pub open spec fn detail_pay(detail: Seq<char>) -> Seq<char> {
    if is_substring("$"@, detail) {
        <CryptoJobsList as Formatter>::remuneration_of(detail)
    } else {
        Seq::empty()
    }
}

/// What a detail says of place: a detail without dollar sign and without
/// digits is a place, unless it is the invitation to apply first.
pub open spec fn detail_place(detail: Seq<char>) -> Seq<char> {
    if !is_substring("$"@, detail) && !has_ascii_digit(detail) && detail
        != "Be the first to apply!"@ {
        detail
    } else {
        Seq::empty()
    }
}

/// The location of a job at `place` that is remote or not.
pub open spec fn place_or_remote(place: Seq<char>, remote: bool) -> Seq<char> {
    if place.len() > 0 && remote {
        place + ", "@ + "Remote"@
    } else if remote {
        "Remote"@
    } else {
        place
    }
}

/// The posting that a complete Crypto Jobs List item lists, without its
/// date.
pub open spec fn crypto_jobs_list_posting(item: CryptoJobsListItem, site: Seq<char>) -> JobView {
    let detail = trimmed(item.detail->0@);
    let tags = trimmed_each(item.tags.deep_view());
    JobView {
        title: trimmed(item.links[0].text@),
        company: trimmed(item.links[1].text@),
        date_posted: Seq::empty(),
        location: place_or_remote(detail_place(detail), tags.contains("Remote"@)),
        remuneration: detail_pay(detail),
        tags,
        apply: site + attr_text(item.links[0].attr),
        site,
    }
}

/// The part that each of `items` lacks.
pub open spec fn crypto_jobs_list_gaps(items: Seq<CryptoJobsListItem>) -> Seq<
    Option<&'static str>,
> {
    Seq::new(items.len(), |i: int| crypto_jobs_list_missing(items[i]))
}

/// The postings that `items` list, without their dates.
pub open spec fn crypto_jobs_list_postings(items: Seq<CryptoJobsListItem>, site: Seq<char>) -> Seq<
    JobView,
> {
    Seq::new(items.len(), |i: int| crypto_jobs_list_posting(items[i], site))
}

impl CryptoJobsList {
    /// Makes the posting of one item, or reports the part that the item
    /// lacks. The date is that of the item's elapsed time before now.
    pub fn job_from(item: &CryptoJobsListItem, site: &'static str) -> (made: Result<Job, Error>)
        ensures
            match made {
                Ok(job) => crypto_jobs_list_missing(*item) is None && job@ == dated(
                    crypto_jobs_list_posting(*item, site@),
                    job@.date_posted,
                ) && is_date_text(job@.date_posted),
                Err(err) => Some(err) == missing_part(crypto_jobs_list_missing(*item)),
            },
    {
        if item.links.len() < 1 {
            return Err(Error::Iterator("job title"));
        }
        let title = trim(item.links[0].text.as_str()).to_owned();
        let apply = concat(site, attr_or_empty(&item.links[0].attr));
        if item.links.len() < 2 {
            return Err(Error::Iterator("company"));
        }
        let company = trim(item.links[1].text.as_str()).to_owned();
        let time_elapsed = match &item.created {
            Some(text) => trim(text.as_str()).to_owned(),
            None => {
                return Err(Error::Iterator("elapsed time"));
            },
        };
        let date_posted = CryptoJobsList::format_date_from(time_elapsed);
        let detail = match &item.detail {
            Some(text) => trim(text.as_str()),
            None => {
                return Err(Error::Iterator("location or remuneration"));
            },
        };
        proof {
            reveal_strlit("");
        }
        let mut remuneration = String::new();
        let mut onsite = String::new();
        if contains(detail, "$") {
            remuneration = CryptoJobsList::format_remuneration(detail.to_owned());
        } else {
            let digits = match regex_is_match("[0-9]", detail) {
                Some(found) => found,
                None => false,
            };
            if !digits && !text_eq(detail, "Be the first to apply!") {
                onsite = detail.to_owned();
            }
        }
        let tags = trim_all(&item.tags);
        let remote = any_is(&tags, "Remote");
        let location = if onsite.as_str().unicode_len() > 0 && remote {
            let head = concat(onsite.as_str(), ", ");
            concat(head.as_str(), "Remote")
        } else if remote {
            "Remote".to_owned()
        } else {
            onsite
        };
        Ok(Job { title, company, date_posted, location, remuneration, tags, apply, site })
    }

    /// Makes the postings of the items of a page, in order, or reports the
    /// part that the first incomplete item lacks.
    pub fn jobs_from(items: &Vec<CryptoJobsListItem>, site: &'static str) -> (made: Result<
        Vec<Job>,
        Error,
    >)
        ensures
            match made {
                Ok(jobs) => first_some(crypto_jobs_list_gaps(items@)) is None && jobs.len()
                    == items.len() && jobs.deep_view() == dated_each(
                    crypto_jobs_list_postings(items@, site@),
                    dates_of(jobs@),
                ) && all_dates(dates_of(jobs@)),
                Err(err) => Some(err) == missing_part(first_some(crypto_jobs_list_gaps(items@))),
            },
    {
        let mut jobs: Vec<Job> = Vec::new();
        let ghost gaps = crypto_jobs_list_gaps(items@);
        let mut i: usize = 0;
        while i < items.len()
            invariant
                i <= items.len(),
                gaps == crypto_jobs_list_gaps(items@),
                forall|k: int| 0 <= k < i ==> gaps[k] is None,
                jobs.len() == i,
                forall|k: int|
                    0 <= k < i ==> (#[trigger] jobs[k])@ == dated(
                        crypto_jobs_list_posting(items[k], site@),
                        jobs[k]@.date_posted,
                    ) && is_date_text(jobs[k]@.date_posted),
            decreases items.len() - i,
        {
            proof {
                lemma_first_some_skip(gaps, i as int);
                assert(gaps.skip(i as int)[0] == crypto_jobs_list_missing(items[i as int]));
            }
            match CryptoJobsList::job_from(&items[i], site) {
                Ok(job) => {
                    jobs.push(job);
                },
                Err(err) => {
                    return Err(err);
                },
            }
            i += 1;
        }
        proof {
            lemma_first_some_skip(gaps, items.len() as int);
            assert(jobs.deep_view() =~= dated_each(
                crypto_jobs_list_postings(items@, site@),
                dates_of(jobs@),
            ));
        }
        Ok(jobs)
    }
}

} // verus!
