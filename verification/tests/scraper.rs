use jobhunt::repository::Job;
use jobhunt::scraper::{
    attr_or_empty, board_job_from, board_jobs_from, check_status, contains_job, unique, BoardCard,
    CryptoJobsListItem, Error, Found, Scraper, UseWeb3Panel, Web3CareersRow,
};
use jobhunt::site::{
    CryptoJobsList, Formatter, NearJobs, Site, SolanaJobs, SubstrateJobs, UseWeb3, Web3Careers,
    CRYPTO_JOBS_LIST_URL, SOLANA_JOBS_URL, USE_WEB3_URL, WEB3_CAREERS_URL,
};

fn found(text: &str, attr: Option<&str>) -> Found {
    Found { text: text.into(), attr: attr.map(|a| a.to_string()) }
}

fn texts(items: &[&str]) -> Vec<String> {
    items.iter().map(|t| t.to_string()).collect()
}

fn row(title: &str) -> Web3CareersRow {
    Web3CareersRow {
        onclick: Some("tableTurboRowClick(event, '/rust-dev/1')".into()),
        cells: texts(&[
            title,
            "\n  Acme \n",
            "2d",
            " Berlin\nGermany ",
            " $100k - $120k ",
            "rust remote",
        ]),
        time: Some(found("2d", Some("2024-01-01 10:00:00"))),
        tags: texts(&[" rust ", "remote"]),
    }
}

#[test]
fn errors_are_rendered_for_debugging_and_for_the_user() {
    assert_eq!(Error::Selector("bad \"x\"".into()).debug_text(), "Selector(\"bad \\\"x\\\"\")");
    assert_eq!(Error::Request("timed out".into()).debug_text(), "Request(timed out)");
    assert_eq!(Error::Response(404).debug_text(), "Response(404)");
    assert_eq!(Error::Response(0).debug_text(), "Response(0)");
    assert_eq!(Error::Parser("eof".into()).debug_text(), "Parser(eof)");
    assert_eq!(Error::Iterator("job title").debug_text(), "Iterator(\"job title\")");
    assert_eq!(Error::Selector("bad".into()).message(), "Selector error: bad");
    assert_eq!(Error::Request("timed out".into()).message(), "Could not load url: timed out");
    assert_eq!(Error::Response(65535).message(), "Request failed with code: 65535");
    assert_eq!(Error::Parser("eof".into()).message(), "Error getting response body: eof");
    assert_eq!(Error::Iterator("company").message(), "Could not get company");
}

#[test]
fn only_success_codes_are_accepted() {
    assert!(check_status(200).is_ok());
    assert!(check_status(204).is_ok());
    assert!(check_status(299).is_ok());
    assert!(matches!(check_status(199), Err(Error::Response(199))));
    assert!(matches!(check_status(300), Err(Error::Response(300))));
    assert!(matches!(check_status(404), Err(Error::Response(404))));
    assert!(matches!(check_status(0), Err(Error::Response(0))));
}

#[test]
fn unique_keeps_the_first_of_equal_postings_and_the_order() {
    let make = |title: &str| Job {
        title: title.into(),
        company: "Acme".into(),
        date_posted: "2024-01-01".into(),
        location: String::new(),
        remuneration: String::new(),
        tags: Vec::new(),
        apply: String::new(),
        site: "s",
    };
    let kept = unique(vec![make("a"), make("b"), make("a"), make("c"), make("b"), make("a")]);
    assert_eq!(kept, vec![make("a"), make("b"), make("c")]);
    assert_eq!(unique(Vec::new()), Vec::<Job>::new());
    assert_eq!(unique(vec![make("a")]), vec![make("a")]);
    assert!(contains_job(&kept, &make("c")));
    assert!(!contains_job(&kept, &make("d")));
    assert_eq!(attr_or_empty(&None), "");
    assert_eq!(attr_or_empty(&Some("x".to_string())), "x");
}

#[test]
fn a_web3_careers_row_becomes_a_posting() {
    let made = Web3Careers::job_from(&row(" Rust Developer "), WEB3_CAREERS_URL).unwrap();
    assert_eq!(
        made,
        Job {
            title: "Rust Developer".into(),
            company: "Acme".into(),
            date_posted: "2024-01-01".into(),
            location: "Berlin Germany".into(),
            remuneration: "$100k - $120k".into(),
            tags: texts(&["rust", "remote"]),
            apply: "https://web3.career/rust-dev/1".into(),
            site: WEB3_CAREERS_URL,
        }
    );
    let mut bare = row("x");
    bare.onclick = None;
    bare.time = Some(found("", None));
    let made = Web3Careers::job_from(&bare, WEB3_CAREERS_URL).unwrap();
    assert_eq!(made.apply, WEB3_CAREERS_URL);
    assert_eq!(made.date_posted, "");
}

#[test]
fn a_web3_careers_row_reports_the_first_missing_part() {
    let parts = ["job title", "company", "time", "location", "remuneration", "tags"];
    for n in 0..6 {
        let mut short = row("x");
        short.cells.truncate(n);
        let err = Web3Careers::job_from(&short, WEB3_CAREERS_URL).unwrap_err();
        assert!(matches!(err, Error::Iterator(part) if part == parts[n]));
    }
    let mut timeless = row("x");
    timeless.time = None;
    let err = Web3Careers::job_from(&timeless, WEB3_CAREERS_URL).unwrap_err();
    assert!(matches!(err, Error::Iterator("time")));
    timeless.cells.truncate(1);
    let err = Web3Careers::job_from(&timeless, WEB3_CAREERS_URL).unwrap_err();
    assert!(matches!(err, Error::Iterator("company")));
}

#[test]
fn web3_careers_pages_are_joined_in_order_without_duplicates() {
    let site = Web3Careers::new()
        .scrape(vec![Ok(vec![row("a"), row("b")]), Ok(Vec::new()), Ok(vec![row("a"), row("c")])])
        .unwrap();
    let titles: Vec<&str> = site.jobs.iter().map(|j| j.title.as_str()).collect();
    assert_eq!(titles, vec!["a", "b", "c"]);
    assert_eq!(site.get_url(), WEB3_CAREERS_URL);
    let none = Web3Careers::new().scrape(Vec::new()).unwrap();
    assert!(none.jobs.is_empty());
}

#[test]
fn web3_careers_stops_at_the_first_failure_in_page_order() {
    let mut broken = row("b");
    broken.cells.truncate(3);
    let err = Web3Careers::new()
        .scrape(vec![Ok(vec![row("a"), broken]), Err(Error::Response(500))])
        .err()
        .unwrap();
    assert!(matches!(err, Error::Iterator("location")));
    let err = Web3Careers::new()
        .scrape(vec![Ok(vec![row("a")]), Err(Error::Response(500)), Err(Error::Response(404))])
        .err()
        .unwrap();
    assert!(matches!(err, Error::Response(500)));
    let mut first = row("a");
    first.cells.clear();
    let mut second = row("b");
    second.cells.truncate(1);
    let err = Web3Careers::jobs_from(&vec![row("x"), first, second], WEB3_CAREERS_URL).unwrap_err();
    assert!(matches!(err, Error::Iterator("job title")));
}

fn card(title: Option<&str>) -> BoardCard {
    BoardCard {
        title: title.map(|t| t.to_string()),
        company: Some(found("", Some("Acme"))),
        spans: texts(&[" Berlin ", " Remote ", "ignored"]),
        posted: Some(found("", Some("2024-01-01"))),
        link: Some(found("Read more", Some("https://jobs.example/1"))),
    }
}

#[test]
fn a_board_card_becomes_a_posting() {
    let made = board_job_from(&card(Some(" Rust Developer ")), SOLANA_JOBS_URL).unwrap().unwrap();
    assert_eq!(
        made,
        Job {
            title: "Rust Developer".into(),
            company: "Acme".into(),
            date_posted: "2024-01-01".into(),
            location: "Berlin, Remote".into(),
            remuneration: String::new(),
            tags: Vec::new(),
            apply: "https://jobs.example/1".into(),
            site: SOLANA_JOBS_URL,
        }
    );
    let mut plain = card(Some("x"));
    plain.spans = texts(&[" Oslo "]);
    plain.link = Some(found("", Some("mailto:jobs@example.org")));
    plain.company = Some(found("Acme", None));
    plain.posted = Some(found("yesterday", None));
    let made = board_job_from(&plain, SOLANA_JOBS_URL).unwrap().unwrap();
    assert_eq!(made.location, "Oslo");
    assert_eq!(made.apply, "");
    assert_eq!(made.company, "");
    assert_eq!(made.date_posted, "");
    plain.spans = Vec::new();
    plain.link = Some(found("", Some("http://jobs.example/1")));
    let made = board_job_from(&plain, SOLANA_JOBS_URL).unwrap().unwrap();
    assert_eq!(made.location, "");
    assert_eq!(made.apply, "");
}

#[test]
fn a_board_card_without_title_is_skipped_and_an_incomplete_one_fails() {
    let mut empty = card(None);
    empty.company = None;
    assert!(board_job_from(&empty, SOLANA_JOBS_URL).unwrap().is_none());
    let mut c = card(Some("x"));
    c.company = None;
    c.posted = None;
    assert!(matches!(board_job_from(&c, SOLANA_JOBS_URL), Err(Error::Iterator("company"))));
    let mut c = card(Some("x"));
    c.posted = None;
    c.link = None;
    assert!(matches!(board_job_from(&c, SOLANA_JOBS_URL), Err(Error::Iterator("date posted"))));
    let mut c = card(Some("x"));
    c.link = None;
    assert!(matches!(board_job_from(&c, SOLANA_JOBS_URL), Err(Error::Iterator("apply link"))));
}

#[test]
fn board_sites_replace_their_postings_with_the_distinct_listings() {
    let pages = || vec![card(Some("a")), card(None), card(Some("b")), card(Some("a"))];
    let jobs = board_jobs_from(&pages(), SOLANA_JOBS_URL).unwrap();
    let titles: Vec<&str> = jobs.iter().map(|j| j.title.as_str()).collect();
    assert_eq!(titles, vec!["a", "b"]);
    let mut solana = SolanaJobs::new();
    solana.jobs.push(jobs[1].clone());
    let solana = solana.scrape(pages()).unwrap();
    assert_eq!(solana.jobs, jobs);
    assert_eq!(solana.get_url(), SOLANA_JOBS_URL);
    assert_eq!(SubstrateJobs::new().scrape(pages()).unwrap().jobs.len(), 2);
    assert_eq!(NearJobs::new().scrape(Vec::new()).unwrap().jobs.len(), 0);
    let mut broken = card(Some("c"));
    broken.link = None;
    let err = NearJobs::new().scrape(vec![card(Some("a")), broken, card(None)]).err().unwrap();
    assert!(matches!(err, Error::Iterator("apply link")));
}

fn panel() -> UseWeb3Panel {
    UseWeb3Panel {
        links: texts(&[" Rust Developer ", " Acme ", "other"]),
        spans: texts(&[" Berlin ", " 3 days "]),
        notes: texts(&[" 🌐 Remote ", " 💰 6K - 7.5K ", "🌐 Europe", "plain"]),
        action: Some(found("Apply", Some("https://acme.example/apply"))),
    }
}

#[test]
fn a_use_web3_panel_becomes_a_posting() {
    let made = UseWeb3::job_from(&panel(), USE_WEB3_URL).unwrap();
    assert_eq!(made.title, "Rust Developer");
    assert_eq!(made.company, "Acme");
    assert_eq!(made.location, "Berlin, Remote");
    assert_eq!(made.remuneration, "$6k - $7.5k");
    assert_eq!(made.tags, Vec::<String>::new());
    assert_eq!(made.apply, "https://acme.example/apply");
    assert_eq!(made.site, USE_WEB3_URL);
    assert_eq!(made.date_posted, UseWeb3::format_date_from("3 days".into()));
    let mut p = panel();
    p.notes = texts(&["🌐 Europe", "🌐 Asia", "💰 1K - 2K", "💰 3K"]);
    p.action = Some(found("Apply", None));
    let made = UseWeb3::job_from(&p, USE_WEB3_URL).unwrap();
    assert_eq!(made.location, "Berlin, Europe, Asia");
    assert_eq!(made.remuneration, "");
    assert_eq!(made.apply, "");
    let mut p = panel();
    p.spans = texts(&["Remote", "today"]);
    p.notes = texts(&["🌐 Europe"]);
    let made = UseWeb3::job_from(&p, USE_WEB3_URL).unwrap();
    assert_eq!(made.location, "Remote");
    assert_eq!(made.date_posted, UseWeb3::now_and_format());
}

#[test]
fn a_use_web3_panel_reports_the_first_missing_part() {
    let mut p = panel();
    p.links.clear();
    p.spans.clear();
    assert!(matches!(UseWeb3::job_from(&p, USE_WEB3_URL), Err(Error::Iterator("job title"))));
    let mut p = panel();
    p.links.truncate(1);
    assert!(matches!(UseWeb3::job_from(&p, USE_WEB3_URL), Err(Error::Iterator("company"))));
    let mut p = panel();
    p.spans.clear();
    assert!(matches!(UseWeb3::job_from(&p, USE_WEB3_URL), Err(Error::Iterator("location"))));
    let mut p = panel();
    p.spans.truncate(1);
    p.action = None;
    assert!(matches!(UseWeb3::job_from(&p, USE_WEB3_URL), Err(Error::Iterator("elapsed time"))));
    let mut p = panel();
    p.action = None;
    assert!(matches!(UseWeb3::job_from(&p, USE_WEB3_URL), Err(Error::Iterator("apply link"))));
    let err = UseWeb3::new().scrape(vec![panel(), p]).err().unwrap();
    assert!(matches!(err, Error::Iterator("apply link")));
}

#[test]
fn use_web3_adds_distinct_postings_to_those_it_holds() {
    let site = UseWeb3::new().scrape(vec![panel(), panel()]).unwrap();
    assert_eq!(site.jobs.len(), 1);
    let again = site.scrape(vec![panel()]).unwrap();
    assert_eq!(again.jobs.len(), 1);
    let mut other = panel();
    other.links[0] = "Go Developer".into();
    let more = again.scrape(vec![other]).unwrap();
    let titles: Vec<&str> = more.jobs.iter().map(|j| j.title.as_str()).collect();
    assert_eq!(titles, vec!["Rust Developer", "Go Developer"]);
    assert_eq!(more.get_url(), USE_WEB3_URL);
}

fn item(detail: &str, tags: &[&str]) -> CryptoJobsListItem {
    CryptoJobsListItem {
        links: vec![found(" Rust Developer ", Some("/jobs/rust-1")), found(" Acme ", None)],
        created: Some(" 2w ".into()),
        detail: Some(detail.into()),
        tags: texts(tags),
    }
}

#[test]
fn a_crypto_jobs_list_item_becomes_a_posting() {
    let made = CryptoJobsList::job_from(&item(" $ 90k-140k ", &[" Rust ", " Remote "]), CRYPTO_JOBS_LIST_URL)
        .unwrap();
    assert_eq!(made.title, "Rust Developer");
    assert_eq!(made.company, "Acme");
    assert_eq!(made.apply, "https://cryptojobslist.com/jobs/rust-1");
    assert_eq!(made.remuneration, "$90k - $140k");
    assert_eq!(made.location, "Remote");
    assert_eq!(made.tags, texts(&["Rust", "Remote"]));
    assert_eq!(made.site, CRYPTO_JOBS_LIST_URL);
    assert_eq!(made.date_posted, CryptoJobsList::format_date_from("2w".into()));
    let made = CryptoJobsList::job_from(&item(" Berlin ", &["Remote"]), CRYPTO_JOBS_LIST_URL).unwrap();
    assert_eq!(made.location, "Berlin, Remote");
    assert_eq!(made.remuneration, "");
    let made = CryptoJobsList::job_from(&item("Berlin", &["remote"]), CRYPTO_JOBS_LIST_URL).unwrap();
    assert_eq!(made.location, "Berlin");
    let made = CryptoJobsList::job_from(&item("12 applicants", &[]), CRYPTO_JOBS_LIST_URL).unwrap();
    assert_eq!(made.location, "");
    assert_eq!(made.remuneration, "");
    let made = CryptoJobsList::job_from(&item("Be the first to apply!", &["Remote"]), CRYPTO_JOBS_LIST_URL)
        .unwrap();
    assert_eq!(made.location, "Remote");
    let made = CryptoJobsList::job_from(&item("٣ Berlin", &[]), CRYPTO_JOBS_LIST_URL).unwrap();
    assert_eq!(made.location, "٣ Berlin");
}

#[test]
fn a_crypto_jobs_list_item_reports_the_first_missing_part() {
    let mut i = item("Berlin", &[]);
    i.links.clear();
    assert!(matches!(
        CryptoJobsList::job_from(&i, CRYPTO_JOBS_LIST_URL),
        Err(Error::Iterator("job title"))
    ));
    let mut i = item("Berlin", &[]);
    i.links.truncate(1);
    i.created = None;
    assert!(matches!(
        CryptoJobsList::job_from(&i, CRYPTO_JOBS_LIST_URL),
        Err(Error::Iterator("company"))
    ));
    let mut i = item("Berlin", &[]);
    i.created = None;
    i.detail = None;
    assert!(matches!(
        CryptoJobsList::job_from(&i, CRYPTO_JOBS_LIST_URL),
        Err(Error::Iterator("elapsed time"))
    ));
    let mut i = item("Berlin", &[]);
    i.detail = None;
    assert!(matches!(
        CryptoJobsList::job_from(&i, CRYPTO_JOBS_LIST_URL),
        Err(Error::Iterator("location or remuneration"))
    ));
    let err = CryptoJobsList::new().scrape(vec![item("Berlin", &[]), i]).err().unwrap();
    assert!(matches!(err, Error::Iterator("location or remuneration")));
    let site = CryptoJobsList::new()
        .scrape(vec![item("Berlin", &[]), item("Oslo", &[]), item("Berlin", &[])])
        .unwrap();
    assert_eq!(site.jobs.len(), 2);
    assert_eq!(site.jobs[1].location, "Oslo");
}

#[test]
fn a_web3_careers_date_ends_at_the_first_space() {
    let mut spaced = row("x");
    spaced.time = Some(found("", Some("2024-01-01 10:00:00 +00:00 UTC")));
    assert_eq!(Web3Careers::job_from(&spaced, WEB3_CAREERS_URL).unwrap().date_posted, "2024-01-01");
    spaced.time = Some(found("", Some(" 2024-01-01")));
    assert_eq!(Web3Careers::job_from(&spaced, WEB3_CAREERS_URL).unwrap().date_posted, "");
    spaced.time = Some(found("", Some("2024-01-01")));
    assert_eq!(Web3Careers::job_from(&spaced, WEB3_CAREERS_URL).unwrap().date_posted, "2024-01-01");
}
