use jobhunt::index::Index;
use jobhunt::order::{comes_before, sorted, Direction, Order};
use jobhunt::repository::{
    classify_levels, classify_location, classify_skills, join, lay_out, retain, same_texts, Builder,
    Fetched, Job, Level, Location, PaintedLine, Skill, SoftwareJobs, SoftwareJobsBuilder,
    NOT_AVAILABLE,
    SEPARATOR,
};
use jobhunt::scraper::Error;

fn job(title: &str, company: &str, date: &str, location: &str, site: &'static str) -> Job {
    Job {
        title: title.into(),
        company: company.into(),
        date_posted: date.into(),
        location: location.into(),
        remuneration: "$165k - $200k".into(),
        tags: vec!["tag1".into(), "tag2".into()],
        apply: site.into(),
        site,
    }
}

#[test]
fn test_software_jobs_repository() {
    let repo = SoftwareJobsBuilder::new()
        .import(vec![
            vec![
                Job {
                    title: "Engineering Manager".into(),
                    company: "Company_2".into(),
                    date_posted: "2022-07-28".into(),
                    location: "Remote".into(),
                    remuneration: "$165k - $200k".into(),
                    tags: vec!["tag1".into(), "tag2".into()],
                    apply: "https://site1.com".into(),
                    site: "https://site1.com",
                },
                Job {
                    title: "Senior Marketer".into(),
                    company: "Company_3".into(),
                    date_posted: "2022-07-29".into(),
                    location: "Remote".into(),
                    remuneration: "$165k - $200k".into(),
                    tags: vec!["tag1".into(), "tag2".into()],
                    apply: "https://site1.com".into(),
                    site: "https://site1.com",
                },
                Job {
                    title: "Platform Engineer".into(),
                    company: "Company_3".into(),
                    date_posted: "2022-07-29".into(),
                    location: "Remote".into(),
                    remuneration: "$165k - $200k".into(),
                    tags: vec!["tag1".into(), "tag2".into()],
                    apply: "https://site1.com".into(),
                    site: "https://site1.com",
                },
            ],
            vec![
                Job {
                    title: "Junior Fullstack Developer".into(),
                    company: "Company_1".into(),
                    date_posted: "2022-07-27".into(),
                    location: "Remote".into(),
                    remuneration: "$165k - $200k".into(),
                    tags: vec!["tag1".into(), "tag2".into()],
                    apply: "https://site2.com".into(),
                    site: "https://site2.com",
                },
                Job {
                    title: "Senior Backend Engineer".into(),
                    company: "Company_1".into(),
                    date_posted: "2022-07-27".into(),
                    location: "Onsite".into(),
                    remuneration: "$165k - $200k".into(),
                    tags: vec!["tag1".into(), "tag2".into()],
                    apply: "https://site2.com".into(),
                    site: "https://site2.com",
                },
                Job {
                    title: "Snr Backend Engineer".into(),
                    company: "Company_1".into(),
                    date_posted: "2022-07-27".into(),
                    location: "Onsite".into(),
                    remuneration: "$165k - $200k".into(),
                    tags: vec!["tag1".into(), "tag2".into()],
                    apply: "https://site2.com".into(),
                    site: "https://site2.com",
                },
            ],
        ])
        .filter(|job| {
            job.title_contains_any(vec!["developer", "engineer", "engineering", "technical"])
        }) // optional filter - in this case filter on software jobs
        .index();

    // check index map keys
    assert_eq!(repo.all.len(), 5);
    assert_eq!(repo.date.len(), 3);
    assert_eq!(repo.company.len(), 3);
    assert_eq!(repo.location.len(), 2);
    assert_eq!(repo.skill.len(), 3);
    assert_eq!(repo.level.len(), 3);

    // check index map values
    assert_eq!(repo.location.get(&Location::Remote).unwrap().len(), 3);
    assert_eq!(repo.skill.get(&Skill::Backend).unwrap().len(), 2);
    assert_eq!(repo.skill.get(&Skill::DevOps).unwrap().len(), 1);
    assert_eq!(repo.level.get(&Level::Senior).unwrap().len(), 2);
}

#[test]
fn lead_platform_manager_is_filed_under_both_levels_and_devops() {
    let repo = SoftwareJobsBuilder::new()
        .import(vec![vec![job(
            "Lead Platform Manager",
            "Acme",
            "2024-01-01",
            "Berlin",
            "https://a.example",
        )]])
        .index();
    assert_eq!(repo.level.len(), 2);
    assert_eq!(repo.level.get(&Level::Lead).unwrap().len(), 1);
    assert_eq!(repo.level.get(&Level::Manager).unwrap().len(), 1);
    assert_eq!(repo.skill.len(), 1);
    assert_eq!(repo.skill.get(&Skill::DevOps).unwrap().len(), 1);
    assert!(repo.skill.get(&Skill::Backend).is_none());
    assert_eq!(repo.location.get(&Location::Onsite).unwrap().len(), 1);
    assert!(repo.location.get(&Location::Remote).is_none());
}

fn plain_job(title: &str, company: &str, date: &str, location: &str, site: &'static str) -> Job {
    Job {
        title: title.into(),
        company: company.into(),
        date_posted: date.into(),
        location: location.into(),
        remuneration: String::new(),
        tags: Vec::new(),
        apply: String::new(),
        site,
    }
}

fn ok(site: &'static str, jobs: Vec<Job>) -> Fetched {
    Fetched { site, outcome: Ok(jobs) }
}

fn failed(site: &'static str, err: Error) -> Fetched {
    Fetched { site, outcome: Err(err) }
}

#[test]
fn build_returns_an_empty_collection_when_every_source_fails() {
    let (repo, notes) = SoftwareJobs::build(
        vec![
            failed("https://a.example", Error::Response(500)),
            failed("https://b.example", Error::Request("timed out".into())),
            failed("https://c.example", Error::Iterator("company")),
        ],
        |_job: &Job| true,
    );
    assert!(repo.all.is_empty());
    assert!(repo.date.is_empty());
    assert!(repo.company.is_empty());
    assert!(repo.location.is_empty());
    assert!(repo.skill.is_empty());
    assert!(repo.level.is_empty());
    assert_eq!(notes.len(), 3);
    assert_eq!(
        notes[0],
        "There was an error while scraping the site \"https://a.example\".\nResponse(500).\nJob Hunt will not be able to include jobs from this site."
    );
    assert_eq!(
        notes[1],
        "There was an error while scraping the site \"https://b.example\".\nRequest(timed out).\nJob Hunt will not be able to include jobs from this site."
    );
    assert_eq!(
        notes[2],
        "There was an error while scraping the site \"https://c.example\".\nIterator(\"company\").\nJob Hunt will not be able to include jobs from this site."
    );
}

#[test]
fn build_with_no_sources_is_empty() {
    let (repo, notes) = SoftwareJobs::build(Vec::new(), |_job: &Job| true);
    assert!(repo.all.is_empty());
    assert!(notes.is_empty());
    let (repo, notes) = SoftwareJobs::init_repo(Vec::new());
    assert!(repo.all.is_empty());
    assert!(notes.is_empty());
}

#[test]
fn indexing_twice_gives_the_same_buckets() {
    let jobs = vec![
        job("Senior Backend Engineer", "Acme", "2024-01-01", "Remote", "https://a.example"),
        job("Lead Platform Manager", "Bolt", "2024-01-02", "Berlin", "https://a.example"),
        job("Junior Frontend Developer", "Acme", "2024-01-01", "remote, EU", "https://b.example"),
    ];
    let first = SoftwareJobs::index_of(jobs.clone());
    let second = SoftwareJobs::index_of(jobs.clone());
    assert_eq!(first.all, second.all);
    for date in ["2024-01-01", "2024-01-02", "2024-01-03"] {
        assert_eq!(first.date.lookup(&date.to_string()), second.date.lookup(&date.to_string()));
    }
    for company in ["Acme", "Bolt", "Nobody"] {
        assert_eq!(
            first.company.lookup(&company.to_string()),
            second.company.lookup(&company.to_string())
        );
    }
    for class in [Location::Remote, Location::Onsite] {
        assert_eq!(first.location.lookup(&class), second.location.lookup(&class));
    }
    for skill in [Skill::Backend, Skill::Frontend, Skill::Fullstack, Skill::DevOps, Skill::Blockchain] {
        assert_eq!(first.skill.lookup(&skill), second.skill.lookup(&skill));
    }
    for level in [
        Level::Junior,
        Level::Intermediate,
        Level::Senior,
        Level::Staff,
        Level::Lead,
        Level::Principle,
        Level::Manager,
    ] {
        assert_eq!(first.level.lookup(&level), second.level.lookup(&level));
    }
    assert_eq!(first.date.len(), 2);
    assert_eq!(second.date.len(), 2);
    assert_eq!(first.date.count(&"2024-01-01".to_string()), 2);
}

#[test]
fn every_posting_is_remote_or_onsite_and_never_both() {
    for location in ["Remote", "REMOTE (US)", "Berlin", "", "fully remote", "On site", "Rémote"] {
        let posting = plain_job("Engineer", "Acme", "2024-01-01", location, "https://a.example");
        let remote = posting.is_remote();
        let class = posting.location_class();
        assert_eq!(remote, class == Location::Remote);
        assert_eq!(!remote, class == Location::Onsite);
        let repo = SoftwareJobs::index_of(vec![posting]);
        assert_eq!(repo.location.count(&Location::Remote) + repo.location.count(&Location::Onsite), 1);
        assert_eq!(repo.location.len(), 1);
    }
    assert!(plain_job("x", "y", "z", "Remote", "s").is_remote());
    assert!(plain_job("x", "y", "z", "fully remote", "s").is_remote());
    assert!(!plain_job("x", "y", "z", "Berlin", "s").is_remote());
    assert!(!plain_job("x", "y", "z", "", "s").is_remote());
    assert_eq!(classify_location("remote"), Location::Remote);
    assert_eq!(classify_location("Remote"), Location::Onsite);
}

#[test]
fn bucket_sizes_of_date_and_company_add_up_to_the_collection() {
    let repo = SoftwareJobs::index_of(vec![
        job("Senior Backend Engineer", "Acme", "2024-01-01", "Remote", "https://a.example"),
        job("Lead Platform Manager", "Bolt", "2024-01-02", "Berlin", "https://a.example"),
        job("Junior Frontend Developer", "Acme", "2024-01-01", "remote, EU", "https://b.example"),
        job("Gardener", "Cedar", "2024-01-03", "Oslo", "https://b.example"),
        job("Gardener", "Cedar", "2024-01-03", "Oslo", "https://b.example"),
    ]);
    let by_company: usize = ["Acme", "Bolt", "Cedar"]
        .iter()
        .map(|c| repo.company.count(&c.to_string()))
        .sum();
    let by_date: usize = ["2024-01-01", "2024-01-02", "2024-01-03"]
        .iter()
        .map(|d| repo.date.count(&d.to_string()))
        .sum();
    assert_eq!(repo.company.len(), 3);
    assert_eq!(repo.date.len(), 3);
    assert_eq!(by_company, repo.all.len());
    assert_eq!(by_date, repo.all.len());
    assert_eq!(by_company, 5);
    assert_eq!(repo.company.count(&"Cedar".to_string()), 2);
    // a posting that matches no heuristic is in no skill or level bucket
    assert_eq!(repo.skill.len(), 3);
    assert_eq!(repo.level.len(), 4);
}

#[test]
fn duplicates_within_one_source_are_removed() {
    let twin = || job("Backend Engineer", "Acme", "2024-01-01", "Remote", "https://a.example");
    let (repo, notes) = SoftwareJobs::build(
        vec![ok("https://a.example", vec![twin(), twin()])],
        |_job: &Job| true,
    );
    assert!(notes.is_empty());
    assert_eq!(repo.all.len(), 1);
    assert_eq!(repo.all[0], twin());
    assert_eq!(repo.company.count(&"Acme".to_string()), 1);
}

#[test]
fn duplicates_across_sources_are_kept() {
    let (repo, _) = SoftwareJobs::build(
        vec![
            ok(
                "https://a.example",
                vec![job("Backend Engineer", "Acme", "2024-01-01", "Remote", "https://a.example")],
            ),
            ok(
                "https://b.example",
                vec![job("Backend Engineer", "Acme", "2024-01-01", "Remote", "https://b.example")],
            ),
        ],
        |_job: &Job| true,
    );
    assert_eq!(repo.all.len(), 2);
    assert_eq!(repo.all[0].site, "https://a.example");
    assert_eq!(repo.all[1].site, "https://b.example");
    assert_eq!(repo.company.count(&"Acme".to_string()), 2);
}

#[test]
fn even_identical_postings_of_two_sources_are_kept() {
    let twin = || job("Backend Engineer", "Acme", "2024-01-01", "Remote", "https://a.example");
    let (repo, _) = SoftwareJobs::build(
        vec![ok("https://a.example", vec![twin()]), ok("https://b.example", vec![twin(), twin()])],
        |_job: &Job| true,
    );
    assert_eq!(repo.all.len(), 2);
}

#[test]
fn one_source_delivers_and_one_fails() {
    let (repo, notes) = SoftwareJobs::build(
        vec![
            ok(
                "https://a.example",
                vec![plain_job(
                    "Senior Backend Engineer",
                    "Acme",
                    "2024-01-01",
                    "Remote",
                    "https://a.example",
                )],
            ),
            failed("https://b.example", Error::Parser("unreadable".into())),
        ],
        |_job: &Job| true,
    );
    assert_eq!(repo.all.len(), 1);
    assert_eq!(repo.location.get(&Location::Remote).unwrap().len(), 1);
    assert_eq!(repo.skill.get(&Skill::Backend).unwrap().len(), 1);
    assert_eq!(repo.level.get(&Level::Senior).unwrap().len(), 1);
    assert_eq!(repo.company.get(&"Acme".to_string()).unwrap().len(), 1);
    assert_eq!(repo.date.get(&"2024-01-01".to_string()).unwrap().len(), 1);
    assert_eq!(notes.len(), 1);
    assert!(notes[0].contains("https://b.example"));
    assert!(notes[0].contains("Parser(unreadable)"));
}

#[test]
fn the_predicate_is_applied_before_indexing() {
    let (repo, _) = SoftwareJobs::build(
        vec![
            ok(
                "https://a.example",
                vec![
                    job("Backend Engineer", "Acme", "2024-01-01", "Remote", "https://a.example"),
                    job("Senior Marketer", "Bolt", "2024-01-02", "Berlin", "https://a.example"),
                ],
            ),
            ok(
                "https://b.example",
                vec![job("Staff Engineer", "Cedar", "2024-01-03", "Oslo", "https://b.example")],
            ),
        ],
        |job: &Job| job.title_contains("engineer"),
    );
    assert_eq!(repo.all.len(), 2);
    assert_eq!(repo.all[0].title, "Backend Engineer");
    assert_eq!(repo.all[1].title, "Staff Engineer");
    assert!(repo.company.get(&"Bolt".to_string()).is_none());
    assert!(repo.date.get(&"2024-01-02".to_string()).is_none());
    assert!(repo.level.get(&Level::Senior).is_none());
    assert_eq!(repo.location.count(&Location::Onsite), 1);
    assert_eq!(repo.location.lookup(&Location::Onsite)[0].title, "Staff Engineer");
    assert_eq!(repo.company.len(), 2);
    assert_eq!(repo.date.len(), 2);
    assert_eq!(repo.level.len(), 1);
    assert_eq!(repo.skill.len(), 1);
}

#[test]
fn init_repo_keeps_engineering_jobs_in_source_order() {
    let (repo, notes) = SoftwareJobs::init_repo(vec![
        ok(
            "https://a.example",
            vec![
                job("Engineering Manager", "Acme", "2024-01-01", "Remote", "https://a.example"),
                job("Senior Marketer", "Bolt", "2024-01-02", "Berlin", "https://a.example"),
                job("TECHNICAL Writer", "Bolt", "2024-01-02", "Berlin", "https://a.example"),
            ],
        ),
        failed("https://b.example", Error::Selector("bad selector".into())),
        ok(
            "https://c.example",
            vec![job("Rust Developer", "Cedar", "2024-01-03", "Oslo", "https://c.example")],
        ),
    ]);
    let titles: Vec<&str> = repo.all.iter().map(|j| j.title.as_str()).collect();
    assert_eq!(titles, vec!["Engineering Manager", "TECHNICAL Writer", "Rust Developer"]);
    assert_eq!(notes.len(), 1);
    assert!(notes[0].contains("Selector(\"bad selector\")"));
}

#[test]
fn titles_are_classified_by_keywords() {
    assert_eq!(classify_skills("senior backend engineer"), vec![Skill::Backend]);
    assert_eq!(
        classify_skills("fullstack devops smart contract frontend backend"),
        vec![Skill::Backend, Skill::Frontend, Skill::Fullstack, Skill::DevOps, Skill::Blockchain]
    );
    assert_eq!(classify_skills("infra lead"), vec![Skill::DevOps]);
    assert_eq!(classify_skills("platform"), vec![Skill::DevOps]);
    assert_eq!(classify_skills("blockchain and infra"), vec![Skill::DevOps, Skill::Blockchain]);
    assert_eq!(classify_skills("gardener"), Vec::<Skill>::new());
    assert_eq!(classify_skills(""), Vec::<Skill>::new());
    assert_eq!(classify_skills("Backend"), Vec::<Skill>::new());
    assert_eq!(classify_levels("lead platform manager"), vec![Level::Lead, Level::Manager]);
    assert_eq!(classify_levels("snr dev"), vec![Level::Senior]);
    assert_eq!(classify_levels("sr. dev"), vec![Level::Senior]);
    assert_eq!(classify_levels("senior"), vec![Level::Senior]);
    assert_eq!(
        classify_levels("junior intermediate staff principal"),
        vec![Level::Junior, Level::Intermediate, Level::Staff, Level::Principle]
    );
    assert_eq!(classify_levels("gardener"), Vec::<Level>::new());
    let posting = plain_job("Lead PLATFORM Manager", "Acme", "2024-01-01", "", "s");
    assert_eq!(posting.skill_areas(), vec![Skill::DevOps]);
    assert_eq!(posting.seniority(), vec![Level::Lead, Level::Manager]);
}

#[test]
fn title_and_location_matching_ignores_case_of_the_text_only() {
    let posting = plain_job("Senior BACKEND Engineer", "Acme", "2024-01-01", "REMOTE", "s");
    assert!(posting.title_contains("backend"));
    assert!(!posting.title_contains("BACKEND"));
    assert!(posting.title_contains(""));
    assert!(posting.location_contains("remote"));
    assert!(!posting.location_contains("onsite"));
    assert!(posting.title_contains_any(vec!["frontend", "engineer"]));
    assert!(!posting.title_contains_any(vec!["frontend", "gardener"]));
    assert!(!posting.title_contains_any(Vec::new()));
    assert!(posting.is_engineering());
    assert!(!plain_job("Senior Marketer", "Acme", "2024-01-01", "", "s").is_engineering());
}

#[test]
fn postings_are_equal_when_every_field_matches() {
    let a = job("Backend Engineer", "Acme", "2024-01-01", "Remote", "https://a.example");
    let mut b = a.clone();
    assert_eq!(a, b);
    b.tags.push("tag3".into());
    assert_ne!(a, b);
    let mut c = a.clone();
    c.site = "https://b.example";
    assert_ne!(a, c);
    let mut d = a.clone();
    d.remuneration = String::new();
    assert_ne!(a, d);
    assert!(same_texts(&a.tags, &a.clone().tags));
    assert!(!same_texts(&a.tags, &vec!["tag1".to_string()]));
    assert!(!same_texts(&a.tags, &vec!["tag1".to_string(), "tagX".to_string()]));
}

#[test]
fn an_index_files_postings_in_order_and_creates_buckets_on_first_use() {
    let mut index: Index<String> = Index::new();
    assert!(index.is_empty());
    assert_eq!(index.len(), 0);
    assert!(index.get(&"Acme".to_string()).is_none());
    assert!(index.lookup(&"Acme".to_string()).is_empty());
    let first = job("A", "Acme", "2024-01-01", "Remote", "s");
    let second = job("B", "Acme", "2024-01-02", "Remote", "s");
    let third = job("C", "Bolt", "2024-01-02", "Remote", "s");
    index.append("Acme".into(), first.clone());
    index.append("Bolt".into(), third.clone());
    index.append("Acme".into(), second.clone());
    assert!(!index.is_empty());
    assert_eq!(index.len(), 2);
    assert!(index.contains_key(&"Acme".to_string()));
    assert!(!index.contains_key(&"acme".to_string()));
    assert_eq!(index.get(&"Acme".to_string()).unwrap(), &vec![first.clone(), second.clone()]);
    assert_eq!(index.lookup(&"Bolt".to_string()), vec![third.clone()]);
    assert_eq!(index.count(&"Acme".to_string()), 2);
    assert_eq!(index.count(&"Cedar".to_string()), 0);

    let mut levels: Index<Level> = Index::new();
    first.index_by(Level::Senior, &mut levels);
    first.index_by_each(&vec![Level::Lead, Level::Manager], &mut levels);
    second.index_by_each(&Vec::new(), &mut levels);
    second.index_by(Level::Lead, &mut levels);
    assert_eq!(levels.len(), 3);
    assert_eq!(levels.lookup(&Level::Lead), vec![first.clone(), second.clone()]);
    assert_eq!(levels.lookup(&Level::Manager), vec![first.clone()]);
    assert!(levels.get(&Level::Junior).is_none());
}

#[test]
fn the_builder_imports_batch_after_batch_and_filters_in_place() {
    let a = job("A engineer", "Acme", "2024-01-01", "Remote", "s");
    let b = job("B", "Bolt", "2024-01-02", "Remote", "s");
    let c = job("C engineer", "Cedar", "2024-01-03", "Remote", "s");
    let repo = SoftwareJobsBuilder::new()
        .import(vec![vec![a.clone()], Vec::new(), vec![b.clone(), c.clone()]])
        .import(vec![vec![a.clone()]])
        .index();
    assert_eq!(repo.all, vec![a.clone(), b.clone(), c.clone(), a.clone()]);
    let repo = SoftwareJobsBuilder::new()
        .import(vec![vec![a.clone(), b.clone()], vec![c.clone()]])
        .filter(|job| job.title_contains("engineer"))
        .index();
    assert_eq!(repo.all, vec![a.clone(), c.clone()]);
    let none = SoftwareJobsBuilder::new().index();
    assert!(none.all.is_empty());
    assert_eq!(retain(vec![a.clone(), b.clone()], |job: &Job| job.company == "Bolt"), vec![b]);
    assert!(SoftwareJobs::default().all.is_empty());
    assert_eq!(SoftwareJobs::default().date.len(), 0);
}

#[test]
fn sorting_is_a_view_on_a_copy() {
    let a = job("A", "Acme", "2024-01-02", "Remote", "s");
    let b = job("B", "Bolt", "2024-01-01", "Remote", "s");
    let c = job("C", "Cedar", "2024-01-02", "Remote", "s");
    let d = job("D", "Acme", "2024-01-02", "Berlin", "s");
    let repo = SoftwareJobs::index_of(vec![a.clone(), b.clone(), c.clone(), d.clone()]);
    let listed = repo.all_sorted(Order { date: Direction::Ascending, company: Direction::Descending });
    assert_eq!(listed, vec![b.clone(), c.clone(), a.clone(), d.clone()]);
    let newest = repo.all_sorted(Order { date: Direction::Descending, company: Direction::Ascending });
    assert_eq!(newest, vec![a.clone(), d.clone(), c.clone(), b.clone()]);
    assert_eq!(repo.all, vec![a.clone(), b.clone(), c.clone(), d.clone()]);
    assert_eq!(sorted(&Vec::new(), Order { date: Direction::Ascending, company: Direction::Ascending }), Vec::<Job>::new());
    let order = Order { date: Direction::Ascending, company: Direction::Ascending };
    assert!(comes_before(&b, &a, order));
    assert!(!comes_before(&a, &b, order));
    assert!(comes_before(&a, &c, order));
    assert!(!comes_before(&a, &d, order));
    assert!(!comes_before(&d, &a, order));
    // a shorter text comes before its extensions, and upper case before lower case
    let short = job("S", "Ac", "2024-01-02", "Remote", "s");
    let lower = job("L", "acme", "2024-01-02", "Remote", "s");
    assert!(comes_before(&short, &a, order));
    assert!(comes_before(&a, &lower, order));
}

#[test]
fn a_posting_is_shown_line_by_line() {
    let posting = Job {
        title: "Backend Engineer".into(),
        company: "Acme".into(),
        date_posted: "2024-01-01".into(),
        location: String::new(),
        remuneration: "$1k - $2k".into(),
        tags: vec!["rust".into(), "remote".into(), "web3".into()],
        apply: String::new(),
        site: "https://a.example",
    };
    let lines: Vec<(&str, String, bool)> =
        posting.details().into_iter().map(|d| (d.label, d.value, d.link)).collect();
    assert_eq!(
        lines,
        vec![
            ("Position:", "Backend Engineer".to_string(), false),
            ("Company:", "Acme".to_string(), false),
            ("Date Posted:", "2024-01-01".to_string(), false),
            ("Location:", "Not available".to_string(), false),
            ("Remuneration:", "$1k - $2k".to_string(), false),
            ("Tags:", "[ rust, remote, web3 ]".to_string(), false),
            ("Apply:", "Not available".to_string(), false),
            ("Site:", "https://a.example".to_string(), true),
        ]
    );
    let mut linked = posting.clone();
    linked.apply = "https://a.example/1".into();
    linked.tags = Vec::new();
    let lines = linked.details();
    assert_eq!(lines[5].value, NOT_AVAILABLE);
    assert_eq!(lines[6].value, "https://a.example/1");
    assert!(lines[6].link);
    assert_eq!(join(&vec!["a".to_string()], ", "), "a");
    assert_eq!(join(&Vec::new(), ", "), "");
    assert_eq!(join(&vec!["a".to_string(), "".to_string(), "b".to_string()], "-"), "a--b");
    let shown = posting.pretty();
    assert!(shown.contains("Position:"));
    assert!(shown.contains("Backend Engineer"));
    assert!(shown.contains("[ rust, remote, web3 ]"));
    assert!(shown.contains(&SEPARATOR[..SEPARATOR.len() - 1]));
    assert_eq!(SEPARATOR.len(), 119);
    assert_eq!(shown.lines().count(), 10);
}

#[test]
fn painted_lines_are_laid_out_above_the_rule() {
    let lines = vec![
        PaintedLine { label: "Position:".into(), value: "Engineer".into() },
        PaintedLine { label: "Site:".into(), value: "".into() },
    ];
    assert_eq!(lay_out(&lines, "+--+\n"), "Position: Engineer\nSite: \n\n+--+\n");
    assert_eq!(lay_out(&Vec::new(), "rule"), "\nrule");
    let posting = job("Backend Engineer", "Acme", "2024-01-01", "Remote", "https://a.example");
    let shown = posting.pretty();
    assert_eq!(shown.matches('\n').count(), 10);
    assert!(shown.ends_with('\n'));
}
