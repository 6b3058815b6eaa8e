//! The datastore: postings, their classification, and the indexed repository
//! built from them.

use crate::index::{appended, bucket, lemma_total_insert, total, Index, IndexKey};
use crate::order::{sorted, sorted_by, Order};
use crate::paint::{bold, bright_blue, bright_green, green, plain, render};
use crate::scraper::{first_occurrences, unique, Error};
use crate::site::{scrape_error_message, scrape_error_notice};
use crate::text::{concat, contains, is_substring, lowercase, text_eq, to_lowercase};
use vstd::prelude::*;
use vstd::std_specs::cmp::PartialEqSpecImpl;

verus! {

/// The text shown in place of a field that a posting leaves empty.
pub const NOT_AVAILABLE: &'static str = "Not available";

/// The rule drawn below a posting when it is shown.
pub const SEPARATOR: &'static str =
    "+--------------------------------------------------------------------------------------------------------------------+\n";

/// A posting as a mathematical value: every field by its characters.
pub struct JobView {
    pub title: Seq<char>,
    pub company: Seq<char>,
    pub date_posted: Seq<char>,
    pub location: Seq<char>,
    pub remuneration: Seq<char>,
    pub tags: Seq<Seq<char>>,
    pub apply: Seq<char>,
    pub site: Seq<char>,
}

/// The Job struct is the repository primitive.
#[derive(Debug, Hash)]
pub struct Job {
    pub title: String,
    pub company: String,
    pub date_posted: String,
    pub location: String,
    pub remuneration: String,
    pub tags: Vec<String>,
    pub apply: String,
    pub site: &'static str,
}

impl View for Job {
    type V = JobView;

    open spec fn view(&self) -> JobView {
        JobView {
            title: self.title@,
            company: self.company@,
            date_posted: self.date_posted@,
            location: self.location@,
            remuneration: self.remuneration@,
            tags: self.tags.deep_view(),
            apply: self.apply@,
            site: self.site@,
        }
    }
}

impl DeepView for Job {
    type V = JobView;

    open spec fn deep_view(&self) -> JobView {
        self@
    }
}

/// Compares two lists of strings element by element.
pub fn same_texts(a: &Vec<String>, b: &Vec<String>) -> (same: bool)
    ensures
        same == (a.deep_view() == b.deep_view()),
{
    if a.len() != b.len() {
        assert(a.deep_view().len() != b.deep_view().len());
        return false;
    }
    let mut i: usize = 0;
    while i < a.len()
        invariant
            a.len() == b.len(),
            i <= a.len(),
            forall|k: int| 0 <= k < i ==> a[k]@ == b[k]@,
        decreases a.len() - i,
    {
        if a[i] != b[i] {
            assert(a.deep_view()[i as int] == a[i as int]@);
            assert(b.deep_view()[i as int] == b[i as int]@);
            return false;
        }
        i += 1;
    }
    assert(a.deep_view() =~= b.deep_view());
    true
}

impl Clone for Job {
    fn clone(&self) -> (copy: Self)
        ensures
            copy@ == self@,
    {
        let tags = self.tags.clone();
        assert(tags.deep_view() =~= self.tags.deep_view());
        Job {
            title: self.title.clone(),
            company: self.company.clone(),
            date_posted: self.date_posted.clone(),
            location: self.location.clone(),
            remuneration: self.remuneration.clone(),
            tags,
            apply: self.apply.clone(),
            site: self.site,
        }
    }
}

impl PartialEq for Job {
    /// Two postings are equal when every field matches.
    fn eq(&self, other: &Self) -> (same: bool) {
        self.title == other.title && self.company == other.company && self.date_posted
            == other.date_posted && self.location == other.location && self.remuneration
            == other.remuneration && same_texts(&self.tags, &other.tags) && self.apply
            == other.apply && text_eq(self.site, other.site)
    }
}

impl PartialEqSpecImpl for Job {
    open spec fn obeys_eq_spec() -> bool {
        true
    }

    open spec fn eq_spec(&self, other: &Self) -> bool {
        self@ == other@
    }
}

impl Eq for Job {

}

/// Represents specific skills for Software jobs.
#[derive(Debug, Eq, Hash, Clone, Copy, PartialEq, Structural)]
pub enum Skill {
    Backend,
    Frontend,
    Fullstack,
    DevOps,
    Blockchain,
}

/// Represents skill levels for Software jobs.
#[derive(Debug, Eq, Hash, Clone, Copy, PartialEq, Structural)]
pub enum Level {
    Junior,
    Intermediate,
    Senior,
    Staff,
    Lead,
    Principle,
    Manager,
}

/// Represents locations for Software jobs.
#[derive(Debug, Eq, Hash, Clone, Copy, PartialEq, Structural)]
pub enum Location {
    Remote,
    Onsite,
}

/// Whether a lowercased title names the given skill area: one of the area's
/// keywords occurs in it.
pub open spec fn names_skill(lower_title: Seq<char>, skill: Skill) -> bool {
    match skill {
        Skill::Backend => is_substring("backend"@, lower_title),
        Skill::Frontend => is_substring("frontend"@, lower_title),
        Skill::Fullstack => is_substring("fullstack"@, lower_title),
        Skill::DevOps => is_substring("devops"@, lower_title) || is_substring(
            "platform"@,
            lower_title,
        ) || is_substring("infra"@, lower_title),
        Skill::Blockchain => is_substring("blockchain"@, lower_title) || is_substring(
            "smart contract"@,
            lower_title,
        ),
    }
}

/// Whether a lowercased title names the given seniority level.
pub open spec fn names_level(lower_title: Seq<char>, level: Level) -> bool {
    match level {
        Level::Junior => is_substring("junior"@, lower_title),
        Level::Intermediate => is_substring("intermediate"@, lower_title),
        Level::Senior => is_substring("senior"@, lower_title) || is_substring("snr"@, lower_title)
            || is_substring("sr"@, lower_title),
        Level::Staff => is_substring("staff"@, lower_title),
        Level::Lead => is_substring("lead"@, lower_title),
        Level::Principle => is_substring("principal"@, lower_title),
        Level::Manager => is_substring("manager"@, lower_title),
    }
}

/// Whether a lowercased location text marks a posting as remote.
pub open spec fn names_remote(lower_location: Seq<char>) -> bool {
    is_substring("remote"@, lower_location)
}

/// `acc` followed by `x` if `present`, and `acc` unchanged otherwise.
pub open spec fn push_if<A>(acc: Seq<A>, present: bool, x: A) -> Seq<A> {
    if present {
        acc.push(x)
    } else {
        acc
    }
}

/// The first `n` skill areas, in declaration order, that a lowercased title
/// names.
pub open spec fn skills_named_upto(lower_title: Seq<char>, n: nat) -> Seq<Skill>
    decreases n,
{
    if n == 0 || n > 5 {
        Seq::empty()
    } else {
        let skill = skill_at((n - 1) as nat);
        push_if(
            skills_named_upto(lower_title, (n - 1) as nat),
            names_skill(lower_title, skill),
            skill,
        )
    }
}

/// The skill area at a position of the declaration order.
pub open spec fn skill_at(i: nat) -> Skill {
    if i == 0 {
        Skill::Backend
    } else if i == 1 {
        Skill::Frontend
    } else if i == 2 {
        Skill::Fullstack
    } else if i == 3 {
        Skill::DevOps
    } else {
        Skill::Blockchain
    }
}

/// The skill areas a lowercased title names, in declaration order, each at
/// most once.
pub open spec fn skills_named(lower_title: Seq<char>) -> Seq<Skill> {
    skills_named_upto(lower_title, 5)
}

/// The first `n` seniority levels, in declaration order, that a lowercased
/// title names.
pub open spec fn levels_named_upto(lower_title: Seq<char>, n: nat) -> Seq<Level>
    decreases n,
{
    if n == 0 || n > 7 {
        Seq::empty()
    } else {
        let level = level_at((n - 1) as nat);
        push_if(
            levels_named_upto(lower_title, (n - 1) as nat),
            names_level(lower_title, level),
            level,
        )
    }
}

/// The seniority level at a position of the declaration order.
pub open spec fn level_at(i: nat) -> Level {
    if i == 0 {
        Level::Junior
    } else if i == 1 {
        Level::Intermediate
    } else if i == 2 {
        Level::Senior
    } else if i == 3 {
        Level::Staff
    } else if i == 4 {
        Level::Lead
    } else if i == 5 {
        Level::Principle
    } else {
        Level::Manager
    }
}

/// The seniority levels a lowercased title names, in declaration order, each
/// at most once.
pub open spec fn levels_named(lower_title: Seq<char>) -> Seq<Level> {
    levels_named_upto(lower_title, 7)
}

/// The location class of a lowercased location text.
pub open spec fn location_named(lower_location: Seq<char>) -> Location {
    if names_remote(lower_location) {
        Location::Remote
    } else {
        Location::Onsite
    }
}

/// Whether a posting's title, lowercased, contains `pat`.
pub open spec fn title_has(job: JobView, pat: Seq<char>) -> bool {
    is_substring(pat, lowercase(job.title))
}

/// Whether a posting's title, lowercased, contains one of `pats`.
pub open spec fn title_has_any(job: JobView, pats: Seq<Seq<char>>) -> bool {
    exists|i: int| 0 <= i < pats.len() && title_has(job, #[trigger] pats[i])
}

/// Whether a posting's location, lowercased, contains `pat`.
pub open spec fn location_has(job: JobView, pat: Seq<char>) -> bool {
    is_substring(pat, lowercase(job.location))
}

/// Whether a posting is classified as remote.
pub open spec fn is_remote(job: JobView) -> bool {
    names_remote(lowercase(job.location))
}

/// The location class of a posting: always exactly one of the two.
pub open spec fn location_of(job: JobView) -> Location {
    location_named(lowercase(job.location))
}

/// Whether a posting belongs to a skill area.
pub open spec fn has_skill(job: JobView, skill: Skill) -> bool {
    names_skill(lowercase(job.title), skill)
}

/// Whether a posting belongs to a seniority level.
pub open spec fn has_level(job: JobView, level: Level) -> bool {
    names_level(lowercase(job.title), level)
}

/// Classifies a location text that has already been lowercased.
pub fn classify_location(lower_location: &str) -> (class: Location)
    ensures
        class == location_named(lower_location@),
{
    if contains(lower_location, "remote") {
        Location::Remote
    } else {
        Location::Onsite
    }
}

/// Lists the skill areas named by a title that has already been lowercased.
pub fn classify_skills(lower_title: &str) -> (skills: Vec<Skill>)
    ensures
        skills@ == skills_named(lower_title@),
{
    let mut skills: Vec<Skill> = Vec::new();
    assert(skills@ == skills_named_upto(lower_title@, 0));
    if contains(lower_title, "backend") {
        skills.push(Skill::Backend);
    }
    assert(skills@ == skills_named_upto(lower_title@, 1));
    if contains(lower_title, "frontend") {
        skills.push(Skill::Frontend);
    }
    assert(skills@ == skills_named_upto(lower_title@, 2));
    if contains(lower_title, "fullstack") {
        skills.push(Skill::Fullstack);
    }
    assert(skills@ == skills_named_upto(lower_title@, 3));
    if contains(lower_title, "devops") || contains(lower_title, "platform") || contains(
        lower_title,
        "infra",
    ) {
        skills.push(Skill::DevOps);
    }
    assert(skills@ == skills_named_upto(lower_title@, 4));
    if contains(lower_title, "blockchain") || contains(lower_title, "smart contract") {
        skills.push(Skill::Blockchain);
    }
    assert(skills@ == skills_named_upto(lower_title@, 5));
    skills
}

/// Lists the seniority levels named by a title that has already been
/// lowercased.
pub fn classify_levels(lower_title: &str) -> (levels: Vec<Level>)
    ensures
        levels@ == levels_named(lower_title@),
{
    let mut levels: Vec<Level> = Vec::new();
    assert(levels@ == levels_named_upto(lower_title@, 0));
    if contains(lower_title, "junior") {
        levels.push(Level::Junior);
    }
    assert(levels@ == levels_named_upto(lower_title@, 1));
    if contains(lower_title, "intermediate") {
        levels.push(Level::Intermediate);
    }
    assert(levels@ == levels_named_upto(lower_title@, 2));
    if contains(lower_title, "senior") || contains(lower_title, "snr") || contains(
        lower_title,
        "sr",
    ) {
        levels.push(Level::Senior);
    }
    assert(levels@ == levels_named_upto(lower_title@, 3));
    if contains(lower_title, "staff") {
        levels.push(Level::Staff);
    }
    assert(levels@ == levels_named_upto(lower_title@, 4));
    if contains(lower_title, "lead") {
        levels.push(Level::Lead);
    }
    assert(levels@ == levels_named_upto(lower_title@, 5));
    if contains(lower_title, "principal") {
        levels.push(Level::Principle);
    }
    assert(levels@ == levels_named_upto(lower_title@, 6));
    if contains(lower_title, "manager") {
        levels.push(Level::Manager);
    }
    assert(levels@ == levels_named_upto(lower_title@, 7));
    levels
}

/// Helper methods for classifying Job instances.
impl Job {
    /// Whether the lowercased title contains `pat`.
    pub fn title_contains(&self, pat: &str) -> (found: bool)
        ensures
            found == title_has(self@, pat@),
    {
        let lower = to_lowercase(self.title.as_str());
        contains(lower.as_str(), pat)
    }

    /// Whether the lowercased title contains any of the patterns in `v`.
    pub fn title_contains_any(&self, v: Vec<&str>) -> (found: bool)
        ensures
            found == title_has_any(self@, Seq::new(v@.len(), |i: int| v@[i]@)),
    {
        let ghost pats = Seq::new(v@.len(), |i: int| v@[i]@);
        let lower = to_lowercase(self.title.as_str());
        let mut i: usize = 0;
        while i < v.len()
            invariant
                i <= v.len(),
                lower@ == lowercase(self.title@),
                pats == Seq::new(v@.len(), |i: int| v@[i]@),
                forall|k: int| 0 <= k < i ==> !title_has(self@, #[trigger] pats[k]),
            decreases v.len() - i,
        {
            if contains(lower.as_str(), v[i]) {
                assert(title_has(self@, pats[i as int]));
                return true;
            }
            i += 1;
        }
        false
    }

    /// Whether the lowercased location contains `pat`.
    pub fn location_contains(&self, pat: &str) -> (found: bool)
        ensures
            found == location_has(self@, pat@),
    {
        let lower = to_lowercase(self.location.as_str());
        contains(lower.as_str(), pat)
    }

    /// Adds a copy of this posting to the index `map` under the key `t`.
    pub fn index_by<K: IndexKey>(&self, t: K, map: &mut Index<K>)
        ensures
            final(map)@ == appended(old(map)@, t@, self@),
    {
        map.append(t, self.clone());
    }

    /// Adds a copy of this posting to the index `map` under each of `keys`.
    pub fn index_by_each<K: IndexKey + Copy>(&self, keys: &Vec<K>, map: &mut Index<K>)
        ensures
            final(map)@ == appended_each(old(map)@, key_views(keys@), self@),
    {
        let ghost views = key_views(keys@);
        let mut i: usize = 0;
        while i < keys.len()
            invariant
                i <= keys.len(),
                views == key_views(keys@),
                map@ == appended_each(old(map)@, views.take(i as int), self@),
            decreases keys.len() - i,
        {
            self.index_by(keys[i], map);
            proof {
                let next = views.take(i + 1);
                assert(next.drop_last() =~= views.take(i as int));
                assert(next.last() == keys[i as int]@);
            }
            i += 1;
        }
        assert(views.take(keys.len() as int) =~= views);
    }

    /// Whether the posting is remote; otherwise it is onsite.
    pub fn is_remote(&self) -> (remote: bool)
        ensures
            remote == is_remote(self@),
    {
        self.location_contains("remote")
    }

    /// The posting's location class.
    pub fn location_class(&self) -> (class: Location)
        ensures
            class == location_of(self@),
    {
        let lower = to_lowercase(self.location.as_str());
        classify_location(lower.as_str())
    }

    /// The skill areas the posting belongs to.
    pub fn skill_areas(&self) -> (skills: Vec<Skill>)
        ensures
            skills@ == skills_named(lowercase(self@.title)),
    {
        let lower = to_lowercase(self.title.as_str());
        classify_skills(lower.as_str())
    }

    /// The seniority levels the posting belongs to.
    pub fn seniority(&self) -> (levels: Vec<Level>)
        ensures
            levels@ == levels_named(lowercase(self@.title)),
    {
        let lower = to_lowercase(self.title.as_str());
        classify_levels(lower.as_str())
    }
}

/// A posting is remote exactly when its location class is `Remote`, and
/// onsite exactly when it is not remote: the two classes exclude each other
/// and together cover every posting.
pub proof fn lemma_location_is_decided(job: JobView)
    ensures
        location_of(job) == Location::Remote <==> is_remote(job),
        location_of(job) == Location::Onsite <==> !is_remote(job),
        (location_of(job) == Location::Remote) != (location_of(job) == Location::Onsite),
{
}

/// Among the first `n` skill areas, one is listed exactly when the title
/// names it; the listed areas are distinct and come from those first `n`.
proof fn lemma_skills_named_upto(lower_title: Seq<char>, n: nat)
    requires
        n <= 5,
    ensures
        forall|skill: Skill| #[trigger]
            skills_named_upto(lower_title, n).contains(skill) <==> names_skill(lower_title, skill)
                && exists|i: nat| i < n && skill_at(i) == skill,
        skills_named_upto(lower_title, n).no_duplicates(),
    decreases n,
{
    if n > 0 {
        let m = (n - 1) as nat;
        lemma_skills_named_upto(lower_title, m);
        let before = skills_named_upto(lower_title, m);
        let after = skills_named_upto(lower_title, n);
        let added = skill_at(m);
        assert forall|skill: Skill| #[trigger]
            after.contains(skill) <==> names_skill(lower_title, skill) && exists|i: nat|
                i < n && skill_at(i) == skill by {
            if after.contains(skill) {
                let k = choose|k: int| 0 <= k < after.len() && after[k] == skill;
                if k < before.len() {
                    assert(before.contains(skill));
                    let i = choose|i: nat| i < m && skill_at(i) == skill;
                    assert(i < n && skill_at(i) == skill);
                } else {
                    assert(m < n && skill_at(m) == skill);
                }
            }
            if names_skill(lower_title, skill) && exists|i: nat| i < n && skill_at(i) == skill {
                let i = choose|i: nat| i < n && skill_at(i) == skill;
                if i < m {
                    assert(before.contains(skill));
                    let k = choose|k: int| 0 <= k < before.len() && before[k] == skill;
                    assert(after[k] == skill);
                } else {
                    assert(after[before.len() as int] == skill);
                }
            }
        }
        if before.contains(added) {
            let i = choose|i: nat| i < m && skill_at(i) == added;
            assert(false);
        }
    }
}

/// A skill area is listed for a title exactly when the title names it, and
/// no area is listed twice.
pub proof fn lemma_skills_named(lower_title: Seq<char>, skill: Skill)
    ensures
        skills_named(lower_title).contains(skill) <==> names_skill(lower_title, skill),
        skills_named(lower_title).no_duplicates(),
{
    lemma_skills_named_upto(lower_title, 5);
    let i: nat = match skill {
        Skill::Backend => 0,
        Skill::Frontend => 1,
        Skill::Fullstack => 2,
        Skill::DevOps => 3,
        Skill::Blockchain => 4,
    };
    assert(i < 5 && skill_at(i) == skill);
}

/// Among the first `n` levels, one is listed exactly when the title names it;
/// the listed levels are distinct and come from those first `n`.
proof fn lemma_levels_named_upto(lower_title: Seq<char>, n: nat)
    requires
        n <= 7,
    ensures
        forall|level: Level| #[trigger]
            levels_named_upto(lower_title, n).contains(level) <==> names_level(lower_title, level)
                && exists|i: nat| i < n && level_at(i) == level,
        levels_named_upto(lower_title, n).no_duplicates(),
    decreases n,
{
    if n > 0 {
        let m = (n - 1) as nat;
        lemma_levels_named_upto(lower_title, m);
        let before = levels_named_upto(lower_title, m);
        let after = levels_named_upto(lower_title, n);
        let added = level_at(m);
        assert forall|level: Level| #[trigger]
            after.contains(level) <==> names_level(lower_title, level) && exists|i: nat|
                i < n && level_at(i) == level by {
            if after.contains(level) {
                let k = choose|k: int| 0 <= k < after.len() && after[k] == level;
                if k < before.len() {
                    assert(before.contains(level));
                    let i = choose|i: nat| i < m && level_at(i) == level;
                    assert(i < n && level_at(i) == level);
                } else {
                    assert(m < n && level_at(m) == level);
                }
            }
            if names_level(lower_title, level) && exists|i: nat| i < n && level_at(i) == level {
                let i = choose|i: nat| i < n && level_at(i) == level;
                if i < m {
                    assert(before.contains(level));
                    let k = choose|k: int| 0 <= k < before.len() && before[k] == level;
                    assert(after[k] == level);
                } else {
                    assert(after[before.len() as int] == level);
                }
            }
        }
        if before.contains(added) {
            let i = choose|i: nat| i < m && level_at(i) == added;
            assert(false);
        }
    }
}

/// A level is listed for a title exactly when the title names it, and no
/// level is listed twice.
pub proof fn lemma_levels_named(lower_title: Seq<char>, level: Level)
    ensures
        levels_named(lower_title).contains(level) <==> names_level(lower_title, level),
        levels_named(lower_title).no_duplicates(),
{
    lemma_levels_named_upto(lower_title, 7);
    let i: nat = match level {
        Level::Junior => 0,
        Level::Intermediate => 1,
        Level::Senior => 2,
        Level::Staff => 3,
        Level::Lead => 4,
        Level::Principle => 5,
        Level::Manager => 6,
    };
    assert(i < 7 && level_at(i) == level);
}

/// The test "this posting belongs under `key`".
pub open spec fn belongs_under<K>(belongs: spec_fn(JobView, K) -> bool, key: K) -> spec_fn(
    JobView,
) -> bool {
    |job: JobView| belongs(job, key)
}

/// The postings of `jobs` that belong under `key`, in collection order.
pub open spec fn filed_under<K>(
    jobs: Seq<JobView>,
    belongs: spec_fn(JobView, K) -> bool,
    key: K,
) -> Seq<JobView> {
    jobs.filter(belongs_under(belongs, key))
}

/// The index of `jobs` under the relation `belongs`: a bucket for each key
/// that at least one posting belongs under, holding exactly the postings
/// that belong under it, in collection order.
pub open spec fn grouped<K>(jobs: Seq<JobView>, belongs: spec_fn(JobView, K) -> bool) -> Map<
    K,
    Seq<JobView>,
> {
    Map::new(
        |key: K| exists|i: int| 0 <= i < jobs.len() && belongs(#[trigger] jobs[i], key),
        |key: K| filed_under(jobs, belongs, key),
    )
}

/// A posting belongs under its literal date string.
pub open spec fn by_date() -> spec_fn(JobView, Seq<char>) -> bool {
    |job: JobView, key: Seq<char>| job.date_posted == key
}

/// A posting belongs under its literal company string.
pub open spec fn by_company() -> spec_fn(JobView, Seq<char>) -> bool {
    |job: JobView, key: Seq<char>| job.company == key
}

/// A posting belongs under its location class.
pub open spec fn by_location() -> spec_fn(JobView, Location) -> bool {
    |job: JobView, key: Location| location_of(job) == key
}

/// A posting belongs under every skill area its title names.
pub open spec fn by_skill() -> spec_fn(JobView, Skill) -> bool {
    |job: JobView, key: Skill| has_skill(job, key)
}

/// A posting belongs under every seniority level its title names.
pub open spec fn by_level() -> spec_fn(JobView, Level) -> bool {
    |job: JobView, key: Level| has_level(job, key)
}

/// The views of a list of keys.
pub open spec fn key_views<K: View>(keys: Seq<K>) -> Seq<K::V> {
    keys.map_values(|key: K| key@)
}

/// The index after filing `job` under each of `keys` in turn.
pub open spec fn appended_each<K>(index: Map<K, Seq<JobView>>, keys: Seq<K>, job: JobView) -> Map<
    K,
    Seq<JobView>,
>
    decreases keys.len(),
{
    if keys.len() == 0 {
        index
    } else {
        appended(appended_each(index, keys.drop_last(), job), keys.last(), job)
    }
}

/// Filing a posting under distinct keys creates or extends exactly the
/// buckets of those keys, by that one posting.
pub proof fn lemma_appended_each<K>(index: Map<K, Seq<JobView>>, keys: Seq<K>, job: JobView)
    requires
        keys.no_duplicates(),
    ensures
        forall|k: K| #[trigger]
            appended_each(index, keys, job).contains_key(k) <==> index.contains_key(k)
                || keys.contains(k),
        forall|k: K| #[trigger]
            bucket(appended_each(index, keys, job), k) == push_if(
                bucket(index, k),
                keys.contains(k),
                job,
            ),
    decreases keys.len(),
{
    if keys.len() > 0 {
        let front = keys.drop_last();
        let last = keys.last();
        lemma_appended_each(index, front, job);
        let mid = appended_each(index, front, job);
        let out = appended_each(index, keys, job);
        assert(!front.contains(last)) by {
            if front.contains(last) {
                let i = choose|i: int| 0 <= i < front.len() && front[i] == last;
                assert(keys[i] == keys[keys.len() - 1]);
            }
        }
        assert forall|k: K| #[trigger] keys.contains(k) <==> front.contains(k) || k == last by {
            if keys.contains(k) {
                let i = choose|i: int| 0 <= i < keys.len() && keys[i] == k;
                if i < front.len() {
                    assert(front[i] == k);
                }
            }
            if front.contains(k) {
                let i = choose|i: int| 0 <= i < front.len() && front[i] == k;
                assert(keys[i] == k);
            }
            if k == last {
                assert(keys[keys.len() - 1] == k);
            }
        }
        assert forall|k: K| #[trigger]
            out.contains_key(k) <==> index.contains_key(k) || keys.contains(k) by {
            assert(mid.contains_key(k) <==> index.contains_key(k) || front.contains(k));
        }
        assert forall|k: K| #[trigger]
            bucket(out, k) == push_if(bucket(index, k), keys.contains(k), job) by {
            assert(bucket(mid, k) == push_if(bucket(index, k), front.contains(k), job));
        }
    }
}

/// Adding one posting to a collection changes its index as follows: the
/// keys it belongs under are now present, and exactly their buckets grow,
/// by that posting at the end.
pub proof fn lemma_grouped_push<K>(
    jobs: Seq<JobView>,
    belongs: spec_fn(JobView, K) -> bool,
    job: JobView,
)
    ensures
        forall|k: K| #[trigger]
            grouped(jobs.push(job), belongs).contains_key(k) <==> grouped(
                jobs,
                belongs,
            ).contains_key(k) || belongs(job, k),
        forall|k: K| #[trigger]
            bucket(grouped(jobs.push(job), belongs), k) == push_if(
                bucket(grouped(jobs, belongs), k),
                belongs(job, k),
                job,
            ),
{
    let more = jobs.push(job);
    assert(more.drop_last() =~= jobs);
    assert forall|k: K| #[trigger]
        grouped(more, belongs).contains_key(k) <==> grouped(jobs, belongs).contains_key(k)
            || belongs(job, k) by {
        if grouped(more, belongs).contains_key(k) {
            let i = choose|i: int| 0 <= i < more.len() && belongs(#[trigger] more[i], k);
            if i < jobs.len() {
                assert(belongs(jobs[i], k));
            }
        }
        if grouped(jobs, belongs).contains_key(k) {
            let i = choose|i: int| 0 <= i < jobs.len() && belongs(#[trigger] jobs[i], k);
            assert(belongs(more[i], k));
        }
        if belongs(job, k) {
            assert(belongs(more[jobs.len() as int], k));
        }
    }
    assert forall|k: K| #[trigger]
        bucket(grouped(more, belongs), k) == push_if(
            bucket(grouped(jobs, belongs), k),
            belongs(job, k),
            job,
        ) by {
        lemma_filed_under_present(jobs, belongs, k);
        lemma_filed_under_present(more, belongs, k);
        jobs.lemma_filter_push(job, belongs_under(belongs, k));
    }
}

/// A key has a bucket exactly when some posting is filed under it; where it
/// has none, nothing is filed under it.
pub proof fn lemma_filed_under_present<K>(
    jobs: Seq<JobView>,
    belongs: spec_fn(JobView, K) -> bool,
    key: K,
)
    ensures
        grouped(jobs, belongs).contains_key(key) <==> filed_under(jobs, belongs, key).len() > 0,
        bucket(grouped(jobs, belongs), key) == filed_under(jobs, belongs, key),
    decreases jobs.len(),
{
    reveal(Seq::filter);
    if jobs.len() > 0 {
        let front = jobs.drop_last();
        lemma_filed_under_present(front, belongs, key);
        if grouped(jobs, belongs).contains_key(key) {
            let i = choose|i: int| 0 <= i < jobs.len() && belongs(#[trigger] jobs[i], key);
            if i < front.len() {
                assert(belongs(front[i], key));
            }
        }
        if grouped(front, belongs).contains_key(key) {
            let i = choose|i: int| 0 <= i < front.len() && belongs(#[trigger] front[i], key);
            assert(belongs(jobs[i], key));
        }
        if belongs(jobs.last(), key) {
            assert(belongs(jobs[jobs.len() - 1], key));
        }
    }
}

/// Where a posting belongs under exactly one key, adding it to the collection
/// files it under that key and changes nothing else.
pub proof fn lemma_grouped_step<K>(
    jobs: Seq<JobView>,
    belongs: spec_fn(JobView, K) -> bool,
    job: JobView,
    key: K,
)
    requires
        forall|k: K| #[trigger] belongs(job, k) <==> k == key,
    ensures
        grouped(jobs.push(job), belongs) == appended(grouped(jobs, belongs), key, job),
{
    lemma_grouped_push(jobs, belongs, job);
    let before = grouped(jobs, belongs);
    let after = grouped(jobs.push(job), belongs);
    let target = appended(before, key, job);
    assert forall|k: K| #[trigger] after.contains_key(k) <==> target.contains_key(k) by {
        assert(after.contains_key(k) <==> before.contains_key(k) || belongs(job, k));
    }
    assert forall|k: K| after.contains_key(k) implies #[trigger] after[k] == target[k] by {
        assert(bucket(after, k) == push_if(bucket(before, k), belongs(job, k), job));
    }
    assert(after =~= target);
}

/// Where `keys` lists, without repetition, the keys a posting belongs under,
/// adding the posting to the collection files it under each of them and
/// changes nothing else.
pub proof fn lemma_grouped_step_each<K>(
    jobs: Seq<JobView>,
    belongs: spec_fn(JobView, K) -> bool,
    job: JobView,
    keys: Seq<K>,
)
    requires
        keys.no_duplicates(),
        forall|k: K| #[trigger] belongs(job, k) <==> keys.contains(k),
    ensures
        grouped(jobs.push(job), belongs) == appended_each(grouped(jobs, belongs), keys, job),
{
    lemma_grouped_push(jobs, belongs, job);
    let before = grouped(jobs, belongs);
    lemma_appended_each(before, keys, job);
    let after = grouped(jobs.push(job), belongs);
    let target = appended_each(before, keys, job);
    assert forall|k: K| #[trigger] after.contains_key(k) <==> target.contains_key(k) by {
        assert(after.contains_key(k) <==> before.contains_key(k) || belongs(job, k));
        assert(target.contains_key(k) <==> before.contains_key(k) || keys.contains(k));
    }
    assert forall|k: K| after.contains_key(k) implies #[trigger] after[k] == target[k] by {
        assert(bucket(after, k) == push_if(bucket(before, k), belongs(job, k), job));
        assert(bucket(target, k) == push_if(bucket(before, k), keys.contains(k), job));
    }
    assert(after =~= target);
}

/// Represents a repository for Software jobs: the collection and its five
/// indices.
#[derive(Debug)]
pub struct SoftwareJobs {
    pub all: Vec<Job>,
    pub date: Index<String>,
    pub company: Index<String>,
    pub location: Index<Location>,
    pub skill: Index<Skill>,
    pub level: Index<Level>,
}

impl SoftwareJobs {
    /// The repository holds the collection `jobs`, and each of its indices is
    /// the index of `jobs` under its own relation.
    pub open spec fn indexes(&self, jobs: Seq<JobView>) -> bool {
        &&& self.all.deep_view() == jobs
        &&& self.date@ == grouped(jobs, by_date())
        &&& self.company@ == grouped(jobs, by_company())
        &&& self.location@ == grouped(jobs, by_location())
        &&& self.skill@ == grouped(jobs, by_skill())
        &&& self.level@ == grouped(jobs, by_level())
    }

    /// The indices agree with the collection.
    pub open spec fn wf(&self) -> bool {
        self.indexes(self.all.deep_view())
    }

    /// The repository holds no posting and none of its indices has a bucket.
    pub open spec fn is_blank(&self) -> bool {
        &&& self.all@ == Seq::<Job>::empty()
        &&& self.date@ == Map::<Seq<char>, Seq<JobView>>::empty()
        &&& self.company@ == Map::<Seq<char>, Seq<JobView>>::empty()
        &&& self.location@ == Map::<Location, Seq<JobView>>::empty()
        &&& self.skill@ == Map::<Skill, Seq<JobView>>::empty()
        &&& self.level@ == Map::<Level, Seq<JobView>>::empty()
    }

    /// The five indices hold what those of `other` hold.
    pub open spec fn same_indices(&self, other: SoftwareJobs) -> bool {
        &&& self.date@ == other.date@
        &&& self.company@ == other.company@
        &&& self.location@ == other.location@
        &&& self.skill@ == other.skill@
        &&& self.level@ == other.level@
    }

    /// Indexes a collection from scratch.
    pub fn index_of(all: Vec<Job>) -> (repo: SoftwareJobs)
        ensures
            repo.all@ == all@,
            repo.indexes(all.deep_view()),
    {
        let mut date: Index<String> = Index::new();
        let mut company: Index<String> = Index::new();
        let mut location: Index<Location> = Index::new();
        let mut skill: Index<Skill> = Index::new();
        let mut level: Index<Level> = Index::new();
        let ghost jobs = all.deep_view();
        proof {
            lemma_grouped_empty::<Seq<char>>(by_date());
            lemma_grouped_empty::<Seq<char>>(by_company());
            lemma_grouped_empty::<Location>(by_location());
            lemma_grouped_empty::<Skill>(by_skill());
            lemma_grouped_empty::<Level>(by_level());
            assert(jobs.take(0) =~= Seq::<JobView>::empty());
        }
        let mut i: usize = 0;
        while i < all.len()
            invariant
                i <= all.len(),
                jobs == all.deep_view(),
                date@ == grouped(jobs.take(i as int), by_date()),
                company@ == grouped(jobs.take(i as int), by_company()),
                location@ == grouped(jobs.take(i as int), by_location()),
                skill@ == grouped(jobs.take(i as int), by_skill()),
                level@ == grouped(jobs.take(i as int), by_level()),
            decreases all.len() - i,
        {
            let job = &all[i];
            let ghost seen = jobs.take(i as int);
            proof {
                assert(jobs[i as int] == job@);
                assert(jobs.take(i + 1) =~= seen.push(job@));
            }
            // index by attribute
            job.index_by(job.date_posted.clone(), &mut date);
            job.index_by(job.company.clone(), &mut company);
            // index by location
            job.index_by(job.location_class(), &mut location);
            // index by skill
            let skills = job.skill_areas();
            job.index_by_each(&skills, &mut skill);
            // index by level
            let levels = job.seniority();
            job.index_by_each(&levels, &mut level);
            proof {
                lemma_grouped_step(seen, by_date(), job@, job@.date_posted);
                lemma_grouped_step(seen, by_company(), job@, job@.company);
                lemma_grouped_step(seen, by_location(), job@, location_of(job@));
                assert(key_views(skills@) =~= skills@);
                assert forall|k: Skill| #[trigger] by_skill()(job@, k) <==> skills@.contains(k) by {
                    lemma_skills_named(lowercase(job@.title), k);
                }
                lemma_skills_named(lowercase(job@.title), Skill::Backend);
                lemma_grouped_step_each(seen, by_skill(), job@, skills@);
                assert(key_views(levels@) =~= levels@);
                assert forall|k: Level| #[trigger] by_level()(job@, k) <==> levels@.contains(k) by {
                    lemma_levels_named(lowercase(job@.title), k);
                }
                lemma_levels_named(lowercase(job@.title), Level::Junior);
                lemma_grouped_step_each(seen, by_level(), job@, levels@);
            }
            i += 1;
        }
        assert(jobs.take(all.len() as int) =~= jobs);
        SoftwareJobs { all, date, company, location, skill, level }
    }
}

impl Default for SoftwareJobs {
    /// The empty repository.
    fn default() -> (repo: Self)
        ensures
            repo.is_blank(),
            repo.wf(),
    {
        let all: Vec<Job> = Vec::new();
        proof {
            assert(all.deep_view() =~= Seq::<JobView>::empty());
            lemma_grouped_empty::<Seq<char>>(by_date());
            lemma_grouped_empty::<Seq<char>>(by_company());
            lemma_grouped_empty::<Location>(by_location());
            lemma_grouped_empty::<Skill>(by_skill());
            lemma_grouped_empty::<Level>(by_level());
        }
        SoftwareJobs::index_of(all)
    }
}

/// The index of the empty collection has no buckets.
pub proof fn lemma_grouped_empty<K>(belongs: spec_fn(JobView, K) -> bool)
    ensures
        grouped(Seq::<JobView>::empty(), belongs) == Map::<K, Seq<JobView>>::empty(),
{
    assert(grouped(Seq::<JobView>::empty(), belongs) =~= Map::<K, Seq<JobView>>::empty());
}

/// Indexing is a function of the collection: two repositories that index
/// the same collection have the same buckets with the same contents.
pub proof fn lemma_index_is_determined(a: SoftwareJobs, b: SoftwareJobs, jobs: Seq<JobView>)
    requires
        a.indexes(jobs),
        b.indexes(jobs),
    ensures
        a.all.deep_view() == b.all.deep_view(),
        a.date@ == b.date@,
        a.company@ == b.company@,
        a.location@ == b.location@,
        a.skill@ == b.skill@,
        a.level@ == b.level@,
{
}

/// The items of `items` whose verdict is `true`, in order.
pub open spec fn pick<A>(items: Seq<A>, verdicts: Seq<bool>) -> Seq<A>
    decreases items.len(),
{
    if items.len() == 0 || verdicts.len() != items.len() {
        Seq::empty()
    } else {
        push_if(pick(items.drop_last(), verdicts.drop_last()), verdicts.last(), items.last())
    }
}

/// `after` is what `condition` lets through of `before`: there is one
/// verdict of `condition` for each posting of `before`, and `after` holds, in
/// order, exactly the postings whose verdict was `true`.
pub open spec fn selected_by<F: Fn(&Job) -> bool>(
    condition: F,
    before: Seq<Job>,
    after: Seq<Job>,
) -> bool {
    exists|verdicts: Seq<bool>|
        {
            &&& verdicts.len() == before.len()
            &&& forall|i: int|
                0 <= i < before.len() ==> call_ensures(
                    condition,
                    (&before[i],),
                    #[trigger] verdicts[i],
                )
            &&& #[trigger] pick(before, verdicts) == after
        }
}

/// The concatenation of a list of batches, in order.
pub open spec fn concatenated(batches: Seq<Vec<Job>>) -> Seq<Job>
    decreases batches.len(),
{
    if batches.len() == 0 {
        Seq::empty()
    } else {
        concatenated(batches.drop_last()) + batches.last()@
    }
}

/// Picking by verdicts that agree with a predicate is filtering by it.
pub proof fn lemma_pick_is_filter<A>(items: Seq<A>, verdicts: Seq<bool>, pred: spec_fn(A) -> bool)
    requires
        verdicts.len() == items.len(),
        forall|i: int| 0 <= i < items.len() ==> #[trigger] verdicts[i] == pred(items[i]),
    ensures
        pick(items, verdicts) == items.filter(pred),
    decreases items.len(),
{
    reveal(Seq::filter);
    if items.len() > 0 {
        lemma_pick_is_filter(items.drop_last(), verdicts.drop_last(), pred);
    }
}

/// Where every verdict a condition can give on a posting is the value of
/// `pred` on it, what the condition lets through is the filter by `pred`.
pub proof fn lemma_selected_is_filter<F: Fn(&Job) -> bool>(
    condition: F,
    before: Seq<Job>,
    after: Seq<Job>,
    pred: spec_fn(Job) -> bool,
)
    requires
        selected_by(condition, before, after),
        forall|job: &Job, verdict: bool| #[trigger]
            call_ensures(condition, (job,), verdict) ==> verdict == pred(*job),
    ensures
        after == before.filter(pred),
{
    let verdicts = choose|verdicts: Seq<bool>|
        {
            &&& verdicts.len() == before.len()
            &&& forall|i: int|
                0 <= i < before.len() ==> call_ensures(
                    condition,
                    (&before[i],),
                    #[trigger] verdicts[i],
                )
            &&& #[trigger] pick(before, verdicts) == after
        };
    lemma_pick_is_filter(before, verdicts, pred);
}

/// Keeps the postings that `condition` accepts, in order.
pub fn retain<F: Fn(&Job) -> bool>(jobs: Vec<Job>, condition: F) -> (kept: Vec<Job>)
    requires
        forall|job: &Job| call_requires(condition, (job,)),
    ensures
        selected_by(condition, jobs@, kept@),
{
    let mut kept: Vec<Job> = Vec::new();
    let ghost mut verdicts = Seq::<bool>::empty();
    let ghost before = jobs@;
    for job in it: jobs
        invariant
            forall|job: &Job| call_requires(condition, (job,)),
            it.seq() == before,
            verdicts.len() == it.index(),
            forall|i: int|
                0 <= i < verdicts.len() ==> call_ensures(
                    condition,
                    (&before[i],),
                    #[trigger] verdicts[i],
                ),
            kept@ == pick(before.take(it.index() as int), verdicts),
    {
        let keep = condition(&job);
        proof {
            let n = it.index() as int;
            let grown = verdicts.push(keep);
            assert(grown.drop_last() =~= verdicts);
            assert(before.take(n + 1).drop_last() =~= before.take(n));
            assert(before.take(n + 1).last() == job);
            verdicts = grown;
        }
        if keep {
            kept.push(job);
        }
    }
    assert(before.take(before.len() as int) =~= before);
    assert(pick(before, verdicts) == kept@);
    kept
}

/// All repository builder structs must implement the Builder trait for some
/// repository type Output. This provides the basic ETL operations.
pub trait Builder: Sized {
    /// The Output type for the builder.
    type Output;

    /// The postings gathered so far, in order.
    spec fn gathered(&self) -> Seq<Job>;

    /// What a finished repository owes to the postings it was built from.
    spec fn completes(jobs: Seq<Job>, output: &Self::Output) -> bool;

    /// Initialises the repository with default fields.
    fn new() -> (builder: Self)
        ensures
            builder.gathered() == Seq::<Job>::empty(),
    ;

    /// Takes a vector of Job vectors (one per website scraped) and imports
    /// all Jobs into the repository, batch after batch.
    fn import(self, jobs: Vec<Vec<Job>>) -> (builder: Self)
        ensures
            builder.gathered() == self.gathered() + concatenated(jobs@),
    ;

    /// An optional filter to keep only jobs of interest.
    fn filter<F: Fn(&Job) -> bool>(self, condition: F) -> (builder: Self)
        requires
            forall|job: &Job| call_requires(condition, (job,)),
        ensures
            selected_by(condition, self.gathered(), builder.gathered()),
    ;

    /// Indexes Job instances for quick searching. The index method is the
    /// completing method for the repository builder and must return the
    /// repository type Output.
    fn index(self) -> (output: Self::Output)
        ensures
            Self::completes(self.gathered(), &output),
    ;
}

/// Represents a repository builder for Software jobs.
pub struct SoftwareJobsBuilder(SoftwareJobs);

impl SoftwareJobsBuilder {
    /// The repository that the builder holds while it is at work.
    pub closed spec fn held(&self) -> SoftwareJobs {
        self.0
    }
}

impl Builder for SoftwareJobsBuilder {
    type Output = SoftwareJobs;

    closed spec fn gathered(&self) -> Seq<Job> {
        self.0.all@
    }

    open spec fn completes(jobs: Seq<Job>, output: &SoftwareJobs) -> bool {
        output.all@ == jobs && output.wf()
    }

    fn new() -> (builder: Self)
        ensures
            builder.held().is_blank(),
            builder.held().wf(),
            builder.held().all@ == builder.gathered(),
    {
        SoftwareJobsBuilder(SoftwareJobs::default())
    }

    fn import(self, jobs: Vec<Vec<Job>>) -> (builder: Self)
        ensures
            builder.held().all@ == builder.gathered(),
            builder.held().same_indices(self.held()),
    {
        // duplicate job posts are kept if they are from different sites: the
        // user can choose which site to apply from
        let SoftwareJobsBuilder(repo) = self;
        let SoftwareJobs { all, date, company, location, skill, level } = repo;
        let mut all = all;
        let ghost start = all@;
        let ghost batches = jobs@;
        for batch in it: jobs
            invariant
                it.seq() == batches,
                all@ == start + concatenated(batches.take(it.index() as int)),
        {
            let mut batch = batch;
            proof {
                let n = it.index() as int;
                assert(batches.take(n + 1).drop_last() =~= batches.take(n));
                assert(batches.take(n + 1).last() == batch);
                assert(start + concatenated(batches.take(n + 1)) =~= all@ + batch@);
            }
            all.append(&mut batch);
        }
        assert(batches.take(batches.len() as int) =~= batches);
        SoftwareJobsBuilder(SoftwareJobs { all, date, company, location, skill, level })
    }

    fn filter<F: Fn(&Job) -> bool>(self, condition: F) -> (builder: Self)
        ensures
            builder.held().all@ == builder.gathered(),
            builder.held().same_indices(self.held()),
    {
        let SoftwareJobsBuilder(repo) = self;
        let SoftwareJobs { all, date, company, location, skill, level } = repo;
        let all = retain(all, condition);
        SoftwareJobsBuilder(SoftwareJobs { all, date, company, location, skill, level })
    }

    fn index(self) -> (output: SoftwareJobs) {
        let SoftwareJobsBuilder(repo) = self;
        SoftwareJobs::index_of(repo.all)
    }
}

/// What one source delivered: the postings it lists, or the reason it could
/// not be scraped.
#[derive(Debug)]
pub struct Fetched {
    /// The address of the source.
    pub site: &'static str,
    /// The outcome of fetching it.
    pub outcome: Result<Vec<Job>, Error>,
}

/// What a source contributes to the collection: its postings without exact
/// duplicates, or nothing if it failed.
pub open spec fn contribution(fetched: Fetched) -> Seq<Job> {
    match fetched.outcome {
        Ok(jobs) => first_occurrences(jobs@),
        Err(_) => Seq::empty(),
    }
}

/// The contributions of all sources, concatenated in the order in which the
/// sources are listed.
pub open spec fn merged(sources: Seq<Fetched>) -> Seq<Job>
    decreases sources.len(),
{
    if sources.len() == 0 {
        Seq::empty()
    } else {
        merged(sources.drop_last()) + contribution(sources.last())
    }
}

/// The notices for the sources that failed, in the order in which the
/// sources are listed.
pub open spec fn notices(sources: Seq<Fetched>) -> Seq<Seq<char>>
    decreases sources.len(),
{
    if sources.len() == 0 {
        Seq::empty()
    } else {
        let last = sources.last();
        match last.outcome {
            Ok(_) => notices(sources.drop_last()),
            Err(err) => notices(sources.drop_last()).push(
                scrape_error_notice(last.site@, err.debug_view()),
            ),
        }
    }
}

/// Where every source failed, nothing is merged.
pub proof fn lemma_merged_all_failed(sources: Seq<Fetched>)
    requires
        forall|i: int| 0 <= i < sources.len() ==> (#[trigger] sources[i]).outcome is Err,
    ensures
        merged(sources) == Seq::<Job>::empty(),
    decreases sources.len(),
{
    if sources.len() > 0 {
        lemma_merged_all_failed(sources.drop_last());
        assert(sources[sources.len() - 1].outcome is Err);
        assert(merged(sources) =~= Seq::<Job>::empty());
    }
}

/// Nothing can be picked from an empty collection.
pub proof fn lemma_selected_from_nothing<F: Fn(&Job) -> bool>(condition: F, after: Seq<Job>)
    requires
        selected_by(condition, Seq::<Job>::empty(), after),
    ensures
        after == Seq::<Job>::empty(),
{
}

/// Whether a posting is an engineering job: its title, lowercased, contains
/// one of "developer", "engineer", "engineering" and "technical".
pub open spec fn is_engineering(job: JobView) -> bool {
    title_has(job, "developer"@) || title_has(job, "engineer"@) || title_has(
        job,
        "engineering"@,
    ) || title_has(job, "technical"@)
}

/// The test "this posting is an engineering job".
pub open spec fn engineering_only() -> spec_fn(Job) -> bool {
    |job: Job| is_engineering(job@)
}

impl Job {
    /// Whether the posting is an engineering job.
    pub fn is_engineering(&self) -> (wanted: bool)
        ensures
            wanted == is_engineering(self@),
    {
        let mut keywords: Vec<&str> = Vec::new();
        keywords.push("developer");
        keywords.push("engineer");
        keywords.push("engineering");
        keywords.push("technical");
        let ghost pats = Seq::new(keywords@.len(), |i: int| keywords@[i]@);
        proof {
            assert(pats[0] == "developer"@);
            assert(pats[1] == "engineer"@);
            assert(pats[2] == "engineering"@);
            assert(pats[3] == "technical"@);
            if is_engineering(self@) {
                assert(title_has(self@, pats[0]) || title_has(self@, pats[1]) || title_has(
                    self@,
                    pats[2],
                ) || title_has(self@, pats[3]));
            }
        }
        self.title_contains_any(keywords)
    }
}

impl SoftwareJobs {
    /// Builds a repository from what the sources delivered. A source that
    /// failed contributes nothing and a notice; the others contribute their
    /// postings without exact duplicates. The contributions are joined in the
    /// order of the sources, the postings that `keep` rejects are left
    /// out, and the rest is indexed.
    pub fn build<F: Fn(&Job) -> bool>(sources: Vec<Fetched>, keep: F) -> (built: (
        SoftwareJobs,
        Vec<String>,
    ))
        requires
            forall|job: &Job| call_requires(keep, (job,)),
        ensures
            selected_by(keep, merged(sources@), built.0.all@),
            built.0.wf(),
            built.1.deep_view() == notices(sources@),
            (forall|i: int| 0 <= i < sources.len() ==> (#[trigger] sources[i]).outcome is Err)
                ==> built.0.all@ == Seq::<Job>::empty(),
    {
        let mut batches: Vec<Vec<Job>> = Vec::new();
        let mut diagnostics: Vec<String> = Vec::new();
        let ghost listed = sources@;
        for source in it: sources
            invariant
                it.seq() == listed,
                concatenated(batches@) == merged(listed.take(it.index() as int)),
                diagnostics.deep_view() == notices(listed.take(it.index() as int)),
        {
            let ghost n = it.index() as int;
            let ghost noted = diagnostics.deep_view();
            proof {
                assert(listed.take(n + 1).drop_last() =~= listed.take(n));
                assert(listed.take(n + 1).last() == source);
            }
            let Fetched { site, outcome } = source;
            match outcome {
                Ok(jobs) => {
                    let batch = unique(jobs);
                    assert(batches@.push(batch).drop_last() =~= batches@);
                    batches.push(batch);
                },
                Err(err) => {
                    let notice = scrape_error_message(site, &err);
                    diagnostics.push(notice);
                    assert(diagnostics.deep_view() =~= noted.push(notice@));
                    let batch: Vec<Job> = Vec::new();
                    assert(batches@.push(batch).drop_last() =~= batches@);
                    batches.push(batch);
                    assert(concatenated(batches@) =~= merged(listed.take(n)));
                },
            }
        }
        proof {
            assert(listed.take(listed.len() as int) =~= listed);
            if forall|i: int| 0 <= i < listed.len() ==> (#[trigger] listed[i]).outcome is Err {
                lemma_merged_all_failed(listed);
            }
        }
        let builder = SoftwareJobsBuilder::new().import(batches);
        assert(builder.gathered() =~= merged(listed));
        let repo = builder.filter(keep).index();
        proof {
            if merged(listed) == Seq::<Job>::empty() {
                lemma_selected_from_nothing(keep, repo.all@);
            }
        }
        (repo, diagnostics)
    }

    /// Initialises a repository for Software jobs from what the sources
    /// delivered: the engineering jobs among the merged postings, indexed.
    pub fn init_repo(sources: Vec<Fetched>) -> (built: (SoftwareJobs, Vec<String>))
        ensures
            built.0.all@ == merged(sources@).filter(engineering_only()),
            built.0.wf(),
            built.1.deep_view() == notices(sources@),
    {
        // optional filter - in this case filter on engineering jobs
        let engineering = |job: &Job| -> (wanted: bool)
            ensures
                wanted == is_engineering(job@),
            { job.is_engineering() };
        let built = SoftwareJobs::build(sources, engineering);
        proof {
            lemma_selected_is_filter(engineering, merged(sources@), built.0.all@, engineering_only());
        }
        built
    }
}

/// Where every posting belongs under exactly one key, the one that `key_of`
/// gives, the buckets of the index partition the collection: there are
/// finitely many, and their sizes add up to the size of the collection.
pub proof fn lemma_grouped_total<K>(
    jobs: Seq<JobView>,
    belongs: spec_fn(JobView, K) -> bool,
    key_of: spec_fn(JobView) -> K,
)
    requires
        forall|job: JobView, k: K| #[trigger] belongs(job, k) <==> k == key_of(job),
    ensures
        grouped(jobs, belongs).dom().finite(),
        total(grouped(jobs, belongs)) == jobs.len(),
    decreases jobs.len(),
{
    if jobs.len() == 0 {
        lemma_grouped_empty(belongs);
        assert(jobs =~= Seq::<JobView>::empty());
        assert(grouped(jobs, belongs).dom() =~= Set::<K>::empty());
    } else {
        let front = jobs.drop_last();
        let last = jobs.last();
        lemma_grouped_total(front, belongs, key_of);
        let key = key_of(last);
        lemma_grouped_step(front, belongs, last, key);
        assert(front.push(last) =~= jobs);
        lemma_total_insert(
            grouped(front, belongs),
            key,
            bucket(grouped(front, belongs), key).push(last),
        );
    }
}

/// In a consistent repository the bucket sizes of the date index add up to
/// the size of the collection, and so do those of the company index and
/// those of the location index.
pub proof fn lemma_indices_cover(repo: SoftwareJobs)
    requires
        repo.wf(),
    ensures
        repo.date@.dom().finite(),
        total(repo.date@) == repo.all@.len(),
        repo.company@.dom().finite(),
        total(repo.company@) == repo.all@.len(),
        repo.location@.dom().finite(),
        total(repo.location@) == repo.all@.len(),
{
    let jobs = repo.all.deep_view();
    lemma_grouped_total(jobs, by_date(), |job: JobView| job.date_posted);
    lemma_grouped_total(jobs, by_company(), |job: JobView| job.company);
    lemma_grouped_total(jobs, by_location(), |job: JobView| location_of(job));
}

/// One line of a posting as it is shown: a label, the value behind it, and
/// whether the value is shown as a link.
#[derive(Debug)]
pub struct Detail {
    pub label: &'static str,
    pub value: String,
    pub link: bool,
}

impl View for Detail {
    type V = (Seq<char>, Seq<char>, bool);

    open spec fn view(&self) -> (Seq<char>, Seq<char>, bool) {
        (self.label@, self.value@, self.link)
    }
}

impl DeepView for Detail {
    type V = (Seq<char>, Seq<char>, bool);

    open spec fn deep_view(&self) -> (Seq<char>, Seq<char>, bool) {
        self@
    }
}

/// A text, or the notice that stands for an empty one.
pub open spec fn or_not_available(text: Seq<char>) -> Seq<char> {
    if text.len() == 0 {
        NOT_AVAILABLE@
    } else {
        text
    }
}

/// The texts joined by `sep`.
pub open spec fn joined(texts: Seq<Seq<char>>, sep: Seq<char>) -> Seq<char>
    decreases texts.len(),
{
    if texts.len() == 0 {
        Seq::empty()
    } else if texts.len() == 1 {
        texts[0]
    } else {
        joined(texts.drop_last(), sep) + sep + texts.last()
    }
}

/// The tags as they are shown: in brackets and separated by commas, or the
/// notice that stands for none.
pub open spec fn tags_shown(tags: Seq<Seq<char>>) -> Seq<char> {
    if tags.len() == 0 {
        NOT_AVAILABLE@
    } else {
        "[ "@ + joined(tags, ", "@) + " ]"@
    }
}

/// The lines in which a posting is shown.
pub open spec fn details_of(job: JobView) -> Seq<(Seq<char>, Seq<char>, bool)> {
    seq![
        ("Position:"@, job.title, false),
        ("Company:"@, job.company, false),
        ("Date Posted:"@, job.date_posted, false),
        ("Location:"@, or_not_available(job.location), false),
        ("Remuneration:"@, or_not_available(job.remuneration), false),
        ("Tags:"@, tags_shown(job.tags), false),
        ("Apply:"@, or_not_available(job.apply), job.apply.len() > 0),
        ("Site:"@, job.site, true),
    ]
}

/// Joins texts with a separator between each two.
pub fn join(texts: &Vec<String>, sep: &str) -> (out: String)
    ensures
        out@ == joined(texts.deep_view(), sep@),
{
    let ghost all = texts.deep_view();
    let mut out = String::new();
    let mut i: usize = 0;
    assert(all.take(0) =~= Seq::<Seq<char>>::empty());
    while i < texts.len()
        invariant
            i <= texts.len(),
            all == texts.deep_view(),
            out@ == joined(all.take(i as int), sep@),
        decreases texts.len() - i,
    {
        proof {
            assert(all.take(i + 1).drop_last() =~= all.take(i as int));
            assert(all.take(i + 1).last() == texts[i as int]@);
            assert(all.take(1)[0] == all[0]);
        }
        if i > 0 {
            out = concat(out.as_str(), sep);
            out = concat(out.as_str(), texts[i].as_str());
        } else {
            out = texts[i].clone();
        }
        i += 1;
    }
    assert(all.take(texts.len() as int) =~= all);
    out
}

/// A text, or the notice that stands for an empty one.
fn shown(text: &str) -> (out: String)
    ensures
        out@ == or_not_available(text@),
{
    if text.unicode_len() == 0 {
        NOT_AVAILABLE.to_owned()
    } else {
        text.to_owned()
    }
}

impl Job {
    /// The lines in which the posting is shown, without colours.
    pub fn details(&self) -> (lines: Vec<Detail>)
        ensures
            lines.deep_view() == details_of(self@),
    {
        let tags = if self.tags.len() > 0 {
            let list = join(&self.tags, ", ");
            let open = concat("[ ", list.as_str());
            concat(open.as_str(), " ]")
        } else {
            NOT_AVAILABLE.to_owned()
        };
        let mut lines: Vec<Detail> = Vec::new();
        lines.push(Detail { label: "Position:", value: self.title.clone(), link: false });
        lines.push(Detail { label: "Company:", value: self.company.clone(), link: false });
        lines.push(Detail { label: "Date Posted:", value: self.date_posted.clone(), link: false });
        lines.push(
            Detail { label: "Location:", value: shown(self.location.as_str()), link: false },
        );
        lines.push(
            Detail {
                label: "Remuneration:",
                value: shown(self.remuneration.as_str()),
                link: false,
            },
        );
        lines.push(Detail { label: "Tags:", value: tags, link: false });
        lines.push(
            Detail {
                label: "Apply:",
                value: shown(self.apply.as_str()),
                link: self.apply.as_str().unicode_len() > 0,
            },
        );
        lines.push(Detail { label: "Site:", value: self.site.to_owned(), link: true });
        assert(lines.deep_view() =~= details_of(self@));
        lines
    }

    /// The posting as it is shown on a terminal: one line for each detail,
    /// the label in bold bright green, the value in green or, for a link, in
    /// bright blue; then an empty line and a rule in green. What the colours
    /// add to each text depends on the terminal; how the painted texts are
    /// laid out does not.
    pub fn pretty(&self) -> (shown: String)
        ensures
            exists|painted: Seq<(Seq<char>, Seq<char>)>, rule: Seq<char>|
                painted.len() == details_of(self@).len() && shown@ == #[trigger] laid_out(
                    painted,
                    rule,
                ),
    {
        let lines = self.details();
        let mut painted: Vec<PaintedLine> = Vec::new();
        let mut i: usize = 0;
        while i < lines.len()
            invariant
                i <= lines.len(),
                painted.len() == i,
            decreases lines.len() - i,
        {
            let label = render(&bright_green(bold(plain(lines[i].label))));
            let value = if lines[i].link {
                render(&bright_blue(plain(lines[i].value.as_str())))
            } else {
                render(&green(plain(lines[i].value.as_str())))
            };
            painted.push(PaintedLine { label, value });
            i += 1;
        }
        let rule = render(&green(plain(SEPARATOR)));
        let shown = lay_out(&painted, rule.as_str());
        assert(painted.deep_view().len() == lines.deep_view().len());
        assert(shown@ == laid_out(painted.deep_view(), rule@));
        shown
    }
}

/// One line of a posting with its colours applied: the painted label and the
/// painted value.
#[derive(Debug)]
pub struct PaintedLine {
    pub label: String,
    pub value: String,
}

impl View for PaintedLine {
    type V = (Seq<char>, Seq<char>);

    open spec fn view(&self) -> (Seq<char>, Seq<char>) {
        (self.label@, self.value@)
    }
}

impl DeepView for PaintedLine {
    type V = (Seq<char>, Seq<char>);

    open spec fn deep_view(&self) -> (Seq<char>, Seq<char>) {
        self@
    }
}

/// The lines one below the other: on each its label, a space and its value.
pub open spec fn lines_text(lines: Seq<(Seq<char>, Seq<char>)>) -> Seq<char>
    decreases lines.len(),
{
    if lines.len() == 0 {
        Seq::empty()
    } else {
        lines_text(lines.drop_last()) + lines.last().0 + " "@ + lines.last().1 + "\n"@
    }
}

/// A posting as it is laid out: its lines, an empty line, and the rule.
pub open spec fn laid_out(lines: Seq<(Seq<char>, Seq<char>)>, rule: Seq<char>) -> Seq<char> {
    lines_text(lines) + "\n"@ + rule
}

/// Lays out the painted lines of a posting above the painted rule.
pub fn lay_out(lines: &Vec<PaintedLine>, rule: &str) -> (out: String)
    ensures
        out@ == laid_out(lines.deep_view(), rule@),
{
    let ghost all = lines.deep_view();
    let mut out = String::new();
    let mut i: usize = 0;
    assert(all.take(0) =~= Seq::<(Seq<char>, Seq<char>)>::empty());
    while i < lines.len()
        invariant
            i <= lines.len(),
            all == lines.deep_view(),
            out@ == lines_text(all.take(i as int)),
        decreases lines.len() - i,
    {
        proof {
            assert(all.take(i + 1).drop_last() =~= all.take(i as int));
            assert(all.take(i + 1).last() == lines[i as int]@);
        }
        out = concat(out.as_str(), lines[i].label.as_str());
        out = concat(out.as_str(), " ");
        out = concat(out.as_str(), lines[i].value.as_str());
        out = concat(out.as_str(), "\n");
        i += 1;
    }
    assert(all.take(lines.len() as int) =~= all);
    out = concat(out.as_str(), "\n");
    concat(out.as_str(), rule)
}

impl SoftwareJobs {
    /// The whole collection in the given order, as a copy: the repository
    /// itself stays as it is.
    pub fn all_sorted(&self, order: Order) -> (listed: Vec<Job>)
        ensures
            listed.deep_view() == sorted_by(self.all.deep_view(), order),
    {
        sorted(&self.all, order)
    }
}

} // verus!
