//! The crawl pipeline over a site snapshot: discovery, page harvesting,
//! batching and cache files, all in one verified control flow.
//!
//! A `Site` maps addresses to what fetching them yields. Against such a
//! snapshot the whole crawl is a function of the site alone: discovery
//! reads every bucket's counts, the page source enumerates every page
//! address, each page's detail links are followed, and the records are
//! batched into uniquely named cache files. The live program drives the
//! same verified pieces from its worker threads, fetching over the
//! network instead of from a snapshot.

use vstd::prelude::*;

use vstd::pervasive::unreached;

use crate::cache::{name_wf, CacheFile};
use crate::errors::Error;
use crate::extract::{
    detail_links, discovered_page_count, discovered_word_count, link_targets, record_from_page,
    strings_view, word_definition_of, word_link_hrefs_of, word_name_of,
};
use crate::pages::{all_pages, bucket_url, bucket_url_chars, page_url_chars, PageIter, PageUrl};
use crate::records::{batch_chars, records_view, Record, RecordModel};
use crate::retry::{
    first_bad_status, lemma_first_bad_status_all_transport, resolve_attempts, AttemptOutcome,
};
use crate::worker::Worker;

verus! {

/// What fetching one address yields: a parsed document's text, or the
/// same non-success HTTP status on every attempt.
pub enum PageContent {
    /// The fetch succeeds and the document parses; this is its text.
    Html(String),
    /// Every fetch of the address answers with this non-success status.
    Status(u16),
}

/// The mathematical image of a page's content.
pub enum ContentModel {
    Html(Seq<char>),
    Status(u16),
}

impl View for PageContent {
    type V = ContentModel;

    open spec fn view(&self) -> ContentModel {
        match self {
            PageContent::Html(s) => ContentModel::Html(s@),
            PageContent::Status(c) => ContentModel::Status(*c),
        }
    }
}

/// A site snapshot: what each address answers. An address that appears
/// nowhere fails at the transport level on every attempt.
pub struct Site {
    pub pages: Vec<(String, PageContent)>,
}

/// The mathematical image of a site: its address/content pairs in
/// order.
pub open spec fn site_view(site: &Site) -> Seq<(Seq<char>, ContentModel)> {
    site.pages@.map_values(|p: (String, PageContent)| (p.0@, p.1@))
}

/// The content the site holds for an address: the first matching entry.
pub open spec fn lookup(sv: Seq<(Seq<char>, ContentModel)>, url: Seq<char>) -> Option<ContentModel>
    decreases sv.len(),
{
    if sv.len() == 0 {
        None
    } else if sv[0].0 == url {
        Some(sv[0].1)
    } else {
        lookup(sv.drop_first(), url)
    }
}

/// What fetching an address from the site yields: its document text, or
/// the status every attempt answers with — `None` for an address the
/// site does not hold, which fails below HTTP.
pub open spec fn fetch_spec(sv: Seq<(Seq<char>, ContentModel)>, url: Seq<char>) -> Result<
    Seq<char>,
    Option<u16>,
> {
    match lookup(sv, url) {
        Some(ContentModel::Html(h)) => Ok(h),
        Some(ContentModel::Status(st)) => Err(Some(st)),
        None => Err(None),
    }
}

/// Finds the first entry of the site holding `url`.
fn lookup_page<'a>(site: &'a Site, url: &String) -> (r: Option<&'a PageContent>)
    ensures
        (match r {
            Some(c) => lookup(site_view(site), url@) == Some(c@),
            None => lookup(site_view(site), url@) is None,
        }),
{
    let n: usize = site.pages.len();
    let mut i: usize = 0;
    proof {
        assert(site_view(site).skip(0) =~= site_view(site));
    }
    while i < n
        invariant
            0 <= i <= n,
            n == site.pages@.len(),
            lookup(site_view(site), url@) == lookup(site_view(site).skip(i as int), url@),
        decreases n - i,
    {
        proof {
            assert(site_view(site).skip(i as int)[0] == site_view(site)[i as int]);
            assert(site_view(site).skip(i as int).drop_first() =~= site_view(site).skip(
                i as int + 1,
            ));
        }
        if site.pages[i].0 == *url {
            return Some(&site.pages[i].1);
        }
        i = i + 1;
    }
    proof {
        assert(site_view(site).skip(n as int) =~= Seq::<(Seq<char>, ContentModel)>::empty());
    }
    None
}

/// Fetches one address from the site under the retry policy: the
/// document on success; after the bound is exhausted, a fetch error
/// carrying the first non-success status seen, or none when the address
/// fails below HTTP.
pub fn fetch_from_site(site: &Site, url: &String, max_attempts: u64) -> (r: Result<String, Error>)
    requires
        max_attempts >= 1,
    ensures
        (match r {
            Ok(h) => fetch_spec(site_view(site), url@) == Ok::<Seq<char>, Option<u16>>(h@),
            Err(e) => (fetch_spec(site_view(site), url@) matches Err(st) && (
            e.kind matches crate::errors::ErrorKind::Fetch { status } && status == st)),
        }),
{
    match lookup_page(site, url) {
        Some(PageContent::Html(h)) => Ok(h.clone()),
        Some(PageContent::Status(st)) => {
            let stv: u16 = *st;
            let mut outcomes: Vec<AttemptOutcome> = Vec::new();
            let mut i: u64 = 0;
            while i < max_attempts
                invariant
                    0 <= i <= max_attempts,
                    outcomes@.len() == i,
                    forall|k: int|
                        0 <= k < i ==> outcomes@[k] == AttemptOutcome::BadStatus(stv),
                decreases max_attempts - i,
            {
                outcomes.push(AttemptOutcome::BadStatus(stv));
                i = i + 1;
            }
            match resolve_attempts(&outcomes, max_attempts) {
                Ok(_) => unreached(),
                Err(e) => {
                    proof {
                        assert(outcomes@.take(max_attempts as int)[0]
                            == AttemptOutcome::BadStatus(stv));
                        assert(first_bad_status(outcomes@.take(max_attempts as int))
                            == Some(stv));
                    }
                    Err(e)
                },
            }
        },
        None => {
            let mut outcomes: Vec<AttemptOutcome> = Vec::new();
            let mut i: u64 = 0;
            while i < max_attempts
                invariant
                    0 <= i <= max_attempts,
                    outcomes@.len() == i,
                    forall|k: int| 0 <= k < i ==> outcomes@[k] is Transport,
                decreases max_attempts - i,
            {
                outcomes.push(AttemptOutcome::Transport);
                i = i + 1;
            }
            match resolve_attempts(&outcomes, max_attempts) {
                Ok(_) => unreached(),
                Err(e) => {
                    proof {
                        lemma_first_bad_status_all_transport(
                            outcomes@.take(max_attempts as int),
                        );
                    }
                    Err(e)
                },
            }
        },
    }
}

/// The record one detail address yields: its page's term and text, if
/// the fetch succeeds and both are present.
pub open spec fn detail_record(sv: Seq<(Seq<char>, ContentModel)>, url: Seq<char>) -> Option<
    RecordModel,
> {
    match fetch_spec(sv, url) {
        Ok(h) => (match (word_name_of(h), word_definition_of(h)) {
            (Some(t), Some(x)) => Some(RecordModel { term: t, text: x }),
            _ => None,
        }),
        Err(_) => None,
    }
}

/// The records a sequence of detail addresses yields, in order, if
/// every one of them yields one.
pub open spec fn details_records(
    sv: Seq<(Seq<char>, ContentModel)>,
    targets: Seq<Seq<char>>,
) -> Option<Seq<RecordModel>>
    decreases targets.len(),
{
    if targets.len() == 0 {
        Some(Seq::empty())
    } else {
        match (detail_record(sv, targets[0]), details_records(sv, targets.drop_first())) {
            (Some(r), Some(rest)) => Some(seq![r] + rest),
            _ => None,
        }
    }
}

/// The records one result page yields: fetch it, follow every word
/// link, one record per detail page — if the fetch succeeds, every link
/// carries its target and every detail page yields its record.
pub open spec fn page_records(sv: Seq<(Seq<char>, ContentModel)>, url: Seq<char>) -> Option<
    Seq<RecordModel>,
> {
    match fetch_spec(sv, url) {
        Ok(h) => if forall|i: int|
            0 <= i < word_link_hrefs_of(h).len() ==> (#[trigger] word_link_hrefs_of(h)[i])
                is Some {
            details_records(sv, link_targets(word_link_hrefs_of(h)))
        } else {
            None
        },
        Err(_) => None,
    }
}

/// The first detail address at or after `j` that yields no record, if
/// any.
pub open spec fn first_bad_detail(
    sv: Seq<(Seq<char>, ContentModel)>,
    targets: Seq<Seq<char>>,
    j: int,
) -> Option<int>
    decreases targets.len() - j,
{
    if j < 0 || j >= targets.len() {
        None
    } else if detail_record(sv, targets[j]) is None {
        Some(j)
    } else {
        first_bad_detail(sv, targets, j + 1)
    }
}

/// A detail address yielding no record, with every earlier one yielding
/// its record, is the first bad one.
proof fn lemma_first_bad_detail_at(
    sv: Seq<(Seq<char>, ContentModel)>,
    targets: Seq<Seq<char>>,
    i: int,
    j: int,
)
    requires
        0 <= i <= j < targets.len(),
        detail_record(sv, targets[j]) is None,
        forall|k: int| i <= k < j ==> detail_record(sv, #[trigger] targets[k]) is Some,
    ensures
        first_bad_detail(sv, targets, i) == Some(j),
    decreases j - i,
{
    if i < j {
        lemma_first_bad_detail_at(sv, targets, i + 1, j);
    }
}

/// If any detail address yields no record, the sequence yields none.
proof fn lemma_details_records_none(
    sv: Seq<(Seq<char>, ContentModel)>,
    targets: Seq<Seq<char>>,
    i: int,
)
    requires
        0 <= i < targets.len(),
        detail_record(sv, targets[i]) is None,
    ensures
        details_records(sv, targets) is None,
    decreases i,
{
    if i > 0 {
        lemma_details_records_none(sv, targets.drop_first(), i - 1);
    }
}

/// If every detail address yields its record, the sequence yields them
/// all, in order.
proof fn lemma_details_records_all(
    sv: Seq<(Seq<char>, ContentModel)>,
    targets: Seq<Seq<char>>,
    rs: Seq<RecordModel>,
)
    requires
        targets.len() == rs.len(),
        forall|j: int| 0 <= j < targets.len() ==> detail_record(sv, #[trigger] targets[j]) == Some(
            rs[j],
        ),
    ensures
        details_records(sv, targets) == Some(rs),
    decreases targets.len(),
{
    if targets.len() > 0 {
        lemma_details_records_all(sv, targets.drop_first(), rs.drop_first());
        assert(seq![rs[0]] + rs.drop_first() =~= rs);
    }
}

/// Harvests one result page: fetches it, follows every word link, and
/// returns the page's records in order. Fails exactly where the page
/// yields no records, with the failing step's kind: a failed fetch
/// carries its first status, a link without its target or a detail page
/// missing its term or text is a structural failure.
pub fn harvest_page(site: &Site, url: &String, max_attempts: u64) -> (r: Result<Vec<Record>, Error>)
    requires
        max_attempts >= 1,
    ensures
        (match r {
            Ok(recs) => page_records(site_view(site), url@) == Some(records_view(recs@)),
            Err(e) => page_records(site_view(site), url@) is None && !(e.kind is Io) && !(e.kind
                is Thread) && !(e.kind is Discovery) && (match fetch_spec(site_view(site), url@) {
                Err(st) => (e.kind matches crate::errors::ErrorKind::Fetch { status } && status
                    == st),
                Ok(h) => (if exists|i: int|
                    0 <= i < word_link_hrefs_of(h).len() && (#[trigger] word_link_hrefs_of(h)[i])
                        is None {
                    e.kind is Extraction
                } else {
                    match first_bad_detail(
                        site_view(site),
                        link_targets(word_link_hrefs_of(h)),
                        0,
                    ) {
                        Some(j) => (match fetch_spec(
                            site_view(site),
                            link_targets(word_link_hrefs_of(h))[j],
                        ) {
                            Err(st) => (e.kind matches crate::errors::ErrorKind::Fetch {
                                status,
                            } && status == st),
                            Ok(_) => e.kind is Extraction,
                        }),
                        None => false,
                    }
                }),
            }),
        }),
{
    let ghost sv = site_view(site);
    let html = match fetch_from_site(site, url, max_attempts) {
        Ok(h) => h,
        Err(e) => {
            return Err(e);
        },
    };
    let links = match detail_links(html.as_str()) {
        Ok(ls) => ls,
        Err(e) => {
            return Err(e);
        },
    };
    let ghost targets = link_targets(word_link_hrefs_of(html@));
    let n: usize = links.len();
    let mut recs: Vec<Record> = Vec::new();
    let mut i: usize = 0;
    while i < n
        invariant
            0 <= i <= n,
            n == links@.len(),
            sv == site_view(site),
            max_attempts >= 1,
            strings_view(links@) == targets,
            recs@.len() == i,
            forall|j: int|
                0 <= j < i ==> detail_record(sv, #[trigger] targets[j]) == Some(recs@[j]@),
        decreases n - i,
    {
        proof {
            assert(strings_view(links@)[i as int] == links@[i as int]@);
        }
        let detail_html = match fetch_from_site(site, &links[i], max_attempts) {
            Ok(h) => h,
            Err(e) => {
                proof {
                    lemma_details_records_none(sv, targets, i as int);
                    lemma_first_bad_detail_at(sv, targets, 0, i as int);
                }
                return Err(e);
            },
        };
        let rec = match record_from_page(detail_html.as_str()) {
            Ok(rc) => rc,
            Err(e) => {
                proof {
                    lemma_details_records_none(sv, targets, i as int);
                    lemma_first_bad_detail_at(sv, targets, 0, i as int);
                }
                return Err(e);
            },
        };
        recs.push(rec);
        i = i + 1;
    }
    proof {
        assert(records_view(recs@).len() == targets.len());
        lemma_details_records_all(sv, targets, records_view(recs@));
    }
    Ok(recs)
}

/// What discovery reads off one bucket's first page: its advertised
/// page count and item total, if the fetch succeeds and both parse.
pub open spec fn bucket_discovery(sv: Seq<(Seq<char>, ContentModel)>, b: int) -> Option<
    (u64, u64),
> {
    match fetch_spec(sv, bucket_url_chars(b)) {
        Ok(h) => (match (discovered_page_count(h), discovered_word_count(h)) {
            (Some(p), Some(w)) => Some((p, w)),
            _ => None,
        }),
        Err(_) => None,
    }
}

/// The advertised item totals of the buckets before `b`, summed.
pub open spec fn words_sum(sv: Seq<(Seq<char>, ContentModel)>, b: int) -> int
    decreases b,
{
    if b <= 0 {
        0
    } else {
        words_sum(sv, b - 1) + (match bucket_discovery(sv, b - 1) {
            Some(pw) => pw.1 as int,
            None => 0,
        })
    }
}

/// The running item total only grows as discovery proceeds.
proof fn lemma_words_sum_mono(sv: Seq<(Seq<char>, ContentModel)>, a: int, b: int)
    requires
        a <= b,
    ensures
        words_sum(sv, a) <= words_sum(sv, b),
    decreases b - a,
{
    if a < b {
        lemma_words_sum_mono(sv, a, b - 1);
    }
}

/// Whether discovery succeeds for the whole site: every bucket's first
/// page yields its counts and the running item total fits.
pub open spec fn discovery_ok(sv: Seq<(Seq<char>, ContentModel)>) -> bool {
    (forall|b: int| 0 <= b < 26 ==> (#[trigger] bucket_discovery(sv, b)) is Some) && words_sum(
        sv,
        26,
    ) <= u64::MAX
}

/// Whether discovery, run bucket by bucket, stops at bucket `b`: its
/// counts are missing or unparsable, or the running item total would no
/// longer fit.
pub open spec fn discovery_fails_at(sv: Seq<(Seq<char>, ContentModel)>, b: int) -> bool {
    bucket_discovery(sv, b) is None || words_sum(sv, b + 1) > u64::MAX
}

/// The first bucket at or after `b` that discovery stops at, if any.
pub open spec fn first_discovery_failure_from(sv: Seq<(Seq<char>, ContentModel)>, b: int) -> Option<
    int,
>
    decreases 26 - b,
{
    if b < 0 || b >= 26 {
        None
    } else if discovery_fails_at(sv, b) {
        Some(b)
    } else {
        first_discovery_failure_from(sv, b + 1)
    }
}

/// The first bucket discovery stops at, if any.
pub open spec fn first_discovery_failure(sv: Seq<(Seq<char>, ContentModel)>) -> Option<int> {
    first_discovery_failure_from(sv, 0)
}

/// A bucket discovery stops at, with every earlier bucket passing, is
/// the first failure.
proof fn lemma_first_discovery_failure_at(sv: Seq<(Seq<char>, ContentModel)>, i: int, j: int)
    requires
        0 <= i <= j < 26,
        discovery_fails_at(sv, j),
        forall|b: int| i <= b < j ==> !discovery_fails_at(sv, b),
    ensures
        first_discovery_failure_from(sv, i) == Some(j),
    decreases j - i,
{
    if i < j {
        lemma_first_discovery_failure_at(sv, i + 1, j);
    }
}

/// When no bucket stops discovery, there is no first failure.
proof fn lemma_no_discovery_failure(sv: Seq<(Seq<char>, ContentModel)>, i: int)
    requires
        forall|b: int| i <= b < 26 ==> !discovery_fails_at(sv, b),
    ensures
        first_discovery_failure_from(sv, i) is None,
    decreases 26 - i,
{
    if 0 <= i && i < 26 {
        lemma_no_discovery_failure(sv, i + 1);
    }
}

/// The page counts discovery records, one per bucket.
pub open spec fn site_counts(sv: Seq<(Seq<char>, ContentModel)>) -> Seq<Option<u64>> {
    Seq::new(
        26,
        |b: int|
            match bucket_discovery(sv, b) {
                Some(pw) => Some(pw.0),
                None => None,
            },
    )
}

/// What each enumerated page yields, in the order the source emits the
/// pages.
pub open spec fn crawl_page_records(sv: Seq<(Seq<char>, ContentModel)>) -> Seq<
    Option<Seq<RecordModel>>,
> {
    all_pages(site_counts(sv)).map_values(
        |u: PageUrl| page_records(sv, page_url_chars(u.bucket as int, u.page as nat)),
    )
}

/// Whether every enumerated page yields its records.
pub open spec fn harvest_ok(sv: Seq<(Seq<char>, ContentModel)>) -> bool {
    forall|i: int|
        0 <= i < crawl_page_records(sv).len() ==> (#[trigger] crawl_page_records(sv)[i]) is Some
}

/// Whether the whole crawl succeeds against the site.
pub open spec fn crawl_ok(sv: Seq<(Seq<char>, ContentModel)>) -> bool {
    discovery_ok(sv) && harvest_ok(sv)
}

/// The records of each enumerated page, in order, once the crawl is
/// known to succeed.
pub open spec fn crawl_pages(sv: Seq<(Seq<char>, ContentModel)>) -> Seq<Seq<RecordModel>> {
    crawl_page_records(sv).map_values(
        |o: Option<Seq<RecordModel>>|
            match o {
                Some(rs) => rs,
                None => Seq::empty(),
            },
    )
}

/// The batching a single worker performs over the pages' records, in
/// order: the flushed batches and the leftover buffer. A flush happens
/// exactly when the buffer has reached the threshold after taking in a
/// page.
pub open spec fn flush_fold(pages: Seq<Seq<RecordModel>>, threshold: int) -> (
    Seq<Seq<RecordModel>>,
    Seq<RecordModel>,
)
    decreases pages.len(),
{
    if pages.len() == 0 {
        (Seq::empty(), Seq::empty())
    } else {
        let prior = flush_fold(pages.drop_last(), threshold);
        let nb = prior.1 + pages.last();
        if nb.len() >= threshold {
            (prior.0.push(nb), Seq::empty())
        } else {
            (prior.0, nb)
        }
    }
}

/// The record batches the crawl writes, file by file: the flushed
/// batches, and the leftover flushed on exit if anything remains.
pub open spec fn crawl_chunks(sv: Seq<(Seq<char>, ContentModel)>, threshold: int) -> Seq<
    Seq<RecordModel>,
> {
    let ff = flush_fold(crawl_pages(sv), threshold);
    if ff.1.len() > 0 {
        ff.0.push(ff.1)
    } else {
        ff.0
    }
}

/// Batching loses nothing: the flushed batches and the leftover buffer
/// together hold exactly the pages' records, in order.
pub proof fn lemma_flush_fold_conserves(pages: Seq<Seq<RecordModel>>, threshold: int)
    ensures
        ({
            let ff = flush_fold(pages, threshold);
            ff.0.flatten() + ff.1 =~= pages.flatten()
        }),
    decreases pages.len(),
{
    let ff = flush_fold(pages, threshold);
    if pages.len() == 0 {
        assert(ff.0.flatten() + ff.1 =~= pages.flatten());
    } else {
        lemma_flush_fold_conserves(pages.drop_last(), threshold);
        let prior = flush_fold(pages.drop_last(), threshold);
        let nb = prior.1 + pages.last();
        pages.lemma_flatten_and_flatten_alt_are_equivalent();
        pages.drop_last().lemma_flatten_and_flatten_alt_are_equivalent();
        assert(pages.flatten_alt() == pages.drop_last().flatten_alt() + pages.last());
        if nb.len() >= threshold {
            prior.0.lemma_flatten_push(nb);
            assert(ff.0.flatten() + ff.1 =~= prior.0.flatten() + prior.1 + pages.last());
        } else {
            assert(ff.0.flatten() + ff.1 =~= prior.0.flatten() + prior.1 + pages.last());
        }
    }
}

/// No record is lost on a normal run: once the crawl succeeds, its
/// files hold exactly the records the pages yielded, in the order the
/// pages were processed.
pub proof fn lemma_crawl_conserves_records(sv: Seq<(Seq<char>, ContentModel)>, threshold: int)
    ensures
        crawl_chunks(sv, threshold).flatten() == crawl_pages(sv).flatten(),
{
    lemma_flush_fold_conserves(crawl_pages(sv), threshold);
    let ff = flush_fold(crawl_pages(sv), threshold);
    if ff.1.len() > 0 {
        ff.0.lemma_flatten_push(ff.1);
        assert(crawl_chunks(sv, threshold).flatten() =~= crawl_pages(sv).flatten());
    } else {
        assert(ff.0.flatten() + ff.1 =~= ff.0.flatten());
        assert(crawl_chunks(sv, threshold).flatten() =~= crawl_pages(sv).flatten());
    }
}

/// The serialized contents of the files the crawl writes, in order.
pub open spec fn crawl_contents(sv: Seq<(Seq<char>, ContentModel)>, threshold: int) -> Seq<
    Seq<char>,
> {
    crawl_chunks(sv, threshold).map_values(|c: Seq<RecordModel>| batch_chars(c))
}

/// Runs the whole crawl against the site: discovery over all buckets,
/// then every page harvested in order by a single worker with the given
/// flush threshold. Returns the cache files to create, their names
/// provably distinct. Succeeds exactly when every bucket discovers and
/// every page harvests (success is owed then, short of an address
/// sequence so long that the writer's file counter could not cover it);
/// any failure aborts the whole crawl with the failing step's error: a
/// bucket whose page fetched but did not discover aborts with a
/// discovery error, a failed fetch carries its first status, and a
/// harvest failure is a fetch or structural error.
pub fn run_crawl(site: &Site, threshold: usize, max_attempts: u64) -> (r: Result<
    Vec<CacheFile>,
    Error,
>)
    requires
        threshold >= 1,
        max_attempts >= 1,
    ensures
        (match r {
            Ok(files) => crawl_ok(site_view(site)) && files@.len() == crawl_contents(
                site_view(site),
                threshold as int,
            ).len() && (forall|i: int|
                0 <= i < files@.len() ==> (#[trigger] files@[i]).contents@ == crawl_contents(
                    site_view(site),
                    threshold as int,
                )[i]) && (forall|i: int|
                0 <= i < files@.len() ==> name_wf((#[trigger] files@[i]).name@, 0, i as nat)),
            Err(e) => (!crawl_ok(site_view(site)) || all_pages(site_counts(site_view(site))).len()
                >= u64::MAX) && (match first_discovery_failure(site_view(site)) {
                Some(b) => (match fetch_spec(site_view(site), bucket_url_chars(b)) {
                    Err(st) => (e.kind matches crate::errors::ErrorKind::Fetch { status }
                        && status == st),
                    Ok(_) => e.kind is Discovery,
                }),
                None => e.kind is Fetch || e.kind is Extraction || (e.kind is Io && all_pages(
                    site_counts(site_view(site)),
                ).len() >= u64::MAX),
            }),
        }),
{
    let ghost sv = site_view(site);
    let mut pages = PageIter::new();
    let mut letter: usize = 0;
    while letter < 26
        invariant
            0 <= letter <= 26,
            pages.wf(),
            pages.at_start(),
            pages.counts().len() == 26,
            forall|b: int| 0 <= b < letter ==> (#[trigger] bucket_discovery(sv, b)) is Some,
            forall|b: int|
                0 <= b < letter ==> (#[trigger] pages.counts()[b]) == Some(
                    (bucket_discovery(sv, b)->0).0,
                ),
            forall|b: int| letter <= b < 26 ==> (#[trigger] pages.counts()[b]) is None,
            pages.total() == words_sum(sv, letter as int),
            forall|b: int| 0 <= b < letter ==> !(#[trigger] discovery_fails_at(sv, b)),
        decreases 26 - letter,
    {
        let url = bucket_url(letter);
        let html = match fetch_from_site(site, &url, max_attempts) {
            Ok(h) => h,
            Err(e) => {
                proof {
                    assert(bucket_discovery(sv, letter as int) is None);
                    lemma_first_discovery_failure_at(sv, 0, letter as int);
                }
                return Err(e);
            },
        };
        match pages.update_page_count(letter, html.as_str()) {
            Ok(()) => {},
            Err(e) => {
                proof {
                    if bucket_discovery(sv, letter as int) is Some {
                        assert(discovered_page_count(html@) is Some);
                        assert(discovered_word_count(html@) is Some);
                        let w = (bucket_discovery(sv, letter as int)->0).1;
                        assert(words_sum(sv, letter as int + 1) == words_sum(sv, letter as int)
                            + w);
                        assert(words_sum(sv, letter as int + 1) > u64::MAX);
                        lemma_words_sum_mono(sv, letter as int + 1, 26);
                    }
                    assert(discovery_fails_at(sv, letter as int));
                    lemma_first_discovery_failure_at(sv, 0, letter as int);
                }
                return Err(e);
            },
        }
        proof {
            assert(words_sum(sv, letter as int + 1) == words_sum(sv, letter as int) + (
            bucket_discovery(sv, letter as int)->0).1);
        }
        letter = letter + 1;
    }
    proof {
        assert(pages.counts() =~= site_counts(sv));
        assert(pages.fully_discovered());
        assert(discovery_ok(sv));
        lemma_no_discovery_failure(sv, 0);
    }
    let urls = pages.all_page_urls();
    let ghost pageseq = crawl_pages(sv);
    let n: usize = urls.len();
    let mut worker = Worker::new(0, threshold);
    let mut files: Vec<CacheFile> = Vec::new();
    let mut k: usize = 0;
    proof {
        assert(pageseq.take(0) =~= Seq::<Seq<RecordModel>>::empty());
        assert(records_view(worker.batch@) =~= Seq::<RecordModel>::empty());
    }
    while k < n
        invariant
            0 <= k <= n,
            n == urls@.len(),
            urls@ == all_pages(site_counts(sv)),
            worker.wf(),
            worker.threshold == threshold,
            worker.writer.writer_id == 0,
            worker.writer.files_written == files@.len(),
            files@.len() <= k,
            forall|i: int| 0 <= i < k ==> (#[trigger] crawl_page_records(sv)[i]) is Some,
            files@.len() == flush_fold(pageseq.take(k as int), threshold as int).0.len(),
            forall|i: int|
                0 <= i < files@.len() ==> (#[trigger] files@[i]).contents@ == batch_chars(
                    flush_fold(pageseq.take(k as int), threshold as int).0[i],
                ),
            forall|i: int|
                0 <= i < files@.len() ==> name_wf((#[trigger] files@[i]).name@, 0, i as nat),
            records_view(worker.batch@) == flush_fold(pageseq.take(k as int), threshold as int).1,
        decreases n - k,
    {
        let ghost prior = flush_fold(pageseq.take(k as int), threshold as int);
        proof {
            assert(pageseq.take(k as int + 1).drop_last() =~= pageseq.take(k as int));
            assert(pageseq.take(k as int + 1).last() == pageseq[k as int]);
        }
        let url_str = urls[k].render();
        let recs = match harvest_page(site, &url_str, max_attempts) {
            Ok(rs) => rs,
            Err(e) => {
                proof {
                    assert(crawl_page_records(sv)[k as int] == page_records(
                        sv,
                        page_url_chars(urls@[k as int].bucket as int, urls@[k as int].page as nat),
                    ));
                    assert(!harvest_ok(sv));
                }
                return Err(e);
            },
        };
        proof {
            assert(crawl_page_records(sv)[k as int] == page_records(
                sv,
                page_url_chars(urls@[k as int].bucket as int, urls@[k as int].page as nat),
            ));
            assert(records_view(recs@) == pageseq[k as int]);
        }
        let ghost pre_worker = worker;
        let ghost added = recs@;
        let file = worker.accept_records(recs);
        proof {
            assert(records_view(pre_worker.batch@ + added) =~= records_view(pre_worker.batch@)
                + records_view(added));
        }
        match file {
            Some(f) => {
                files.push(f);
            },
            None => {},
        }
        k = k + 1;
    }
    proof {
        assert(pageseq.take(n as int) =~= pageseq);
    }
    if worker.writer.files_written == u64::MAX {
        return Err(Error::io("too many cache files in one run"));
    }
    let ghost pre_files = files@;
    let last = worker.finish();
    match last {
        Some(f) => {
            files.push(f);
        },
        None => {},
    }
    proof {
        let ff = flush_fold(pageseq, threshold as int);
        if ff.1.len() > 0 {
            assert(crawl_chunks(sv, threshold as int) == ff.0.push(ff.1));
        } else {
            assert(crawl_chunks(sv, threshold as int) == ff.0);
        }
        assert forall|i: int| 0 <= i < files@.len() implies (#[trigger] files@[i]).contents@
            == crawl_contents(sv, threshold as int)[i] by {
            assert(crawl_contents(sv, threshold as int)[i] == batch_chars(
                crawl_chunks(sv, threshold as int)[i],
            ));
        }
    }
    Ok(files)
}

/// Rerunning the crawl changes nothing: the files' contents — and so
/// the set of records in the cache — are a function of the site and the
/// threshold alone, whatever the random parts of the file names come
/// back as. Two runs that both succeed write the same contents in the
/// same order.
pub proof fn lemma_crawl_idempotent(
    sv: Seq<(Seq<char>, ContentModel)>,
    threshold: int,
    c1: Seq<Seq<char>>,
    c2: Seq<Seq<char>>,
)
    requires
        c1.len() == crawl_contents(sv, threshold).len(),
        forall|i: int| 0 <= i < c1.len() ==> #[trigger] c1[i] == crawl_contents(sv, threshold)[i],
        c2.len() == crawl_contents(sv, threshold).len(),
        forall|i: int| 0 <= i < c2.len() ==> #[trigger] c2[i] == crawl_contents(sv, threshold)[i],
    ensures
        c1 == c2,
{
    assert(c1 =~= c2);
}

} // verus!
