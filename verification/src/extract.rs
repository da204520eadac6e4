//! Reading fetched pages: detail links from a result listing, one record
//! from a detail page, and the pagination and item counts from a
//! bucket's first page.
//!
//! The HTML tree parsing and CSS selection are the work of the kuchiki
//! crate and are trusted at their boundary: each scan below is a
//! deterministic function of the document text, so its result bears an
//! uninterpreted name, and everything decided from the scanned values is
//! verified here.

use vstd::prelude::*;

use kuchiki::traits::TendrilSink;

use crate::errors::Error;
use crate::records::Record;
use crate::text::{first_token, first_token_spec, parse_u64, parse_u64_spec};

verus! {

/// The href attributes of the anchor elements whose class begins with
/// the word-link prefix, in tree order; `None` where an anchor lacks the
/// attribute.
pub uninterp spec fn word_link_hrefs_of(html: Seq<char>) -> Seq<Option<Seq<char>>>;

/// The title attributes of the pagination-item elements, in tree order;
/// `None` where an item lacks the attribute.
pub uninterp spec fn pagination_titles_of(html: Seq<char>) -> Seq<Option<Seq<char>>>;

/// The text contents of the first element displaying the bucket's total
/// item count, if one is present.
pub uninterp spec fn page_count_text_of(html: Seq<char>) -> Option<Seq<char>>;

/// The text contents of the first heading naming the word on a detail
/// page, if one is present.
pub uninterp spec fn word_name_of(html: Seq<char>) -> Option<Seq<char>>;

/// The text contents of the first section holding the word's definition
/// on a detail page, if one is present.
pub uninterp spec fn word_definition_of(html: Seq<char>) -> Option<Seq<char>>;

/// The character sequence carried by an optional string.
pub open spec fn opt_view(o: Option<String>) -> Option<Seq<char>> {
    match o {
        Some(s) => Some(s@),
        None => None,
    }
}

/// The character sequences carried by a sequence of optional strings.
pub open spec fn opts_view(s: Seq<Option<String>>) -> Seq<Option<Seq<char>>> {
    s.map_values(|o: Option<String>| opt_view(o))
}

/// The character sequences carried by a sequence of strings.
pub open spec fn strings_view(s: Seq<String>) -> Seq<Seq<char>> {
    s.map_values(|x: String| x@)
}

/// Relies on kuchiki: parses the document and selects every anchor
/// element whose class begins with `word--`, yielding each one's href
/// attribute in tree order. Parsing and selection are deterministic in
/// the document text.
#[verifier::external_body]
fn scan_word_links(html: &str) -> (r: Vec<Option<String>>)
    ensures
        opts_view(r@) == word_link_hrefs_of(html@),
{
    let document = kuchiki::parse_html().one(html);
    match document.select("a[class^=word--]") {
        Ok(matches) => matches.map(
            |m| m.attributes.borrow().get("href").map(|h| h.to_owned()),
        ).collect(),
        Err(()) => Vec::new(),
    }
}

/// Relies on kuchiki: parses the document and selects every element of
/// class `ant-pagination-item`, yielding each one's title attribute in
/// tree order. Parsing and selection are deterministic in the document
/// text.
#[verifier::external_body]
fn scan_pagination_titles(html: &str) -> (r: Vec<Option<String>>)
    ensures
        opts_view(r@) == pagination_titles_of(html@),
{
    let document = kuchiki::parse_html().one(html);
    match document.select(".ant-pagination-item") {
        Ok(matches) => matches.map(
            |m| m.attributes.borrow().get("title").map(|t| t.to_owned()),
        ).collect(),
        Err(()) => Vec::new(),
    }
}

/// Relies on kuchiki: parses the document and yields the text contents
/// of the first element whose class begins with
/// `searchList__pageCount--`, if any. Deterministic in the document
/// text.
#[verifier::external_body]
fn scan_page_count_text(html: &str) -> (r: Option<String>)
    ensures
        opt_view(r) == page_count_text_of(html@),
{
    let document = kuchiki::parse_html().one(html);
    document.select_first("div[class^=searchList__pageCount--]").ok().map(
        |e| e.text_contents(),
    )
}

/// Relies on kuchiki: parses the document and yields the text contents
/// of the first heading whose class begins with `word__name--`, if any.
/// Deterministic in the document text.
#[verifier::external_body]
fn scan_word_name(html: &str) -> (r: Option<String>)
    ensures
        opt_view(r) == word_name_of(html@),
{
    let document = kuchiki::parse_html().one(html);
    document.select_first("h1[class^=word__name--]").ok().map(|e| e.text_contents())
}

/// Relies on kuchiki: parses the document and yields the text contents
/// of the first section whose class begins with `word__defination--`
/// (the class name the site itself uses), if any. Deterministic in the
/// document text.
#[verifier::external_body]
fn scan_word_definition(html: &str) -> (r: Option<String>)
    ensures
        opt_view(r) == word_definition_of(html@),
{
    let document = kuchiki::parse_html().one(html);
    document.select_first("section[class^=word__defination--]").ok().map(
        |e| e.text_contents(),
    )
}

/// The address prefixed to every discovered detail link.
pub open spec fn base_chars() -> Seq<char> {
    "https://www.etymonline.com"@
}

/// The full detail addresses made from a listing's hrefs, assuming every
/// href is present.
pub open spec fn link_targets(hs: Seq<Option<Seq<char>>>) -> Seq<Seq<char>> {
    Seq::new(
        hs.len(),
        |i: int|
            base_chars() + (match hs[i] {
                Some(h) => h,
                None => Seq::empty(),
            }),
    )
}

/// The detail addresses listed on a result page: every word-link anchor
/// must carry an href, which is prefixed with the site's base address.
/// A matched anchor without an href is a structural failure for the
/// whole page.
pub fn detail_links(html: &str) -> (r: Result<Vec<String>, Error>)
    ensures
        (match r {
            Ok(urls) => (forall|i: int|
                0 <= i < word_link_hrefs_of(html@).len() ==> word_link_hrefs_of(html@)[i] is Some)
                && strings_view(urls@) == link_targets(word_link_hrefs_of(html@)),
            Err(e) => e.kind is Extraction && (exists|i: int|
                0 <= i < word_link_hrefs_of(html@).len() && word_link_hrefs_of(html@)[i] is None),
        }),
{
    let hrefs = scan_word_links(html);
    let mut urls: Vec<String> = Vec::new();
    let n: usize = hrefs.len();
    let mut i: usize = 0;
    while i < n
        invariant
            0 <= i <= n,
            n == hrefs@.len(),
            opts_view(hrefs@) == word_link_hrefs_of(html@),
            urls@.len() == i,
            forall|j: int| 0 <= j < i ==> word_link_hrefs_of(html@)[j] is Some,
            forall|j: int| 0 <= j < i ==> urls@[j]@ == link_targets(word_link_hrefs_of(html@))[j],
        decreases n - i,
    {
        match &hrefs[i] {
            Some(h) => {
                let mut url = String::from_str("https://www.etymonline.com");
                url.append(h.as_str());
                urls.push(url);
                proof {
                    assert(opts_view(hrefs@)[i as int] == opt_view(hrefs@[i as int]));
                }
            },
            None => {
                proof {
                    assert(opts_view(hrefs@)[i as int] == opt_view(hrefs@[i as int]));
                    assert(word_link_hrefs_of(html@)[i as int] is None);
                }
                return Err(Error::new("href attribute not found on link"));
            },
        }
        i = i + 1;
    }
    proof {
        assert(strings_view(urls@) =~= link_targets(word_link_hrefs_of(html@)));
    }
    Ok(urls)
}

/// The record on a detail page: the word heading gives the term and the
/// definition section gives the text. Either one missing is a
/// structural failure for the page.
pub fn record_from_page(html: &str) -> (r: Result<Record, Error>)
    ensures
        (match r {
            Ok(rec) => word_name_of(html@) == Some(rec.term@) && word_definition_of(html@)
                == Some(rec.text@),
            Err(e) => e.kind is Extraction && (word_name_of(html@) is None || word_definition_of(
                html@,
            ) is None),
        }),
{
    let term = match scan_word_name(html) {
        Some(t) => t,
        None => {
            return Err(Error::new("word name not found"));
        },
    };
    let text = match scan_word_definition(html) {
        Some(t) => t,
        None => {
            return Err(Error::new("word definition not found"));
        },
    };
    Ok(Record { term, text })
}

/// The page numbers advertised by a pagination control: every value, or
/// nothing if any item lacks a title or any title is not a decimal
/// number that fits.
pub open spec fn title_values(ts: Seq<Option<Seq<char>>>) -> Option<Seq<u64>>
    decreases ts.len(),
{
    if ts.len() == 0 {
        Some(Seq::empty())
    } else {
        match title_values(ts.drop_last()) {
            None => None,
            Some(vs) => match ts.last() {
                None => None,
                Some(t) => match parse_u64_spec(t) {
                    None => None,
                    Some(v) => Some(vs.push(v)),
                },
            },
        }
    }
}

/// The largest value in a sequence, zero for an empty one.
pub open spec fn seq_max(vs: Seq<u64>) -> u64
    decreases vs.len(),
{
    if vs.len() == 0 {
        0
    } else if vs.last() > seq_max(vs.drop_last()) {
        vs.last()
    } else {
        seq_max(vs.drop_last())
    }
}

/// The page count a bucket's first page advertises: the largest
/// advertised page number, if the pagination control is present,
/// complete, and parsable, and that largest number is positive.
pub open spec fn discovered_page_count(html: Seq<char>) -> Option<u64> {
    match title_values(pagination_titles_of(html)) {
        None => None,
        Some(vs) => if vs.len() == 0 || seq_max(vs) == 0 {
            None
        } else {
            Some(seq_max(vs))
        },
    }
}

/// The total item count a bucket's first page displays: the first
/// space-delimited token of the count element's text, read as a decimal
/// number, if the element is present and the token parses.
pub open spec fn discovered_word_count(html: Seq<char>) -> Option<u64> {
    match page_count_text_of(html) {
        None => None,
        Some(t) => parse_u64_spec(first_token_spec(t)),
    }
}

/// If a prefix of the titles already fails, the whole sequence fails.
proof fn lemma_title_values_none(ts: Seq<Option<Seq<char>>>, j: int)
    requires
        0 <= j <= ts.len(),
        title_values(ts.take(j)) is None,
    ensures
        title_values(ts) is None,
    decreases ts.len() - j,
{
    if j < ts.len() {
        assert(ts.take(j + 1).drop_last() =~= ts.take(j));
        lemma_title_values_none(ts, j + 1);
    } else {
        assert(ts.take(j) =~= ts);
    }
}

/// Reads a bucket's first page: the advertised page count and the
/// displayed total item count. Both must be present and parsable, and
/// the page count positive; anything less is a discovery failure, which
/// is fatal for the whole crawl.
pub fn discover_bucket(html: &str) -> (r: Result<(u64, u64), Error>)
    ensures
        (match r {
            Ok(counts) => discovered_page_count(html@) == Some(counts.0)
                && discovered_word_count(html@) == Some(counts.1),
            Err(e) => e.kind is Discovery && (discovered_page_count(html@) is None
                || discovered_word_count(html@) is None),
        }),
{
    let titles = scan_pagination_titles(html);
    let ghost tso = pagination_titles_of(html@);
    let n: usize = titles.len();
    let mut max_pages: u64 = 0;
    let ghost mut vs: Seq<u64> = Seq::empty();
    let mut i: usize = 0;
    while i < n
        invariant
            0 <= i <= n,
            n == titles@.len(),
            opts_view(titles@) == tso,
            tso == pagination_titles_of(html@),
            title_values(tso.take(i as int)) == Some(vs),
            vs.len() == i,
            max_pages == seq_max(vs),
        decreases n - i,
    {
        proof {
            assert(opts_view(titles@)[i as int] == opt_view(titles@[i as int]));
            assert(tso.take(i as int + 1).drop_last() =~= tso.take(i as int));
            assert(tso.take(i as int + 1).last() == tso[i as int]);
        }
        let title = match &titles[i] {
            Some(t) => t,
            None => {
                proof {
                    lemma_title_values_none(tso, i as int + 1);
                }
                return Err(Error::discovery("title attribute not found"));
            },
        };
        let v = match parse_u64(title.as_str()) {
            Some(v) => v,
            None => {
                proof {
                    lemma_title_values_none(tso, i as int + 1);
                }
                return Err(Error::discovery("page number did not parse"));
            },
        };
        proof {
            vs = vs.push(v);
            assert(vs.drop_last() =~= title_values(tso.take(i as int))->0);
        }
        if v > max_pages {
            max_pages = v;
        }
        i = i + 1;
    }
    proof {
        assert(tso.take(n as int) =~= tso);
    }
    if max_pages == 0 {
        return Err(Error::discovery("maximum page number not found"));
    }
    let count_text = match scan_page_count_text(html) {
        Some(t) => t,
        None => {
            return Err(Error::discovery("item count not found"));
        },
    };
    let token = first_token(count_text.as_str());
    let words = match parse_u64(token) {
        Some(w) => w,
        None => {
            return Err(Error::discovery("item count did not parse"));
        },
    };
    Ok((max_pages, words))
}

} // verus!
