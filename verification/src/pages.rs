//! The page source: alphabetic index buckets, their discovered page
//! counts, and the finite sequence of result-page addresses.
//!
//! Discovery records, bucket by bucket, how many result pages a bucket
//! has and how many items it advertises. Once every bucket's count is
//! known, the source enumerates one address per page: buckets in
//! alphabetical order, page numbers ascending from one within each
//! bucket. An address is only ever produced for a bucket whose count is
//! already known.

use vstd::prelude::*;

use vstd::pervasive::unreached;

use crate::errors::Error;
use crate::extract::{discover_bucket, discovered_page_count, discovered_word_count};
use crate::text::{dec_chars, to_decimal};

verus! {

/// The number of alphabetic index buckets.
pub const BUCKET_COUNT: usize = 26;

/// The alphabet that names the buckets.
pub open spec fn alphabet() -> Seq<char> {
    "abcdefghijklmnopqrstuvwxyz"@
}

/// The letter naming bucket `b`.
pub open spec fn letter_char(b: int) -> char {
    alphabet()[b]
}

/// The letter naming bucket `b`, as a one-character string.
pub fn letter_str(b: usize) -> (r: &'static str)
    requires
        b < 26,
    ensures
        r@ =~= seq![letter_char(b as int)],
{
    let a = "abcdefghijklmnopqrstuvwxyz";
    proof {
        reveal_strlit("abcdefghijklmnopqrstuvwxyz");
        assert(a.is_ascii());
    }
    a.substring_ascii(b, b + 1)
}

/// The address of a bucket's first result page, fetched during
/// discovery.
pub open spec fn bucket_url_chars(b: int) -> Seq<char> {
    "https://www.etymonline.com/search?q="@ + seq![letter_char(b)]
}

/// The address of one result page of one bucket.
pub open spec fn page_url_chars(b: int, page: nat) -> Seq<char> {
    "https://www.etymonline.com/search?q="@ + seq![letter_char(b)] + "&page="@ + dec_chars(page)
}

/// Builds the address of bucket `b`'s first result page.
pub fn bucket_url(b: usize) -> (r: String)
    requires
        b < 26,
    ensures
        r@ == bucket_url_chars(b as int),
{
    let mut out = String::from_str("https://www.etymonline.com/search?q=");
    out.append(letter_str(b));
    out
}

/// One page of search results for one bucket: the bucket's index and a
/// page number counted from one.
#[derive(Clone, Copy, Debug, PartialEq, Eq, Structural)]
pub struct PageUrl {
    pub bucket: usize,
    pub page: u64,
}

impl PageUrl {
    /// A meaningful page address names a real bucket and a positive page
    /// number.
    pub open spec fn wf(self) -> bool {
        self.bucket < 26 && self.page >= 1
    }

    /// Renders the full address of this page.
    pub fn render(&self) -> (r: String)
        requires
            self.wf(),
        ensures
            r@ == page_url_chars(self.bucket as int, self.page as nat),
    {
        let mut out = String::from_str("https://www.etymonline.com/search?q=");
        out.append(letter_str(self.bucket));
        out.append("&page=");
        let digits = to_decimal(self.page);
        out.append(digits.as_str());
        out
    }
}

/// The addresses of pages `from..=count` of bucket `b`, in ascending
/// page order.
pub open spec fn bucket_pages_from(b: int, from: nat, count: nat) -> Seq<PageUrl> {
    Seq::new(
        if from <= count {
            (count - from + 1) as nat
        } else {
            0
        },
        |i: int| (PageUrl { bucket: b as usize, page: (from + i) as u64 }),
    )
}

/// The addresses of every page of bucket `b`, page numbers one up to its
/// count, in order.
pub open spec fn bucket_pages(b: int, count: nat) -> Seq<PageUrl> {
    bucket_pages_from(b, 1, count)
}

/// The page counts recorded so far: one optional count per bucket.
pub open spec fn counts_wf(counts: Seq<Option<u64>>) -> bool {
    counts.len() == 26 && (forall|i: int|
        0 <= i < 26 ==> ((#[trigger] counts[i]) matches Some(c) ==> c >= 1))
}

/// The count recorded for bucket `b`, zero while unknown.
pub open spec fn count_of(counts: Seq<Option<u64>>, b: int) -> nat {
    match counts[b] {
        Some(c) => c as nat,
        None => 0,
    }
}

/// The addresses of every page of every bucket from `b` on, buckets in
/// alphabetical order, page numbers ascending within each bucket.
pub open spec fn pages_from_bucket(counts: Seq<Option<u64>>, b: int) -> Seq<PageUrl>
    decreases 26 - b,
{
    if b < 0 || b >= 26 {
        Seq::empty()
    } else {
        bucket_pages(b, count_of(counts, b)) + pages_from_bucket(counts, b + 1)
    }
}

/// The full address sequence the source emits: every bucket, every page.
pub open spec fn all_pages(counts: Seq<Option<u64>>) -> Seq<PageUrl> {
    pages_from_bucket(counts, 0)
}

/// The sum of the recorded page counts of the buckets from `b` on.
pub open spec fn sum_counts_from(counts: Seq<Option<u64>>, b: int) -> int
    decreases 26 - b,
{
    if b < 0 || b >= 26 {
        0
    } else {
        count_of(counts, b) + sum_counts_from(counts, b + 1)
    }
}

/// The total length of the emitted address sequence equals the sum of
/// the per-bucket page counts.
pub proof fn lemma_total_pages(counts: Seq<Option<u64>>, b: int)
    ensures
        pages_from_bucket(counts, b).len() == sum_counts_from(counts, b),
    decreases 26 - b,
{
    if 0 <= b < 26 {
        lemma_total_pages(counts, b + 1);
    }
}

/// Bucket `b` contributes exactly its count of addresses, with page
/// numbers one up to the count, in order.
pub proof fn lemma_bucket_pages_exact(b: int, count: nat)
    requires
        0 <= b < 26,
    ensures
        bucket_pages(b, count).len() == count,
        forall|i: int|
            0 <= i < count ==> bucket_pages(b, count)[i] == (PageUrl {
                bucket: b as usize,
                page: (i + 1) as u64,
            }),
{
}

/// The page source. Discovery fills in one page count per bucket;
/// afterwards the source walks the full address sequence.
pub struct PageIter {
    curr_letter: usize,
    curr_page: u64,
    letter_page_counts: Vec<Option<u64>>,
    total_words: u64,
}

impl PageIter {
    /// The recorded page counts, one per bucket.
    pub closed spec fn counts(self) -> Seq<Option<u64>> {
        self.letter_page_counts@
    }

    /// The advertised item total accumulated during discovery.
    pub closed spec fn total(self) -> u64 {
        self.total_words
    }

    /// The source's internal invariant: a real cursor position and
    /// positive recorded counts.
    pub closed spec fn wf(self) -> bool {
        &&& counts_wf(self.counts())
        &&& self.curr_letter <= 26
        &&& self.curr_letter < 26 ==> 1 <= self.curr_page
        &&& self.curr_letter < 26 ==> self.curr_page <= count_of(
            self.counts(),
            self.curr_letter as int,
        ) || count_of(self.counts(), self.curr_letter as int) == 0
    }

    /// Whether the cursor still stands at the very first address, as it
    /// does throughout discovery.
    pub closed spec fn at_start(self) -> bool {
        self.curr_letter == 0 && self.curr_page == 1
    }

    /// Whether every bucket's page count is known.
    pub open spec fn fully_discovered(self) -> bool {
        forall|i: int| 0 <= i < 26 ==> self.counts()[i] is Some
    }

    /// The addresses the source has yet to emit.
    pub closed spec fn remaining(self) -> Seq<PageUrl> {
        if self.curr_letter >= 26 {
            Seq::empty()
        } else {
            bucket_pages_from(
                self.curr_letter as int,
                self.curr_page as nat,
                count_of(self.counts(), self.curr_letter as int),
            ) + pages_from_bucket(self.counts(), self.curr_letter as int + 1)
        }
    }

    /// A fresh source: no count known yet, cursor at the first page of
    /// the first bucket.
    pub fn new() -> (r: PageIter)
        ensures
            r.wf(),
            r.at_start(),
            r.counts() == Seq::new(26, |i: int| None::<u64>),
            r.total() == 0,
            r.remaining() == all_pages(r.counts()),
    {
        let mut counts: Vec<Option<u64>> = Vec::new();
        let mut i: usize = 0;
        while i < 26
            invariant
                0 <= i <= 26,
                counts@.len() == i,
                forall|j: int| 0 <= j < i ==> counts@[j] is None,
            decreases 26 - i,
        {
            counts.push(None);
            i = i + 1;
        }
        let r = PageIter { curr_letter: 0, curr_page: 1, letter_page_counts: counts, total_words: 0 };
        proof {
            assert(r.counts() =~= Seq::new(26, |i: int| None::<u64>));
            assert(r.remaining() =~= all_pages(r.counts()));
        }
        r
    }

    /// How many discovery steps the crawl makes: one per bucket. A
    /// progress display can start from this before any count is known.
    pub fn estimate_length(&self) -> (r: u64)
        ensures
            r == 26,
    {
        26
    }

    /// The advertised item total accumulated so far, the determinate
    /// progress length once discovery completes.
    pub fn length(&self) -> (r: u64)
        ensures
            r == self.total(),
    {
        self.total_words
    }

    /// Records what bucket `letter`'s first page advertises: its page
    /// count and its item total. Fails with a discovery error, leaving
    /// the source unchanged, if the page does not advertise both
    /// cleanly or the running item total would not fit.
    pub fn update_page_count(&mut self, letter: usize, html: &str) -> (r: Result<(), Error>)
        requires
            old(self).wf(),
            letter < 26,
            old(self).at_start(),
        ensures
            final (self).wf(),
            final (self).at_start(),
            final (self).remaining() == all_pages(final (self).counts()),
            (match r {
                Ok(()) => {
                    &&& discovered_page_count(html@) matches Some(p)
                    &&& discovered_word_count(html@) matches Some(w)
                    &&& final (self).counts() == old(self).counts().update(
                        letter as int,
                        Some(p),
                    )
                    &&& final (self).total() == old(self).total() + w
                },
                Err(e) => {
                    &&& e.kind is Discovery
                    &&& *final (self) == *old(self)
                    &&& (discovered_page_count(html@) is None || discovered_word_count(html@)
                        is None || (discovered_word_count(html@) matches Some(w) && old(
                        self,
                    ).total() + w > u64::MAX))
                },
            }),
    {
        let (pages, words) = match discover_bucket(html) {
            Ok(c) => c,
            Err(e) => {
                proof {
                    self.lemma_remaining_at_start();
                }
                return Err(e);
            },
        };
        let total = match self.total_words.checked_add(words) {
            Some(t) => t,
            None => {
                proof {
                    self.lemma_remaining_at_start();
                }
                return Err(Error::discovery("item total does not fit"));
            },
        };
        let ghost pre = self.letter_page_counts@;
        self.letter_page_counts.remove(letter);
        self.letter_page_counts.insert(letter, Some(pages));
        self.total_words = total;
        proof {
            assert(self.letter_page_counts@ =~= pre.update(letter as int, Some(pages)));
            self.lemma_remaining_at_start();
        }
        Ok(())
    }

    /// A well-formed source records only well-formed counts: one
    /// optional count per bucket, every recorded one positive.
    pub proof fn lemma_wf_counts(self)
        requires
            self.wf(),
        ensures
            counts_wf(self.counts()),
    {
    }

    /// While the cursor stands at the very first address — as it does
    /// throughout discovery — the source has the whole address sequence
    /// ahead of it: every page of every bucket, in order.
    pub proof fn lemma_remaining_at_start(self)
        requires
            self.at_start(),
        ensures
            self.remaining() == all_pages(self.counts()),
    {
        assert(self.remaining() =~= all_pages(self.counts()));
    }

    /// Emits the next page address, or nothing once every bucket is
    /// exhausted: buckets in alphabetical order, page numbers ascending
    /// within each bucket. Requires every bucket's count to be known: an
    /// address is only ever produced for a bucket whose count is
    /// recorded.
    pub fn next(&mut self) -> (r: Option<PageUrl>)
        requires
            old(self).wf(),
            old(self).fully_discovered(),
        ensures
            final (self).wf(),
            final (self).fully_discovered(),
            final (self).counts() == old(self).counts(),
            final (self).total() == old(self).total(),
            (match r {
                Some(url) => old(self).remaining().len() > 0 && url == old(self).remaining()[0]
                    && url.wf() && final (self).remaining() == old(self).remaining().drop_first(),
                None => old(self).remaining().len() == 0 && final (self).remaining() == old(
                    self,
                ).remaining(),
            }),
    {
        if self.curr_letter >= 26 {
            return None;
        }
        let count = match self.letter_page_counts[self.curr_letter] {
            Some(c) => c,
            None => unreached(),
        };
        let url = PageUrl { bucket: self.curr_letter, page: self.curr_page };
        let ghost pre = *self;
        if self.curr_page >= count {
            self.curr_page = 1;
            self.curr_letter = self.curr_letter + 1;
        } else {
            self.curr_page = self.curr_page + 1;
        }
        proof {
            let b = pre.curr_letter as int;
            let c = count_of(pre.counts(), b);
            if pre.curr_page < count {
                assert(self.remaining() =~= pre.remaining().drop_first());
            } else {
                assert(bucket_pages_from(b, pre.curr_page as nat, c).len() == 1);
                if self.curr_letter < 26 {
                    assert(self.remaining() =~= pre.remaining().drop_first());
                } else {
                    assert(pages_from_bucket(pre.counts(), b + 1) =~= Seq::<PageUrl>::empty());
                    assert(self.remaining() =~= pre.remaining().drop_first());
                }
            }
        }
        Some(url)
    }

    /// The full address sequence, precomputed: every bucket in
    /// alphabetical order, every page number from one to the bucket's
    /// count. Requires every bucket's count to be known.
    pub fn all_page_urls(&self) -> (r: Vec<PageUrl>)
        requires
            self.wf(),
            self.fully_discovered(),
        ensures
            r@ == all_pages(self.counts()),
            r@.len() == sum_counts_from(self.counts(), 0),
            forall|i: int| 0 <= i < r@.len() ==> (#[trigger] r@[i]).wf(),
    {
        let mut out: Vec<PageUrl> = Vec::new();
        let mut b: usize = 0;
        while b < 26
            invariant
                0 <= b <= 26,
                self.wf(),
                self.fully_discovered(),
                out@ + pages_from_bucket(self.counts(), b as int) == all_pages(self.counts()),
                forall|i: int| 0 <= i < out@.len() ==> (#[trigger] out@[i]).wf(),
            decreases 26 - b,
        {
            let count = match self.letter_page_counts[b] {
                Some(c) => c,
                None => unreached(),
            };
            let ghost pre = out@;
            let mut done: u64 = 0;
            while done < count
                invariant
                    0 <= done <= count,
                    b < 26,
                    count == count_of(self.counts(), b as int),
                    out@ =~= pre + bucket_pages(b as int, count as nat).take(done as int),
                    forall|i: int| 0 <= i < out@.len() ==> (#[trigger] out@[i]).wf(),
                decreases count - done,
            {
                out.push(PageUrl { bucket: b, page: done + 1 });
                proof {
                    assert(out@ =~= pre + bucket_pages(b as int, count as nat).take(
                        done as int + 1,
                    ));
                }
                done = done + 1;
            }
            proof {
                assert(bucket_pages(b as int, count as nat).take(count as int) =~= bucket_pages(
                    b as int,
                    count as nat,
                ));
                assert(out@ + pages_from_bucket(self.counts(), b as int + 1) =~= (pre
                    + pages_from_bucket(self.counts(), b as int)));
            }
            b = b + 1;
        }
        proof {
            assert(pages_from_bucket(self.counts(), 26) =~= Seq::<PageUrl>::empty());
            assert(out@ =~= all_pages(self.counts()));
            lemma_total_pages(self.counts(), 0);
        }
        out
    }
}

} // verus!
