//! Records and the delimited cache file format.
//!
//! A record is one extracted term/text pair. A batch of records is
//! written to a cache file as `term`, newline, `text`, with a line
//! holding a single `*` between consecutive records. The format defines
//! no escaping: a `text` with a line holding a bare `*`, or a term that
//! contains a newline or is itself `*`, cannot be read back faithfully,
//! and the round-trip law below excludes exactly those batches.

use vstd::prelude::*;

verus! {

/// One extracted term/text pair.
#[derive(Clone, Debug)]
pub struct Record {
    pub term: String,
    pub text: String,
}

/// The mathematical image of a record: its two character sequences.
pub struct RecordModel {
    pub term: Seq<char>,
    pub text: Seq<char>,
}

impl View for Record {
    type V = RecordModel;

    open spec fn view(&self) -> RecordModel {
        RecordModel { term: self.term@, text: self.text@ }
    }
}

/// The models of a sequence of records.
pub open spec fn records_view(rs: Seq<Record>) -> Seq<RecordModel> {
    rs.map_values(|r: Record| r@)
}

/// The serialized form of one record: term, newline, text.
pub open spec fn record_chars(r: RecordModel) -> Seq<char> {
    r.term + seq!['\n'] + r.text
}

/// The separator written between consecutive records: a line holding a
/// single `*`.
pub open spec fn sep_chars() -> Seq<char> {
    seq!['\n', '*', '\n']
}

/// The serialized form of a batch: the records' blocks joined by the
/// separator. An empty batch serializes as the empty string, though the
/// writer never creates a file for one.
pub open spec fn batch_chars(rs: Seq<RecordModel>) -> Seq<char>
    decreases rs.len(),
{
    if rs.len() == 0 {
        Seq::empty()
    } else if rs.len() == 1 {
        record_chars(rs[0])
    } else {
        record_chars(rs[0]) + sep_chars() + batch_chars(rs.drop_first())
    }
}

/// Renders one record into `out`.
fn push_record(out: &mut String, r: &Record)
    ensures
        final (out)@ == old(out)@ + record_chars(r@),
{
    out.append(r.term.as_str());
    out.append("\n");
    proof {
        reveal_strlit("\n");
        assert(old(out)@ + r.term@ + "\n"@ =~= old(out)@ + (r.term@ + seq!['\n']));
    }
    out.append(r.text.as_str());
    proof {
        assert(old(out)@ + (r.term@ + seq!['\n']) + r.text@ =~= old(out)@ + record_chars(r@));
    }
}

/// Serializes a batch of records in the cache file format.
pub fn render_batch(records: &Vec<Record>) -> (r: String)
    ensures
        r@ == batch_chars(records_view(records@)),
{
    let mut out = String::new();
    let n: usize = records.len();
    let mut i: usize = 0;
    while i < n
        invariant
            0 <= i <= n,
            n == records@.len(),
            out@ == batch_chars(records_view(records@.take(i as int))),
        decreases n - i,
    {
        if i > 0 {
            out.append("\n*\n");
            proof {
                reveal_strlit("\n*\n");
                assert("\n*\n"@ =~= sep_chars());
            }
        }
        push_record(&mut out, &records[i]);
        proof {
            lemma_batch_chars_push(records_view(records@.take(i as int + 1)));
            assert(records_view(records@.take(i as int + 1)).drop_last() =~= records_view(
                records@.take(i as int),
            ));
            assert(records_view(records@.take(i as int + 1)).last() == records@[i as int]@);
        }
        i = i + 1;
    }
    proof {
        assert(records@.take(n as int) == records@);
    }
    out
}

/// Whether the separator occurs in `s` at position `i`.
pub open spec fn has_sep_at(s: Seq<char>, i: int) -> bool {
    0 <= i && i + 3 <= s.len() && s.subrange(i, i + 3) == sep_chars()
}

/// The position of the first separator occurrence at or after `i`, if
/// any.
pub open spec fn first_sep_from(s: Seq<char>, i: int) -> Option<int>
    decreases s.len() - i,
{
    if i + 3 > s.len() {
        None
    } else if has_sep_at(s, i) {
        Some(i)
    } else {
        first_sep_from(s, i + 1)
    }
}

/// What `first_sep_from` finds is the first occurrence: an occurrence,
/// with none before it; or there is none at all.
proof fn lemma_first_sep_from(s: Seq<char>, i: int)
    ensures
        (first_sep_from(s, i) matches Some(j) ==> i <= j && has_sep_at(s, j) && (forall|k: int|
            i <= k < j ==> !has_sep_at(s, k))),
        first_sep_from(s, i) is None ==> (forall|k: int| i <= k ==> !has_sep_at(s, k)),
    decreases s.len() - i,
{
    if i + 3 > s.len() {
        assert forall|k: int| i <= k implies !has_sep_at(s, k) by {}
    } else if !has_sep_at(s, i) {
        lemma_first_sep_from(s, i + 1);
    }
}

/// An occurrence with none before it is what `first_sep_from` finds.
proof fn lemma_first_sep_is(s: Seq<char>, j: int)
    requires
        has_sep_at(s, j),
        forall|k: int| 0 <= k < j ==> !has_sep_at(s, k),
    ensures
        first_sep_from(s, 0) == Some(j),
{
    lemma_first_sep_from(s, 0);
    if first_sep_from(s, 0) is None {
        assert(!has_sep_at(s, j));
    } else {
        let j2 = first_sep_from(s, 0)->0;
        if j2 < j {
            assert(!has_sep_at(s, j2));
        } else if j < j2 {
            assert(!has_sep_at(s, j));
        }
    }
}

/// The position of the first occurrence of `c` at or after `i`, if any.
pub open spec fn first_char_from(s: Seq<char>, c: char, i: int) -> Option<int>
    decreases s.len() - i,
{
    if i < 0 || i >= s.len() {
        None
    } else if s[i] == c {
        Some(i)
    } else {
        first_char_from(s, c, i + 1)
    }
}

/// An occurrence of `c` with none before it is what `first_char_from`
/// finds.
proof fn lemma_first_char_is(s: Seq<char>, c: char, j: int)
    requires
        0 <= j < s.len(),
        s[j] == c,
        forall|k: int| 0 <= k < j ==> s[k] != c,
    ensures
        first_char_from(s, c, 0) == Some(j),
{
    lemma_first_char_from_is(s, c, 0, j);
}

/// The positional form of `lemma_first_char_is`, for any start.
proof fn lemma_first_char_from_is(s: Seq<char>, c: char, i: int, j: int)
    requires
        0 <= i <= j < s.len(),
        s[j] == c,
        forall|k: int| i <= k < j ==> s[k] != c,
    ensures
        first_char_from(s, c, i) == Some(j),
    decreases j - i,
{
    if i < j {
        lemma_first_char_from_is(s, c, i + 1, j);
    }
}

/// When `c` does not occur at or after `i`, `first_char_from` finds
/// nothing.
proof fn lemma_first_char_from_none(s: Seq<char>, c: char, i: int)
    requires
        forall|k: int| i <= k < s.len() ==> s[k] != c,
    ensures
        first_char_from(s, c, i) is None,
    decreases s.len() - i,
{
    if 0 <= i && i < s.len() {
        lemma_first_char_from_none(s, c, i + 1);
    }
}

/// The term a block reads back as: the characters before its first
/// newline, or the whole block.
pub open spec fn block_term(b: Seq<char>) -> Seq<char> {
    match first_char_from(b, '\n', 0) {
        None => b,
        Some(i) => b.take(i),
    }
}

/// The text a block reads back as: the characters after its first
/// newline, or nothing.
pub open spec fn block_text(b: Seq<char>) -> Seq<char> {
    match first_char_from(b, '\n', 0) {
        None => Seq::empty(),
        Some(i) => b.skip(i + 1),
    }
}

/// The record one block reads back as.
pub open spec fn parse_block(b: Seq<char>) -> RecordModel {
    RecordModel { term: block_term(b), text: block_text(b) }
}

/// What a serialized batch reads back as: blocks split at each first
/// separator occurrence, each block giving one record. The empty string
/// reads back as the empty batch.
pub open spec fn parse_batch_chars(s: Seq<char>) -> Seq<RecordModel>
    decreases s.len(),
    via parse_batch_chars_dec
{
    if s.len() == 0 {
        Seq::empty()
    } else {
        match first_sep_from(s, 0) {
            None => seq![parse_block(s)],
            Some(i) => seq![parse_block(s.take(i))] + parse_batch_chars(s.skip(i + 3)),
        }
    }
}

#[via_fn]
proof fn parse_batch_chars_dec(s: Seq<char>) {
    if s.len() > 0 {
        lemma_first_sep_from(s, 0);
    }
}

/// Whether a term survives the format: it must contain no newline.
pub open spec fn term_wf(t: Seq<char>) -> bool {
    !t.contains('\n')
}

/// Whether a text survives the format: none of its lines may hold a
/// single `*`, which is what the separator would read back as.
pub open spec fn text_wf(x: Seq<char>) -> bool {
    forall|i: int| !has_sep_at(seq!['\n'] + x + seq!['\n'], i)
}

/// Whether a record survives the format.
pub open spec fn record_wf(r: RecordModel) -> bool {
    term_wf(r.term) && text_wf(r.text)
}

/// Whether every record of a batch survives the format.
pub open spec fn batch_wf(rs: Seq<RecordModel>) -> bool {
    forall|i: int| 0 <= i < rs.len() ==> record_wf(#[trigger] rs[i])
}

/// The separator never occurs inside the block of a well-formed record.
proof fn lemma_block_no_sep(r: RecordModel)
    requires
        record_wf(r),
    ensures
        forall|k: int| !has_sep_at(record_chars(r), k),
{
    let b = record_chars(r);
    let t = r.term;
    let x = r.text;
    let p = seq!['\n'] + x + seq!['\n'];
    assert forall|k: int| !has_sep_at(b, k) by {
        if has_sep_at(b, k) {
            assert(b.subrange(k, k + 3)[0] == b[k]);
            assert(b.subrange(k, k + 3)[1] == b[k + 1]);
            assert(b.subrange(k, k + 3)[2] == b[k + 2]);
            assert(b[k] == '\n' && b[k + 1] == '*' && b[k + 2] == '\n');
            if k < t.len() {
                assert(b[k] == t[k]);
                assert(t.contains('\n'));
            } else if k == t.len() {
                assert(b[k + 1] == x[0] && b[k + 2] == x[1]);
                assert(p[0] == '\n' && p[1] == x[0] && p[2] == x[1]);
                assert(has_sep_at(p, 0)) by {
                    assert(p.subrange(0, 3) =~= sep_chars());
                }
            } else {
                let j = k - t.len() - 1;
                assert(b[k] == x[j] && b[k + 1] == x[j + 1] && b[k + 2] == x[j + 2]);
                assert(p[j + 1] == x[j] && p[j + 2] == x[j + 1] && p[j + 3] == x[j + 2]);
                assert(has_sep_at(p, j + 1)) by {
                    assert(p.subrange(j + 1, j + 4) =~= sep_chars());
                }
            }
        }
    }
}

/// In a well-formed block followed by a separator, no separator
/// occurrence starts before the real one.
proof fn lemma_no_sep_before_boundary(r: RecordModel, rest: Seq<char>)
    requires
        record_wf(r),
    ensures
        forall|k: int|
            0 <= k < record_chars(r).len() ==> !has_sep_at(
                record_chars(r) + sep_chars() + rest,
                k,
            ),
{
    let b = record_chars(r);
    let t = r.term;
    let x = r.text;
    let p = seq!['\n'] + x + seq!['\n'];
    let s = b + sep_chars() + rest;
    lemma_block_no_sep(r);
    assert forall|k: int| 0 <= k < b.len() implies !has_sep_at(s, k) by {
        if has_sep_at(s, k) {
            assert(s.subrange(k, k + 3)[0] == s[k]);
            assert(s.subrange(k, k + 3)[1] == s[k + 1]);
            assert(s.subrange(k, k + 3)[2] == s[k + 2]);
            assert(s[k] == '\n' && s[k + 1] == '*' && s[k + 2] == '\n');
            if k + 3 <= b.len() {
                assert(has_sep_at(b, k)) by {
                    assert(b.subrange(k, k + 3) =~= s.subrange(k, k + 3));
                }
            } else if k == b.len() - 2 {
                assert(s[k] == b[k] && s[k + 1] == b[k + 1]);
                if x.len() == 0 {
                    assert(b[k + 1] == '\n');
                } else if x.len() == 1 {
                    assert(b[k + 1] == x[0] && b[k] == '\n');
                    assert(p[0] == '\n' && p[1] == x[0] && p[2] == '\n');
                    assert(has_sep_at(p, 0)) by {
                        assert(p.subrange(0, 3) =~= sep_chars());
                    }
                } else {
                    let xl = x.len() as int;
                    assert(b[k] == x[xl - 2] && b[k + 1] == x[xl - 1]);
                    assert(p[xl - 1] == x[xl - 2] && p[xl] == x[xl - 1] && p[xl + 1] == '\n');
                    assert(has_sep_at(p, xl - 1)) by {
                        assert(p.subrange(xl - 1, xl + 2) =~= sep_chars());
                    }
                }
            } else {
                assert(k == b.len() - 1);
                assert(s[k + 1] == sep_chars()[0]);
            }
        }
    }
}

/// A well-formed record reads back from its own block.
proof fn lemma_parse_block(r: RecordModel)
    requires
        term_wf(r.term),
    ensures
        parse_block(record_chars(r)) == r,
{
    let b = record_chars(r);
    let tl = r.term.len() as int;
    assert(b[tl] == '\n');
    assert forall|k: int| 0 <= k < tl implies b[k] != '\n' by {
        assert(b[k] == r.term[k]);
        if b[k] == '\n' {
            assert(r.term.contains('\n'));
        }
    }
    lemma_first_char_is(b, '\n', tl);
    assert(b.take(tl) =~= r.term);
    assert(b.skip(tl + 1) =~= r.text);
}

/// Round trip: a serialized batch reads back as exactly the records it
/// was made from, in order, provided each record survives the format:
/// no term contains a newline and no text has a line holding a single
/// `*`.
pub proof fn lemma_batch_round_trip(rs: Seq<RecordModel>)
    requires
        batch_wf(rs),
    ensures
        parse_batch_chars(batch_chars(rs)) == rs,
    decreases rs.len(),
{
    if rs.len() == 0 {
        assert(parse_batch_chars(batch_chars(rs)) =~= rs);
    } else if rs.len() == 1 {
        let b = record_chars(rs[0]);
        assert(b.len() > 0);
        lemma_block_no_sep(rs[0]);
        lemma_first_sep_from(b, 0);
        match first_sep_from(b, 0) {
            Some(j) => {
                assert(!has_sep_at(b, j));
            },
            None => {},
        }
        lemma_parse_block(rs[0]);
        assert(parse_batch_chars(b) =~= rs);
    } else {
        let b = record_chars(rs[0]);
        let tail = batch_chars(rs.drop_first());
        let s = batch_chars(rs);
        assert(s =~= b + sep_chars() + tail);
        lemma_no_sep_before_boundary(rs[0], tail);
        assert(has_sep_at(s, b.len() as int)) by {
            assert(s.subrange(b.len() as int, b.len() as int + 3) =~= sep_chars());
        }
        assert forall|k: int| 0 <= k < b.len() implies !has_sep_at(s, k) by {
            assert(!has_sep_at(b + sep_chars() + tail, k));
        }
        lemma_first_sep_is(s, b.len() as int);
        assert(s.take(b.len() as int) =~= b);
        assert(s.skip(b.len() as int + 3) =~= tail);
        lemma_parse_block(rs[0]);
        assert(batch_wf(rs.drop_first())) by {
            assert(forall|i: int|
                0 <= i < rs.drop_first().len() ==> rs.drop_first()[i] == rs[i + 1]);
        }
        lemma_batch_round_trip(rs.drop_first());
        assert(parse_batch_chars(s) =~= seq![rs[0]] + rs.drop_first());
        assert(seq![rs[0]] + rs.drop_first() =~= rs);
    }
}

/// A separator occurrence in a suffix is one in the whole, shifted.
proof fn lemma_sep_shift(s: Seq<char>, start: int, k: int)
    requires
        0 <= start <= s.len(),
        0 <= k,
    ensures
        has_sep_at(s.skip(start), k) == has_sep_at(s, start + k),
{
    if k + 3 <= s.len() - start {
        assert(s.skip(start).subrange(k, k + 3) =~= s.subrange(start + k, start + k + 3));
    }
}

/// Reads one block back as a record: the characters before the first
/// newline are the term, those after it the text.
fn parse_block_str(b: &str) -> (r: Record)
    ensures
        r@ == parse_block(b@),
{
    let n: usize = b.unicode_len();
    let mut i: usize = 0;
    while i < n && b.get_char(i) != '\n'
        invariant
            0 <= i <= n,
            n == b@.len(),
            forall|k: int| 0 <= k < i ==> b@[k] != '\n',
        decreases n - i,
    {
        i = i + 1;
    }
    if i < n {
        proof {
            lemma_first_char_is(b@, '\n', i as int);
        }
        let term = String::from_str(b.substring_char(0, i));
        let text = String::from_str(b.substring_char(i + 1, n));
        proof {
            assert(term@ =~= block_term(b@));
            assert(text@ =~= block_text(b@));
        }
        Record { term, text }
    } else {
        proof {
            lemma_first_char_from_none(b@, '\n', 0);
        }
        Record { term: String::from_str(b), text: String::new() }
    }
}

/// Reads a serialized batch back: blocks split at each first separator
/// occurrence, each block giving one record. This is the inverse of
/// `render_batch` on every batch the round-trip law covers.
pub fn parse_batch(s: &str) -> (r: Vec<Record>)
    ensures
        records_view(r@) == parse_batch_chars(s@),
{
    let n: usize = s.unicode_len();
    let mut out: Vec<Record> = Vec::new();
    let mut start: usize = 0;
    proof {
        assert(s@.skip(0) =~= s@);
        assert(parse_batch_chars(s@) =~= records_view(out@) + parse_batch_chars(s@.skip(0)));
    }
    while start < n
        invariant
            0 <= start <= n,
            n == s@.len(),
            parse_batch_chars(s@) =~= records_view(out@) + parse_batch_chars(
                s@.skip(start as int),
            ),
        decreases n - start,
    {
        let ghost rem = s@.skip(start as int);
        let ghost st = start as int;
        let mut j: usize = start;
        while j < n && n - j > 2 && !(s.get_char(j) == '\n' && s.get_char(j + 1) == '*'
            && s.get_char(j + 2) == '\n')
            invariant
                start <= j <= n,
                n == s@.len(),
                forall|k: int| start <= k < j ==> !has_sep_at(s@, k),
            decreases n - j,
        {
            proof {
                if has_sep_at(s@, j as int) {
                    assert(s@.subrange(j as int, j as int + 3)[0] == s@[j as int]);
                    assert(s@.subrange(j as int, j as int + 3)[1] == s@[j as int + 1]);
                    assert(s@.subrange(j as int, j as int + 3)[2] == s@[j as int + 2]);
                }
            }
            j = j + 1;
        }
        let ghost pre_out = out@;
        if j < n && n - j > 2 {
            proof {
                assert(has_sep_at(s@, j as int)) by {
                    assert(s@.subrange(j as int, j as int + 3) =~= sep_chars());
                }
                lemma_sep_shift(s@, st, j - st);
                assert forall|k: int| 0 <= k < j - st implies !has_sep_at(rem, k) by {
                    lemma_sep_shift(s@, st, k);
                }
                lemma_first_sep_is(rem, j - st);
                assert(rem.take(j - st) =~= s@.subrange(st, j as int));
                assert(rem.skip(j - st + 3) =~= s@.skip(j as int + 3));
            }
            let block = s.substring_char(start, j);
            let rec = parse_block_str(block);
            out.push(rec);
            start = j + 3;
            proof {
                assert(block@ =~= rem.take(j - st));
                assert(records_view(out@) =~= records_view(pre_out) + seq![rec@]);
                assert(parse_batch_chars(rem) =~= seq![parse_block(rem.take(j - st))]
                    + parse_batch_chars(rem.skip(j - st + 3)));
                assert(parse_batch_chars(s@) =~= records_view(out@) + parse_batch_chars(
                    s@.skip(start as int),
                ));
            }
        } else {
            proof {
                lemma_first_sep_from(rem, 0);
                match first_sep_from(rem, 0) {
                    Some(j2) => {
                        lemma_sep_shift(s@, start as int, j2);
                        assert(!has_sep_at(s@, start + j2));
                    },
                    None => {},
                }
                assert(rem.take(rem.len() as int) =~= rem);
            }
            let block = s.substring_char(start, n);
            let rec = parse_block_str(block);
            out.push(rec);
            start = n;
            proof {
                assert(block@ =~= rem);
                assert(records_view(out@) =~= records_view(pre_out) + seq![rec@]);
                assert(parse_batch_chars(rem) =~= seq![parse_block(rem)]);
                assert(s@.skip(n as int) =~= Seq::<char>::empty());
                assert(parse_batch_chars(s@) =~= records_view(out@) + parse_batch_chars(
                    s@.skip(start as int),
                ));
            }
        }
    }
    proof {
        assert(s@.skip(start as int) =~= Seq::<char>::empty());
        assert(records_view(out@) =~= parse_batch_chars(s@));
    }
    out
}

/// Serializing a nonempty batch appends the last record after a
/// separator (or alone, for a batch of one).
proof fn lemma_batch_chars_push(rs: Seq<RecordModel>)
    requires
        rs.len() >= 1,
    ensures
        rs.len() == 1 ==> batch_chars(rs) == record_chars(rs[0]),
        rs.len() > 1 ==> batch_chars(rs) == batch_chars(rs.drop_last()) + sep_chars()
            + record_chars(rs.last()),
    decreases rs.len(),
{
    if rs.len() > 1 {
        lemma_batch_chars_push(rs.drop_first());
        assert(rs.drop_first().drop_last() =~= rs.drop_last().drop_first());
        if rs.len() == 2 {
            assert(batch_chars(rs.drop_last()) == record_chars(rs[0]));
            assert(batch_chars(rs) == record_chars(rs[0]) + sep_chars() + batch_chars(
                rs.drop_first(),
            ));
            assert(batch_chars(rs.drop_first()) == record_chars(rs.last()));
        } else {
            assert(batch_chars(rs) =~= batch_chars(rs.drop_last()) + sep_chars() + record_chars(
                rs.last(),
            ));
        }
    }
}

} // verus!
