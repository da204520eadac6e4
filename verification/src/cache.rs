//! The cache writer: one uniquely named file per flushed batch.
//!
//! Each worker owns one writer, identified by a number no other writer
//! of the run shares. A file name joins a random identifier with the
//! writer's number and a per-writer sequence number; the two counters
//! make names provably distinct within a run, whatever the random part
//! comes back as, so concurrent workers never collide in the shared
//! cache directory. The writer produces the file's name and contents;
//! putting them on disk is its caller's affair.

use vstd::prelude::*;

use crate::records::{batch_chars, records_view, render_batch, Record};
use crate::text::{dec_chars, lemma_dec_chars_injective, lemma_dec_chars_no_char, to_decimal};

verus! {

/// One cache file, ready to be created: its unique name and its full
/// serialized contents.
#[derive(Clone, Debug)]
pub struct CacheFile {
    pub name: String,
    pub contents: String,
}

/// Whether `c` is a lowercase hexadecimal digit.
pub open spec fn is_hex_lower(c: char) -> bool {
    (48 <= c as int && c as int <= 57) || (97 <= c as int && c as int <= 102)
}

/// The shape of the random part of a file name: 32 lowercase
/// hexadecimal digits, so in particular free of the `-` separator.
pub open spec fn random_part_wf(u: Seq<char>) -> bool {
    u.len() == 32 && (forall|i: int| 0 <= i < u.len() ==> is_hex_lower(#[trigger] u[i]))
}

/// A file name: the random part, the writer's number and the writer's
/// sequence number, separated by `-`.
pub open spec fn file_name_chars(u: Seq<char>, writer: nat, seqno: nat) -> Seq<char> {
    u + seq!['-'] + dec_chars(writer) + seq!['-'] + dec_chars(seqno)
}

/// Whether `n` is a well-formed file name of writer `writer` for its
/// `seqno`-th file: some well-formed random part completed with the two
/// numbers.
pub open spec fn name_wf(n: Seq<char>, writer: nat, seqno: nat) -> bool {
    exists|u: Seq<char>| random_part_wf(u) && n == #[trigger] file_name_chars(u, writer, seqno)
}

/// Relies on uuid::Uuid::new_v4 and the Simple formatting: the result
/// is exactly 32 lowercase hexadecimal digits. Nothing is assumed about
/// which digits come back.
#[verifier::external_body]
fn random_hex_id() -> (r: String)
    ensures
        r@.len() == 32,
        forall|i: int| 0 <= i < r@.len() ==> is_hex_lower(#[trigger] r@[i]),
{
    uuid::Uuid::new_v4().simple().to_string()
}

/// Joining dash-free parts around `-` separators is injective in the
/// parts.
proof fn lemma_dash_split(a1: Seq<char>, b1: Seq<char>, a2: Seq<char>, b2: Seq<char>)
    requires
        !a1.contains('-'),
        !a2.contains('-'),
        a1 + seq!['-'] + b1 == a2 + seq!['-'] + b2,
    ensures
        a1 == a2,
        b1 == b2,
{
    let t1 = a1 + seq!['-'] + b1;
    let t2 = a2 + seq!['-'] + b2;
    if a1.len() < a2.len() {
        assert(t1[a1.len() as int] == '-');
        assert(t2[a1.len() as int] == a2[a1.len() as int]);
        assert(a2.contains('-'));
    } else if a2.len() < a1.len() {
        assert(t2[a2.len() as int] == '-');
        assert(t1[a2.len() as int] == a1[a2.len() as int]);
        assert(a1.contains('-'));
    } else {
        assert(a1.len() == a2.len());
        assert(t1.len() == t2.len());
        assert(b1.len() == b2.len());
        assert forall|i: int| 0 <= i < a1.len() implies a1[i] == a2[i] by {
            assert(t1[i] == a1[i]);
            assert(t2[i] == a2[i]);
        }
        assert(a1 =~= a2);
        assert forall|i: int| 0 <= i < b1.len() implies b1[i] == b2[i] by {
            assert(t1[a1.len() + 1 + i] == b1[i]);
            assert(t2[a2.len() + 1 + i] == b2[i]);
        }
        assert(b1 =~= b2);
    }
}

/// No two file names of one run collide: names from different writers,
/// or successive names from one writer, are distinct, whatever their
/// random parts came back as.
pub proof fn lemma_file_names_distinct(
    n1: Seq<char>,
    w1: nat,
    s1: nat,
    n2: Seq<char>,
    w2: nat,
    s2: nat,
)
    requires
        name_wf(n1, w1, s1),
        name_wf(n2, w2, s2),
        w1 != w2 || s1 != s2,
    ensures
        n1 != n2,
{
    let u1 = choose|u: Seq<char>| random_part_wf(u) && n1 == file_name_chars(u, w1, s1);
    let u2 = choose|u: Seq<char>| random_part_wf(u) && n2 == file_name_chars(u, w2, s2);
    if n1 == n2 {
        assert('-' as int == 45);
        lemma_dec_chars_no_char(w1, '-');
        lemma_dec_chars_no_char(w2, '-');
        let a1 = u1;
        let a2 = u2;
        assert(!a1.contains('-')) by {
            if a1.contains('-') {
                let i = choose|i: int| 0 <= i < a1.len() && a1[i] == '-';
                assert(is_hex_lower(a1[i]));
            }
        }
        assert(!a2.contains('-')) by {
            if a2.contains('-') {
                let i = choose|i: int| 0 <= i < a2.len() && a2[i] == '-';
                assert(is_hex_lower(a2[i]));
            }
        }
        assert(a1 + seq!['-'] + (dec_chars(w1) + seq!['-'] + dec_chars(s1)) =~= file_name_chars(
            u1,
            w1,
            s1,
        ));
        assert(a2 + seq!['-'] + (dec_chars(w2) + seq!['-'] + dec_chars(s2)) =~= file_name_chars(
            u2,
            w2,
            s2,
        ));
        lemma_dash_split(
            a1,
            dec_chars(w1) + seq!['-'] + dec_chars(s1),
            a2,
            dec_chars(w2) + seq!['-'] + dec_chars(s2),
        );
        lemma_dash_split(dec_chars(w1), dec_chars(s1), dec_chars(w2), dec_chars(s2));
        lemma_dec_chars_injective(w1, w2);
        lemma_dec_chars_injective(s1, s2);
    }
}

/// One worker's cache writer: its run-unique number and how many files
/// it has produced.
pub struct CacheWriter {
    /// The number no other writer of the run shares.
    pub writer_id: u64,
    /// How many files this writer has produced so far.
    pub files_written: u64,
}

impl CacheWriter {
    /// A writer that has produced nothing yet. The caller must give
    /// each concurrent writer of a run its own number.
    pub fn new(writer_id: u64) -> (r: CacheWriter)
        ensures
            r.writer_id == writer_id,
            r.files_written == 0,
    {
        CacheWriter { writer_id, files_written: 0 }
    }

    /// Produces the cache file for a batch: nothing for an empty batch,
    /// and otherwise a file whose contents serialize the records in
    /// order and whose name no other write of the run shares.
    pub fn write_batch(&mut self, records: &Vec<Record>) -> (r: Option<CacheFile>)
        requires
            old(self).files_written < u64::MAX,
        ensures
            final (self).writer_id == old(self).writer_id,
            records@.len() == 0 ==> r is None && *final (self) == *old(self),
            records@.len() > 0 ==> (r matches Some(f) && f.contents@ == batch_chars(
                records_view(records@),
            ) && name_wf(f.name@, old(self).writer_id as nat, old(self).files_written as nat)
                && final (self).files_written == old(self).files_written + 1),
    {
        if records.len() == 0 {
            return None;
        }
        let mut name = random_hex_id();
        let ghost u = name@;
        name.append("-");
        let writer_digits = to_decimal(self.writer_id);
        name.append(writer_digits.as_str());
        name.append("-");
        let seq_digits = to_decimal(self.files_written);
        name.append(seq_digits.as_str());
        proof {
            reveal_strlit("-");
            assert("-"@ =~= seq!['-']);
            assert(name@ =~= file_name_chars(
                u,
                self.writer_id as nat,
                self.files_written as nat,
            ));
        }
        let contents = render_batch(records);
        self.files_written = self.files_written + 1;
        Some(CacheFile { name, contents })
    }
}

} // verus!
