//! One worker's batching policy: buffer extracted records, flush a full
//! batch to a fresh cache file once the configured threshold is
//! reached, and flush whatever remains before terminating.
//!
//! Between calls a worker never holds a full threshold of unflushed
//! records, and nothing it accepted is lost: what has been flushed plus
//! what is still buffered is exactly what was accepted, in order.

use vstd::prelude::*;

use vstd::pervasive::unreached;

use crate::cache::{name_wf, CacheFile, CacheWriter};
use crate::records::{batch_chars, records_view, Record, RecordModel};

verus! {

/// How many records a worker buffers before flushing, unless configured
/// otherwise.
pub const DEFAULT_FLUSH_THRESHOLD: usize = 100;

/// One worker's buffer, flush threshold and cache writer, with the
/// history of what it accepted and flushed.
pub struct Worker {
    /// The records accepted and not yet flushed.
    pub batch: Vec<Record>,
    /// The batch size that triggers a flush.
    pub threshold: usize,
    /// The writer naming and serializing this worker's files.
    pub writer: CacheWriter,
    /// Every record this worker has accepted, in order.
    pub accepted: Ghost<Seq<RecordModel>>,
    /// Every record this worker has flushed, in order.
    pub flushed: Ghost<Seq<RecordModel>>,
}

impl Worker {
    /// The worker's invariant: a positive threshold, a buffer strictly
    /// below it, and no record lost: flushed then buffered is exactly
    /// what was accepted.
    pub open spec fn wf(self) -> bool {
        &&& self.threshold >= 1
        &&& self.batch@.len() < self.threshold
        &&& self.flushed@ + records_view(self.batch@) == self.accepted@
    }

    /// A fresh worker: nothing accepted, nothing buffered, a writer of
    /// its own. The caller must give each concurrent worker its own
    /// number.
    pub fn new(writer_id: u64, threshold: usize) -> (r: Worker)
        requires
            threshold >= 1,
        ensures
            r.wf(),
            r.threshold == threshold,
            r.writer.writer_id == writer_id,
            r.writer.files_written == 0,
            r.accepted@ == Seq::<RecordModel>::empty(),
            r.flushed@ == Seq::<RecordModel>::empty(),
    {
        let r = Worker {
            batch: Vec::new(),
            threshold,
            writer: CacheWriter::new(writer_id),
            accepted: Ghost(Seq::empty()),
            flushed: Ghost(Seq::empty()),
        };
        proof {
            assert(r.flushed@ + records_view(r.batch@) =~= r.accepted@);
        }
        r
    }

    /// Accepts one page's records. The buffer takes them in order; if
    /// it has reached the threshold it is flushed whole to one fresh
    /// cache file and emptied. After the call the buffer is again
    /// strictly below the threshold.
    pub fn accept_records(&mut self, recs: Vec<Record>) -> (r: Option<CacheFile>)
        requires
            old(self).wf(),
            old(self).writer.files_written < u64::MAX,
        ensures
            final (self).wf(),
            final (self).threshold == old(self).threshold,
            final (self).writer.writer_id == old(self).writer.writer_id,
            final (self).accepted@ == old(self).accepted@ + records_view(recs@),
            final (self).batch@.len() < old(self).threshold,
            old(self).batch@.len() + recs@.len() < old(self).threshold ==> (r is None
                && final (self).batch@ == old(self).batch@ + recs@ && final (self).flushed@ == old(
                self,
            ).flushed@ && final (self).writer == old(self).writer),
            old(self).batch@.len() + recs@.len() >= old(self).threshold ==> (r matches Some(f) && (
            f.contents@ == batch_chars(records_view(old(self).batch@ + recs@)) && name_wf(
                f.name@,
                old(self).writer.writer_id as nat,
                old(self).writer.files_written as nat,
            ) && final (self).batch@.len() == 0 && final (self).flushed@ == old(self).flushed@
                + records_view(old(self).batch@ + recs@) && final (self).writer.files_written == old(
                self,
            ).writer.files_written + 1)),
    {
        let ghost pre_batch = self.batch@;
        let mut recs = recs;
        let ghost added = recs@;
        self.batch.append(&mut recs);
        proof {
            self.accepted@ = self.accepted@ + records_view(added);
            assert(records_view(pre_batch + added) =~= records_view(pre_batch) + records_view(
                added,
            ));
            assert(self.flushed@ + records_view(self.batch@) =~= self.accepted@);
        }
        if self.batch.len() >= self.threshold {
            let file = match self.writer.write_batch(&self.batch) {
                Some(f) => f,
                None => unreached(),
            };
            self.batch.clear();
            proof {
                self.flushed@ = self.flushed@ + records_view(pre_batch + added);
                assert(self.flushed@ + records_view(self.batch@) =~= self.accepted@);
            }
            Some(file)
        } else {
            None
        }
    }

    /// Flushes whatever remains before the worker terminates: one last
    /// file, or none when nothing is buffered. Afterwards the buffer is
    /// empty and everything accepted has been flushed.
    pub fn finish(&mut self) -> (r: Option<CacheFile>)
        requires
            old(self).wf(),
            old(self).writer.files_written < u64::MAX,
        ensures
            final (self).wf(),
            final (self).threshold == old(self).threshold,
            final (self).writer.writer_id == old(self).writer.writer_id,
            final (self).accepted@ == old(self).accepted@,
            final (self).batch@.len() == 0,
            final (self).flushed@ == final (self).accepted@,
            old(self).batch@.len() == 0 ==> r is None && final (self).writer == old(self).writer,
            old(self).batch@.len() > 0 ==> (r matches Some(f) && (f.contents@ == batch_chars(
                records_view(old(self).batch@),
            ) && name_wf(
                f.name@,
                old(self).writer.writer_id as nat,
                old(self).writer.files_written as nat,
            ) && final (self).writer.files_written == old(self).writer.files_written + 1)),
    {
        let r = self.writer.write_batch(&self.batch);
        let ghost pre_batch = self.batch@;
        self.batch.clear();
        proof {
            self.flushed@ = self.flushed@ + records_view(pre_batch);
            if pre_batch.len() == 0 {
                assert(records_view(pre_batch) =~= Seq::<RecordModel>::empty());
            }
            assert(self.flushed@ =~= self.accepted@);
            assert(self.flushed@ + records_view(self.batch@) =~= self.accepted@);
        }
        r
    }
}

} // verus!
