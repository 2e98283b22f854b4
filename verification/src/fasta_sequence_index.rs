//! A random-access byte-sequence index over FASTA records: every sequence
//! is appended to one contiguous byte store followed by a newline sentinel,
//! and a map from read id to its slice serves positional lookups.

use crate::wtdbg2_ctg_lay::push_bytes;
use crate::wtdbg2_ctg_lay::NEWLINE;
use vstd::prelude::*;
use vstd::slice::slice_subrange;
use vstd::slice::slice_to_vec;

verus! {

/// Where one read's bytes lie in the byte store.
#[derive(Clone, Copy, PartialEq, Eq, Structural, Debug)]
pub struct FileSlice {
    pub offset: u64,
    pub len: usize,
}

/// What can go wrong while building or querying the index.
#[derive(Clone, Copy, PartialEq, Eq, Structural, Debug)]
pub enum IndexError {
    /// A read id occurred twice while building.
    DuplicateId,
    /// A queried read id is not in the index.
    MissingId,
}

/// Byte-sequence index: sequences concatenated in insertion order, each
/// followed by one newline sentinel, plus the id map.
pub struct FastaSequenceIndex {
    data: Vec<u8>,
    entries: Vec<(Vec<u8>, FileSlice)>,
}

/// Pairwise-distinct read ids.
pub open spec fn unique_ids(records: Seq<(Vec<u8>, Vec<u8>)>) -> bool {
    forall|i: int, j: int|
        0 <= i < j < records.len() ==> (#[trigger] records[i]).0@ != (#[trigger] records[j]).0@
}

impl FastaSequenceIndex {
    /// Entry slices stay inside the byte store with their sentinel, every
    /// sentinel is a newline, and ids are pairwise distinct.
    pub closed spec fn wf(self) -> bool {
        &&& forall|i: int|
            0 <= i < self.entries@.len() ==> (#[trigger] self.entries@[i]).1.offset
                + self.entries@[i].1.len + 1 <= self.data@.len()
        &&& forall|i: int|
            0 <= i < self.entries@.len() ==> self.data@[(#[trigger] self.entries@[i]).1.offset
                + self.entries@[i].1.len] == NEWLINE
        &&& forall|i: int, j: int|
            0 <= i < j < self.entries@.len() ==> (#[trigger] self.entries@[i]).0@ != (
            #[trigger] self.entries@[j]).0@
    }

    /// Whether a read id is present.
    pub closed spec fn contains_id(self, id: Seq<u8>) -> bool {
        exists|i: int| 0 <= i < self.entries@.len() && (#[trigger] self.entries@[i]).0@ == id
    }

    closed spec fn index_of(self, id: Seq<u8>) -> int {
        choose|i: int| 0 <= i < self.entries@.len() && (#[trigger] self.entries@[i]).0@ == id
    }

    /// The bytes stored for a read id that is present.
    pub closed spec fn sequence_of(self, id: Seq<u8>) -> Seq<u8> {
        let e = self.entries@[self.index_of(id)].1;
        self.data@.subrange(e.offset as int, e.offset + e.len)
    }

    proof fn lemma_entry_lookup(self, i: int)
        requires
            self.wf(),
            0 <= i < self.entries@.len(),
        ensures
            self.contains_id(self.entries@[i].0@),
            self.index_of(self.entries@[i].0@) == i,
            self.sequence_of(self.entries@[i].0@) == self.data@.subrange(
                self.entries@[i].1.offset as int,
                self.entries@[i].1.offset + self.entries@[i].1.len,
            ),
    {
        assert(self.contains_id(self.entries@[i].0@));
        let j = self.index_of(self.entries@[i].0@);
        assert(0 <= j < self.entries@.len() && self.entries@[j].0@ == self.entries@[i].0@);
        if j < i {
            assert(self.entries@[j].0@ != self.entries@[i].0@);
        } else if i < j {
            assert(self.entries@[i].0@ != self.entries@[j].0@);
        }
    }

    /// An empty index.
    pub fn new() -> (r: FastaSequenceIndex)
        ensures
            r.wf(),
            forall|id: Seq<u8>| !r.contains_id(id),
    {
        FastaSequenceIndex { data: Vec::new(), entries: Vec::new() }
    }

    fn find_entry(&self, id: &[u8]) -> (r: Option<usize>)
        ensures
            r matches Some(i) ==> 0 <= i < self.entries@.len() && self.entries@[i as int].0@
                == id@,
            r is Some ==> self.contains_id(id@),
            r is None ==> !self.contains_id(id@),
    {
        let n = self.entries.len();
        let mut k: usize = 0;
        while k < n
            invariant
                n == self.entries@.len(),
                k <= n,
                forall|i: int| 0 <= i < k ==> (#[trigger] self.entries@[i]).0@ != id@,
            decreases n - k,
        {
            let e = &self.entries[k];
            if bytes_equal(e.0.as_slice(), id) {
                return Some(k);
            }
            k = k + 1;
        }
        None
    }

    /// Appends one record: its bytes and sentinel go to the byte store, its
    /// id and slice to the map. A duplicate id changes nothing and fails.
    pub fn push_record(&mut self, id: &[u8], sequence: &[u8]) -> (r: Result<(), IndexError>)
        requires
            old(self).wf(),
        ensures
            final(self).wf(),
            r is Ok <==> !old(self).contains_id(id@),
            r is Err ==> *final(self) == *old(self),
            r matches Err(e) ==> e == IndexError::DuplicateId,
            r is Ok ==> final(self).contains_id(id@) && final(self).sequence_of(id@) == sequence@,
            r is Ok ==> forall|other: Seq<u8>|
                #[trigger] final(self).contains_id(other) <==> (old(self).contains_id(other)
                    || other == id@),
            r is Ok ==> forall|other: Seq<u8>|
                #[trigger] old(self).contains_id(other) ==> final(self).sequence_of(other) == old(
                    self,
                ).sequence_of(other),
    {
        if self.find_entry(id).is_some() {
            return Err(IndexError::DuplicateId);
        }
        let ghost old_self = *self;
        let offset_usize = self.data.len();
        let offset: u64 = offset_usize as u64;
        push_bytes(&mut self.data, sequence);
        self.data.push(NEWLINE);
        let id_vec = slice_to_vec(id);
        let fs = FileSlice { offset, len: sequence.len() };
        self.entries.push((id_vec, fs));
        proof {
            let m = old_self.entries@.len() as int;
            assert(self.entries@.len() == m + 1);
            assert(self.entries@[m].0@ == id@);
            assert(self.entries@[m].1 == fs);
            assert(forall|i: int|
                0 <= i < m ==> #[trigger] self.entries@[i] == old_self.entries@[i]);
            // the new byte store keeps the old one as a prefix
            assert(forall|k: int|
                0 <= k < old_self.data@.len() ==> #[trigger] self.data@[k] == old_self.data@[k]);
            assert(self.wf());
            self.lemma_entry_lookup(m);
            assert(self.sequence_of(id@) =~= sequence@);
            assert forall|other: Seq<u8>| #[trigger]
                self.contains_id(other) implies (old_self.contains_id(other) || other
                == id@) by {
                let j = choose|j: int|
                    0 <= j < self.entries@.len() && (#[trigger] self.entries@[j]).0@ == other;
                if j < m {
                    assert(old_self.entries@[j].0@ == other);
                }
            }
            assert forall|other: Seq<u8>|
                old_self.contains_id(other) implies #[trigger] self.contains_id(other) by {
                let j = choose|j: int|
                    0 <= j < old_self.entries@.len() && (#[trigger] old_self.entries@[j]).0@
                        == other;
                assert(self.entries@[j].0@ == other);
            }
            assert forall|other: Seq<u8>| #[trigger]
                old_self.contains_id(other) implies self.sequence_of(other) == old_self
                .sequence_of(other) by {
                let j = choose|j: int|
                    0 <= j < old_self.entries@.len() && (#[trigger] old_self.entries@[j]).0@
                        == other;
                old_self.lemma_entry_lookup(j);
                assert(self.entries@[j].0@ == other);
                self.lemma_entry_lookup(j);
                let e = old_self.entries@[j].1;
                assert(self.data@.subrange(e.offset as int, e.offset + e.len)
                    =~= old_self.data@.subrange(e.offset as int, e.offset + e.len));
            }
        }
        Ok(())
    }

    /// Builds the index from FASTA records given as (id, sequence) pairs.
    /// Succeeds exactly when the ids are pairwise distinct, and then holds
    /// every record's bytes under its id.
    pub fn build(records: &Vec<(Vec<u8>, Vec<u8>)>) -> (r: Result<FastaSequenceIndex, IndexError>)
        ensures
            r is Ok <==> unique_ids(records@),
            r matches Err(e) ==> e == IndexError::DuplicateId,
            r matches Ok(ix) ==> ix.wf() && (forall|i: int|
                0 <= i < records@.len() ==> ix.contains_id((#[trigger] records@[i]).0@)
                    && ix.sequence_of(records@[i].0@) == records@[i].1@) && (forall|id: Seq<u8>|
                #[trigger] ix.contains_id(id) ==> exists|i: int|
                    0 <= i < records@.len() && (#[trigger] records@[i]).0@ == id),
    {
        let mut ix = FastaSequenceIndex::new();
        let n = records.len();
        let mut k: usize = 0;
        while k < n
            invariant
                n == records@.len(),
                k <= n,
                ix.wf(),
                forall|i: int|
                    0 <= i < k ==> ix.contains_id((#[trigger] records@[i]).0@) && ix.sequence_of(
                        records@[i].0@,
                    ) == records@[i].1@,
                forall|id: Seq<u8>| #[trigger]
                    ix.contains_id(id) ==> exists|i: int|
                        0 <= i < k && (#[trigger] records@[i]).0@ == id,
                forall|i: int, j: int|
                    0 <= i < j < k ==> (#[trigger] records@[i]).0@ != (#[trigger] records@[j]).0@,
            decreases n - k,
        {
            let rec = &records[k];
            let ghost old_ix = ix;
            match ix.push_record(rec.0.as_slice(), rec.1.as_slice()) {
                Ok(_) => {
                    proof {
                        assert forall|i: int, j: int|
                            0 <= i < j < k + 1 implies (#[trigger] records@[i]).0@ != (
                        #[trigger] records@[j]).0@ by {
                            if j == k && records@[i].0@ == records@[j].0@ {
                                assert(old_ix.contains_id(records@[i].0@));
                            }
                        }
                    }
                },
                Err(_) => {
                    proof {
                        assert(old_ix.contains_id(records@[k as int].0@));
                        let i = choose|i: int|
                            0 <= i < k && (#[trigger] records@[i]).0@ == records@[k as int].0@;
                        assert(!unique_ids(records@));
                    }
                    return Err(IndexError::DuplicateId);
                },
            }
            k = k + 1;
        }
        Ok(ix)
    }

    /// Overwrites `output` with the bytes stored for `id`, read positionally
    /// from the byte store. A missing id leaves `output` untouched and fails.
    pub fn get_sequence(&self, id: &[u8], output: &mut Vec<u8>) -> (r: Result<(), IndexError>)
        requires
            self.wf(),
        ensures
            r is Ok <==> self.contains_id(id@),
            r is Ok ==> final(output)@ == self.sequence_of(id@),
            r matches Err(e) ==> e == IndexError::MissingId && final(output)@ == old(output)@,
    {
        match self.find_entry(id) {
            None => Err(IndexError::MissingId),
            Some(i) => {
                proof {
                    self.lemma_entry_lookup(i as int);
                }
                let fs = self.entries[i].1;
                let data_len = self.data.len();
                proof {
                    assert(self.entries@[i as int].1 == fs);
                    assert(fs.offset + fs.len + 1 <= data_len);
                }
                let start = fs.offset as usize;
                let bytes = slice_subrange(self.data.as_slice(), start, start + fs.len);
                output.clear();
                push_bytes(output, bytes);
                Ok(())
            },
        }
    }
}

fn bytes_equal(a: &[u8], b: &[u8]) -> (r: bool)
    ensures
        r == (a@ == b@),
{
    if a.len() != b.len() {
        return false;
    }
    let n = a.len();
    let mut i: usize = 0;
    while i < n
        invariant
            n == a@.len(),
            n == b@.len(),
            i <= n,
            forall|j: int| 0 <= j < i ==> a@[j] == b@[j],
        decreases n - i,
    {
        if a[i] != b[i] {
            return false;
        }
        i = i + 1;
    }
    proof {
        assert(a@ =~= b@);
    }
    true
}

} // verus!
