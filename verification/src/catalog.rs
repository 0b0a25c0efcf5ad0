//! License catalog: an in-memory mapping from SPDX identifier to
//! license metadata (display name and header template), looked up by
//! identifier. Identifiers are unique within a catalog.

use vstd::prelude::*;
use crate::bytes::eq_bytes;

verus! {

/// One license's metadata: its SPDX identifier, its full display name,
/// and its header template with `{{name}}` placeholders.
pub struct LicenseSpec {
    pub id: Vec<u8>,
    pub display_name: Vec<u8>,
    pub header_template: Vec<u8>,
}

/// The index of the first entry whose identifier is `id`, if any.
pub open spec fn first_match(entries: Seq<LicenseSpec>, id: Seq<u8>) -> Option<int>
    decreases entries.len(),
{
    if entries.len() == 0 {
        None
    } else {
        match first_match(entries.drop_last(), id) {
            Some(i) => Some(i),
            None => if entries.last().id@ == id {
                Some(entries.len() - 1)
            } else {
                None
            },
        }
    }
}

/// What `first_match` returns points at a matching entry; `None` means
/// no entry matches.
pub proof fn lemma_first_match(entries: Seq<LicenseSpec>, id: Seq<u8>)
    ensures
        match first_match(entries, id) {
            Some(i) => 0 <= i < entries.len() && entries[i].id@ == id,
            None => forall|j: int| 0 <= j < entries.len() ==> entries[j].id@ != id,
        },
    decreases entries.len(),
{
    if entries.len() > 0 {
        lemma_first_match(entries.drop_last(), id);
        assert(forall|j: int|
            0 <= j < entries.len() - 1 ==> entries.drop_last()[j] == entries[j]);
    }
}

/// An entry matching `id` at `i`, with none among the first `i`
/// entries, is the first match.
proof fn lemma_first_match_extend(entries: Seq<LicenseSpec>, id: Seq<u8>, i: int)
    requires
        0 <= i < entries.len(),
        first_match(entries.take(i), id) is None,
        entries[i].id@ == id,
    ensures
        first_match(entries, id) == Some(i),
    decreases entries.len(),
{
    if entries.len() - 1 == i {
        assert(entries.drop_last() =~= entries.take(i));
    } else {
        assert(entries.drop_last().take(i) =~= entries.take(i));
        lemma_first_match_extend(entries.drop_last(), id, i);
    }
}

/// The in-memory license catalog.
pub struct Catalog {
    pub entries: Vec<LicenseSpec>,
}

impl Catalog {
    /// Identifiers are unique within the catalog.
    pub open spec fn wf(&self) -> bool {
        forall|i: int, j: int|
            0 <= i < j < self.entries@.len() ==> (#[trigger] self.entries@[i]).id@ != (
            #[trigger] self.entries@[j]).id@
    }

    /// An empty catalog.
    pub fn new() -> (r: Catalog)
        ensures
            r.entries@.len() == 0,
            r.wf(),
    {
        Catalog { entries: Vec::new() }
    }

    /// Adds an entry, unless its identifier is already present; reports
    /// whether the entry was added.
    pub fn add(&mut self, entry: LicenseSpec) -> (r: bool)
        requires
            old(self).wf(),
        ensures
            final(self).wf(),
            r == (first_match(old(self).entries@, entry.id@) is None),
            r ==> final(self).entries@ == old(self).entries@.push(entry),
            !r ==> final(self).entries@ == old(self).entries@,
    {
        match self.lookup(&entry.id) {
            Some(_) => false,
            None => {
                proof {
                    lemma_first_match(self.entries@, entry.id@);
                }
                self.entries.push(entry);
                true
            },
        }
    }

    /// The index of the entry for `id`, if the catalog holds one.
    pub fn lookup(&self, id: &Vec<u8>) -> (r: Option<usize>)
        ensures
            match r {
                Some(i) => i < self.entries@.len() && first_match(self.entries@, id@) == Some(
                    i as int,
                ),
                None => first_match(self.entries@, id@) is None,
            },
    {
        let mut i: usize = 0;
        while i < self.entries.len()
            invariant
                0 <= i <= self.entries@.len(),
                first_match(self.entries@.take(i as int), id@) is None,
            decreases self.entries@.len() - i,
        {
            proof {
                assert(self.entries@.take(i + 1).drop_last() =~= self.entries@.take(i as int));
                assert(self.entries@.take(i + 1).last() == self.entries@[i as int]);
            }
            if eq_bytes(&self.entries[i].id, id) {
                proof {
                    lemma_first_match_extend(self.entries@, id@, i as int);
                }
                return Some(i);
            }
            i += 1;
        }
        proof {
            assert(self.entries@.take(self.entries@.len() as int) =~= self.entries@);
        }
        None
    }
}

} // verus!
