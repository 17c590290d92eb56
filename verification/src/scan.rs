//! The artifact scan cache: a lookup from asset id to the (source, format,
//! target) triple that re-produces its artifact. Filled once from the
//! metas found on disk; ids already present are kept, later sightings of
//! the same id are ignored.

use vstd::prelude::*;

use crate::id::AssetId;

verus! {

/// What is needed to re-produce an artifact: its source, the format hint
/// it was imported with, and its target format.
pub struct AssetItem {
    /// Source URL, relative to the base for local sources.
    pub source: String,
    /// Source format hint recorded for the asset, if any.
    pub format: Option<String>,
    /// Target format of the asset.
    pub target: String,
}

/// The id-to-item index built by scanning the metas on disk.
pub struct ScanIndex {
    entries: Vec<(AssetId, AssetItem)>,
    scanned: bool,
}

impl ScanIndex {
    /// The recorded (id, item) pairs.
    pub closed spec fn spec_entries(self) -> Seq<(AssetId, AssetItem)> {
        self.entries@
    }

    /// Whether the one-time scan has run.
    pub closed spec fn spec_scanned(self) -> bool {
        self.scanned
    }

    /// Whether an id is indexed.
    pub open spec fn spec_has(self, id: AssetId) -> bool {
        exists|i: int|
            0 <= i < self.spec_entries().len() && (#[trigger] self.spec_entries()[i]).0 == id
    }

    /// The item indexed for an id.
    pub open spec fn spec_item(self, id: AssetId) -> AssetItem {
        (self.spec_entries()[choose|i: int|
            0 <= i < self.spec_entries().len() && (#[trigger] self.spec_entries()[i]).0 == id]).1
    }

    /// Ids are indexed once.
    pub open spec fn wf(self) -> bool {
        forall|i: int, j: int|
            0 <= i < j < self.spec_entries().len() ==> (#[trigger] self.spec_entries()[i]).0 != (
            #[trigger] self.spec_entries()[j]).0
    }

    /// An empty, unscanned index.
    pub fn new() -> (r: ScanIndex)
        ensures
            r.wf(),
            r.spec_entries().len() == 0,
            !r.spec_scanned(),
    {
        ScanIndex { entries: Vec::new(), scanned: false }
    }

    /// Whether the one-time scan has run (exec form).
    pub fn is_scanned(&self) -> (r: bool)
        ensures
            r == self.spec_scanned(),
    {
        self.scanned
    }

    /// Marks the one-time scan as done.
    pub fn mark_scanned(&mut self)
        ensures
            final(self).spec_scanned(),
            final(self).spec_entries() == old(self).spec_entries(),
    {
        self.scanned = true;
    }

    /// Indexes an id: kept out when the id is already there, so the first
    /// sighting wins.
    pub fn add(&mut self, id: AssetId, item: AssetItem)
        requires
            old(self).wf(),
        ensures
            final(self).wf(),
            final(self).spec_scanned() == old(self).spec_scanned(),
            final(self).spec_has(id),
            old(self).spec_has(id) ==> *final(self) == *old(self),
            !old(self).spec_has(id) ==> final(self).spec_entries() == old(
                self,
            ).spec_entries().push((id, item)) && final(self).spec_item(id) == item,
            forall|x: AssetId|
                x != id ==> (final(self).spec_has(x) <==> old(self).spec_has(x)),
            forall|x: AssetId|
                x != id && old(self).spec_has(x) ==> final(self).spec_item(x) == old(
                    self,
                ).spec_item(x),
    {
        if self.contains_id(id) {
            return ;
        }
        let ghost pre = self.spec_entries();
        self.entries.push((id, item));
        proof {
            assert(self.spec_entries() == pre.push((id, item)));
            assert(self.spec_entries().last().0 == id);
            assert(self.wf()) by {
                assert forall|i: int, j: int|
                    0 <= i < j < self.spec_entries().len() implies (
                #[trigger] self.spec_entries()[i]).0 != (#[trigger] self.spec_entries()[j]).0 by {
                    if j == self.spec_entries().len() - 1 {
                        assert(pre[i] == self.spec_entries()[i]);
                        assert(old(self).spec_entries()[i].0 != id);
                    } else {
                        assert(pre[i] == self.spec_entries()[i]);
                        assert(pre[j] == self.spec_entries()[j]);
                    }
                }
            }
            assert(self.spec_has(id)) by {
                assert(self.spec_entries()[self.spec_entries().len() - 1].0 == id);
            }
            assert(self.spec_item(id) == item) by {
                let c = choose|c: int|
                    0 <= c < self.spec_entries().len() && (#[trigger] self.spec_entries()[c]).0
                        == id;
                if c != self.spec_entries().len() - 1 {
                    assert(old(self).spec_entries()[c].0 == id);
                }
            }
            assert forall|x: AssetId| x != id implies (self.spec_has(x) <==> old(self).spec_has(
                x,
            )) by {
                if self.spec_has(x) {
                    let c = choose|c: int|
                        0 <= c < self.spec_entries().len() && (#[trigger] self.spec_entries()[c]).0
                            == x;
                    assert(c < pre.len());
                    assert(old(self).spec_entries()[c].0 == x);
                }
                if old(self).spec_has(x) {
                    let c = choose|c: int|
                        0 <= c < pre.len() && (#[trigger] old(self).spec_entries()[c]).0 == x;
                    assert(self.spec_entries()[c].0 == x);
                }
            }
            assert forall|x: AssetId| x != id && old(self).spec_has(x) implies self.spec_item(x)
                == old(self).spec_item(x) by {
                let c = choose|c: int|
                    0 <= c < self.spec_entries().len() && (#[trigger] self.spec_entries()[c]).0
                        == x;
                let c2 = choose|c2: int|
                    0 <= c2 < pre.len() && (#[trigger] old(self).spec_entries()[c2]).0 == x;
                assert(c < pre.len());
                assert(old(self).spec_entries()[c].0 == x);
                if c != c2 {
                    assert(old(self).spec_entries()[c].0 != old(self).spec_entries()[c2].0);
                }
            }
        }
    }

    /// Whether an id is indexed (exec form).
    pub fn contains_id(&self, id: AssetId) -> (r: bool)
        ensures
            r == self.spec_has(id),
    {
        let mut i: usize = 0;
        while i < self.entries.len()
            invariant
                i <= self.spec_entries().len(),
                forall|j: int| 0 <= j < i ==> (#[trigger] self.spec_entries()[j]).0 != id,
            decreases self.spec_entries().len() - i,
        {
            if self.entries[i].0 == id {
                proof {
                    assert(self.spec_entries()[i as int].0 == id);
                }
                return true;
            }
            i = i + 1;
        }
        false
    }

    /// The item indexed for an id, if any.
    pub fn lookup(&self, id: AssetId) -> (r: Option<&AssetItem>)
        requires
            self.wf(),
        ensures
            match r {
                Some(item) => self.spec_has(id) && *item == self.spec_item(id),
                None => !self.spec_has(id),
            },
    {
        let mut i: usize = 0;
        while i < self.entries.len()
            invariant
                self.wf(),
                i <= self.spec_entries().len(),
                forall|j: int| 0 <= j < i ==> (#[trigger] self.spec_entries()[j]).0 != id,
            decreases self.spec_entries().len() - i,
        {
            if self.entries[i].0 == id {
                proof {
                    assert(self.spec_entries()[i as int].0 == id);
                    let c = choose|c: int|
                        0 <= c < self.spec_entries().len() && (#[trigger] self.spec_entries()[c]).0
                            == id;
                    if c != i {
                        assert(self.spec_entries()[i as int].0 != self.spec_entries()[c].0);
                    }
                }
                return Some(&self.entries[i].1);
            }
            i = i + 1;
        }
        None
    }
}

} // verus!
