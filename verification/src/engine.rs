//! The import engine: a stack-driven driver for resolving imports.
//!
//! The engine holds the decision state of one `store` call: a LIFO stack of
//! items, each an (absolute source URL, optional format hint, target) with
//! an attempt counter and the sources and dependencies its importer used.
//! The surrounding runtime performs the outside work (loading metas,
//! fetching sources, invoking importers, moving files) and reports each
//! outcome back; the engine decides what happens next. Items execute
//! depth-first: dependencies pushed by an importer are imported before the
//! item is retried, and a per-item attempt bound breaks request loops.

use vstd::prelude::*;

use crate::id::AssetId;
use crate::meta::AssetMeta;

verus! {

/// Most attempts one item may take before its import fails.
pub const MAX_ITEM_ATTEMPTS: u32 = 1024;

/// One unit of work: import `source` into `target`.
pub struct StackItem {
    /// Absolute source URL.
    pub source: String,
    /// Source format hint, if the caller named one.
    pub format: Option<String>,
    /// Target format to produce.
    pub target: String,
    /// How many times this item has been attempted.
    pub attempt: u32,
    /// Sources the importer used: absolute URL and modification time in
    /// milliseconds since the unix epoch.
    pub sources: Vec<(String, u64)>,
    /// Ids of the dependencies the importer used.
    pub dependencies: Vec<AssetId>,
}

/// A fresh item for a source and target, with no format hint, no attempts
/// and nothing recorded.
pub open spec fn spec_new_item(source: Seq<char>, format: Option<Seq<char>>, target: Seq<char>, item: StackItem) -> bool {
    &&& item.source@ == source
    &&& match (item.format, format) {
        (Some(f), Some(g)) => f@ == g,
        (None, None) => true,
        _ => false,
    }
    &&& item.target@ == target
    &&& item.attempt == 0
    &&& item.sources@.len() == 0
    &&& item.dependencies@.len() == 0
}

/// The decision state of one `store` call.
pub struct Engine {
    stack: Vec<StackItem>,
}

impl Engine {
    /// The item stack, bottom first.
    pub closed spec fn spec_stack(self) -> Seq<StackItem> {
        self.stack@
    }

    /// Whether all items are done.
    pub open spec fn spec_done(self) -> bool {
        self.spec_stack().len() == 0
    }

    /// A fresh engine holding the one requested item.
    pub fn new(source: String, format: Option<String>, target: String) -> (r: Engine)
        ensures
            r.spec_stack().len() == 1,
            spec_new_item(source@, spec_view_opt(format), target@, r.spec_stack()[0]),
    {
        let item = StackItem {
            source,
            format,
            target,
            attempt: 0,
            sources: Vec::new(),
            dependencies: Vec::new(),
        };
        Engine { stack: vec![item] }
    }

    /// The item currently being worked on: the top of the stack.
    pub fn current(&self) -> (r: &StackItem)
        requires
            !self.spec_done(),
        ensures
            *r == self.spec_stack().last(),
    {
        &self.stack[self.stack.len() - 1]
    }

    /// Whether all items are done (exec form).
    pub fn is_done(&self) -> (r: bool)
        ensures
            r == self.spec_done(),
    {
        self.stack.len() == 0
    }

    /// Starts one more attempt at the top item.
    pub fn begin_attempt(&mut self)
        requires
            !old(self).spec_done(),
            old(self).spec_stack().last().attempt < u32::MAX,
        ensures
            final(self).spec_stack().len() == old(self).spec_stack().len(),
            final(self).spec_stack().last().attempt == old(self).spec_stack().last().attempt + 1,
            final(self).spec_stack().last().source == old(self).spec_stack().last().source,
            final(self).spec_stack().last().format == old(self).spec_stack().last().format,
            final(self).spec_stack().last().target == old(self).spec_stack().last().target,
            final(self).spec_stack().last().sources == old(self).spec_stack().last().sources,
            final(self).spec_stack().last().dependencies == old(
                self,
            ).spec_stack().last().dependencies,
            final(self).spec_stack().drop_last() == old(self).spec_stack().drop_last(),
    {
        let n = self.stack.len();
        let item = &mut self.stack[n - 1];
        item.attempt = item.attempt + 1;
        proof {
            assert(self.stack@.drop_last() =~= old(self).stack@.drop_last());
        }
    }

    /// The top item's target already has a fresh asset: the item is done
    /// without invoking any importer. Pops it; when it was the last item
    /// the whole call completes with that asset's id and artifact path.
    pub fn on_existing_asset(&mut self, id: AssetId, artifact_path: String) -> (r: Option<
        (AssetId, String),
    >)
        requires
            !old(self).spec_done(),
        ensures
            final(self).spec_stack() == old(self).spec_stack().drop_last(),
            match r {
                Some(done) => old(self).spec_stack().len() == 1 && done.0 == id && done.1@
                    == artifact_path@,
                None => old(self).spec_stack().len() > 1,
            },
    {
        let _ = self.stack.pop();
        if self.stack.len() == 0 {
            Some((id, artifact_path))
        } else {
            None
        }
    }

    /// Records that the importer read a source with its modification time
    /// (the sources callback, after a successful fetch).
    pub fn record_source(&mut self, url: String, modified: u64)
        requires
            !old(self).spec_done(),
        ensures
            final(self).spec_stack().len() == old(self).spec_stack().len(),
            final(self).spec_stack().last().sources@ == old(
                self,
            ).spec_stack().last().sources@.push((url, modified)),
            final(self).spec_stack().last().source == old(self).spec_stack().last().source,
            final(self).spec_stack().last().format == old(self).spec_stack().last().format,
            final(self).spec_stack().last().target == old(self).spec_stack().last().target,
            final(self).spec_stack().last().attempt == old(self).spec_stack().last().attempt,
            final(self).spec_stack().last().dependencies == old(
                self,
            ).spec_stack().last().dependencies,
            final(self).spec_stack().drop_last() == old(self).spec_stack().drop_last(),
    {
        let n = self.stack.len();
        let item = &mut self.stack[n - 1];
        item.sources.push((url, modified));
        proof {
            assert(self.stack@.drop_last() =~= old(self).stack@.drop_last());
        }
    }

    /// Records that the importer used a dependency (the dependencies
    /// callback, on a hit).
    pub fn record_dependency(&mut self, id: AssetId)
        requires
            !old(self).spec_done(),
        ensures
            final(self).spec_stack().len() == old(self).spec_stack().len(),
            final(self).spec_stack().last().dependencies@ == old(
                self,
            ).spec_stack().last().dependencies@.push(id),
            final(self).spec_stack().last().dependencies@.contains(id),
            final(self).spec_stack().last().source == old(self).spec_stack().last().source,
            final(self).spec_stack().last().format == old(self).spec_stack().last().format,
            final(self).spec_stack().last().target == old(self).spec_stack().last().target,
            final(self).spec_stack().last().attempt == old(self).spec_stack().last().attempt,
            final(self).spec_stack().last().sources == old(self).spec_stack().last().sources,
            final(self).spec_stack().drop_last() == old(self).spec_stack().drop_last(),
    {
        let n = self.stack.len();
        let item = &mut self.stack[n - 1];
        item.dependencies.push(id);
        proof {
            assert(self.stack@.drop_last() =~= old(self).stack@.drop_last());
            let deps = self.stack@.last().dependencies@;
            assert(deps[deps.len() - 1] == id);
        }
    }

    /// The importer asked for more sources. The item will be retried,
    /// unless its attempts are exhausted: the call fails exactly when the
    /// attempt count has reached the bound. Fetching the sources is the
    /// runtime's work.
    pub fn on_require_sources(&mut self) -> (failed: bool)
        requires
            !old(self).spec_done(),
        ensures
            *final(self) == *old(self),
            failed == (old(self).spec_stack().last().attempt >= MAX_ITEM_ATTEMPTS),
    {
        let n = self.stack.len();
        self.stack[n - 1].attempt >= MAX_ITEM_ATTEMPTS
    }

    /// The importer asked for dependencies, given as absolute (source URL,
    /// target) pairs. Fails exactly when the item's attempts are exhausted;
    /// otherwise pushes one fresh item per pair, so they are imported
    /// before this item is retried.
    pub fn on_require_dependencies(&mut self, pairs: Vec<(String, String)>) -> (failed: bool)
        requires
            !old(self).spec_done(),
        ensures
            failed == (old(self).spec_stack().last().attempt >= MAX_ITEM_ATTEMPTS),
            failed ==> *final(self) == *old(self),
            !failed ==> {
                &&& final(self).spec_stack().len() == old(self).spec_stack().len() + pairs@.len()
                &&& final(self).spec_stack().take(old(self).spec_stack().len() as int) == old(
                    self,
                ).spec_stack()
                &&& forall|k: int|
                    0 <= k < pairs@.len() ==> spec_new_item(
                        (#[trigger] pairs@[k]).0@,
                        None,
                        pairs@[k].1@,
                        final(self).spec_stack()[old(self).spec_stack().len() + k],
                    )
            },
    {
        let n = self.stack.len();
        if self.stack[n - 1].attempt >= MAX_ITEM_ATTEMPTS {
            return true;
        }
        self.push_items(pairs);
        false
    }

    /// Pushes one fresh item per (source, target) pair, in order.
    fn push_items(&mut self, pairs: Vec<(String, String)>)
        ensures
            final(self).spec_stack().len() == old(self).spec_stack().len() + pairs@.len(),
            final(self).spec_stack().take(old(self).spec_stack().len() as int) == old(
                self,
            ).spec_stack(),
            forall|k: int|
                0 <= k < pairs@.len() ==> spec_new_item(
                    (#[trigger] pairs@[k]).0@,
                    None,
                    pairs@[k].1@,
                    final(self).spec_stack()[old(self).spec_stack().len() + k],
                ),
        decreases pairs@.len(),
    {
        let ghost all = pairs@;
        let ghost base = self.stack@;
        let mut rest = pairs;
        match rest.pop() {
            None => {
                proof {
                    assert(self.stack@.take(base.len() as int) =~= base);
                }
            },
            Some(pair) => {
                self.push_items(rest);
                let item = StackItem {
                    source: pair.0,
                    format: None,
                    target: pair.1,
                    attempt: 0,
                    sources: Vec::new(),
                    dependencies: Vec::new(),
                };
                self.stack.push(item);
                proof {
                    assert(all.drop_last() == rest@);
                    assert(self.stack@.take(base.len() as int) =~= base);
                    assert(self.stack@[base.len() + all.len() - 1] == item);
                    assert forall|k: int| 0 <= k < all.len() implies spec_new_item(
                        (#[trigger] all[k]).0@,
                        None,
                        all[k].1@,
                        self.stack@[base.len() + k],
                    ) by {
                        if k < all.len() - 1 {
                            assert(spec_new_item(
                                all.drop_last()[k].0@,
                                None,
                                all.drop_last()[k].1@,
                                self.stack@.drop_last()[base.len() + k],
                            ));
                            assert(self.stack@.drop_last()[base.len() + k] == self.stack@[base.len()
                                + k]);
                        } else {
                            assert(all[k] == pair);
                        }
                    }
                }
            },
        }
    }

    /// The importer succeeded: the top item is finished. Pops and returns
    /// it; the runtime then places the artifact, builds its record from
    /// the item's recorded sources and dependencies, and persists the
    /// source meta.
    pub fn pop_finished(&mut self) -> (r: StackItem)
        requires
            !old(self).spec_done(),
        ensures
            r == old(self).spec_stack().last(),
            final(self).spec_stack() == old(self).spec_stack().drop_last(),
    {
        match self.stack.pop() {
            Some(item) => item,
            None => {
                proof {
                    assert(false);
                }
                unreached()
            },
        }
    }
}

/// The view of an optional string.
pub open spec fn spec_view_opt(s: Option<String>) -> Option<Seq<char>> {
    match s {
        Some(x) => Some(x@),
        None => None,
    }
}

/// A dependency the importer recorded ends up in the asset record built
/// from the finished item: with the record's dependency list taken from
/// the item's, every recorded id is among the asset's dependencies.
pub proof fn lemma_recorded_dependency_in_meta(deps: Seq<AssetId>, id: AssetId, meta: AssetMeta)
    requires
        meta.dependencies@ == deps.push(id),
    ensures
        meta.dependencies@.contains(id),
{
    assert(meta.dependencies@[deps.len() as int] == id);
}

/// Whether a recorded asset is stale and must be re-imported: some source
/// it was built from now reports a different modification time, or none at
/// all. `current` maps each absolute source URL to its present
/// modification time, `None` meaning the time cannot be read.
pub open spec fn spec_needs_reimport(recorded: Seq<(String, u64)>, current: Seq<(String, Option<u64>)>) -> bool {
    exists|i: int|
        0 <= i < recorded.len() && !spec_mtime_matches(#[trigger] recorded[i], current)
}

/// Whether the current listing confirms one recorded (url, mtime) pair.
pub open spec fn spec_mtime_matches(rec: (String, u64), current: Seq<(String, Option<u64>)>) -> bool {
    exists|j: int|
        0 <= j < current.len() && (#[trigger] current[j]).0@ == rec.0@ && current[j].1 == Some(
            rec.1,
        )
}

/// Decides whether an asset must be re-imported, from its recorded source
/// modification times and the present ones. Any discrepancy means
/// re-import.
pub fn needs_reimport(recorded: &Vec<(String, u64)>, current: &Vec<(String, Option<u64>)>) -> (r:
    bool)
    ensures
        r == spec_needs_reimport(recorded@, current@),
{
    let mut i: usize = 0;
    while i < recorded.len()
        invariant
            i <= recorded@.len(),
            forall|j: int| 0 <= j < i ==> spec_mtime_matches(#[trigger] recorded@[j], current@),
        decreases recorded@.len() - i,
    {
        if !mtime_matches(&recorded[i], current) {
            return true;
        }
        i = i + 1;
    }
    false
}

/// Exec form of one recorded pair's confirmation.
fn mtime_matches(rec: &(String, u64), current: &Vec<(String, Option<u64>)>) -> (r: bool)
    ensures
        r == spec_mtime_matches(*rec, current@),
{
    let mut j: usize = 0;
    while j < current.len()
        invariant
            j <= current@.len(),
            forall|k: int|
                0 <= k < j ==> !((#[trigger] current@[k]).0@ == rec.0@ && current@[k].1 == Some(
                    rec.1,
                )),
        decreases current@.len() - j,
    {
        let same_url = crate::placement::string_eq_str(&current[j].0, rec.0.as_str());
        let same_time = match current[j].1 {
            Some(m) => m == rec.1,
            None => false,
        };
        if same_url && same_time {
            return true;
        }
        j = j + 1;
    }
    false
}

} // verus!
