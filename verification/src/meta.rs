//! Per-source metadata: asset records and where their files live.
//!
//! A source meta maps target format names to asset records. For a local
//! source (a `file:` URL under the treasury base) the meta lives beside the
//! source file under the added suffix `.treasure`; for any other source it
//! lives in the external directory under a prefix of the SHA-256 of the URL
//! string, resolved by the candidate-path protocol.

use vstd::prelude::*;

use crate::hash::{sha256_of, HashSha256};
use crate::hex::hex_of_bytes;
use crate::id::AssetId;
use crate::placement::{candidate_name, candidate_prefix, candidate_suffix, dec_of, entries_distinct,
    find_artifact_slot, find_meta_slot, has_meta_name, meta_collides, meta_entries_distinct,
    meta_entry_named, u64_to_dec, DirEntry, MetaDirEntry, MetaSlot, Placement};

verus! {

/// Whether a prefix value is the default one, left out of the persisted
/// form.
pub fn prefix_is_default(prefix: &usize) -> (r: bool)
    ensures
        r == (*prefix == 8),
{
    *prefix == crate::placement::PREFIX_STARTING_LEN
}

/// The default prefix length for records that leave it out.
pub fn default_prefix() -> (r: usize)
    ensures
        r == 8,
{
    crate::placement::PREFIX_STARTING_LEN
}

/// Whether a suffix value is zero, left out of the persisted form.
pub fn suffix_is_zero(suffix: &usize) -> (r: bool)
    ensures
        r == (*suffix == 0),
{
    *suffix == 0
}

/// One asset record: everything recorded about one import of one source
/// into one target format. The artifact's location is derived purely from
/// `sha256`, `prefix` and `suffix`.
pub struct AssetMeta {
    /// The asset's id.
    pub id: AssetId,
    /// SHA-256 of the artifact file.
    pub sha256: HashSha256,
    /// Length of the hex prefix used as the artifact's file name.
    pub prefix: usize,
    /// Numeric suffix of the artifact's file name; zero means none.
    pub suffix: usize,
    /// The source format the importer was chosen by, if one was named.
    pub format: Option<String>,
    /// Source URLs (relative to the base) the importer read, with their
    /// modification times in milliseconds since the unix epoch.
    pub sources: Vec<(String, u64)>,
    /// Ids of the assets the importer depended on.
    pub dependencies: Vec<AssetId>,
}

impl AssetMeta {
    /// A record is well formed when its hash is full-length, its prefix is
    /// within the hex width and its id is valid.
    pub open spec fn wf(self) -> bool {
        &&& self.sha256.wf()
        &&& 8 <= self.prefix <= 64
        &&& self.id.is_valid()
    }

    /// Builds the record for a fresh artifact: hashes the output bytes and
    /// resolves the artifact's file name against a snapshot of the
    /// artifacts directory by the candidate-path protocol. Returns the
    /// record together with the chosen placement, whose `dedup` flag says
    /// whether the output was a duplicate of an artifact already stored.
    pub fn new(
        id: AssetId,
        format: Option<String>,
        sources: Vec<(String, u64)>,
        dependencies: Vec<AssetId>,
        output: &Vec<u8>,
        artifacts: &Vec<DirEntry>,
    ) -> (r: (AssetMeta, Placement))
        requires
            id.is_valid(),
            entries_distinct(artifacts@),
            artifacts@.len() + 67 <= usize::MAX,
        ensures
            r.0.wf(),
            r.0.id == id,
            r.0.format == format,
            r.0.sources == sources,
            r.0.dependencies == dependencies,
            r.0.sha256@ == sha256_of(output@),
            r.1.name@ == candidate_name(hex_of_bytes(sha256_of(output@)), r.1.index as int),
            r.0.prefix == candidate_prefix(hex_of_bytes(sha256_of(output@)), r.1.index as int),
            r.0.suffix == candidate_suffix(hex_of_bytes(sha256_of(output@)), r.1.index as int),
            forall|k: int|
                0 <= k < r.1.index ==> crate::placement::artifact_collides(
                    artifacts@,
                    candidate_name(hex_of_bytes(sha256_of(output@)), k),
                    output@,
                ),
            !r.1.dedup ==> !crate::placement::has_name(artifacts@, r.1.name@),
            r.1.dedup ==> crate::placement::has_name(artifacts@, r.1.name@) && (
            crate::placement::entry_named(artifacts@, r.1.name@).content matches Some(c) && c@
                == output@),
    {
        let sha256 = HashSha256::new(output.as_slice());
        let hexs = sha256.to_hex();
        let placement = find_artifact_slot(artifacts, &hexs, output);
        let meta = AssetMeta {
            id,
            sha256,
            prefix: placement.prefix,
            suffix: placement.suffix,
            format,
            sources,
            dependencies,
        };
        (meta, placement)
    }

    /// The asset's id.
    pub fn id(&self) -> (r: AssetId)
        ensures
            r == self.id,
    {
        self.id
    }

    /// The artifact's file name within the artifacts directory, derived
    /// from the hash, prefix and suffix alone.
    pub fn artifact_name(&self) -> (r: String)
        requires
            self.wf(),
        ensures
            r@ == spec_artifact_name(hex_of_bytes(self.sha256@), self.prefix as int, self.suffix as int),
    {
        proof {
            crate::hex::lemma_hex_of_bytes_len(self.sha256@);
        }
        let hexs = self.sha256.to_hex();
        let prefix_part = hexs.as_str().substring_char(0, self.prefix).to_owned();
        if self.suffix == 0 {
            prefix_part
        } else {
            proof {
                reveal_strlit(":");
            }
            let mut s = prefix_part;
            s.append(":");
            let d = u64_to_dec(self.suffix as u64);
            s.append(d.as_str());
            assert(s@ =~= spec_artifact_name(
                hex_of_bytes(self.sha256@),
                self.prefix as int,
                self.suffix as int,
            ));
            s
        }
    }

    /// The artifact's path: the artifacts directory with the file name
    /// appended after a separator.
    pub fn artifact_path(&self, artifacts_base: &String) -> (r: String)
        requires
            self.wf(),
        ensures
            r@ == artifacts_base@ + seq!['/'] + spec_artifact_name(
                hex_of_bytes(self.sha256@),
                self.prefix as int,
                self.suffix as int,
            ),
    {
        proof {
            reveal_strlit("/");
        }
        let mut s = artifacts_base.clone();
        s.append("/");
        let name = self.artifact_name();
        s.append(name.as_str());
        assert(s@ =~= artifacts_base@ + seq!['/'] + spec_artifact_name(
            hex_of_bytes(self.sha256@),
            self.prefix as int,
            self.suffix as int,
        ));
        s
    }
}

/// The artifact file name recorded as (prefix, suffix): the hex prefix,
/// with `:<suffix>` appended when the suffix is non-zero.
pub open spec fn spec_artifact_name(hexs: Seq<char>, prefix: int, suffix: int) -> Seq<char> {
    if suffix == 0 {
        hexs.take(prefix)
    } else {
        hexs.take(prefix) + seq![':'] + dec_of(suffix)
    }
}

/// A name chosen by the candidate-path protocol is the name the record's
/// (prefix, suffix) pair reconstructs, except for the never-reached
/// candidate that pairs the full hex with suffix zero.
pub proof fn lemma_candidate_matches_artifact_name(hexs: Seq<char>, k: int)
    requires
        hexs.len() >= 8,
        0 <= k,
        k != hexs.len() - 8 + 1,
    ensures
        candidate_name(hexs, k) == spec_artifact_name(
            hexs,
            candidate_prefix(hexs, k),
            candidate_suffix(hexs, k),
        ),
{
    if k <= hexs.len() - 8 {
    } else {
        assert(hexs.take(hexs.len() as int) =~= hexs);
    }
}

/// Per-source metadata: the source URL and one asset record per target
/// format name.
pub struct SourceMeta {
    url: String,
    assets: Vec<(String, AssetMeta)>,
}

impl SourceMeta {
    /// Target names are pairwise distinct.
    pub closed spec fn wf(self) -> bool {
        forall|i: int, j: int|
            0 <= i < j < self.assets@.len() ==> (#[trigger] self.assets@[i]).0@ != (
            #[trigger] self.assets@[j]).0@
    }

    /// The source URL this meta belongs to.
    pub closed spec fn spec_url(self) -> Seq<char> {
        self.url@
    }

    /// Whether a target format has a recorded asset.
    pub closed spec fn has_target(self, target: Seq<char>) -> bool {
        exists|i: int| 0 <= i < self.assets@.len() && (#[trigger] self.assets@[i]).0@ == target
    }

    /// The asset recorded for a target format.
    pub closed spec fn spec_asset(self, target: Seq<char>) -> AssetMeta {
        (self.assets@[choose|i: int|
            0 <= i < self.assets@.len() && (#[trigger] self.assets@[i]).0@ == target]).1
    }

    /// A fresh meta for a source URL, with no assets.
    pub fn new(url: String) -> (r: SourceMeta)
        ensures
            r.wf(),
            r.spec_url() == url@,
            forall|t: Seq<char>| !r.has_target(t),
    {
        SourceMeta { url, assets: Vec::new() }
    }

    /// Rebuilds a meta from its persisted parts. Records whose target
    /// repeats an earlier one are dropped, keeping the first: each present
    /// target maps to the asset of its first record.
    pub fn from_parts(url: String, assets: Vec<(String, AssetMeta)>) -> (r: SourceMeta)
        ensures
            r.wf(),
            r.spec_url() == url@,
            forall|t: Seq<char>| r.has_target(t) <==> spec_parts_have_target(assets@, t),
            forall|t: Seq<char>, i: int|
                #[trigger] spec_first_record(assets@, t, i) ==> r.has_target(t) && r.spec_asset(t)
                    == assets@[i].1,
        decreases assets@.len(),
    {
        let ghost all = assets@;
        let mut rest = assets;
        match rest.pop() {
            None => {
                let m = SourceMeta::new(url);
                m
            },
            Some(pair) => {
                let ghost t0 = pair.0@;
                let ghost a0 = pair.1;
                let mut m = SourceMeta::from_parts(url, rest);
                proof {
                    lemma_parts_take_step(all, all.len() - 1);
                    assert(all.take(all.len() - 1) =~= all.drop_last());
                    assert(all.take(all.len() as int) =~= all);
                    assert(all[all.len() - 1].0@ == t0);
                }
                if !m.has_target_exec(pair.0.as_str()) {
                    let ghost mid = m;
                    m.push_asset(pair.0, pair.1);
                    proof {
                        assert forall|t: Seq<char>| #[trigger] m.has_target(t)
                            <==> spec_parts_have_target(all, t) by {
                            if t != t0 {
                                assert(m.has_target(t) <==> spec_vec_has_target(mid.assets@, t));
                                assert(spec_vec_has_target(mid.assets@, t) == mid.has_target(t));
                            }
                        }
                        assert forall|t: Seq<char>, i: int|
                            #[trigger] spec_first_record(all, t, i) implies m.has_target(t)
                            && m.spec_asset(t) == all[i].1 by {
                            if t == t0 {
                                assert(i == all.len() - 1) by {
                                    if i < all.len() - 1 {
                                        assert(all.drop_last()[i].0@ == t0);
                                        assert(spec_vec_has_target(mid.assets@, t0));
                                    }
                                }
                                assert(m.spec_asset(t0) == a0);
                            } else {
                                assert(i < all.len() - 1);
                                assert(spec_first_record(all.drop_last(), t, i)) by {
                                    assert(all.drop_last()[i] == all[i]);
                                    assert forall|j: int| 0 <= j < i implies (
                                    #[trigger] all.drop_last()[j]).0@ != t by {
                                        assert(all[j].0@ != t);
                                    }
                                }
                                assert(mid.has_target(t) && mid.spec_asset(t) == all.drop_last()[i].1);
                                assert(m.spec_asset(t) == mid.spec_asset(t));
                            }
                        }
                    }
                } else {
                    proof {
                        assert forall|t: Seq<char>| #[trigger] m.has_target(t)
                            <==> spec_parts_have_target(all, t) by {}
                        assert forall|t: Seq<char>, i: int|
                            #[trigger] spec_first_record(all, t, i) implies m.has_target(t)
                            && m.spec_asset(t) == all[i].1 by {
                            assert(i < all.len() - 1) by {
                                if i == all.len() - 1 {
                                    assert(m.has_target(t0));
                                    assert(spec_parts_have_target(all.drop_last(), t0));
                                    let j = choose|j: int|
                                        0 <= j < all.drop_last().len() && (
                                        #[trigger] all.drop_last()[j]).0@ == t0;
                                    assert(all[j].0@ == t0);
                                }
                            }
                            assert(spec_first_record(all.drop_last(), t, i)) by {
                                assert(all.drop_last()[i] == all[i]);
                                assert forall|j: int| 0 <= j < i implies (
                                #[trigger] all.drop_last()[j]).0@ != t by {
                                    assert(all[j].0@ != t);
                                }
                            }
                        }
                    }
                }
                m
            },
        }
    }

    /// The source URL.
    pub fn url(&self) -> (r: &String)
        ensures
            r@ == self.spec_url(),
    {
        &self.url
    }

    /// The recorded (target, asset) pairs.
    pub fn assets(&self) -> (r: &Vec<(String, AssetMeta)>)
        requires
            self.wf(),
        ensures
            r@.len() >= 0,
            forall|i: int|
                0 <= i < r@.len() ==> self.has_target((#[trigger] r@[i]).0@) && self.spec_asset(
                    r@[i].0@,
                ) == r@[i].1,
    {
        proof {
            assert forall|i: int| 0 <= i < self.assets@.len() implies self.has_target(
                (#[trigger] self.assets@[i]).0@,
            ) && self.spec_asset(self.assets@[i].0@) == self.assets@[i].1 by {
                assert(self.assets@[i].0@ == self.assets@[i].0@);
                let t = self.assets@[i].0@;
                let j = choose|j: int|
                    0 <= j < self.assets@.len() && (#[trigger] self.assets@[j]).0@ == t;
                if i != j {
                    assert(self.assets@[i].0@ != self.assets@[j].0@);
                }
            }
        }
        &self.assets
    }

    /// Whether a target has a recorded asset (exec form).
    pub fn has_target_exec(&self, target: &str) -> (r: bool)
        ensures
            r == self.has_target(target@),
    {
        let mut i: usize = 0;
        while i < self.assets.len()
            invariant
                i <= self.assets@.len(),
                forall|j: int| 0 <= j < i ==> (#[trigger] self.assets@[j]).0@ != target@,
            decreases self.assets@.len() - i,
        {
            if crate::placement::string_eq_str(&self.assets[i].0, target) {
                return true;
            }
            i = i + 1;
        }
        false
    }

    /// The asset recorded for a target, if any.
    pub fn get_asset(&self, target: &str) -> (r: Option<&AssetMeta>)
        requires
            self.wf(),
        ensures
            match r {
                Some(a) => self.has_target(target@) && *a == self.spec_asset(target@),
                None => !self.has_target(target@),
            },
    {
        let mut i: usize = 0;
        while i < self.assets.len()
            invariant
                self.wf(),
                i <= self.assets@.len(),
                forall|j: int| 0 <= j < i ==> (#[trigger] self.assets@[j]).0@ != target@,
            decreases self.assets@.len() - i,
        {
            if crate::placement::string_eq_str(&self.assets[i].0, target) {
                proof {
                    let t = target@;
                    let j = choose|j: int|
                        0 <= j < self.assets@.len() && (#[trigger] self.assets@[j]).0@ == t;
                    if j != i {
                        assert(self.assets@[i as int].0@ != self.assets@[j].0@);
                    }
                }
                return Some(&self.assets[i].1);
            }
            i = i + 1;
        }
        None
    }

    /// Records an asset for a target, replacing any earlier record for the
    /// same target (a stale asset re-imported). Afterwards the target maps
    /// to exactly this asset and every other target is unchanged.
    pub fn add_asset(&mut self, target: String, asset: AssetMeta)
        requires
            old(self).wf(),
        ensures
            final(self).wf(),
            final(self).spec_url() == old(self).spec_url(),
            final(self).has_target(target@),
            final(self).spec_asset(target@) == asset,
            forall|t: Seq<char>|
                t != target@ ==> (final(self).has_target(t) <==> old(self).has_target(t)),
            forall|t: Seq<char>|
                t != target@ && old(self).has_target(t) ==> final(self).spec_asset(t) == old(
                    self,
                ).spec_asset(t),
    {
        let ghost pre = *self;
        let found = self.find_target_index(target.as_str());
        match found {
            Some(j) => {
                let _ = self.assets.remove(j);
                let ghost mid = *self;
                proof {
                    lemma_remove_keeps_distinct(pre.assets@, j as int);
                    assert forall|t: Seq<char>| #[trigger] spec_vec_has_target(mid.assets@, t)
                        implies spec_vec_has_target(pre.assets@, t) by {
                        let idx = choose|idx: int|
                            0 <= idx < mid.assets@.len() && (#[trigger] mid.assets@[idx]).0@ == t;
                        if idx < j {
                            assert(pre.assets@[idx].0@ == t);
                        } else {
                            assert(pre.assets@[idx + 1].0@ == t);
                        }
                    }
                    assert(!spec_vec_has_target(mid.assets@, target@)) by {
                        if spec_vec_has_target(mid.assets@, target@) {
                            let idx = choose|idx: int|
                                0 <= idx < mid.assets@.len() && (#[trigger] mid.assets@[idx]).0@
                                    == target@;
                            if idx < j {
                                assert(pre.assets@[idx].0@ == target@);
                                assert(pre.assets@[j as int].0@ == target@);
                            } else {
                                assert(pre.assets@[idx + 1].0@ == target@);
                                assert(pre.assets@[j as int].0@ == target@);
                            }
                        }
                    }
                }
                self.push_asset(target, asset);
                proof {
                    let ghost t0 = pre.assets@[j as int].0@;
                    assert forall|t: Seq<char>| t != t0 implies ((#[trigger] self.has_target(t))
                        <==> pre.has_target(t)) by {
                        if spec_vec_has_target(pre.assets@, t) {
                            lemma_remove_keeps_others(pre.assets@, j as int, t);
                        }
                    }
                    assert forall|t: Seq<char>|
                        t != t0 && pre.has_target(t) implies #[trigger] self.spec_asset(t)
                        == pre.spec_asset(t) by {
                        lemma_remove_keeps_others(pre.assets@, j as int, t);
                    }
                }
            },
            None => {
                proof {
                    assert(!spec_vec_has_target(self.assets@, target@));
                }
                self.push_asset(target, asset);
            },
        }
    }

    /// Finds the position of a target's record.
    fn find_target_index(&self, target: &str) -> (r: Option<usize>)
        ensures
            match r {
                Some(j) => j < self.assets@.len() && self.assets@[j as int].0@ == target@,
                None => !spec_vec_has_target(self.assets@, target@),
            },
    {
        let mut i: usize = 0;
        while i < self.assets.len()
            invariant
                i <= self.assets@.len(),
                forall|j: int| 0 <= j < i ==> (#[trigger] self.assets@[j]).0@ != target@,
            decreases self.assets@.len() - i,
        {
            if crate::placement::string_eq_str(&self.assets[i].0, target) {
                return Some(i);
            }
            i = i + 1;
        }
        None
    }

    /// Appends a record for a target that has none yet.
    fn push_asset(&mut self, target: String, asset: AssetMeta)
        requires
            old(self).wf(),
            !spec_vec_has_target(old(self).assets@, target@),
        ensures
            final(self).wf(),
            final(self).url == old(self).url,
            final(self).assets@ == old(self).assets@.push((target, asset)),
            final(self).has_target(target@),
            final(self).spec_asset(target@) == asset,
            forall|t: Seq<char>|
                t != target@ ==> (final(self).has_target(t) <==> spec_vec_has_target(
                    old(self).assets@,
                    t,
                )),
            forall|t: Seq<char>|
                t != target@ && spec_vec_has_target(old(self).assets@, t)
                    ==> final(self).spec_asset(t) == spec_vec_asset(old(self).assets@, t),
    {
        let ghost pre = self.assets@;
        let ghost t0 = target@;
        self.assets.push((target, asset));
        proof {
            assert(self.assets@.last().0@ == t0);
            assert(self.wf()) by {
                assert forall|a: int, b: int|
                    0 <= a < b < self.assets@.len() implies (#[trigger] self.assets@[a]).0@ != (
                    #[trigger] self.assets@[b]).0@ by {
                    if b == self.assets@.len() - 1 {
                        assert(pre[a].0@ == self.assets@[a].0@);
                        assert(spec_vec_has_target(pre, self.assets@[a].0@));
                    }
                }
            }
            assert(self.has_target(t0));
            let j = choose|j: int|
                0 <= j < self.assets@.len() && (#[trigger] self.assets@[j]).0@ == t0;
            if j < self.assets@.len() - 1 {
                assert(spec_vec_has_target(pre, t0));
            }
            assert forall|t: Seq<char>| t != t0 implies (self.has_target(t) <==> spec_vec_has_target(
                pre,
                t,
            )) by {
                if self.has_target(t) {
                    let idx = choose|idx: int|
                        0 <= idx < self.assets@.len() && (#[trigger] self.assets@[idx]).0@ == t;
                    assert(idx < pre.len());
                    assert(pre[idx].0@ == t);
                }
                if spec_vec_has_target(pre, t) {
                    let idx = choose|idx: int| 0 <= idx < pre.len() && (#[trigger] pre[idx]).0@ == t;
                    assert(self.assets@[idx].0@ == t);
                }
            }
            assert forall|t: Seq<char>|
                t != t0 && spec_vec_has_target(pre, t) implies self.spec_asset(t)
                == spec_vec_asset(pre, t) by {
                let idx = choose|idx: int|
                    0 <= idx < self.assets@.len() && (#[trigger] self.assets@[idx]).0@ == t;
                let idx2 = choose|idx2: int| 0 <= idx2 < pre.len() && (#[trigger] pre[idx2]).0@ == t;
                assert(idx < pre.len());
                if idx != idx2 {
                    assert(pre[idx].0@ != pre[idx2].0@);
                }
            }
        }
    }
}

/// Whether a (target, asset) vector names a target.
pub open spec fn spec_vec_has_target(assets: Seq<(String, AssetMeta)>, target: Seq<char>) -> bool {
    exists|i: int| 0 <= i < assets.len() && (#[trigger] assets[i]).0@ == target
}

/// The asset a (target, asset) vector records for a target.
pub open spec fn spec_vec_asset(assets: Seq<(String, AssetMeta)>, target: Seq<char>) -> AssetMeta {
    (assets[choose|i: int| 0 <= i < assets.len() && (#[trigger] assets[i]).0@ == target]).1
}

/// Whether persisted parts name a target.
pub open spec fn spec_parts_have_target(assets: Seq<(String, AssetMeta)>, target: Seq<char>) -> bool {
    spec_vec_has_target(assets, target)
}

/// Whether position `i` holds the first record of a target.
pub open spec fn spec_first_record(assets: Seq<(String, AssetMeta)>, target: Seq<char>, i: int) -> bool {
    &&& 0 <= i < assets.len()
    &&& assets[i].0@ == target
    &&& forall|j: int| 0 <= j < i ==> (#[trigger] assets[j]).0@ != target
}

/// Taking one more record names exactly the targets named before plus the
/// new record's.
proof fn lemma_parts_take_step(all: Seq<(String, AssetMeta)>, i: int)
    requires
        0 <= i < all.len(),
    ensures
        forall|t: Seq<char>|
            #[trigger] spec_parts_have_target(all.take(i + 1), t) <==> (spec_parts_have_target(
                all.take(i),
                t,
            ) || t == all[i].0@),
{
    assert forall|t: Seq<char>|
        #[trigger] spec_parts_have_target(all.take(i + 1), t) <==> (spec_parts_have_target(
            all.take(i),
            t,
        ) || t == all[i].0@) by {
        if spec_parts_have_target(all.take(i + 1), t) {
            let idx = choose|idx: int|
                0 <= idx < all.take(i + 1).len() && (#[trigger] all.take(i + 1)[idx]).0@ == t;
            if idx < i {
                assert(all.take(i)[idx].0@ == t);
            } else {
                assert(all[i].0@ == t);
            }
        }
        if spec_parts_have_target(all.take(i), t) {
            let idx = choose|idx: int|
                0 <= idx < all.take(i).len() && (#[trigger] all.take(i)[idx]).0@ == t;
            assert(all.take(i + 1)[idx].0@ == t);
        }
        if t == all[i].0@ {
            assert(all.take(i + 1)[i].0@ == t);
        }
    }
}

proof fn lemma_remove_keeps_distinct(assets: Seq<(String, AssetMeta)>, j: int)
    requires
        0 <= j < assets.len(),
        forall|a: int, b: int|
            0 <= a < b < assets.len() ==> (#[trigger] assets[a]).0@ != (#[trigger] assets[b]).0@,
    ensures
        forall|a: int, b: int|
            0 <= a < b < assets.remove(j).len() ==> (#[trigger] assets.remove(j)[a]).0@ != (
            #[trigger] assets.remove(j)[b]).0@,
{
    let r = assets.remove(j);
    assert forall|a: int, b: int| 0 <= a < b < r.len() implies (#[trigger] r[a]).0@ != (
    #[trigger] r[b]).0@ by {
        let a2 = if a < j {
            a
        } else {
            a + 1
        };
        let b2 = if b < j {
            b
        } else {
            b + 1
        };
        assert(r[a] == assets[a2]);
        assert(r[b] == assets[b2]);
    }
}

proof fn lemma_remove_keeps_others(assets: Seq<(String, AssetMeta)>, j: int, t: Seq<char>)
    requires
        0 <= j < assets.len(),
        forall|a: int, b: int|
            0 <= a < b < assets.len() ==> (#[trigger] assets[a]).0@ != (#[trigger] assets[b]).0@,
        spec_vec_has_target(assets, t),
        assets[j].0@ != t,
    ensures
        spec_vec_has_target(assets.remove(j), t),
        spec_vec_asset(assets.remove(j), t) == spec_vec_asset(assets, t),
{
    let r = assets.remove(j);
    let idx = choose|idx: int| 0 <= idx < assets.len() && (#[trigger] assets[idx]).0@ == t;
    let idx2 = if idx < j {
        idx
    } else {
        idx - 1
    };
    assert(r[idx2] == assets[idx]);
    assert(spec_vec_has_target(r, t));
    let c = choose|c: int| 0 <= c < r.len() && (#[trigger] r[c]).0@ == t;
    let c2 = if c < j {
        c
    } else {
        c + 1
    };
    assert(r[c] == assets[c2]);
    if c2 != idx {
        assert(assets[c2].0@ != assets[idx].0@);
    }
}

/// The suffix a local source's meta file adds to the source's own path.
pub fn treasure_suffix() -> (r: &'static str)
    ensures
        r@ == ".treasure"@,
{
    ".treasure"
}

/// The meta path of a local source: the source path with `.treasure`
/// appended.
pub fn local_meta_path(source_path: &String) -> (r: String)
    ensures
        r@ == source_path@ + ".treasure"@,
{
    let mut s = source_path.clone();
    s.append(".treasure");
    s
}

/// Whether a path names a local meta file: it ends in `.treasure`.
pub fn is_local_meta_path(path: &str) -> (r: bool)
    ensures
        r == (path@.len() >= ".treasure"@.len() && path@.skip(
            path@.len() - ".treasure"@.len(),
        ) == ".treasure"@),
{
    let suffix = ".treasure";
    let plen = path.unicode_len();
    let slen = suffix.unicode_len();
    if plen < slen {
        return false;
    }
    let tail = path.substring_char(plen - slen, plen);
    let r = crate::placement::string_eq_str(&tail.to_owned(), suffix);
    proof {
        assert(path@.subrange(path@.len() - ".treasure"@.len(), path@.len() as int) =~= path@.skip(
            path@.len() - ".treasure"@.len(),
        ));
    }
    r
}

/// Where the meta for a source lives.
pub enum MetaPath {
    /// A `file:` source under the treasury base: the meta sits beside the
    /// source under the `.treasure` suffix.
    Local {
        /// Path of the meta file.
        meta_path: String,
    },
    /// Any other source: the meta lives in the external directory under a
    /// hash-derived name.
    External,
}

/// Decides where the meta for a source lives. `canonical_path` carries the
/// source's canonical filesystem path when the source is a `file:` URL
/// that resolves to one. The meta is local exactly when that path starts
/// with the treasury base path.
pub fn get_meta_path(canonical_path: &Option<String>, base: &String) -> (r: MetaPath)
    ensures
        match r {
            MetaPath::Local { meta_path } => {
                &&& canonical_path matches Some(p) && p@.len() >= base@.len() && p@.take(
                    base@.len() as int,
                ) == base@
                &&& meta_path@ == canonical_path.unwrap()@ + ".treasure"@
            },
            MetaPath::External => !(canonical_path matches Some(p) && p@.len() >= base@.len()
                && p@.take(base@.len() as int) == base@),
        },
{
    match canonical_path {
        Some(p) => {
            if str_starts_with(p.as_str(), base.as_str()) {
                MetaPath::Local { meta_path: local_meta_path(p) }
            } else {
                MetaPath::External
            }
        },
        None => MetaPath::External,
    }
}

/// Whether one string starts with another, by characters.
pub fn str_starts_with(a: &str, b: &str) -> (r: bool)
    ensures
        r == (a@.len() >= b@.len() && a@.take(b@.len() as int) == b@),
{
    let la = a.unicode_len();
    let lb = b.unicode_len();
    if la < lb {
        return false;
    }
    let head = a.substring_char(0, lb);
    let r = crate::placement::string_eq_str(&head.to_owned(), b);
    proof {
        assert(a@.subrange(0, b@.len() as int) =~= a@.take(b@.len() as int));
    }
    r
}

/// Resolves the external meta slot for a source URL against a snapshot of
/// the external directory: the candidate-path protocol applied to the hex
/// of SHA-256 of the URL string. The winning file either already stores
/// this URL (`existing`) or is free for a fresh meta.
pub fn external_meta_slot(entries: &Vec<MetaDirEntry>, url: &String) -> (r: MetaSlot)
    requires
        meta_entries_distinct(entries@),
        entries@.len() + 67 <= usize::MAX,
    ensures
        r.name@ == candidate_name(spec_url_hash_hex(url@), r.index as int),
        forall|k: int|
            0 <= k < r.index ==> meta_collides(entries@, candidate_name(spec_url_hash_hex(url@), k), url@),
        !r.existing ==> !has_meta_name(entries@, r.name@),
        r.existing ==> has_meta_name(entries@, r.name@) && (meta_entry_named(
            entries@,
            r.name@,
        ).url matches Some(u) && u@ == url@),
{
    let bytes = url.as_str().as_bytes_vec();
    let hash = HashSha256::new(bytes.as_slice());
    let hexs = hash.to_hex();
    proof {
        crate::hex::lemma_hex_of_bytes_len(hash@);
    }
    find_meta_slot(entries, &hexs, url)
}

/// The hex of the SHA-256 of a URL string's UTF-8 bytes.
pub open spec fn spec_url_hash_hex(url: Seq<char>) -> Seq<char> {
    hex_of_bytes(sha256_of(vstd::utf8::encode_utf8(url)))
}

} // verus!
