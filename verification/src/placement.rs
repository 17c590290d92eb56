//! The candidate-path protocol: collision resolution for content-addressed
//! file names.
//!
//! Given the 64-digit hex of a content hash and a directory, candidates are
//! tried in order: the hex prefixes of length 8 up to the full width, then
//! the full hex with `:0`, `:1`, ... appended. A candidate is taken when it
//! is free, or (for artifacts) when it already holds the same bytes, in
//! which case the new copy is a duplicate and is discarded.

use vstd::prelude::*;

use crate::hex::{hex_char_of, hex_digit_str, hex_val_of};

verus! {

/// Shortest prefix of the hex that is tried as a file name.
pub const PREFIX_STARTING_LEN: usize = 8;

/// The decimal rendering of a non-negative number, no leading zeros.
pub open spec fn dec_of(n: int) -> Seq<char>
    decreases n,
{
    if n < 10 {
        seq![hex_char_of(n)]
    } else {
        dec_of(n / 10) + seq![hex_char_of(n % 10)]
    }
}

proof fn lemma_dec_len_pos(n: int)
    ensures
        dec_of(n).len() >= 1,
    decreases n,
{
    if n >= 10 {
        lemma_dec_len_pos(n / 10);
    }
}

/// Distinct numbers have distinct decimal renderings.
proof fn lemma_dec_injective(a: int, b: int)
    requires
        a >= 0,
        b >= 0,
        dec_of(a) == dec_of(b),
    ensures
        a == b,
    decreases a,
{
    lemma_dec_len_pos(a);
    lemma_dec_len_pos(b);
    if a < 10 && b < 10 {
        crate::hex::lemma_hex_char_val(a);
        crate::hex::lemma_hex_char_val(b);
        assert(dec_of(a)[0] == hex_char_of(a));
        assert(dec_of(b)[0] == hex_char_of(b));
        assert(hex_val_of(hex_char_of(a)) == hex_val_of(hex_char_of(b)));
    } else if a < 10 {
        lemma_dec_len_pos(b / 10);
        assert(dec_of(b).len() >= 2);
    } else if b < 10 {
        lemma_dec_len_pos(a / 10);
        assert(dec_of(a).len() >= 2);
    } else {
        assert(dec_of(a).last() == hex_char_of(a % 10));
        assert(dec_of(b).last() == hex_char_of(b % 10));
        crate::hex::lemma_hex_char_val(a % 10);
        crate::hex::lemma_hex_char_val(b % 10);
        assert(a % 10 == b % 10);
        assert(dec_of(a).drop_last() =~= dec_of(a / 10));
        assert(dec_of(b).drop_last() =~= dec_of(b / 10));
        lemma_dec_injective(a / 10, b / 10);
        vstd::arithmetic::div_mod::lemma_fundamental_div_mod(a, 10);
        vstd::arithmetic::div_mod::lemma_fundamental_div_mod(b, 10);
    }
}

/// Renders a number in decimal.
pub fn u64_to_dec(n: u64) -> (r: String)
    ensures
        r@ == dec_of(n as int),
    decreases n,
{
    let d = (n % 10) as u8;
    let ds = hex_digit_str(d);
    if n < 10 {
        ds.to_owned()
    } else {
        let mut s = u64_to_dec(n / 10);
        s.append(ds);
        s
    }
}

/// The name of the k-th candidate for a hex string: prefixes of length
/// 8..=len first, then the full hex with `:<suffix>` appended, suffixes
/// counted from zero.
pub open spec fn candidate_name(hexs: Seq<char>, k: int) -> Seq<char> {
    if k <= hexs.len() - 8 {
        hexs.take(8 + k)
    } else {
        hexs + seq![':'] + dec_of(k - (hexs.len() - 8) - 1)
    }
}

/// The prefix length recorded for the k-th candidate.
pub open spec fn candidate_prefix(hexs: Seq<char>, k: int) -> int {
    if k <= hexs.len() - 8 {
        8 + k
    } else {
        hexs.len() as int
    }
}

/// The suffix recorded for the k-th candidate.
pub open spec fn candidate_suffix(hexs: Seq<char>, k: int) -> int {
    if k <= hexs.len() - 8 {
        0
    } else {
        k - (hexs.len() - 8) - 1
    }
}

/// Distinct candidate indexes name distinct files.
pub proof fn lemma_candidate_names_injective(hexs: Seq<char>, k1: int, k2: int)
    requires
        hexs.len() >= 8,
        0 <= k1,
        0 <= k2,
        k1 != k2,
    ensures
        candidate_name(hexs, k1) != candidate_name(hexs, k2),
{
    let l = hexs.len() as int;
    if k1 <= l - 8 && k2 <= l - 8 {
        assert(candidate_name(hexs, k1).len() == 8 + k1);
        assert(candidate_name(hexs, k2).len() == 8 + k2);
    } else if k1 <= l - 8 {
        lemma_dec_len_pos(k2 - (l - 8) - 1);
        assert(candidate_name(hexs, k1).len() <= l);
        assert(candidate_name(hexs, k2).len() >= l + 2);
    } else if k2 <= l - 8 {
        lemma_dec_len_pos(k1 - (l - 8) - 1);
        assert(candidate_name(hexs, k2).len() <= l);
        assert(candidate_name(hexs, k1).len() >= l + 2);
    } else {
        let s1 = k1 - (l - 8) - 1;
        let s2 = k2 - (l - 8) - 1;
        if candidate_name(hexs, k1) == candidate_name(hexs, k2) {
            assert(dec_of(s1) =~= (hexs + seq![':'] + dec_of(s1)).skip(l + 1));
            assert(dec_of(s2) =~= (hexs + seq![':'] + dec_of(s2)).skip(l + 1));
            lemma_dec_injective(s1, s2);
        }
    }
}

/// A directory entry as the placement logic sees it: a file name and, for
/// a regular file, its content.
pub struct DirEntry {
    /// File name within the directory.
    pub name: String,
    /// `Some` with the bytes of a regular file; `None` for anything that
    /// is not a regular file.
    pub content: Option<Vec<u8>>,
}

/// Directory listings have pairwise distinct names.
pub open spec fn entries_distinct(entries: Seq<DirEntry>) -> bool {
    forall|i: int, j: int|
        0 <= i < j < entries.len() ==> (#[trigger] entries[i]).name@ != (
        #[trigger] entries[j]).name@
}

/// Whether some entry has the given name.
pub open spec fn has_name(entries: Seq<DirEntry>, name: Seq<char>) -> bool {
    exists|i: int| 0 <= i < entries.len() && (#[trigger] entries[i]).name@ == name
}

/// The entry with the given name (meaningful under `has_name` and
/// distinctness).
pub open spec fn entry_named(entries: Seq<DirEntry>, name: Seq<char>) -> DirEntry {
    entries[choose|i: int| 0 <= i < entries.len() && (#[trigger] entries[i]).name@ == name]
}

/// Byte-for-byte equality of two byte vectors.
pub fn bytes_eq(a: &Vec<u8>, b: &Vec<u8>) -> (r: bool)
    ensures
        r == (a@ == b@),
{
    if a.len() != b.len() {
        assert(a@ != b@);
        return false;
    }
    let mut i: usize = 0;
    while i < a.len()
        invariant
            i <= a.len(),
            a@.len() == b@.len(),
            forall|j: int| 0 <= j < i ==> a@[j] == b@[j],
        decreases a.len() - i,
    {
        if a[i] != b[i] {
            return false;
        }
        i = i + 1;
    }
    proof {
        assert(a@ =~= b@);
    }
    true
}

/// Compares a `String` with a `str` by view.
pub fn string_eq_str(a: &String, b: &str) -> (r: bool)
    ensures
        r == (a@ == b@),
{
    let ghost ga = a@;
    let ghost gb = b@;
    let la = a.as_str().unicode_len();
    let lb = b.unicode_len();
    if la != lb {
        assert(ga != gb);
        return false;
    }
    let mut i: usize = 0;
    while i < la
        invariant
            la == ga.len() && la == gb.len(),
            i <= la,
            a@ == ga,
            b@ == gb,
            forall|j: int| 0 <= j < i ==> ga[j] == gb[j],
        decreases la - i,
    {
        if a.as_str().get_char(i) != b.get_char(i) {
            return false;
        }
        i = i + 1;
    }
    proof {
        assert(ga =~= gb);
    }
    true
}

/// Finds the entry with the given name, if any.
fn find_by_name(entries: &Vec<DirEntry>, name: &String) -> (r: Option<usize>)
    ensures
        match r {
            Some(i) => i < entries@.len() && entries@[i as int].name@ == name@,
            None => !has_name(entries@, name@),
        },
{
    let mut i: usize = 0;
    while i < entries.len()
        invariant
            i <= entries@.len(),
            forall|j: int| 0 <= j < i ==> (#[trigger] entries@[j]).name@ != name@,
        decreases entries@.len() - i,
    {
        if string_eq_str(&entries[i].name, name.as_str()) {
            return Some(i);
        }
        i = i + 1;
    }
    None
}

/// What the artifact protocol decides at one candidate.
pub open spec fn artifact_collides(entries: Seq<DirEntry>, name: Seq<char>, output: Seq<u8>) -> bool {
    has_name(entries, name) && !(entry_named(entries, name).content matches Some(c) && c@ == output)
}

/// A chosen artifact slot.
pub struct Placement {
    /// Index of the winning candidate.
    pub index: usize,
    /// Recorded prefix length of the artifact name.
    pub prefix: usize,
    /// Recorded numeric suffix of the artifact name.
    pub suffix: usize,
    /// The file name within the artifacts directory.
    pub name: String,
    /// True when the candidate already held the same bytes: the output is
    /// a duplicate and is discarded; false when the candidate was free and
    /// the output is moved there.
    pub dedup: bool,
}

/// The exec form of a candidate name.
pub fn candidate_string(hexs: &String, k: usize) -> (r: String)
    requires
        hexs@.len() >= 8,
        hexs@.len() + k + 2 <= usize::MAX,
    ensures
        r@ == candidate_name(hexs@, k as int),
{
    let l = hexs.as_str().unicode_len();
    if k <= l - 8 {
        hexs.as_str().substring_char(0, 8 + k).to_owned()
    } else {
        proof {
            reveal_strlit(":");
        }
        let mut s = hexs.clone();
        s.append(":");
        let suffix = u64_to_dec(((k - (l - 8)) - 1) as u64);
        s.append(suffix.as_str());
        assert(s@ =~= candidate_name(hexs@, k as int));
        s
    }
}

/// Chooses the artifact slot for content with the given hex hash against a
/// snapshot of the artifacts directory.
///
/// The winning candidate is the first in protocol order that is either
/// free or already holds exactly the output bytes; every earlier candidate
/// collides (is occupied by different content or by a non-file). On a
/// fresh directory the first prefix of length 8 wins, and a suffixed name
/// is only ever chosen after every prefix length has collided.
pub fn find_artifact_slot(entries: &Vec<DirEntry>, hexs: &String, output: &Vec<u8>) -> (r:
    Placement)
    requires
        hexs@.len() >= 8,
        hexs@.len() + entries@.len() + 3 <= usize::MAX,
        entries_distinct(entries@),
    ensures
        r.index <= entries@.len(),
        r.name@ == candidate_name(hexs@, r.index as int),
        r.prefix == candidate_prefix(hexs@, r.index as int),
        r.suffix == candidate_suffix(hexs@, r.index as int),
        forall|k: int| 0 <= k < r.index ==> artifact_collides(entries@, candidate_name(hexs@, k), output@),
        !r.dedup ==> !has_name(entries@, r.name@),
        r.dedup ==> has_name(entries@, r.name@) && (entry_named(entries@, r.name@).content
            matches Some(c) && c@ == output@),
{
    let n = entries.len();
    let mut k: usize = 0;
    loop
        invariant
            k <= n,
            n == entries@.len(),
            hexs@.len() >= 8,
            hexs@.len() + entries@.len() + 3 <= usize::MAX,
            entries_distinct(entries@),
            forall|k2: int| 0 <= k2 < k ==> artifact_collides(entries@, candidate_name(hexs@, k2), output@),
        decreases n - k,
    {
        let name = candidate_string(hexs, k);
        let found = find_by_name(entries, &name);
        let l = hexs.as_str().unicode_len();
        let (prefix, suffix) = if k <= l - 8 {
            (8 + k, 0)
        } else {
            (l, k - (l - 8) - 1)
        };
        match found {
            None => {
                return Placement { index: k, prefix, suffix, name, dedup: false };
            },
            Some(i) => {
                let matches_output = match &entries[i].content {
                    Some(c) => bytes_eq(c, output),
                    None => false,
                };
                proof {
                    lemma_named_entry_is(entries@, name@, i as int);
                }
                if matches_output {
                    return Placement { index: k, prefix, suffix, name, dedup: true };
                }
            },
        }
        proof {
            if k == n {
                lemma_candidates_exhaust(entries@, hexs@, output@, n as int);
            }
        }
        k = k + 1;
    }
}

/// Under distinct names, the entry found at an index is the entry the
/// specs pick by name.
proof fn lemma_named_entry_is(entries: Seq<DirEntry>, name: Seq<char>, i: int)
    requires
        entries_distinct(entries),
        0 <= i < entries.len(),
        entries[i].name@ == name,
    ensures
        has_name(entries, name),
        entry_named(entries, name) == entries[i],
{
    let j = choose|j: int| 0 <= j < entries.len() && (#[trigger] entries[j]).name@ == name;
    if i != j {
        assert(entries[i].name@ != entries[j].name@);
    }
}

/// Pigeonhole: among n+1 candidates at most n can be occupied by a
/// directory of n entries, so not all of them can collide.
proof fn lemma_candidates_exhaust(entries: Seq<DirEntry>, hexs: Seq<char>, output: Seq<u8>, n: int)
    requires
        hexs.len() >= 8,
        entries.len() == n,
    ensures
        exists|k: int|
            0 <= k <= n && !artifact_collides(entries, #[trigger] candidate_name(hexs, k), output),
{
    broadcast use vstd::seq_lib::seq_to_set_is_finite;

    if forall|k: int|
        0 <= k <= n ==> artifact_collides(entries, #[trigger] candidate_name(hexs, k), output) {
        let cnames = Seq::new((n + 1) as nat, |k: int| candidate_name(hexs, k));
        assert(cnames.no_duplicates()) by {
            assert forall|i: int, j: int|
                0 <= i < j < cnames.len() implies cnames[i] != cnames[j] by {
                lemma_candidate_names_injective(hexs, i, j);
            }
        }
        cnames.unique_seq_to_set();
        let names = entries.map_values(|e: DirEntry| e.name@);
        names.lemma_cardinality_of_set();
        assert(cnames.to_set().subset_of(names.to_set())) by {
            assert forall|x: Seq<char>| cnames.to_set().contains(x) implies names.to_set().contains(
                x,
            ) by {
                let k = choose|k: int| 0 <= k < cnames.len() && cnames[k] == x;
                assert(artifact_collides(entries, candidate_name(hexs, k), output));
                let i = choose|i: int|
                    0 <= i < entries.len() && (#[trigger] entries[i]).name@ == candidate_name(
                        hexs,
                        k,
                    );
                assert(names[i] == x);
            }
        }
        vstd::set_lib::lemma_len_subset(cnames.to_set(), names.to_set());
    }
}

/// A directory entry of the external meta directory as the meta-path
/// protocol sees it.
pub struct MetaDirEntry {
    /// File name within the external directory.
    pub name: String,
    /// `Some` with the source URL stored in the file, when the entry is a
    /// regular file that decodes as an external source meta; `None`
    /// otherwise.
    pub url: Option<String>,
}

/// Meta directory listings have pairwise distinct names.
pub open spec fn meta_entries_distinct(entries: Seq<MetaDirEntry>) -> bool {
    forall|i: int, j: int|
        0 <= i < j < entries.len() ==> (#[trigger] entries[i]).name@ != (
        #[trigger] entries[j]).name@
}

/// Whether some meta entry has the given name.
pub open spec fn has_meta_name(entries: Seq<MetaDirEntry>, name: Seq<char>) -> bool {
    exists|i: int| 0 <= i < entries.len() && (#[trigger] entries[i]).name@ == name
}

/// The meta entry with the given name.
pub open spec fn meta_entry_named(entries: Seq<MetaDirEntry>, name: Seq<char>) -> MetaDirEntry {
    entries[choose|i: int| 0 <= i < entries.len() && (#[trigger] entries[i]).name@ == name]
}

/// What the meta protocol decides at one candidate: collision when the
/// name is taken by a file that is not this source's meta.
pub open spec fn meta_collides(entries: Seq<MetaDirEntry>, name: Seq<char>, url: Seq<char>) -> bool {
    has_meta_name(entries, name) && !(meta_entry_named(entries, name).url matches Some(u) && u@
        == url)
}

/// A chosen external meta slot.
pub struct MetaSlot {
    /// Index of the winning candidate.
    pub index: usize,
    /// The file name within the external directory.
    pub name: String,
    /// True when the file already exists and stores this URL; false when
    /// the name is free and a fresh meta is to be written there.
    pub existing: bool,
}

/// Finds the meta file slot for a source URL whose hex hash is given,
/// against a snapshot of the external directory: the first candidate that
/// is free or already holds the meta of this URL.
fn find_meta_slot_by_name(entries: &Vec<MetaDirEntry>, name: &String) -> (r: Option<usize>)
    ensures
        match r {
            Some(i) => i < entries@.len() && entries@[i as int].name@ == name@,
            None => !has_meta_name(entries@, name@),
        },
{
    let mut i: usize = 0;
    while i < entries.len()
        invariant
            i <= entries@.len(),
            forall|j: int| 0 <= j < i ==> (#[trigger] entries@[j]).name@ != name@,
        decreases entries@.len() - i,
    {
        if string_eq_str(&entries[i].name, name.as_str()) {
            return Some(i);
        }
        i = i + 1;
    }
    None
}

/// Chooses the external meta slot for a source URL against a snapshot of
/// the external directory. The winning candidate is the first in protocol
/// order that is free or already stores this URL; every earlier candidate
/// collides.
pub fn find_meta_slot(entries: &Vec<MetaDirEntry>, hexs: &String, url: &String) -> (r: MetaSlot)
    requires
        hexs@.len() >= 8,
        hexs@.len() + entries@.len() + 3 <= usize::MAX,
        meta_entries_distinct(entries@),
    ensures
        r.index <= entries@.len(),
        r.name@ == candidate_name(hexs@, r.index as int),
        forall|k: int| 0 <= k < r.index ==> meta_collides(entries@, candidate_name(hexs@, k), url@),
        !r.existing ==> !has_meta_name(entries@, r.name@),
        r.existing ==> has_meta_name(entries@, r.name@) && (meta_entry_named(
            entries@,
            r.name@,
        ).url matches Some(u) && u@ == url@),
{
    let n = entries.len();
    let mut k: usize = 0;
    loop
        invariant
            k <= n,
            n == entries@.len(),
            hexs@.len() >= 8,
            hexs@.len() + entries@.len() + 3 <= usize::MAX,
            meta_entries_distinct(entries@),
            forall|k2: int| 0 <= k2 < k ==> meta_collides(entries@, candidate_name(hexs@, k2), url@),
        decreases n - k,
    {
        let name = candidate_string(hexs, k);
        let found = find_meta_slot_by_name(entries, &name);
        match found {
            None => {
                return MetaSlot { index: k, name, existing: false };
            },
            Some(i) => {
                let matches_url = match &entries[i].url {
                    Some(u) => string_eq_str(u, url.as_str()),
                    None => false,
                };
                proof {
                    lemma_meta_named_entry_is(entries@, name@, i as int);
                }
                if matches_url {
                    return MetaSlot { index: k, name, existing: true };
                }
            },
        }
        proof {
            if k == n {
                lemma_meta_candidates_exhaust(entries@, hexs@, url@, n as int);
            }
        }
        k = k + 1;
    }
}

proof fn lemma_meta_named_entry_is(entries: Seq<MetaDirEntry>, name: Seq<char>, i: int)
    requires
        meta_entries_distinct(entries),
        0 <= i < entries.len(),
        entries[i].name@ == name,
    ensures
        has_meta_name(entries, name),
        meta_entry_named(entries, name) == entries[i],
{
    let j = choose|j: int| 0 <= j < entries.len() && (#[trigger] entries[j]).name@ == name;
    if i != j {
        assert(entries[i].name@ != entries[j].name@);
    }
}

proof fn lemma_meta_candidates_exhaust(
    entries: Seq<MetaDirEntry>,
    hexs: Seq<char>,
    url: Seq<char>,
    n: int,
)
    requires
        hexs.len() >= 8,
        entries.len() == n,
    ensures
        exists|k: int|
            0 <= k <= n && !meta_collides(entries, #[trigger] candidate_name(hexs, k), url),
{
    broadcast use vstd::seq_lib::seq_to_set_is_finite;

    if forall|k: int|
        0 <= k <= n ==> meta_collides(entries, #[trigger] candidate_name(hexs, k), url) {
        let cnames = Seq::new((n + 1) as nat, |k: int| candidate_name(hexs, k));
        assert(cnames.no_duplicates()) by {
            assert forall|i: int, j: int|
                0 <= i < j < cnames.len() implies cnames[i] != cnames[j] by {
                lemma_candidate_names_injective(hexs, i, j);
            }
        }
        cnames.unique_seq_to_set();
        let names = entries.map_values(|e: MetaDirEntry| e.name@);
        names.lemma_cardinality_of_set();
        assert(cnames.to_set().subset_of(names.to_set())) by {
            assert forall|x: Seq<char>| cnames.to_set().contains(x) implies names.to_set().contains(
                x,
            ) by {
                let k = choose|k: int| 0 <= k < cnames.len() && cnames[k] == x;
                assert(meta_collides(entries, candidate_name(hexs, k), url));
                let i = choose|i: int|
                    0 <= i < entries.len() && (#[trigger] entries[i]).name@ == candidate_name(
                        hexs,
                        k,
                    );
                assert(names[i] == x);
            }
        }
        vstd::set_lib::lemma_len_subset(cnames.to_set(), names.to_set());
    }
}

} // verus!
