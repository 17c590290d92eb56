//! Sources and temporaries: deciding how a source URL is materialized as a
//! local file, parsing `data:` URLs, the fetched-source cache, and uniquely
//! named scratch files.

use vstd::prelude::*;

use crate::urls::{spec_scheme_of, url_scheme};

verus! {

/// The URL-safe, unpadded Base64 decoding of a text, or `None` when the
/// text is not valid Base64 of that alphabet. A function of the text alone.
pub uninterp spec fn b64_decode_of(s: Seq<char>) -> Option<Seq<u8>>;

/// Relies on base64::decode_config with the URL_SAFE_NO_PAD alphabet: the
/// outcome depends on the text alone.
#[verifier::external_body]
pub fn b64_decode_url_safe(s: &str) -> (r: Option<Vec<u8>>)
    ensures
        match r {
            Some(v) => b64_decode_of(s@) == Some(v@),
            None => b64_decode_of(s@) is None,
        },
{
    base64::decode_config(s, base64::URL_SAFE_NO_PAD).ok()
}

/// The URL-safe, unpadded Base64 rendering of bytes: a function of the
/// bytes alone.
pub uninterp spec fn b64_encode_of(b: Seq<u8>) -> Seq<char>;

/// Relies on base64::encode_config with the URL_SAFE_NO_PAD alphabet; its
/// unpadded output holds one character per six bits, four characters for
/// every three bytes rounded up, and decoding with the same alphabet gives
/// the bytes back.
#[verifier::external_body]
pub fn b64_encode_url_safe(b: &[u8]) -> (r: String)
    ensures
        r@ == b64_encode_of(b@),
        r@.len() == (b@.len() * 4 + 2) / 3,
        b64_decode_of(r@) == Some(b@),
{
    base64::encode_config(b, base64::URL_SAFE_NO_PAD)
}

/// Relies on rand::random: a value drawn from the thread-local generator.
/// Nothing is promised of it; uniqueness of temp names is kept by checking
/// against the names already used.
pub assume_specification<T>[ rand::random::<T> ]() -> (r: T)
    where
        rand::distributions::Standard: rand::distributions::Distribution<T>,
;

/// How a source URL is materialized as a local file.
pub enum FetchPlan {
    /// A `file:` URL: the runtime converts it to its filesystem path and
    /// uses the file in place, with its modification time.
    File,
    /// A `data:` URL: the payload bytes are written to a fresh temp file;
    /// no modification time is recorded.
    Data {
        /// Whether the payload is Base64-encoded (the preamble ends with
        /// `;base64`).
        base64: bool,
        /// The payload text after the first comma.
        payload: String,
    },
    /// Any other scheme is not supported and the fetch fails.
    Unsupported {
        /// The scheme that was asked for.
        scheme: String,
    },
}

/// The position of the first comma in a `data:` URL at or after the
/// preamble start, if any.
pub open spec fn spec_first_comma(s: Seq<char>, from: int) -> Option<int>
    decreases s.len() - from,
{
    if from < 0 || from >= s.len() {
        None
    } else if s[from] == ',' {
        Some(from)
    } else {
        spec_first_comma(s, from + 1)
    }
}

/// Whether a `data:` URL preamble asks for Base64: the characters before
/// the comma end with `;base64`.
pub open spec fn spec_data_is_base64(s: Seq<char>, comma: int) -> bool {
    comma >= 7 && s.subrange(comma - 7, comma) == ";base64"@
}

/// Decides how to materialize a source URL, from its normalized text:
/// `file:` URLs are used in place, `data:` URLs carry their payload after
/// the first comma (Base64 when the preamble says so), anything else is
/// unsupported. A malformed `data:` URL without a comma is reported as
/// unsupported scheme `data`.
pub fn fetch_plan(url: &str) -> (r: FetchPlan)
    ensures
        match r {
            FetchPlan::File => spec_scheme_of(url@) == "file"@,
            FetchPlan::Data { base64, payload } => {
                &&& spec_scheme_of(url@) == "data"@
                &&& spec_first_comma(url@, 5) matches Some(comma) && payload@ == url@.skip(
                    comma + 1,
                ) && base64 == spec_data_is_base64(url@, comma)
            },
            FetchPlan::Unsupported { scheme } => {
                &&& spec_scheme_of(url@) != "file"@
                &&& (spec_scheme_of(url@) != "data"@ || spec_first_comma(url@, 5) is None)
                &&& scheme@ == spec_scheme_of(url@)
            },
        },
{
    proof {
        reveal_strlit("file");
        reveal_strlit("data");
        reveal_strlit(";base64");
    }
    let scheme = url_scheme(url);
    if crate::placement::string_eq_str(&scheme, "file") {
        return FetchPlan::File;
    }
    if !crate::placement::string_eq_str(&scheme, "data") {
        return FetchPlan::Unsupported { scheme };
    }
    let len = url.unicode_len();
    let comma = match first_comma_from(url, 5) {
        None => {
            return FetchPlan::Unsupported { scheme };
        },
        Some(c) => c,
    };
    let payload = url.substring_char(comma + 1, len).to_owned();
    let is_b64 = if comma >= 7 {
        let tail = url.substring_char(comma - 7, comma).to_owned();
        crate::placement::string_eq_str(&tail, ";base64")
    } else {
        false
    };
    proof {
        assert(url@.subrange(comma + 1int, url@.len() as int) =~= url@.skip(comma + 1int));
    }
    FetchPlan::Data { base64: is_b64, payload }
}

/// Finds the first comma at or after a position.
fn first_comma_from(s: &str, from: usize) -> (r: Option<usize>)
    ensures
        match r {
            Some(i) => spec_first_comma(s@, from as int) == Some(i as int) && from <= i < s@.len()
                && s@[i as int] == ',',
            None => spec_first_comma(s@, from as int) is None,
        },
{
    let len = s.unicode_len();
    let mut i: usize = from;
    while i < len
        invariant
            len == s@.len(),
            from <= i,
            spec_first_comma(s@, from as int) == spec_first_comma(s@, i as int),
        decreases len - i,
    {
        if s.get_char(i) == ',' {
            proof {
                assert(spec_first_comma(s@, i as int) == Some(i as int));
            }
            return Some(i);
        }
        i = i + 1;
    }
    None
}

/// The payload bytes a `data:` URL carries: the UTF-8 bytes of the payload
/// text, or its Base64 decoding when the preamble asked for it; `None`
/// when the Base64 is invalid.
pub open spec fn spec_data_payload(base64: bool, payload: Seq<char>) -> Option<Seq<u8>> {
    if base64 {
        b64_decode_of(payload)
    } else {
        Some(vstd::utf8::encode_utf8(payload))
    }
}

/// Turns a `data:` URL payload into the bytes to store: verbatim UTF-8, or
/// the Base64 decoding when asked; fails exactly when the Base64 is
/// invalid.
pub fn decode_data_payload(base64: bool, payload: &str) -> (r: Option<Vec<u8>>)
    ensures
        match r {
            Some(v) => spec_data_payload(base64, payload@) == Some(v@),
            None => spec_data_payload(base64, payload@) is None,
        },
{
    if base64 {
        b64_decode_url_safe(payload)
    } else {
        Some(payload.as_bytes_vec())
    }
}

/// The fetched-source cache of one `store` call: each source URL fetched
/// so far, its local path, and its modification time when it has one.
pub struct Sources {
    fetched: Vec<(String, String, Option<u64>)>,
}

impl Sources {
    /// The recorded (url, path, modification time) entries.
    pub closed spec fn spec_entries(self) -> Seq<(String, String, Option<u64>)> {
        self.fetched@
    }

    /// Whether a URL has been fetched.
    pub open spec fn spec_has(self, url: Seq<char>) -> bool {
        exists|i: int|
            0 <= i < self.spec_entries().len() && (#[trigger] self.spec_entries()[i]).0@ == url
    }

    /// The entry recorded for a URL.
    pub open spec fn spec_entry(self, url: Seq<char>) -> (String, String, Option<u64>) {
        self.spec_entries()[choose|i: int|
            0 <= i < self.spec_entries().len() && (#[trigger] self.spec_entries()[i]).0@ == url]
    }

    /// URLs are recorded once.
    pub open spec fn wf(self) -> bool {
        forall|i: int, j: int|
            0 <= i < j < self.spec_entries().len() ==> (#[trigger] self.spec_entries()[i]).0@ != (
            #[trigger] self.spec_entries()[j]).0@
    }

    /// An empty cache.
    pub fn new() -> (r: Sources)
        ensures
            r.wf(),
            r.spec_entries().len() == 0,
    {
        Sources { fetched: Vec::new() }
    }

    /// The local path and modification time of an already fetched URL.
    pub fn get(&self, url: &str) -> (r: Option<(&String, Option<u64>)>)
        requires
            self.wf(),
        ensures
            match r {
                Some(p) => self.spec_has(url@) && p.0@ == self.spec_entry(url@).1@ && p.1
                    == self.spec_entry(url@).2,
                None => !self.spec_has(url@),
            },
    {
        let mut i: usize = 0;
        while i < self.fetched.len()
            invariant
                self.wf(),
                i <= self.spec_entries().len(),
                forall|j: int| 0 <= j < i ==> (#[trigger] self.spec_entries()[j]).0@ != url@,
            decreases self.spec_entries().len() - i,
        {
            if crate::placement::string_eq_str(&self.fetched[i].0, url) {
                proof {
                    let u = url@;
                    let j = choose|j: int|
                        0 <= j < self.spec_entries().len() && (#[trigger] self.spec_entries()[j]).0@
                            == u;
                    if j != i {
                        assert(self.spec_entries()[i as int].0@ != self.spec_entries()[j].0@);
                    }
                }
                return Some((&self.fetched[i].1, self.fetched[i].2));
            }
            i = i + 1;
        }
        None
    }

    /// Records a fetched URL with its local path and modification time.
    pub fn insert(&mut self, url: String, path: String, modified: Option<u64>)
        requires
            old(self).wf(),
            !old(self).spec_has(url@),
        ensures
            final(self).wf(),
            final(self).spec_entries() == old(self).spec_entries().push((url, path, modified)),
            final(self).spec_has(url@),
    {
        let ghost pre = self.spec_entries();
        let ghost u = url@;
        self.fetched.push((url, path, modified));
        proof {
            assert(self.spec_entries() == pre.push((url, path, modified)));
            assert(self.spec_entries().last().0@ == u);
            assert forall|i: int, j: int|
                0 <= i < j < self.spec_entries().len() implies (
            #[trigger] self.spec_entries()[i]).0@ != (#[trigger] self.spec_entries()[j]).0@ by {
                if j == self.spec_entries().len() - 1 {
                    assert(old(self).spec_entries()[i] == self.spec_entries()[i]);
                    assert(old(self).spec_entries()[i].0@ != u);
                } else {
                    assert(old(self).spec_entries()[i] == self.spec_entries()[i]);
                    assert(old(self).spec_entries()[j] == self.spec_entries()[j]);
                }
            }
            assert(self.spec_has(u)) by {
                assert(self.spec_entries()[self.spec_entries().len() - 1].0@ == u);
            }
        }
    }
}

/// Scratch files under a temp directory, each named by a random 128-bit
/// value rendered in URL-safe Base64 (22 characters); a key is never
/// handed out twice, and no two allocations share a name.
pub struct Temporaries {
    base: String,
    keys: Vec<u128>,
    names: Ghost<Seq<Seq<char>>>,
}

/// One byte of the little-endian form, by definition.
proof fn lemma_le_byte(x: u128, k: int)
    requires
        0 <= k < 16,
    ensures
        spec_le_bytes(x)[k] == (x >> (8 * k)) as u8,
{
}

/// Two distinct 128-bit keys have distinct little-endian byte forms.
proof fn lemma_le_bytes_injective(a: u128, b: u128)
    requires
        spec_le_bytes(a) == spec_le_bytes(b),
    ensures
        a == b,
{
    lemma_le_byte(a, 0);
    lemma_le_byte(b, 0);
    lemma_le_byte(a, 1);
    lemma_le_byte(b, 1);
    lemma_le_byte(a, 2);
    lemma_le_byte(b, 2);
    lemma_le_byte(a, 3);
    lemma_le_byte(b, 3);
    lemma_le_byte(a, 4);
    lemma_le_byte(b, 4);
    lemma_le_byte(a, 5);
    lemma_le_byte(b, 5);
    lemma_le_byte(a, 6);
    lemma_le_byte(b, 6);
    lemma_le_byte(a, 7);
    lemma_le_byte(b, 7);
    lemma_le_byte(a, 8);
    lemma_le_byte(b, 8);
    lemma_le_byte(a, 9);
    lemma_le_byte(b, 9);
    lemma_le_byte(a, 10);
    lemma_le_byte(b, 10);
    lemma_le_byte(a, 11);
    lemma_le_byte(b, 11);
    lemma_le_byte(a, 12);
    lemma_le_byte(b, 12);
    lemma_le_byte(a, 13);
    lemma_le_byte(b, 13);
    lemma_le_byte(a, 14);
    lemma_le_byte(b, 14);
    lemma_le_byte(a, 15);
    lemma_le_byte(b, 15);
    assert(a == b) by (bit_vector)
        requires
            (a >> (8 * 0int)) as u8 == (b >> (8 * 0int)) as u8,
            (a >> (8 * 1int)) as u8 == (b >> (8 * 1int)) as u8,
            (a >> (8 * 2int)) as u8 == (b >> (8 * 2int)) as u8,
            (a >> (8 * 3int)) as u8 == (b >> (8 * 3int)) as u8,
            (a >> (8 * 4int)) as u8 == (b >> (8 * 4int)) as u8,
            (a >> (8 * 5int)) as u8 == (b >> (8 * 5int)) as u8,
            (a >> (8 * 6int)) as u8 == (b >> (8 * 6int)) as u8,
            (a >> (8 * 7int)) as u8 == (b >> (8 * 7int)) as u8,
            (a >> (8 * 8int)) as u8 == (b >> (8 * 8int)) as u8,
            (a >> (8 * 9int)) as u8 == (b >> (8 * 9int)) as u8,
            (a >> (8 * 10int)) as u8 == (b >> (8 * 10int)) as u8,
            (a >> (8 * 11int)) as u8 == (b >> (8 * 11int)) as u8,
            (a >> (8 * 12int)) as u8 == (b >> (8 * 12int)) as u8,
            (a >> (8 * 13int)) as u8 == (b >> (8 * 13int)) as u8,
            (a >> (8 * 14int)) as u8 == (b >> (8 * 14int)) as u8,
            (a >> (8 * 15int)) as u8 == (b >> (8 * 15int)) as u8,
    ;
}

/// A 128-bit key offset by a count, wrapping.
pub open spec fn spec_wrap_add(start: u128, n: int) -> u128 {
    ((start + n) % 0x1_0000_0000_0000_0000_0000_0000_0000_0000int) as u128
}

/// Within one wrap, distinct offsets from one start give distinct keys.
proof fn lemma_wrap_add_injective(start: u128, n: int, m: int)
    requires
        0 <= n < m < 0x1_0000_0000_0000_0000_0000_0000_0000_0000int,
    ensures
        spec_wrap_add(start, n) != spec_wrap_add(start, m),
{
    let p = 0x1_0000_0000_0000_0000_0000_0000_0000_0000int;
    let a = start + n;
    let b = start + m;
    vstd::arithmetic::div_mod::lemma_fundamental_div_mod(a, p);
    vstd::arithmetic::div_mod::lemma_fundamental_div_mod(b, p);
    if a % p == b % p {
        let qa = a / p;
        let qb = b / p;
        assert(b - a == (qb - qa) * p) by (nonlinear_arith)
            requires
                a == qa * p + a % p,
                b == qb * p + b % p,
                a % p == b % p,
        ;
        assert(qb - qa >= 1 ==> (qb - qa) * p >= p) by (nonlinear_arith)
            requires
                p > 0,
        ;
        assert(qb - qa <= 0 ==> (qb - qa) * p <= 0) by (nonlinear_arith)
            requires
                p > 0,
        ;
    }
}

/// Wrapping addition of a bounded count agrees with the modular form.
proof fn lemma_wrapping_is_mod(start: u128, n: int)
    requires
        0 <= n < 0x1_0000_0000_0000_0000_0000_0000_0000_0000int,
    ensures
        vstd::wrapping::u128_specs::wrapping_add(start, n as u128) == spec_wrap_add(start, n),
{
    let p = 0x1_0000_0000_0000_0000_0000_0000_0000_0000int;
    let x = start + n;
    if x < p {
        vstd::arithmetic::div_mod::lemma_small_mod(x as nat, p as nat);
    } else {
        vstd::arithmetic::div_mod::lemma_small_mod((x - p) as nat, p as nat);
        vstd::arithmetic::div_mod::lemma_mod_multiples_vanish(1, x - p, p);
    }
}

/// Among keys.len() + 1 distinct candidates, one is unused.
proof fn lemma_key_candidates_exhaust(keys: Seq<u128>, start: u128, n: int)
    requires
        keys.len() == n,
        n + 1 < 0x1_0000_0000_0000_0000_0000_0000_0000_0000int,
    ensures
        exists|k: int| 0 <= k <= n && !keys.contains(#[trigger] spec_wrap_add(start, k)),
{
    broadcast use vstd::seq_lib::seq_to_set_is_finite;

    if forall|k: int| 0 <= k <= n ==> keys.contains(#[trigger] spec_wrap_add(start, k)) {
        let cands = Seq::new((n + 1) as nat, |k: int| spec_wrap_add(start, k));
        assert(cands.no_duplicates()) by {
            assert forall|i: int, j: int| 0 <= i < j < cands.len() implies cands[i] != cands[j] by {
                lemma_wrap_add_injective(start, i, j);
            }
        }
        cands.unique_seq_to_set();
        keys.lemma_cardinality_of_set();
        assert(cands.to_set().subset_of(keys.to_set())) by {
            assert forall|x: u128| cands.to_set().contains(x) implies keys.to_set().contains(x) by {
                let k = choose|k: int| 0 <= k < cands.len() && cands[k] == x;
                assert(keys.contains(spec_wrap_add(start, k)));
            }
        }
        vstd::set_lib::lemma_len_subset(cands.to_set(), keys.to_set());
    }
}

/// The little-endian bytes of a 128-bit value.
pub open spec fn spec_le_bytes(key: u128) -> Seq<u8> {
    Seq::new(16, |i: int| (key >> (8 * i)) as u8)
}

impl Temporaries {
    /// The temp directory.
    pub closed spec fn spec_base(self) -> Seq<char> {
        self.base@
    }

    /// The keys already used.
    pub closed spec fn spec_keys(self) -> Seq<u128> {
        self.keys@
    }

    /// The file names already handed out, in order.
    pub closed spec fn spec_names(self) -> Seq<Seq<char>> {
        self.names@
    }

    /// Keys are used once, and each handed-out name is the Base64 form of
    /// its key's bytes, so it decodes back to them.
    pub closed spec fn wf(self) -> bool {
        &&& self.keys@.no_duplicates()
        &&& self.names@.len() == self.keys@.len()
        &&& forall|i: int|
            0 <= i < self.keys@.len() ==> b64_decode_of(#[trigger] self.names@[i]) == Some(
                spec_le_bytes(self.keys@[i]),
            )
    }

    /// A fresh container over a temp directory.
    pub fn new(base: String) -> (r: Temporaries)
        ensures
            r.wf(),
            r.spec_base() == base@,
            r.spec_keys().len() == 0,
            r.spec_names().len() == 0,
    {
        Temporaries { base, keys: Vec::new(), names: Ghost(Seq::empty()) }
    }

    /// Allocates a uniquely named scratch path under the temp directory:
    /// the directory, a separator, and the Base64 name of a key not used
    /// before. The key is drawn at random; on a collision the next keys in
    /// wrapping order are tried, and one of them must be free. The name
    /// differs from every name handed out before, because distinct keys
    /// have distinct byte forms and a name decodes back to its key's bytes.
    pub fn make_temporary(&mut self) -> (r: String)
        requires
            old(self).wf(),
            old(self).spec_keys().len() + 2 < 0x1_0000_0000_0000_0000_0000_0000_0000_0000int,
        ensures
            final(self).wf(),
            final(self).spec_base() == old(self).spec_base(),
            final(self).spec_keys().len() == old(self).spec_keys().len() + 1,
            final(self).spec_keys().take(old(self).spec_keys().len() as int) == old(
                self,
            ).spec_keys(),
            !old(self).spec_keys().contains(final(self).spec_keys().last()),
            final(self).spec_names() == old(self).spec_names().push(
                final(self).spec_names().last(),
            ),
            forall|i: int|
                0 <= i < old(self).spec_names().len() ==> final(self).spec_names().last() != old(
                    self,
                ).spec_names()[i],
            r@ == old(self).spec_base() + seq!['/'] + final(self).spec_names().last(),
            final(self).spec_names().last() == b64_encode_of(
                spec_le_bytes(final(self).spec_keys().last()),
            ),
    {
        let start: u128 = rand::random();
        let n = self.keys.len();
        let mut i: usize = 0;
        loop
            invariant
                *self == *old(self),
                self.wf(),
                n == self.spec_keys().len(),
                n + 2 < 0x1_0000_0000_0000_0000_0000_0000_0000_0000int,
                i <= n,
                forall|k: int|
                    0 <= k < i ==> self.spec_keys().contains(#[trigger] spec_wrap_add(start, k)),
            decreases n - i,
        {
            let key = start.wrapping_add(i as u128);
            proof {
                lemma_wrapping_is_mod(start, i as int);
                assert(key == spec_wrap_add(start, i as int));
            }
            if !contains_key(&self.keys, key) {
                let ghost pre = self.keys@;
                let ghost pre_names = self.names@;
                self.keys.push(key);
                proof {
                    assert(self.keys@.take(pre.len() as int) =~= pre);
                    assert(self.keys@.no_duplicates()) by {
                        assert forall|a: int, b: int|
                            0 <= a < b < self.keys@.len() implies self.keys@[a] != self.keys@[b] by {
                            if b == self.keys@.len() - 1 {
                                assert(pre.contains(pre[a]));
                            }
                        }
                    }
                }
                let name = b64_encode_url_safe(le_bytes(key).as_slice());
                proof {
                    self.names@ = pre_names.push(name@);
                    assert(self.wf()) by {
                        assert forall|a: int|
                            0 <= a < self.keys@.len() implies b64_decode_of(
                            #[trigger] self.names@[a],
                        ) == Some(spec_le_bytes(self.keys@[a])) by {
                            if a < self.keys@.len() - 1 {
                                assert(self.names@[a] == pre_names[a]);
                                assert(self.keys@[a] == pre[a]);
                            }
                        }
                    }
                    assert forall|a: int| 0 <= a < pre_names.len() implies name@
                        != pre_names[a] by {
                        if name@ == pre_names[a] {
                            assert(b64_decode_of(pre_names[a]) == Some(spec_le_bytes(pre[a])));
                            lemma_le_bytes_injective(key, pre[a]);
                            assert(pre.contains(pre[a]));
                        }
                    }
                    reveal_strlit("/");
                }
                let mut path = self.base.clone();
                path.append("/");
                path.append(name.as_str());
                proof {
                    assert(path@ =~= old(self).spec_base() + seq!['/'] + b64_encode_of(
                        spec_le_bytes(key),
                    ));
                }
                return path;
            }
            proof {
                if i == n {
                    assert forall|k: int| 0 <= k <= n implies self.keys@.contains(
                        #[trigger] spec_wrap_add(start, k),
                    ) by {
                        if k == n {
                            assert(spec_wrap_add(start, n as int) == key);
                        }
                    }
                    lemma_key_candidates_exhaust(self.keys@, start, n as int);
                    let k = choose|k: int|
                        0 <= k <= n && !self.keys@.contains(#[trigger] spec_wrap_add(start, k));
                    assert(self.keys@.contains(spec_wrap_add(start, k)));
                }
            }
            i = i + 1;
        }
    }
}

/// Whether a key list holds a key.
fn contains_key(keys: &Vec<u128>, key: u128) -> (r: bool)
    ensures
        r == keys@.contains(key),
{
    let mut i: usize = 0;
    while i < keys.len()
        invariant
            i <= keys@.len(),
            forall|j: int| 0 <= j < i ==> keys@[j] != key,
        decreases keys@.len() - i,
    {
        if keys[i] == key {
            proof {
                assert(keys@.contains(key));
            }
            return true;
        }
        i = i + 1;
    }
    proof {
        if keys@.contains(key) {
            let j = choose|j: int| 0 <= j < keys@.len() && keys@[j] == key;
            assert(false);
        }
    }
    false
}

/// The little-endian bytes of a 128-bit key.
fn le_bytes(key: u128) -> (r: Vec<u8>)
    ensures
        r@ == spec_le_bytes(key),
{
    let mut out: Vec<u8> = Vec::new();
    let mut i: usize = 0;
    while i < 16
        invariant
            i <= 16,
            out@.len() == i,
            forall|j: int| 0 <= j < i ==> out@[j] == (key >> (8 * j)) as u8,
        decreases 16 - i,
    {
        let b = (key >> ((8 * i) as u128)) as u8;
        out.push(b);
        i = i + 1;
    }
    proof {
        assert(out@ =~= spec_le_bytes(key));
    }
    out
}

} // verus!
