//! Asset identifiers and their generator.
//!
//! An asset id is a non-zero 64-bit value. Before scrambling it is composed
//! of a 42-bit millisecond timestamp, a 10-bit node salt and a 12-bit
//! counter; the composed value is then multiplied (wrapping) by an odd
//! constant, a bijection of the 64-bit space, so uniqueness of the composed
//! triples carries over to the scrambled ids.

use vstd::prelude::*;

use crate::hex::{hex_char_of, hex_digit_str, hex_digit_val, hex_val_of};

verus! {

/// Multiplier used to diffuse asset id bits. It is odd, hence coprime with
/// 2^64 and invertible, so scrambling preserves uniqueness. It is a wire
/// constant: changing it breaks ids recorded in existing metas.
pub const ID_MUL: u64 = 0xF89A4B715E26C30D;

/// The multiplicative inverse of `ID_MUL` modulo 2^64.
pub const ID_MUL_INV: u64 = 0x815A73B3D9BDC3C5;

/// Largest millisecond timestamp that fits the 42-bit field.
pub const MAX_TIMESTAMP: u64 = 0x3FF_FFFF_FFFF;

/// Largest counter value that fits the 12-bit field.
pub const MAX_COUNTER: u16 = 0xFFF;

/// Milliseconds from the unix epoch to the treasury epoch
/// (2021-01-01 00:00:00 UTC).
pub fn treasury_epoch() -> (r: u64)
    ensures
        r == 1609459200000u64,
{
    1609459200000
}

/// The diffusion step: multiply by `ID_MUL`, wrapping in 64 bits.
pub open spec fn spec_scramble(raw: u64) -> u64 {
    ((raw as nat * ID_MUL as nat) % 0x1_0000_0000_0000_0000nat) as u64
}

/// The inverse of the diffusion step.
pub open spec fn spec_unscramble(id: u64) -> u64 {
    ((id as nat * ID_MUL_INV as nat) % 0x1_0000_0000_0000_0000nat) as u64
}

/// Applies the diffusion step to a composed id value.
pub fn scramble(raw: u64) -> (r: u64)
    ensures
        r == spec_scramble(raw),
{
    raw.wrapping_mul(ID_MUL)
}

/// Unscrambling undoes scrambling, so scrambling is injective.
pub proof fn lemma_scramble_inverse(raw: u64)
    ensures
        spec_unscramble(spec_scramble(raw)) == raw,
{
    assert(((raw as nat * ID_MUL as nat) % 0x1_0000_0000_0000_0000nat) as u64 as nat * ID_MUL_INV as nat
        % 0x1_0000_0000_0000_0000nat == raw as nat) by (bit_vector);
}

/// Two values with equal scrambles are equal.
pub proof fn lemma_scramble_injective(a: u64, b: u64)
    requires
        spec_scramble(a) == spec_scramble(b),
    ensures
        a == b,
{
    lemma_scramble_inverse(a);
    lemma_scramble_inverse(b);
}

/// Field layout of a raw id: timestamp in the high 42 bits, node salt in
/// the next 10, counter in the low 12.
pub open spec fn spec_compose(ts: u64, node: u16, counter: u16) -> u64 {
    (ts << 22) | ((node as u64) << 12) | (counter as u64)
}

/// Within the field bounds the layout is injective.
pub proof fn lemma_compose_injective(ts1: u64, n1: u16, c1: u16, ts2: u64, n2: u16, c2: u16)
    by (bit_vector)
    requires
        ts1 <= 0x3FF_FFFF_FFFFu64,
        ts2 <= 0x3FF_FFFF_FFFFu64,
        n1 < 0x400,
        n2 < 0x400,
        c1 <= 0xFFF,
        c2 <= 0xFFF,
        (ts1 << 22) | ((n1 as u64) << 12) | (c1 as u64) == (ts2 << 22) | ((n2 as u64) << 12) | (
        c2 as u64),
    ensures
        ts1 == ts2,
        n1 == n2,
        c1 == c2,
{
}

/// A composed value with a non-zero counter is non-zero.
pub proof fn lemma_compose_nonzero(ts: u64, node: u16, counter: u16)
    by (bit_vector)
    requires
        counter != 0,
        counter <= 0xFFF,
    ensures
        (ts << 22) | ((node as u64) << 12) | (counter as u64) != 0,
{
}

/// Zero scrambles to zero, so a non-zero composed value scrambles to a
/// non-zero id.
pub proof fn lemma_scramble_nonzero(raw: u64)
    requires
        raw != 0,
    ensures
        spec_scramble(raw) != 0,
{
    if spec_scramble(raw) == 0 {
        assert(spec_scramble(0u64) == 0) by {
            assert(0nat * ID_MUL as nat == 0nat);
            vstd::arithmetic::div_mod::lemma_small_mod(0nat, 0x1_0000_0000_0000_0000nat);
        }
        lemma_scramble_injective(raw, 0);
    }
}

/// Assembles the raw layout from bounded fields.
pub fn compose(ts: u64, node: u16, counter: u16) -> (r: u64)
    requires
        ts <= MAX_TIMESTAMP,
        node < 0x400,
        counter <= MAX_COUNTER,
    ensures
        r == spec_compose(ts, node, counter),
{
    (ts << 22u64) | ((node as u64) << 12u64) | (counter as u64)
}

/// Error on parsing an asset id from its 16-digit hex form.
#[derive(Clone, Copy, Debug, PartialEq, Eq, Structural)]
pub enum ParseAssetIdError {
    /// The text is empty, holds a non-hex character, or encodes a value
    /// that does not fit 64 bits.
    ParseIntError,
    /// The text encodes zero, which is not a valid id.
    ZeroId,
}

/// Error on converting a plain 64-bit value into an asset id.
#[derive(Clone, Copy, Debug, PartialEq, Eq, Structural)]
pub struct ZeroIDError;

/// A non-zero 64-bit asset id.
#[derive(Clone, Copy, Debug, PartialEq, Eq, Hash, Structural)]
pub struct AssetId {
    value: u64,
}

impl AssetId {
    /// The spec-level view of the id as its plain value.
    pub closed spec fn spec_value(self) -> u64 {
        self.value
    }

    /// A valid id is non-zero.
    pub open spec fn is_valid(self) -> bool {
        self.spec_value() != 0
    }

    /// Wraps a plain value; `None` exactly for zero.
    pub fn new(value: u64) -> (r: Option<AssetId>)
        ensures
            match r {
                Some(id) => value != 0 && id.spec_value() == value && id.is_valid(),
                None => value == 0,
            },
    {
        if value == 0 {
            None
        } else {
            Some(AssetId { value })
        }
    }

    /// The underlying 64-bit value.
    pub fn value(&self) -> (r: u64)
        ensures
            r == self.spec_value(),
    {
        self.value
    }

    /// Converts a plain value into an id; zero is the one invalid value.
    pub fn try_from_value(value: u64) -> (r: Result<AssetId, ZeroIDError>)
        ensures
            match r {
                Ok(id) => value != 0 && id.spec_value() == value && id.is_valid(),
                Err(_) => value == 0,
            },
    {
        match AssetId::new(value) {
            Some(id) => Ok(id),
            None => Err(ZeroIDError),
        }
    }
}

/// The numeric value of a hex character sequence, most significant digit
/// first; `None` when some character is not a hex digit. The empty
/// sequence has value zero (emptiness is rejected separately on parsing).
pub open spec fn hex_value_of(s: Seq<char>) -> Option<int>
    decreases s.len(),
{
    if s.len() == 0 {
        Some(0int)
    } else {
        match hex_value_of(s.drop_last()) {
            None => None,
            Some(v) => match hex_val_of(s.last()) {
                None => None,
                Some(d) => Some(v * 16 + d),
            },
        }
    }
}

/// A parseable sequence's value never decreases when digits are appended.
proof fn lemma_hex_value_monotone(s: Seq<char>, i: int)
    requires
        0 <= i <= s.len(),
        hex_value_of(s) is Some,
    ensures
        hex_value_of(s.subrange(0, i)) is Some,
        hex_value_of(s.subrange(0, i)).unwrap() <= hex_value_of(s).unwrap(),
        hex_value_of(s).unwrap() >= 0,
    decreases s.len(),
{
    if s.len() == 0 {
        assert(s.subrange(0, i) =~= s);
    } else if i == s.len() {
        assert(s.subrange(0, i) =~= s);
        lemma_hex_value_monotone(s.drop_last(), s.len() - 1);
        assert(s.drop_last().subrange(0, s.len() - 1) =~= s.drop_last());
        let v = hex_value_of(s.drop_last()).unwrap();
        let d = hex_val_of(s.last()).unwrap();
        assert(0 <= d < 16);
        assert(v * 16 + d >= v) by (nonlinear_arith)
            requires
                v >= 0,
                d >= 0,
        ;
    } else {
        lemma_hex_value_monotone(s.drop_last(), i);
        assert(s.drop_last().subrange(0, i) =~= s.subrange(0, i));
        let v = hex_value_of(s.drop_last()).unwrap();
        let d = hex_val_of(s.last()).unwrap();
        assert(v * 16 + d >= v) by (nonlinear_arith)
            requires
                v >= 0,
                d >= 0,
        ;
    }
}

/// Parses a hex numeral into a 64-bit value. `Err` exactly when the text
/// is empty, holds a non-hex character, or encodes a value of 2^64 or
/// more.
pub fn parse_hex_u64(s: &str) -> (r: Result<u64, ()>)
    ensures
        match r {
            Ok(v) => hex_value_of(s@) == Some(v as int) && s@.len() > 0,
            Err(_) => s@.len() == 0 || hex_value_of(s@) is None || hex_value_of(s@).unwrap()
                > u64::MAX,
        },
{
    let len = s.unicode_len();
    if len == 0 {
        return Err(());
    }
    let mut acc: u64 = 0;
    let mut i: usize = 0;
    while i < len
        invariant
            len == s@.len(),
            i <= len,
            hex_value_of(s@.subrange(0, i as int)) == Some(acc as int),
        decreases len - i,
    {
        let c = s.get_char(i);
        match hex_digit_val(c) {
            None => {
                proof {
                    lemma_bad_digit_value(s@, i as int);
                }
                return Err(());
            },
            Some(d) => {
                if acc > 0x0FFF_FFFF_FFFF_FFFFu64 {
                    proof {
                        let prefix2 = s@.subrange(0, i + 1int);
                        assert(prefix2.drop_last() =~= s@.subrange(0, i as int));
                        assert(prefix2.last() == s@[i as int]);
                        assert(hex_value_of(prefix2) == Some(
                            acc as int * 16 + hex_val_of(s@[i as int]).unwrap(),
                        ));
                        assert(acc as int * 16 >= 0x1000_0000_0000_0000 * 16) by (nonlinear_arith)
                            requires
                                acc as int >= 0x1000_0000_0000_0000,
                        ;
                        if hex_value_of(s@) is Some {
                            lemma_hex_value_monotone(s@, i + 1);
                        }
                    }
                    return Err(());
                }
                proof {
                    let prefix2 = s@.subrange(0, i + 1int);
                    assert(prefix2.drop_last() =~= s@.subrange(0, i as int));
                    assert(prefix2.last() == s@[i as int]);
                }
                acc = acc * 16 + (d as u64);
                i = i + 1;
            },
        }
    }
    proof {
        assert(s@.subrange(0, s@.len() as int) =~= s@);
    }
    Ok(acc)
}

/// A sequence with a non-digit somewhere has no value.
proof fn lemma_bad_digit_value(s: Seq<char>, i: int)
    requires
        0 <= i < s.len(),
        hex_val_of(s[i]) is None,
    ensures
        hex_value_of(s) is None,
    decreases s.len(),
{
    if i < s.len() - 1 {
        lemma_bad_digit_value(s.drop_last(), i);
    }
}

impl AssetId {
    /// Parses an id from hex text, as in the original text form: any hex
    /// numeral that fits 64 bits, rejected when zero.
    pub fn from_str(s: &str) -> (r: Result<AssetId, ParseAssetIdError>)
        ensures
            match r {
                Ok(id) => hex_value_of(s@) == Some(id.spec_value() as int) && id.is_valid()
                    && s@.len() > 0,
                Err(e) => if e == ParseAssetIdError::ZeroId {
                    hex_value_of(s@) == Some(0int) && s@.len() > 0
                } else {
                    s@.len() == 0 || hex_value_of(s@) is None || hex_value_of(s@).unwrap()
                        > u64::MAX
                },
            },
    {
        match parse_hex_u64(s) {
            Err(_) => Err(ParseAssetIdError::ParseIntError),
            Ok(0u64) => Err(ParseAssetIdError::ZeroId),
            Ok(v) => Ok(AssetId { value: v }),
        }
    }

    /// The 16-digit lowercase hex rendering of the id, zero padded.
    pub fn to_hex(&self) -> (r: String)
        ensures
            r@.len() == 16,
            hex_value_of(r@) == Some(self.spec_value() as int),
    {
        let val = self.value;
        let mut out = String::new();
        let mut i: usize = 0;
        while i < 16
            invariant
                i <= 16,
                val == self.spec_value(),
                out@.len() == i,
                i > 0 ==> hex_value_of(out@) == Some((val >> ((64 - 4 * i) as u64)) as int),
                i == 0 ==> out@ == Seq::<char>::empty(),
            decreases 16 - i,
        {
            let ghost prev = out@;
            let shift: u64 = 60 - 4 * (i as u64);
            let d = ((val >> shift) & 0xF) as u8;
            assert(d < 16) by (bit_vector)
                requires
                    d == ((val >> shift) & 0xF) as u8,
            ;
            out.append(hex_digit_str(d));
            proof {
                assert(out@.drop_last() =~= prev);
                assert(out@.last() == hex_char_of(d as int));
                crate::hex::lemma_hex_char_val(d as int);
                if i == 0 {
                    assert(d as int == (val >> shift) as int) by (bit_vector)
                        requires
                            shift == 60u64 && d == ((val >> shift) & 0xF) as u8,
                    ;
                } else {
                    let old_shift: u64 = (shift + 4) as u64;
                    assert((val >> old_shift) as int * 16 + d as int == (val >> shift) as int)
                        by (bit_vector)
                        requires
                            shift <= 56 && old_shift == shift + 4 && d == ((val >> shift)
                                & 0xF) as u8,
                    ;
                }
            }
            i = i + 1;
        }
        assert(val >> 0u64 == val) by (bit_vector);
        out
    }
}

/// Why a call to `generate` produced no id.
#[derive(Clone, Copy, Debug, PartialEq, Eq, Structural)]
pub enum GenerateError {
    /// The wall clock reads earlier than the generator's epoch: fatal.
    EpochInFuture,
    /// The wall clock reads earlier than at the previous call: fatal.
    TimeRewound,
    /// The counter for the current millisecond is exhausted; the caller
    /// should wait a millisecond and retry.
    Throttle,
}

/// The id generated from a recorded (timestamp, counter) pair and a node
/// salt.
pub open spec fn id_of_entry(ts: u64, counter: u16, node: u16) -> u64 {
    spec_scramble(spec_compose(ts, node, counter))
}

/// Generator of unique asset ids.
///
/// Ids from one generator are pairwise distinct; generators with distinct
/// node salts generate disjoint id sets. The ghost trace records every
/// (timestamp, counter) pair already issued.
pub struct AssetIdContext {
    epoch_ms: u64,
    node: u16,
    counter: u16,
    last_timestamp: u64,
    trace: Ghost<Seq<(u64, u16)>>,
}

impl AssetIdContext {
    /// Structural invariant of the generator state.
    pub closed spec fn wf(self) -> bool {
        &&& self.node < 0x400
        &&& self.counter <= MAX_COUNTER
        &&& self.last_timestamp <= MAX_TIMESTAMP
        &&& (forall|i: int, j: int|
            0 <= i < j < self.trace@.len() ==> lex_lt(#[trigger] self.trace@[i], #[trigger] self.trace@[j]))
        &&& (forall|i: int|
            0 <= i < self.trace@.len() ==> 1 <= (#[trigger] self.trace@[i]).1 <= MAX_COUNTER && self.trace@[i].0
                <= MAX_TIMESTAMP)
        &&& if self.trace@.len() == 0 {
            self.counter == 0 && self.last_timestamp == 0
        } else {
            self.trace@.last() == (self.last_timestamp, self.counter) && self.counter >= 1
        }
    }

    /// The node salt of this generator.
    pub closed spec fn spec_node(self) -> u16 {
        self.node
    }

    /// The epoch of this generator, in milliseconds since the unix epoch.
    pub closed spec fn spec_epoch_ms(self) -> u64 {
        self.epoch_ms
    }

    /// The (timestamp, counter) pairs issued so far.
    pub closed spec fn spec_trace(self) -> Seq<(u64, u16)> {
        self.trace@
    }

    /// The timestamp recorded by the most recent id.
    pub closed spec fn spec_last_timestamp(self) -> u64 {
        self.last_timestamp
    }

    /// The counter recorded by the most recent id.
    pub closed spec fn spec_counter(self) -> u16 {
        self.counter
    }

    /// Builds a generator from an epoch (milliseconds since the unix
    /// epoch) and a node salt, of which the low 10 bits are kept.
    pub fn new(epoch_ms: u64, node: u16) -> (r: AssetIdContext)
        ensures
            r.wf(),
            r.spec_node() == node & 0x3FF,
            r.spec_epoch_ms() == epoch_ms,
            r.spec_trace().len() == 0,
    {
        let masked = node & 0x3FF;
        assert(masked < 0x400) by (bit_vector)
            requires
                masked == node & 0x3FF,
        ;
        AssetIdContext { epoch_ms, node: masked, counter: 0, last_timestamp: 0, trace: Ghost(Seq::empty()) }
    }

    /// Generates a fresh id at the given wall-clock reading (milliseconds
    /// since the unix epoch).
    ///
    /// Fails exactly when the clock reads before the epoch, when it reads
    /// before the previous call's reading, or when the counter for the
    /// current millisecond is exhausted (retriable). On success the id is
    /// non-zero and differs from every id this generator has returned.
    pub fn generate(&mut self, now_unix_ms: u64) -> (r: Result<AssetId, GenerateError>)
        requires
            old(self).wf(),
        ensures
            final(self).wf(),
            final(self).spec_node() == old(self).spec_node(),
            final(self).spec_epoch_ms() == old(self).spec_epoch_ms(),
            r == Err::<AssetId, GenerateError>(GenerateError::EpochInFuture) <==> now_unix_ms
                < old(self).spec_epoch_ms(),
            r == Err::<AssetId, GenerateError>(GenerateError::TimeRewound) <==> (now_unix_ms
                >= old(self).spec_epoch_ms() && clamp_ts(
                (now_unix_ms - old(self).spec_epoch_ms()) as u64,
            ) < old(self).spec_last_timestamp()),
            r == Err::<AssetId, GenerateError>(GenerateError::Throttle) <==> (now_unix_ms >= old(
                self,
            ).spec_epoch_ms() && clamp_ts((now_unix_ms - old(self).spec_epoch_ms()) as u64) == old(
                self,
            ).spec_last_timestamp() && old(self).spec_counter() == MAX_COUNTER),
            r is Err ==> *final(self) == *old(self),
            match r {
                Ok(id) => {
                    &&& id.is_valid()
                    &&& final(self).spec_last_timestamp() == clamp_ts(
                        (now_unix_ms - old(self).spec_epoch_ms()) as u64,
                    )
                    &&& final(self).spec_counter() == if final(self).spec_last_timestamp() == old(
                        self,
                    ).spec_last_timestamp() {
                        old(self).spec_counter() + 1
                    } else {
                        1int
                    }
                    &&& final(self).spec_trace() == old(self).spec_trace().push(
                        (final(self).spec_last_timestamp(), final(self).spec_counter()),
                    )
                    &&& id.spec_value() == id_of_entry(
                        final(self).spec_last_timestamp(),
                        final(self).spec_counter(),
                        old(self).spec_node(),
                    )
                    &&& forall|i: int|
                        0 <= i < old(self).spec_trace().len() ==> id_of_entry(
                            (#[trigger] old(self).spec_trace()[i]).0,
                            old(self).spec_trace()[i].1,
                            old(self).spec_node(),
                        ) != id.spec_value()
                },
                Err(_) => true,
            },
    {
        if now_unix_ms < self.epoch_ms {
            return Err(GenerateError::EpochInFuture);
        }
        let ms = now_unix_ms - self.epoch_ms;
        let ts = if ms > MAX_TIMESTAMP {
            MAX_TIMESTAMP
        } else {
            ms
        };
        if ts < self.last_timestamp {
            return Err(GenerateError::TimeRewound);
        }
        if ts == self.last_timestamp {
            if self.counter == MAX_COUNTER {
                return Err(GenerateError::Throttle);
            }
            self.counter = self.counter + 1;
        } else {
            self.counter = 1;
            self.last_timestamp = ts;
        }
        let raw = compose(self.last_timestamp, self.node, self.counter);
        proof {
            lemma_compose_nonzero(self.last_timestamp, self.node, self.counter);
            lemma_scramble_nonzero(raw);
            let entry = (self.last_timestamp, self.counter);
            assert forall|i: int| 0 <= i < old(self).trace@.len() implies lex_lt(
                #[trigger] old(self).trace@[i],
                entry,
            ) by {
                if i < old(self).trace@.len() - 1 {
                    assert(lex_lt(old(self).trace@[i], old(self).trace@.last()));
                }
            }
            assert forall|i: int| 0 <= i < old(self).trace@.len() implies id_of_entry(
                (#[trigger] old(self).trace@[i]).0,
                old(self).trace@[i].1,
                self.node,
            ) != spec_scramble(raw) by {
                let (t, c) = old(self).trace@[i];
                if id_of_entry(t, c, self.node) == spec_scramble(raw) {
                    lemma_scramble_injective(
                        spec_compose(t, self.node, c),
                        spec_compose(self.last_timestamp, self.node, self.counter),
                    );
                    lemma_compose_injective(
                        t,
                        self.node,
                        c,
                        self.last_timestamp,
                        self.node,
                        self.counter,
                    );
                }
            }
            self.trace@ = old(self).trace@.push(entry);
        }
        Ok(AssetId { value: scramble(raw) })
    }
}

/// Strict lexicographic order on (timestamp, counter) pairs.
pub open spec fn lex_lt(a: (u64, u16), b: (u64, u16)) -> bool {
    a.0 < b.0 || (a.0 == b.0 && a.1 < b.1)
}

/// All ids issued by one well-formed generator are pairwise distinct: the
/// recorded (timestamp, counter) pairs strictly grow, the layout is
/// injective on bounded fields, and scrambling is a bijection.
pub proof fn lemma_generated_ids_distinct(ctx: AssetIdContext, i: int, j: int)
    requires
        ctx.wf(),
        0 <= i < j < ctx.spec_trace().len(),
    ensures
        id_of_entry(ctx.spec_trace()[i].0, ctx.spec_trace()[i].1, ctx.spec_node()) != id_of_entry(
            ctx.spec_trace()[j].0,
            ctx.spec_trace()[j].1,
            ctx.spec_node(),
        ),
{
    let (t1, c1) = ctx.spec_trace()[i];
    let (t2, c2) = ctx.spec_trace()[j];
    if id_of_entry(t1, c1, ctx.spec_node()) == id_of_entry(t2, c2, ctx.spec_node()) {
        lemma_scramble_injective(
            spec_compose(t1, ctx.spec_node(), c1),
            spec_compose(t2, ctx.spec_node(), c2),
        );
        lemma_compose_injective(t1, ctx.spec_node(), c1, t2, ctx.spec_node(), c2);
    }
}

/// A well-formed generator keeps every field and every recorded pair
/// within the layout's bounds: this is what lets the disjointness of
/// distinct nodes be applied to its recorded ids.
pub proof fn lemma_wf_bounds(ctx: AssetIdContext)
    requires
        ctx.wf(),
    ensures
        ctx.spec_node() < 0x400,
        ctx.spec_counter() <= MAX_COUNTER,
        ctx.spec_last_timestamp() <= MAX_TIMESTAMP,
        forall|i: int|
            0 <= i < ctx.spec_trace().len() ==> (#[trigger] ctx.spec_trace()[i]).0
                <= MAX_TIMESTAMP && 1 <= ctx.spec_trace()[i].1 <= MAX_COUNTER,
{
}

/// Ids recorded by two well-formed generators with distinct node salts are
/// pairwise distinct.
pub proof fn lemma_generators_disjoint(a: AssetIdContext, b: AssetIdContext, i: int, j: int)
    requires
        a.wf(),
        b.wf(),
        a.spec_node() != b.spec_node(),
        0 <= i < a.spec_trace().len(),
        0 <= j < b.spec_trace().len(),
    ensures
        id_of_entry(a.spec_trace()[i].0, a.spec_trace()[i].1, a.spec_node()) != id_of_entry(
            b.spec_trace()[j].0,
            b.spec_trace()[j].1,
            b.spec_node(),
        ),
{
    lemma_wf_bounds(a);
    lemma_wf_bounds(b);
    lemma_distinct_nodes_disjoint(
        a.spec_trace()[i].0,
        a.spec_trace()[i].1,
        a.spec_node(),
        b.spec_trace()[j].0,
        b.spec_trace()[j].1,
        b.spec_node(),
    );
}

/// Generators with distinct node salts generate disjoint ids, whatever
/// timestamps and counters they record.
pub proof fn lemma_distinct_nodes_disjoint(ts1: u64, c1: u16, n1: u16, ts2: u64, c2: u16, n2: u16)
    requires
        ts1 <= MAX_TIMESTAMP,
        ts2 <= MAX_TIMESTAMP,
        n1 < 0x400,
        n2 < 0x400,
        c1 <= MAX_COUNTER,
        c2 <= MAX_COUNTER,
        n1 != n2,
    ensures
        id_of_entry(ts1, c1, n1) != id_of_entry(ts2, c2, n2),
{
    if id_of_entry(ts1, c1, n1) == id_of_entry(ts2, c2, n2) {
        lemma_scramble_injective(spec_compose(ts1, n1, c1), spec_compose(ts2, n2, c2));
        lemma_compose_injective(ts1, n1, c1, ts2, n2, c2);
    }
}

/// The timestamp field: milliseconds past the epoch, saturating at the
/// 42-bit maximum.
pub open spec fn clamp_ts(ms: u64) -> u64 {
    if ms > MAX_TIMESTAMP {
        MAX_TIMESTAMP
    } else {
        ms
    }
}

} // verus!
