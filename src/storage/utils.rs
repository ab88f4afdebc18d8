//! Session thinning and the integrity digest.
use vstd::prelude::*;
use crate::telemetry::TelemetryData;
use vstd::arithmetic::div_mod::{lemma_mod_multiples_vanish, lemma_mul_mod_noop_left, lemma_small_mod};
use vstd::wrapping::u64_specs;

verus! {

pub open spec fn gap(a: i64, b: i64) -> int {
    if a >= b {
        a - b
    } else {
        b - a
    }
}

/// Two consecutive records differ enough that neither may be dropped.
pub open spec fn significant_change(a: TelemetryData, b: TelemetryData) -> bool {
    gap(a.speed, b.speed) > 100 || gap(a.rpm, b.rpm) > 10000 || gap(a.engine_temp, b.engine_temp)
        > 500 || gap(a.fuel_level, b.fuel_level) > 200 || a.gear != b.gear
}

/// Whether thinning keeps the record at index `i`.
pub open spec fn kept(s: Seq<TelemetryData>, i: int) -> bool {
    i == 0 || i == s.len() - 1 || significant_change(s[i - 1], s[i]) || significant_change(
        s[i],
        s[i + 1],
    )
}

/// The records among the first `n` that thinning keeps, in order.
pub open spec fn kept_prefix(s: Seq<TelemetryData>, n: int) -> Seq<TelemetryData>
    decreases n,
{
    if n <= 0 {
        Seq::empty()
    } else if kept(s, n - 1) {
        kept_prefix(s, n - 1).push(s[n - 1])
    } else {
        kept_prefix(s, n - 1)
    }
}

/// The thinned session.
pub open spec fn thinned(s: Seq<TelemetryData>) -> Seq<TelemetryData> {
    kept_prefix(s, s.len() as int)
}

fn differs(a: i64, b: i64, limit: i64) -> (r: bool)
    requires
        limit >= 0,
    ensures
        r == (gap(a, b) > limit),
{
    if a >= b {
        (a as i128 - b as i128) > limit as i128
    } else {
        (b as i128 - a as i128) > limit as i128
    }
}

fn has_significant_change(a: &TelemetryData, b: &TelemetryData) -> (r: bool)
    ensures
        r == significant_change(*a, *b),
{
    differs(a.speed, b.speed, 100) || differs(a.rpm, b.rpm, 10000) || differs(
        a.engine_temp,
        b.engine_temp,
        500,
    ) || differs(a.fuel_level, b.fuel_level, 200) || a.gear != b.gear
}

proof fn lemma_short_sessions_kept(s: Seq<TelemetryData>)
    requires
        s.len() <= 2,
    ensures
        thinned(s) == s,
{
    if s.len() == 0 {
        assert(thinned(s) =~= s);
    } else if s.len() == 1 {
        assert(kept_prefix(s, 0) =~= Seq::<TelemetryData>::empty());
        assert(thinned(s) =~= s);
    } else {
        assert(kept(s, 0));
        assert(kept(s, 1));
        assert(kept_prefix(s, 0) =~= Seq::<TelemetryData>::empty());
        assert(kept_prefix(s, 1) =~= seq![s[0]]);
        assert(thinned(s) =~= s);
    }
}

/// Drops each interior record that differs significantly from neither
/// neighbour; the first and last records always stay.
pub fn compress_telemetry_data(data_points: &[TelemetryData]) -> (r: Vec<TelemetryData>)
    ensures
        r@ == thinned(data_points@),
{
    let n = data_points.len();
    if n <= 2 {
        proof {
            lemma_short_sessions_kept(data_points@);
        }
        let mut copy: Vec<TelemetryData> = Vec::new();
        let mut j: usize = 0;
        while j < n
            invariant
                n == data_points@.len(),
                j <= n,
                copy@ == data_points@.take(j as int),
            decreases n - j,
        {
            copy.push(data_points[j]);
            j = j + 1;
            assert(copy@ =~= data_points@.take(j as int));
        }
        assert(data_points@.take(n as int) =~= data_points@);
        return copy;
    }
    let mut compressed: Vec<TelemetryData> = Vec::new();
    compressed.push(data_points[0]);
    assert(kept(data_points@, 0));
    assert(kept_prefix(data_points@, 0) =~= Seq::<TelemetryData>::empty());
    assert(compressed@ =~= kept_prefix(data_points@, 1));
    let mut i: usize = 1;
    while i < n - 1
        invariant
            n == data_points@.len(),
            n > 2,
            1 <= i <= n - 1,
            compressed@ == kept_prefix(data_points@, i as int),
        decreases n - 1 - i,
    {
        let prev = &data_points[i - 1];
        let current = &data_points[i];
        let next = &data_points[i + 1];
        if has_significant_change(prev, current) || has_significant_change(current, next) {
            compressed.push(*current);
        }
        i = i + 1;
    }
    compressed.push(data_points[n - 1]);
    compressed
}

/// Thinning never lengthens a session.
pub proof fn lemma_kept_prefix_len(s: Seq<TelemetryData>, n: int)
    requires
        0 <= n <= s.len(),
    ensures
        kept_prefix(s, n).len() <= n,
    decreases n,
{
    if n > 0 {
        lemma_kept_prefix_len(s, n - 1);
    }
}

proof fn lemma_kept_prefix_first(s: Seq<TelemetryData>, n: int)
    requires
        1 <= n <= s.len(),
    ensures
        kept_prefix(s, n).len() >= 1,
        kept_prefix(s, n)[0] == s[0],
    decreases n,
{
    if n > 1 {
        lemma_kept_prefix_first(s, n - 1);
    } else {
        assert(kept(s, 0));
        assert(kept_prefix(s, 0) =~= Seq::<TelemetryData>::empty());
    }
}

/// Thinning a non-empty session keeps its first and last records and never
/// makes it longer.
pub proof fn lemma_thinning_keeps_ends(s: Seq<TelemetryData>)
    requires
        s.len() >= 1,
    ensures
        thinned(s).len() <= s.len(),
        thinned(s).len() >= 1,
        thinned(s)[0] == s[0],
        thinned(s).last() == s.last(),
{
    lemma_kept_prefix_len(s, s.len() as int);
    lemma_kept_prefix_first(s, s.len() as int);
    assert(kept(s, s.len() - 1));
}

/// Starting state of the 64-bit FNV-1a digest.
pub const FNV_OFFSET: u64 = 0xcbf29ce484222325;

/// Multiplier of the 64-bit FNV-1a digest.
pub const FNV_PRIME: u64 = 0x100000001b3;

/// A signed channel as the 64-bit word that the digest reads (two's complement).
pub open spec fn word_of(v: int) -> u64 {
    if v >= 0 {
        v as u64
    } else {
        (v + 0x1_0000_0000_0000_0000) as u64
    }
}

/// A value in hundredths, cut to tenths (toward zero).
pub open spec fn tenths(v: i64) -> int {
    if v >= 0 {
        v / 10
    } else {
        -((-v) / 10)
    }
}

/// The channels that the digest covers, in order: the timestamp, speed and
/// engine temperature in hundredths, rpm in tenths, and the gear.
pub open spec fn hashed_words(d: TelemetryData) -> Seq<u64> {
    seq![
        d.timestamp,
        word_of(d.speed as int),
        word_of(tenths(d.rpm)),
        word_of(d.engine_temp as int),
        word_of(d.gear as int),
    ]
}

/// One digest step: fold a word into the state.
pub open spec fn mix(h: u64, w: u64) -> u64 {
    u64_specs::wrapping_mul(h ^ w, FNV_PRIME)
}

/// The digest of a sequence of words.
pub open spec fn digest(ws: Seq<u64>) -> u64
    decreases ws.len(),
{
    if ws.len() == 0 {
        FNV_OFFSET
    } else {
        mix(digest(ws.drop_last()), ws.last())
    }
}

/// The integrity hash of a record.
pub open spec fn record_hash(d: TelemetryData) -> u64 {
    digest(hashed_words(d))
}

fn to_tenths(v: i64) -> (r: i64)
    ensures
        r == tenths(v),
{
    if v >= 0 {
        v / 10
    } else {
        (-((-(v as i128)) / 10)) as i64
    }
}

fn word(v: i64) -> (r: u64)
    ensures
        r == word_of(v as int),
{
    if v >= 0 {
        v as u64
    } else {
        (v as i128 + 0x1_0000_0000_0000_0000i128) as u64
    }
}

fn digest_words(ws: &Vec<u64>) -> (r: u64)
    ensures
        r == digest(ws@),
{
    let mut h: u64 = FNV_OFFSET;
    let mut i: usize = 0;
    assert(ws@.take(0) =~= Seq::<u64>::empty());
    while i < ws.len()
        invariant
            i <= ws@.len(),
            h == digest(ws@.take(i as int)),
        decreases ws.len() - i,
    {
        assert(ws@.take(i + 1).drop_last() =~= ws@.take(i as int));
        h = (h ^ ws[i]).wrapping_mul(FNV_PRIME);
        i = i + 1;
    }
    assert(ws@.take(ws@.len() as int) =~= ws@);
    h
}

/// The integrity hash of the record's timestamp, speed, rpm, engine
/// temperature and gear.
pub fn calculate_data_hash(data: &TelemetryData) -> (r: u64)
    ensures
        r == record_hash(*data),
{
    let mut ws: Vec<u64> = Vec::new();
    ws.push(data.timestamp);
    ws.push(word(data.speed));
    ws.push(word(to_tenths(data.rpm)));
    ws.push(word(data.engine_temp));
    ws.push(word(data.gear as i64));
    assert(ws@ =~= hashed_words(*data));
    digest_words(&ws)
}

/// A record matches a hash when recomputing its hash gives that hash.
pub open spec fn validates(d: TelemetryData, h: u64) -> bool {
    record_hash(d) == h
}

/// Whether the record still has the hash that was computed for it.
pub fn validate_data_integrity(data: &TelemetryData, expected_hash: u64) -> (r: bool)
    ensures
        r == validates(*data, expected_hash),
{
    calculate_data_hash(data) == expected_hash
}

proof fn lemma_prime_inverse(v: u64)
    ensures
        (((v as int * FNV_PRIME as int) % 0x1_0000_0000_0000_0000) * 0xce965057aff6957b)
            % 0x1_0000_0000_0000_0000 == v as int,
{
    let m: int = 0x1_0000_0000_0000_0000;
    let inv: int = 0xce965057aff6957b;
    let k: int = 887285111055;
    assert(FNV_PRIME as int * inv == k * m + 1);
    lemma_mul_mod_noop_left(v as int * FNV_PRIME as int, inv, m);
    assert((v as int * FNV_PRIME as int) * inv == m * (v as int * k) + v as int)
        by (nonlinear_arith)
        requires
            FNV_PRIME as int * inv == k * m + 1,
    ;
    lemma_mod_multiples_vanish(v as int * k, v as int, m);
    lemma_small_mod(v as nat, m as nat);
}

proof fn lemma_mix_injective_in_state(x: u64, y: u64)
    requires
        u64_specs::wrapping_mul(x, FNV_PRIME) == u64_specs::wrapping_mul(y, FNV_PRIME),
    ensures
        x == y,
{
    lemma_prime_inverse(x);
    lemma_prime_inverse(y);
}

proof fn lemma_xor_cancel(h: u64, a: u64, b: u64)
    requires
        h ^ a == h ^ b,
    ensures
        a == b,
{
    assert((h ^ a == h ^ b) ==> a == b) by (bit_vector);
}

proof fn lemma_xor_cancel_left(a: u64, b: u64, w: u64)
    requires
        a ^ w == b ^ w,
    ensures
        a == b,
{
    assert((a ^ w == b ^ w) ==> a == b) by (bit_vector);
}

/// Changing exactly one word of a sequence changes its digest.
pub proof fn lemma_digest_detects_one_change(ws: Seq<u64>, vs: Seq<u64>, k: int)
    requires
        ws.len() == vs.len(),
        0 <= k < ws.len(),
        ws[k] != vs[k],
        forall|j: int| 0 <= j < ws.len() && j != k ==> ws[j] == vs[j],
    ensures
        digest(ws) != digest(vs),
    decreases ws.len(),
{
    let n = ws.len() - 1;
    if k == n {
        assert(ws.drop_last() =~= vs.drop_last());
        if digest(ws) == digest(vs) {
            lemma_mix_injective_in_state(digest(ws.drop_last()) ^ ws.last(), digest(vs.drop_last()) ^ vs.last());
            lemma_xor_cancel(digest(ws.drop_last()), ws.last(), vs.last());
        }
    } else {
        lemma_digest_detects_one_change(ws.drop_last(), vs.drop_last(), k);
        if digest(ws) == digest(vs) {
            lemma_mix_injective_in_state(digest(ws.drop_last()) ^ ws.last(), digest(vs.drop_last()) ^ vs.last());
            lemma_xor_cancel_left(digest(ws.drop_last()), digest(vs.drop_last()), ws.last());
        }
    }
}

/// A record validates against the hash computed for it; a record whose
/// hashed channels differ from it in exactly one place does not.
pub proof fn lemma_one_changed_channel_fails_validation(d: TelemetryData, e: TelemetryData, k: int)
    requires
        0 <= k < 5,
        hashed_words(d)[k] != hashed_words(e)[k],
        forall|j: int| 0 <= j < 5 && j != k ==> hashed_words(d)[j] == hashed_words(e)[j],
    ensures
        validates(d, record_hash(d)),
        !validates(e, record_hash(d)),
{
    lemma_digest_detects_one_change(hashed_words(d), hashed_words(e), k);
}

} // verus!
