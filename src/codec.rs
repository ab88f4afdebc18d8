//! The main file's format: one JSON object holding a record's channels, each
//! a decimal number (`null` for an absent position channel).
use vstd::prelude::*;
use crate::telemetry::TelemetryData;
use crate::text::{decimal, decimal_string, digit};
use vstd::arithmetic::div_mod::lemma_fundamental_div_mod_converse;

verus! {

/// The key of field `k`, in the order the fields are written.
pub open spec fn field_name(k: int) -> Seq<char> {
    if k == 0 {
        "speed"@
    } else if k == 1 {
        "rpm"@
    } else if k == 2 {
        "engine_temp"@
    } else if k == 3 {
        "fuel_level"@
    } else if k == 4 {
        "battery_voltage"@
    } else if k == 5 {
        "oil_pressure"@
    } else if k == 6 {
        "throttle_position"@
    } else if k == 7 {
        "brake_pressure"@
    } else if k == 8 {
        "gear"@
    } else if k == 9 {
        "timestamp"@
    } else if k == 10 {
        "latitude"@
    } else if k == 11 {
        "longitude"@
    } else if k == 12 {
        "altitude"@
    } else if k == 13 {
        "acceleration"@
    } else if k == 14 {
        "brake_temperature"@
    } else if k == 15 {
        "tire_pressure_fl"@
    } else if k == 16 {
        "tire_pressure_fr"@
    } else if k == 17 {
        "tire_pressure_rl"@
    } else {
        "tire_pressure_rr"@
    }
}

/// How many decimal places field `k` is held to.
pub open spec fn field_places(k: int) -> nat {
    if k == 8 || k == 9 {
        0
    } else if k == 10 || k == 11 {
        6
    } else {
        2
    }
}

/// Whether field `k` may be `null`.
pub open spec fn field_nullable(k: int) -> bool {
    10 <= k <= 12
}

pub open spec fn some_int(v: i64) -> Option<int> {
    Some(v as int)
}

pub open spec fn opt_int(v: Option<i64>) -> Option<int> {
    match v {
        Some(x) => Some(x as int),
        None => None,
    }
}

/// A record's fields, in the order they are written; the scalar channels in
/// hundredths, latitude and longitude in millionths.
pub open spec fn record_values(d: TelemetryData) -> Seq<Option<int>> {
    seq![
        some_int(d.speed),
        some_int(d.rpm),
        some_int(d.engine_temp),
        some_int(d.fuel_level),
        some_int(d.battery_voltage),
        some_int(d.oil_pressure),
        some_int(d.throttle_position),
        some_int(d.brake_pressure),
        Some(d.gear as int),
        Some(d.timestamp as int),
        opt_int(d.latitude),
        opt_int(d.longitude),
        opt_int(d.altitude),
        some_int(d.acceleration),
        some_int(d.brake_temperature),
        some_int(d.tire_pressure_fl),
        some_int(d.tire_pressure_fr),
        some_int(d.tire_pressure_rl),
        some_int(d.tire_pressure_rr),
    ]
}

pub open spec fn fits_i64(v: Option<int>) -> bool {
    v matches Some(x) && i64::MIN <= x <= i64::MAX
}

pub open spec fn fits_opt_i64(v: Option<int>) -> bool {
    v is None || fits_i64(v)
}

/// The values make a record: each fits its channel's type.
pub open spec fn values_fit(vals: Seq<Option<int>>) -> bool {
    &&& vals.len() == 19
    &&& forall|k: int| 0 <= k < 8 ==> fits_i64(#[trigger] vals[k])
    &&& forall|k: int| 13 <= k < 19 ==> fits_i64(#[trigger] vals[k])
    &&& vals[8] matches Some(g) && i32::MIN <= g <= i32::MAX
    &&& vals[9] matches Some(t) && 0 <= t <= u64::MAX
    &&& fits_opt_i64(vals[10])
    &&& fits_opt_i64(vals[11])
    &&& fits_opt_i64(vals[12])
}

pub open spec fn as_i64(v: Option<int>) -> i64 {
    match v {
        Some(x) => x as i64,
        None => 0,
    }
}

pub open spec fn as_opt_i64(v: Option<int>) -> Option<i64> {
    match v {
        Some(x) => Some(x as i64),
        None => None,
    }
}

/// The record that fitting values describe.
pub open spec fn record_of(vals: Seq<Option<int>>) -> TelemetryData {
    TelemetryData {
        speed: as_i64(vals[0]),
        rpm: as_i64(vals[1]),
        engine_temp: as_i64(vals[2]),
        fuel_level: as_i64(vals[3]),
        battery_voltage: as_i64(vals[4]),
        oil_pressure: as_i64(vals[5]),
        throttle_position: as_i64(vals[6]),
        brake_pressure: as_i64(vals[7]),
        gear: (match vals[8] {
            Some(g) => g,
            None => 0,
        }) as i32,
        timestamp: (match vals[9] {
            Some(t) => t,
            None => 0,
        }) as u64,
        latitude: as_opt_i64(vals[10]),
        longitude: as_opt_i64(vals[11]),
        altitude: as_opt_i64(vals[12]),
        acceleration: as_i64(vals[13]),
        brake_temperature: as_i64(vals[14]),
        tire_pressure_fl: as_i64(vals[15]),
        tire_pressure_fr: as_i64(vals[16]),
        tire_pressure_rl: as_i64(vals[17]),
        tire_pressure_rr: as_i64(vals[18]),
    }
}

pub open spec fn pow10(p: nat) -> nat
    decreases p,
{
    if p == 0 {
        1
    } else {
        10 * pow10((p - 1) as nat)
    }
}

/// The last `p` decimal digits of `f`, with leading zeros.
pub open spec fn padded(f: nat, p: nat) -> Seq<char>
    decreases p,
{
    if p == 0 {
        Seq::empty()
    } else {
        padded(f / 10, (p - 1) as nat).push(digit(f % 10))
    }
}

pub open spec fn abs(x: int) -> nat {
    if x < 0 {
        (-x) as nat
    } else {
        x as nat
    }
}

/// `x` units of 10^-p written with exactly `p` decimal places.
pub open spec fn fixed_text(x: int, p: nat) -> Seq<char> {
    let m = abs(x);
    let body = decimal(m / pow10(p)) + if p == 0 {
        Seq::<char>::empty()
    } else {
        seq!['.'] + padded(m % pow10(p), p)
    };
    if x < 0 {
        seq!['-'] + body
    } else {
        body
    }
}

pub open spec fn value_text(v: Option<int>, p: nat) -> Seq<char> {
    match v {
        Some(x) => fixed_text(x, p),
        None => "null"@,
    }
}

/// The text of fields `k` and on, then the closing brace.
pub open spec fn fields_text(vals: Seq<Option<int>>, k: int) -> Seq<char>
    decreases 19 - k,
{
    if k >= 19 {
        seq!['}']
    } else {
        (if k == 0 {
            Seq::<char>::empty()
        } else {
            seq![',']
        }) + seq!['"'] + field_name(k) + seq!['"', ':'] + value_text(vals[k], field_places(k))
            + fields_text(vals, k + 1)
    }
}

/// The text of a record.
pub open spec fn record_text(d: TelemetryData) -> Seq<char> {
    seq!['{'] + fields_text(record_values(d), 0)
}

// Reading.
pub open spec fn is_ws(c: char) -> bool {
    c == ' ' || c == '\n' || c == '\t' || c == '\r'
}

pub open spec fn is_digit(c: char) -> bool {
    '0' <= c && c <= '9'
}

/// The first index from `i` on that holds no whitespace.
pub open spec fn skip_ws(s: Seq<char>, i: int) -> int
    decreases s.len() - i,
{
    if 0 <= i < s.len() && is_ws(s[i]) {
        skip_ws(s, i + 1)
    } else {
        i
    }
}

/// The first index from `i` on that holds no digit.
pub open spec fn digits_end(s: Seq<char>, i: int) -> int
    decreases s.len() - i,
{
    if 0 <= i < s.len() && is_digit(s[i]) {
        digits_end(s, i + 1)
    } else {
        i
    }
}

pub open spec fn digits_value(t: Seq<char>) -> nat
    decreases t.len(),
{
    if t.len() == 0 {
        0
    } else {
        digits_value(t.drop_last()) * 10 + ((t.last() as int - '0' as int) as nat)
    }
}

pub open spec fn text_at(s: Seq<char>, i: int, t: Seq<char>) -> bool {
    0 <= i && i + t.len() <= s.len() && s.subrange(i, i + t.len()) == t
}

/// A number at `i` held to `p` places: an optional '-', digits, and an
/// optional '.' with one to `p` digits. Gives its value in units of 10^-p and
/// the index after it.
pub open spec fn number_at(s: Seq<char>, i: int, p: nat) -> Option<(int, int)> {
    let neg = 0 <= i < s.len() && s[i] == '-';
    let a = if neg {
        i + 1
    } else {
        i
    };
    let b = digits_end(s, a);
    if b == a {
        None
    } else {
        let whole = digits_value(s.subrange(a, b));
        if b < s.len() && s[b] == '.' {
            let d = digits_end(s, b + 1);
            if d == b + 1 || d - (b + 1) > p {
                None
            } else {
                let frac = digits_value(s.subrange(b + 1, d));
                let m = whole * pow10(p) + frac * pow10((p - (d - (b + 1))) as nat);
                Some((if neg {
                    -m
                } else {
                    m as int
                }, d))
            }
        } else {
            let m = whole * pow10(p);
            Some((if neg {
                -m
            } else {
                m as int
            }, b))
        }
    }
}

/// A value at `i`: `null` where allowed, or a number.
pub open spec fn value_at(s: Seq<char>, i: int, p: nat, nullable: bool) -> Option<(Option<int>, int)> {
    if nullable && text_at(s, i, "null"@) {
        Some((None, i + 4))
    } else {
        match number_at(s, i, p) {
            Some((v, j)) => Some((Some(v), j)),
            None => None,
        }
    }
}

/// Fields `k` and on from index `i`, then the closing brace: their values and
/// the index after the brace.
pub open spec fn fields_at(s: Seq<char>, i: int, k: int) -> Option<(Seq<Option<int>>, int)>
    decreases 19 - k,
{
    if k >= 19 {
        let j = skip_ws(s, i);
        if j < s.len() && s[j] == '}' {
            Some((Seq::empty(), j + 1))
        } else {
            None
        }
    } else {
        let j0 = skip_ws(s, i);
        let sep_ok = k == 0 || (j0 < s.len() && s[j0] == ',');
        let j1 = if k == 0 {
            j0
        } else {
            skip_ws(s, j0 + 1)
        };
        let key = seq!['"'] + field_name(k) + seq!['"'];
        let j2 = skip_ws(s, j1 + key.len());
        let j3 = skip_ws(s, j2 + 1);
        if !sep_ok || !text_at(s, j1, key) || !(j2 < s.len() && s[j2] == ':') {
            None
        } else {
            match value_at(s, j3, field_places(k), field_nullable(k)) {
                Some((v, j4)) => match fields_at(s, j4, k + 1) {
                    Some((rest, end)) => Some((seq![v] + rest, end)),
                    None => None,
                },
                None => None,
            }
        }
    }
}

/// The record that starts at `i` (after optional whitespace), and the index
/// after its closing brace.
pub open spec fn record_at(s: Seq<char>, i: int) -> Option<(TelemetryData, int)> {
    let j = skip_ws(s, i);
    if !(j < s.len() && s[j] == '{') {
        None
    } else {
        match fields_at(s, j + 1, 0) {
            Some((vals, end)) => if values_fit(vals) {
                Some((record_of(vals), end))
            } else {
                None
            },
            None => None,
        }
    }
}

/// The record that a text holds, if it is well formed.
pub open spec fn parse_record(s: Seq<char>) -> Option<TelemetryData> {
    match record_at(s, 0) {
        Some((d, end)) => if skip_ws(s, end) == s.len() {
            Some(d)
        } else {
            None
        },
        None => None,
    }
}

// The round trip.
proof fn lemma_text_at_split(s: Seq<char>, i: int, a: Seq<char>, b: Seq<char>)
    requires
        text_at(s, i, a + b),
    ensures
        text_at(s, i, a),
        text_at(s, i + a.len(), b),
{
    let whole = s.subrange(i, i + (a + b).len());
    assert(whole == a + b);
    assert(s.subrange(i, i + a.len()) =~= whole.subrange(0, a.len() as int));
    assert(whole.subrange(0, a.len() as int) =~= a);
    assert(s.subrange(i + a.len(), i + a.len() + b.len()) =~= whole.subrange(
        a.len() as int,
        (a + b).len() as int,
    ));
    assert(whole.subrange(a.len() as int, (a + b).len() as int) =~= b);
}

proof fn lemma_text_at_char(s: Seq<char>, i: int, t: Seq<char>, k: int)
    requires
        text_at(s, i, t),
        0 <= k < t.len(),
    ensures
        s[i + k] == t[k],
{
    assert(s.subrange(i, i + t.len())[k] == s[i + k]);
}

proof fn lemma_skip_none(s: Seq<char>, i: int)
    requires
        0 <= i < s.len(),
        !is_ws(s[i]),
    ensures
        skip_ws(s, i) == i,
{
}

proof fn lemma_pow10_positive(p: nat)
    ensures
        pow10(p) >= 1,
    decreases p,
{
    if p > 0 {
        lemma_pow10_positive((p - 1) as nat);
    }
}

proof fn lemma_decimal_digits(n: nat)
    ensures
        decimal(n).len() >= 1,
        forall|k: int| 0 <= k < decimal(n).len() ==> is_digit(#[trigger] decimal(n)[k]),
        digits_value(decimal(n)) == n,
    decreases n,
{
    assert(digit(n % 10) as int - '0' as int == n % 10);
    if n >= 10 {
        lemma_decimal_digits(n / 10);
        assert(decimal(n).drop_last() =~= decimal(n / 10));
        assert(decimal(n).last() == digit(n % 10));
        assert forall|k: int| 0 <= k < decimal(n).len() implies is_digit(#[trigger] decimal(n)[k]) by {
            if k < decimal(n).len() - 1 {
                assert(decimal(n)[k] == decimal(n / 10)[k]);
            }
        }
    } else {
        assert(decimal(n).drop_last() =~= Seq::<char>::empty());
        assert(digits_value(Seq::<char>::empty()) == 0);
        assert(decimal(n).last() == digit(n % 10));
    }
}

proof fn lemma_padded_digits(f: nat, p: nat)
    ensures
        padded(f, p).len() == p,
        forall|k: int| 0 <= k < padded(f, p).len() ==> is_digit(#[trigger] padded(f, p)[k]),
        digits_value(padded(f, p)) == f % pow10(p),
    decreases p,
{
    if p > 0 {
        let q = (p - 1) as nat;
        lemma_padded_digits(f / 10, q);
        assert(padded(f, p).drop_last() =~= padded(f / 10, q));
        lemma_pow10_positive(q);
        let m = pow10(q) as int;
        let a = (f / 10) as int / m;
        let b = (f / 10) as int % m;
        assert((f / 10) as int == a * m + b) by (nonlinear_arith)
            requires
                a == (f / 10) as int / m,
                b == (f / 10) as int % m,
                m >= 1,
        ;
        assert(f as int == a * (10 * m) + (b * 10 + f % 10)) by (nonlinear_arith)
            requires
                (f / 10) as int == a * m + b,
        ;
        assert(0 <= b * 10 + f % 10 < 10 * m) by (nonlinear_arith)
            requires
                0 <= b < m,
        ;
        lemma_fundamental_div_mod_converse(f as int, 10 * m, a, b * 10 + f % 10);
    }
}

/// The digit run from `a` is exactly `t`.
proof fn lemma_digits_end(s: Seq<char>, a: int, t: Seq<char>)
    requires
        text_at(s, a, t),
        forall|k: int| 0 <= k < t.len() ==> is_digit(#[trigger] t[k]),
        a + t.len() < s.len() ==> !is_digit(s[a + t.len()]),
    ensures
        digits_end(s, a) == a + t.len(),
    decreases t.len(),
{
    if t.len() > 0 {
        lemma_text_at_char(s, a, t, 0);
        assert(t == seq![t[0]] + t.drop_first());
        lemma_text_at_split(s, a, seq![t[0]], t.drop_first());
        lemma_digits_end(s, a + 1, t.drop_first());
    }
}

proof fn lemma_number_at(s: Seq<char>, i: int, x: int, p: nat)
    requires
        text_at(s, i, fixed_text(x, p)),
        i + fixed_text(x, p).len() < s.len(),
        !is_digit(s[i + fixed_text(x, p).len()]),
        s[i + fixed_text(x, p).len()] != '.',
    ensures
        number_at(s, i, p) == Some((x, i + fixed_text(x, p).len())),
{
    let m = abs(x);
    lemma_pow10_positive(p);
    let w = decimal(m / pow10(p));
    let f = padded(m % pow10(p), p);
    lemma_decimal_digits(m / pow10(p));
    lemma_padded_digits(m % pow10(p), p);
    let tail = if p == 0 {
        Seq::<char>::empty()
    } else {
        seq!['.'] + f
    };
    let body = w + tail;
    let a = if x < 0 {
        i + 1
    } else {
        i
    };
    if x < 0 {
        assert(fixed_text(x, p) == seq!['-'] + body);
        lemma_text_at_split(s, i, seq!['-'], body);
        lemma_text_at_char(s, i, seq!['-'], 0);
    } else {
        assert(fixed_text(x, p) == body);
        lemma_text_at_char(s, i, body, 0);
        assert(body[0] == w[0]);
    }
    assert(text_at(s, a, body));
    lemma_text_at_split(s, a, w, tail);
    let b = a + w.len();
    if p == 0 {
        assert(body =~= w);
        lemma_digits_end(s, a, w);
        assert(s.subrange(a, b) == w);
        assert(pow10(p) == 1);
        lemma_fundamental_div_mod_converse(m as int, 1, m as int, 0);
        assert(m / pow10(p) == m);
        assert(digits_end(s, a) == b);
        assert(digits_value(s.subrange(a, b)) == m);
    } else {
        lemma_text_at_char(s, b, tail, 0);
        assert(!is_digit(s[b]));
        lemma_digits_end(s, a, w);
        assert(s.subrange(a, b) == w);
        lemma_text_at_split(s, b, seq!['.'], f);
        lemma_digits_end(s, b + 1, f);
        assert(s.subrange(b + 1, b + 1 + p) == f);
        assert(digits_value(f) == (m % pow10(p)) % pow10(p));
        assert((m % pow10(p)) % pow10(p) == m % pow10(p)) by {
            lemma_fundamental_div_mod_converse((m % pow10(p)) as int, pow10(p) as int, 0, (m % pow10(p)) as int);
        }
        assert(m == (m / pow10(p)) * pow10(p) + m % pow10(p)) by {
            assert(m as int == (m / pow10(p)) as int * pow10(p) as int + (m % pow10(p)) as int)
                by (nonlinear_arith)
                requires
                    pow10(p) >= 1,
            ;
        }
        assert(pow10((p - p) as nat) == 1);
        assert(s[b] == '.');
        assert(digits_end(s, a) == b);
        assert(digits_end(s, b + 1) == b + 1 + p);
        assert(digits_value(s.subrange(a, b)) == m / pow10(p));
        assert(digits_value(s.subrange(b + 1, b + 1 + p)) == m % pow10(p));
    }
    if x < 0 {
        assert(s[i] == '-');
    } else {
        assert(is_digit(s[i]));
    }
}

proof fn lemma_value_at(s: Seq<char>, i: int, v: Option<int>, p: nat, nullable: bool)
    requires
        text_at(s, i, value_text(v, p)),
        i + value_text(v, p).len() < s.len(),
        !is_digit(s[i + value_text(v, p).len()]),
        s[i + value_text(v, p).len()] != '.',
        v is None ==> nullable,
    ensures
        value_at(s, i, p, nullable) == Some((v, i + value_text(v, p).len())),
        value_text(v, p).len() >= 1,
        !is_ws(s[i]),
{
    reveal_strlit("null");
    match v {
        None => {
            lemma_text_at_char(s, i, "null"@, 0);
        },
        Some(x) => {
            let m = abs(x);
            lemma_pow10_positive(p);
            lemma_decimal_digits(m / pow10(p));
            lemma_text_at_char(s, i, fixed_text(x, p), 0);
            if x >= 0 {
                assert(fixed_text(x, p)[0] == decimal(m / pow10(p))[0]);
            }
            if nullable && text_at(s, i, "null"@) {
                lemma_text_at_char(s, i, "null"@, 0);
            }
            lemma_number_at(s, i, x, p);
        },
    }
}

pub open spec fn nulls_allowed(vals: Seq<Option<int>>) -> bool {
    forall|k: int| 0 <= k < vals.len() && #[trigger] vals[k] is None ==> field_nullable(k)
}

#[verifier::rlimit(80)]
proof fn lemma_fields_at(s: Seq<char>, i: int, vals: Seq<Option<int>>, k: int)
    requires
        vals.len() == 19,
        nulls_allowed(vals),
        0 <= k <= 19,
        text_at(s, i, fields_text(vals, k)),
    ensures
        fields_at(s, i, k) == Some((vals.skip(k), i + fields_text(vals, k).len())),
        !is_ws(s[i]),
        !is_digit(s[i]),
        s[i] != '.',
    decreases 19 - k,
{
    reveal_strlit("speed");
    if k >= 19 {
        lemma_text_at_char(s, i, seq!['}'], 0);
        assert(vals.skip(19) =~= Seq::<Option<int>>::empty());
    } else {
        let sep = if k == 0 {
            Seq::<char>::empty()
        } else {
            seq![',']
        };
        let key = seq!['"'] + field_name(k) + seq!['"'];
        let vt = value_text(vals[k], field_places(k));
        let rest = fields_text(vals, k + 1);
        assert(fields_text(vals, k) =~= sep + key + seq![':'] + vt + rest);
        lemma_text_at_split(s, i, sep + key + seq![':'] + vt, rest);
        lemma_text_at_split(s, i, sep + key + seq![':'], vt);
        lemma_text_at_split(s, i, sep + key, seq![':']);
        lemma_text_at_split(s, i, sep, key);
        let j1 = i + sep.len();
        let j2 = j1 + key.len();
        let j3 = j2 + 1;
        let j4 = j3 + vt.len();
        lemma_fields_at(s, j4, vals, k + 1);
        lemma_text_at_char(s, j1, key, 0);
        lemma_text_at_char(s, j2, seq![':'], 0);
        lemma_value_at(s, j3, vals[k], field_places(k), field_nullable(k));
        if k == 0 {
            lemma_skip_none(s, i);
        } else {
            lemma_text_at_char(s, i, sep, 0);
            lemma_skip_none(s, i);
            lemma_skip_none(s, i + 1);
        }
        lemma_skip_none(s, j2);
        lemma_skip_none(s, j3);
        assert(seq![vals[k]] + vals.skip(k + 1) =~= vals.skip(k));
    }
}

/// Reading back the text of a record gives the same record.
pub proof fn lemma_record_round_trip(d: TelemetryData)
    ensures
        parse_record(record_text(d)) == Some(d),
{
    let s = record_text(d);
    assert(text_at(s, 0, s)) by {
        assert(s.subrange(0, s.len() as int) =~= s);
    }
    lemma_record_at(s, 0, d);
}

// Writing.
fn field_key(k: usize) -> (r: &'static str)
    requires
        k < 19,
    ensures
        r@ == field_name(k as int),
{
    match k {
        0 => "speed",
        1 => "rpm",
        2 => "engine_temp",
        3 => "fuel_level",
        4 => "battery_voltage",
        5 => "oil_pressure",
        6 => "throttle_position",
        7 => "brake_pressure",
        8 => "gear",
        9 => "timestamp",
        10 => "latitude",
        11 => "longitude",
        12 => "altitude",
        13 => "acceleration",
        14 => "brake_temperature",
        15 => "tire_pressure_fl",
        16 => "tire_pressure_fr",
        17 => "tire_pressure_rl",
        _ => "tire_pressure_rr",
    }
}

fn places_of(k: usize) -> (r: u32)
    ensures
        r == field_places(k as int),
{
    if k == 8 || k == 9 {
        0
    } else if k == 10 || k == 11 {
        6
    } else {
        2
    }
}

fn pow10_exec(p: u32) -> (r: u64)
    requires
        p <= 6,
    ensures
        r == pow10(p as nat),
        1 <= r <= 1000000,
{
    proof {
        reveal_with_fuel(pow10, 7);
    }
    match p {
        0 => 1,
        1 => 10,
        2 => 100,
        3 => 1000,
        4 => 10000,
        5 => 100000,
        _ => 1000000,
    }
}

fn padded_string(f: u64, p: u32) -> (r: String)
    ensures
        r@ == padded(f as nat, p as nat),
    decreases p,
{
    if p == 0 {
        String::new()
    } else {
        let front = padded_string(f / 10, p - 1);
        let last = decimal_string(f % 10);
        assert(decimal((f % 10) as nat) == seq![digit((f % 10) as nat)]);
        let r = front.concat(last.as_str());
        assert(r@ =~= padded(f as nat, p as nat));
        r
    }
}

fn fixed_string(x: i128, p: u32) -> (r: String)
    requires
        -0xffff_ffff_ffff_ffff <= x <= 0xffff_ffff_ffff_ffff,
        p <= 6,
    ensures
        r@ == fixed_text(x as int, p as nat),
{
    let m: u64 = if x < 0 {
        (-x) as u64
    } else {
        x as u64
    };
    let scale = pow10_exec(p);
    let mut out = String::new();
    if x < 0 {
        out.append("-");
    }
    let whole = decimal_string(m / scale);
    out.append(whole.as_str());
    if p > 0 {
        out.append(".");
        let frac = padded_string(m % scale, p);
        out.append(frac.as_str());
    }
    proof {
        reveal_strlit("-");
        reveal_strlit(".");
    }
    assert(out@ =~= fixed_text(x as int, p as nat));
    out
}

fn field_value(d: &TelemetryData, k: usize) -> (r: Option<i128>)
    requires
        k < 19,
    ensures
        match r {
            Some(x) => record_values(*d)[k as int] == Some(x as int),
            None => record_values(*d)[k as int] is None,
        },
{
    match k {
        0 => Some(d.speed as i128),
        1 => Some(d.rpm as i128),
        2 => Some(d.engine_temp as i128),
        3 => Some(d.fuel_level as i128),
        4 => Some(d.battery_voltage as i128),
        5 => Some(d.oil_pressure as i128),
        6 => Some(d.throttle_position as i128),
        7 => Some(d.brake_pressure as i128),
        8 => Some(d.gear as i128),
        9 => Some(d.timestamp as i128),
        10 => match d.latitude {
            Some(v) => Some(v as i128),
            None => None,
        },
        11 => match d.longitude {
            Some(v) => Some(v as i128),
            None => None,
        },
        12 => match d.altitude {
            Some(v) => Some(v as i128),
            None => None,
        },
        13 => Some(d.acceleration as i128),
        14 => Some(d.brake_temperature as i128),
        15 => Some(d.tire_pressure_fl as i128),
        16 => Some(d.tire_pressure_fr as i128),
        17 => Some(d.tire_pressure_rl as i128),
        _ => Some(d.tire_pressure_rr as i128),
    }
}

/// The main file's text for a record.
pub fn record_json(d: &TelemetryData) -> (r: String)
    ensures
        r@ == record_text(*d),
{
    let ghost vals = record_values(*d);
    let mut out = String::from_str("{");
    proof {
        reveal_strlit("{");
    }
    let mut k: usize = 0;
    while k < 19
        invariant
            k <= 19,
            vals == record_values(*d),
            out@ + fields_text(vals, k as int) == record_text(*d),
        decreases 19 - k,
    {
        let ghost before = out@;
        if k > 0 {
            out.append(",");
        }
        out.append("\"");
        out.append(field_key(k));
        out.append("\":");
        match field_value(d, k) {
            Some(x) => {
                let t = fixed_string(x, places_of(k));
                out.append(t.as_str());
            },
            None => {
                out.append("null");
            },
        }
        proof {
            reveal_strlit(",");
            reveal_strlit("\"");
            reveal_strlit("\":");
            reveal_strlit("null");
            let sep = if k == 0 {
                Seq::<char>::empty()
            } else {
                seq![',']
            };
            assert(out@ =~= before + (sep + seq!['"'] + field_name(k as int) + seq!['"', ':']
                + value_text(vals[k as int], field_places(k as int))));
            assert(before + fields_text(vals, k as int) =~= out@ + fields_text(vals, k + 1));
        }
        k = k + 1;
    }
    out.append("}");
    proof {
        reveal_strlit("}");
    }
    assert(out@ =~= record_text(*d));
    out
}

// Reading, as code.
proof fn lemma_digits_value_step(t: Seq<char>, k: int)
    requires
        0 <= k < t.len(),
    ensures
        digits_value(t.take(k + 1)) == digits_value(t.take(k)) * 10 + ((t[k] as int - '0' as int) as nat),
{
    assert(t.take(k + 1).drop_last() =~= t.take(k));
}

proof fn lemma_digits_value_prefix(t: Seq<char>, k: int)
    requires
        0 <= k <= t.len(),
    ensures
        digits_value(t.take(k)) <= digits_value(t),
    decreases t.len() - k,
{
    if k < t.len() {
        lemma_digits_value_prefix(t, k + 1);
        lemma_digits_value_step(t, k);
    } else {
        assert(t.take(k) =~= t);
    }
}

proof fn lemma_digits_value_bound(t: Seq<char>)
    requires
        forall|k: int| 0 <= k < t.len() ==> is_digit(#[trigger] t[k]),
    ensures
        digits_value(t) < pow10(t.len()),
    decreases t.len(),
{
    if t.len() > 0 {
        let u = t.drop_last();
        assert forall|k: int| 0 <= k < u.len() implies is_digit(#[trigger] u[k]) by {
            assert(u[k] == t[k]);
        }
        lemma_digits_value_bound(u);
        assert(is_digit(t[t.len() - 1]));
        assert(pow10(t.len()) == 10 * pow10(u.len()));
    }
}

fn skip_ws_at(s: &str, n: usize, i: usize) -> (r: usize)
    requires
        n == s@.len(),
        i <= n,
    ensures
        r == skip_ws(s@, i as int),
        i <= r <= n,
{
    let mut j = i;
    while j < n
        invariant
            n == s@.len(),
            i <= j <= n,
            skip_ws(s@, i as int) == skip_ws(s@, j as int),
        decreases n - j,
    {
        let c = s.get_char(j);
        if !(c == ' ' || c == '\n' || c == '\t' || c == '\r') {
            return j;
        }
        j = j + 1;
    }
    j
}

fn digits_end_at(s: &str, n: usize, i: usize) -> (r: usize)
    requires
        n == s@.len(),
        i <= n,
    ensures
        r == digits_end(s@, i as int),
        i <= r <= n,
        forall|k: int| i <= k < r ==> is_digit(#[trigger] s@[k]),
{
    let mut j = i;
    while j < n
        invariant
            n == s@.len(),
            i <= j <= n,
            digits_end(s@, i as int) == digits_end(s@, j as int),
            forall|k: int| i <= k < j ==> is_digit(#[trigger] s@[k]),
        decreases n - j,
    {
        let c = s.get_char(j);
        if !('0' <= c && c <= '9') {
            return j;
        }
        j = j + 1;
    }
    j
}

/// The value of the digits in `[a, b)`, or `None` when it exceeds `u64::MAX`.
fn digits_at(s: &str, a: usize, b: usize) -> (r: Option<u64>)
    requires
        a <= b <= s@.len(),
        forall|k: int| a <= k < b ==> is_digit(#[trigger] s@[k]),
    ensures
        match r {
            Some(v) => v == digits_value(s@.subrange(a as int, b as int)),
            None => digits_value(s@.subrange(a as int, b as int)) > u64::MAX,
        },
{
    let ghost t = s@.subrange(a as int, b as int);
    let mut acc: u64 = 0;
    let mut k: usize = a;
    assert(t.take(0) =~= Seq::<char>::empty());
    while k < b
        invariant
            a <= k <= b <= s@.len(),
            t == s@.subrange(a as int, b as int),
            forall|j: int| a <= j < b ==> is_digit(#[trigger] s@[j]),
            acc == digits_value(t.take(k - a)),
        decreases b - k,
    {
        let c = s.get_char(k);
        assert(t[k - a] == c);
        proof {
            lemma_digits_value_step(t, k - a);
        }
        let d = (c as u32 - '0' as u32) as u64;
        if acc > (0xffff_ffff_ffff_ffffu64 - d) / 10 {
            proof {
                lemma_digits_value_prefix(t, k - a + 1);
            }
            return None;
        }
        acc = acc * 10 + d;
        k = k + 1;
    }
    assert(t.take(b - a) =~= t);
    Some(acc)
}

fn text_matches(s: &str, n: usize, i: usize, t: &str) -> (r: bool)
    requires
        n == s@.len(),
        i <= n,
    ensures
        r == text_at(s@, i as int, t@),
{
    let m = t.unicode_len();
    if m > n - i {
        return false;
    }
    let mut k: usize = 0;
    while k < m
        invariant
            n == s@.len(),
            m == t@.len(),
            i + m <= n,
            k <= m,
            forall|j: int| 0 <= j < k ==> s@[i + j] == t@[j],
        decreases m - k,
    {
        if s.get_char(i + k) != t.get_char(k) {
            assert(s@.subrange(i as int, i + m)[k as int] == s@[i + k]);
            return false;
        }
        k = k + 1;
    }
    assert(s@.subrange(i as int, i + m) =~= t@);
    true
}

/// A field's value as read: absent, a number that fits in an `i128`, or a
/// number too large for any channel.
enum FieldValue {
    Null,
    Num(i128),
    Huge,
}

spec fn read_as(f: FieldValue, v: Option<int>) -> bool {
    match f {
        FieldValue::Null => v is None,
        FieldValue::Num(x) => v == Some(x as int),
        FieldValue::Huge => v matches Some(y) && abs(y) > u64::MAX,
    }
}

fn number_read(s: &str, n: usize, i: usize, p: u32) -> (r: Option<(FieldValue, usize)>)
    requires
        n == s@.len(),
        i <= n,
        p <= 6,
    ensures
        match r {
            None => number_at(s@, i as int, p as nat) is None,
            Some((f, j)) => number_at(s@, i as int, p as nat) matches Some((v, j2)) && j2 == j
                && read_as(f, Some(v)) && !(f is Null) && i < j <= n,
        },
{
    let neg = i < n && s.get_char(i) == '-';
    let a = if neg {
        i + 1
    } else {
        i
    };
    let b = digits_end_at(s, n, a);
    if b == a {
        return None;
    }
    let scale = pow10_exec(p);
    let whole = digits_at(s, a, b);
    proof {
        lemma_pow10_positive(p as nat);
    }
    if b < n && s.get_char(b) == '.' {
        let d = digits_end_at(s, n, b + 1);
        if d == b + 1 || d - (b + 1) > p as usize {
            return None;
        }
        let q = (d - (b + 1)) as u32;
        proof {
            let ft = s@.subrange(b + 1, d as int);
            assert forall|k: int| 0 <= k < ft.len() implies is_digit(#[trigger] ft[k]) by {
                assert(ft[k] == s@[b + 1 + k]);
            }
            lemma_digits_value_bound(ft);
            assert(pow10(ft.len()) == pow10(q as nat));
            assert(pow10(q as nat) <= 1000000) by {
                reveal_with_fuel(pow10, 7);
            }
        }
        let frac = match digits_at(s, b + 1, d) {
            Some(v) => v,
            None => {
                return None;
            },
        };
        let fscale = pow10_exec(p - q);
        match whole {
            None => {
                proof {
                    let w = digits_value(s@.subrange(a as int, b as int));
                    let f = digits_value(s@.subrange(b + 1, d as int));
                    assert(w * pow10(p as nat) + f * pow10((p - q) as nat) >= w) by (nonlinear_arith)
                        requires
                            pow10(p as nat) >= 1,
                    ;
                }
                Some((FieldValue::Huge, d))
            },
            Some(w) => {
                assert(w as int * scale as int <= 0xffff_ffff_ffff_ffff * 1000000) by (nonlinear_arith)
                    requires
                        w <= 0xffff_ffff_ffff_ffff,
                        scale <= 1000000,
                ;
                assert(frac as int * fscale as int <= 1000000 * 1000000) by (nonlinear_arith)
                    requires
                        frac <= 1000000,
                        fscale <= 1000000,
                ;
                let m = (w as i128) * (scale as i128) + (frac as i128) * (fscale as i128);
                let v = if neg {
                    -m
                } else {
                    m
                };
                Some((FieldValue::Num(v), d))
            },
        }
    } else {
        match whole {
            None => {
                proof {
                    let w = digits_value(s@.subrange(a as int, b as int));
                    assert(w * pow10(p as nat) >= w) by (nonlinear_arith)
                        requires
                            pow10(p as nat) >= 1,
                    ;
                }
                Some((FieldValue::Huge, b))
            },
            Some(w) => {
                assert(w as int * scale as int <= 0xffff_ffff_ffff_ffff * 1000000) by (nonlinear_arith)
                    requires
                        w <= 0xffff_ffff_ffff_ffff,
                        scale <= 1000000,
                ;
                let m = (w as i128) * (scale as i128);
                let v = if neg {
                    -m
                } else {
                    m
                };
                Some((FieldValue::Num(v), b))
            },
        }
    }
}

fn value_read(s: &str, n: usize, i: usize, k: usize) -> (r: Option<(FieldValue, usize)>)
    requires
        n == s@.len(),
        i <= n,
        k < 19,
    ensures
        match r {
            None => value_at(s@, i as int, field_places(k as int), field_nullable(k as int)) is None,
            Some((f, j)) => value_at(s@, i as int, field_places(k as int), field_nullable(k as int))
                matches Some((v, j2)) && j2 == j && read_as(f, v) && i < j <= n,
        },
{
    if 10 <= k && k <= 12 && text_matches(s, n, i, "null") {
        proof {
            reveal_strlit("null");
        }
        return Some((FieldValue::Null, i + 4));
    }
    number_read(s, n, i, places_of(k))
}

fn key_read(s: &str, n: usize, i: usize, k: usize) -> (r: bool)
    requires
        n == s@.len(),
        i <= n,
        k < 19,
    ensures
        r == text_at(s@, i as int, seq!['"'] + field_name(k as int) + seq!['"']),
{
    let key = String::from_str("\"").concat(field_key(k)).concat("\"");
    proof {
        reveal_strlit("\"");
    }
    assert(key@ =~= seq!['"'] + field_name(k as int) + seq!['"']);
    text_matches(s, n, i, key.as_str())
}

proof fn lemma_key_len(k: int)
    requires
        0 <= k < 19,
    ensures
        field_name(k).len() <= 17,
{
    reveal_strlit("speed");
    reveal_strlit("rpm");
    reveal_strlit("engine_temp");
    reveal_strlit("fuel_level");
    reveal_strlit("battery_voltage");
    reveal_strlit("oil_pressure");
    reveal_strlit("throttle_position");
    reveal_strlit("brake_pressure");
    reveal_strlit("gear");
    reveal_strlit("timestamp");
    reveal_strlit("latitude");
    reveal_strlit("longitude");
    reveal_strlit("altitude");
    reveal_strlit("acceleration");
    reveal_strlit("brake_temperature");
    reveal_strlit("tire_pressure_fl");
    reveal_strlit("tire_pressure_fr");
    reveal_strlit("tire_pressure_rl");
    reveal_strlit("tire_pressure_rr");
}

fn fits_i64_exec(f: &FieldValue) -> (r: Option<i64>)
    ensures
        forall|v: Option<int>| #[trigger] read_as(*f, v) ==> match r {
            Some(x) => fits_i64(v) && as_i64(v) == x,
            None => !fits_i64(v),
        },
{
    match f {
        FieldValue::Num(x) => if i64::MIN as i128 <= *x && *x <= i64::MAX as i128 {
            Some(*x as i64)
        } else {
            None
        },
        _ => None,
    }
}

fn fits_opt_exec(f: &FieldValue) -> (r: Option<Option<i64>>)
    ensures
        forall|v: Option<int>| #[trigger] read_as(*f, v) ==> match r {
            Some(x) => fits_opt_i64(v) && as_opt_i64(v) == x,
            None => !fits_opt_i64(v),
        },
{
    match f {
        FieldValue::Null => Some(None),
        FieldValue::Num(x) => if i64::MIN as i128 <= *x && *x <= i64::MAX as i128 {
            Some(Some(*x as i64))
        } else {
            None
        },
        FieldValue::Huge => None,
    }
}

fn record_read(s: &str, n: usize, from: usize) -> (r: Option<(TelemetryData, usize)>)
    requires
        n == s@.len(),
        from <= n,
    ensures
        match r {
            Some((d, e)) => record_at(s@, from as int) == Some((d, e as int)) && from < e <= n,
            None => record_at(s@, from as int) is None,
        },
{
    let j = skip_ws_at(s, n, from);
    if !(j < n && s.get_char(j) == '{') {
        return None;
    }
    let ghost start = (j + 1) as int;
    let mut i: usize = j + 1;
    let mut k: usize = 0;
    let mut got: Vec<FieldValue> = Vec::new();
    let ghost mut vs: Seq<Option<int>> = Seq::empty();
    while k < 19
        invariant
            n == s@.len(),
            from <= j,
            from < i,
            j == skip_ws(s@, from as int),
            j < n && s@[j as int] == '{',
            start == j + 1,
            i <= n,
            k <= 19,
            got@.len() == k,
            vs.len() == k,
            forall|t: int| 0 <= t < k ==> read_as(#[trigger] got@[t], vs[t]),
            fields_at(s@, start, 0) == match fields_at(s@, i as int, k as int) {
                Some((rest, end)) => Some((vs + rest, end)),
                None => None::<(Seq<Option<int>>, int)>,
            },
        decreases 19 - k,
    {
        let j0 = skip_ws_at(s, n, i);
        let j1 = if k == 0 {
            j0
        } else {
            if !(j0 < n && s.get_char(j0) == ',') {
                assert(fields_at(s@, i as int, k as int) is None);
                return None;
            }
            skip_ws_at(s, n, j0 + 1)
        };
        if !key_read(s, n, j1, k) {
            assert(fields_at(s@, i as int, k as int) is None);
            return None;
        }
        proof {
            lemma_key_len(k as int);
        }
        let klen = field_key(k).unicode_len() + 2;
        let j2 = skip_ws_at(s, n, j1 + klen);
        assert((seq!['"'] + field_name(k as int) + seq!['"']).len() == klen);
        if !(j2 < n && s.get_char(j2) == ':') {
            assert(fields_at(s@, i as int, k as int) is None);
            return None;
        }
        let j3 = skip_ws_at(s, n, j2 + 1);
        let (f, j4) = match value_read(s, n, j3, k) {
            Some(x) => x,
            None => {
                assert(fields_at(s@, i as int, k as int) is None);
                return None;
            },
        };
        let ghost v = match value_at(s@, j3 as int, field_places(k as int), field_nullable(k as int)) {
            Some((v, _)) => v,
            None => None,
        };
        proof {
            assert(vs + seq![v] + match fields_at(s@, j4 as int, k + 1) {
                Some((rest, end)) => rest,
                None => Seq::empty(),
            } =~= vs + (seq![v] + match fields_at(s@, j4 as int, k + 1) {
                Some((rest, end)) => rest,
                None => Seq::empty(),
            }));
            vs = vs.push(v);
        }
        got.push(f);
        i = j4;
        k = k + 1;
    }
    let jc = skip_ws_at(s, n, i);
    if !(jc < n && s.get_char(jc) == '}') {
        return None;
    }
    let end = jc + 1;
    assert(vs + Seq::<Option<int>>::empty() =~= vs);
    let speed = fits_i64_exec(&got[0]);
    let rpm = fits_i64_exec(&got[1]);
    let engine_temp = fits_i64_exec(&got[2]);
    let fuel_level = fits_i64_exec(&got[3]);
    let battery_voltage = fits_i64_exec(&got[4]);
    let oil_pressure = fits_i64_exec(&got[5]);
    let throttle_position = fits_i64_exec(&got[6]);
    let brake_pressure = fits_i64_exec(&got[7]);
    let latitude = fits_opt_exec(&got[10]);
    let longitude = fits_opt_exec(&got[11]);
    let altitude = fits_opt_exec(&got[12]);
    let acceleration = fits_i64_exec(&got[13]);
    let brake_temperature = fits_i64_exec(&got[14]);
    let tire_pressure_fl = fits_i64_exec(&got[15]);
    let tire_pressure_fr = fits_i64_exec(&got[16]);
    let tire_pressure_rl = fits_i64_exec(&got[17]);
    let tire_pressure_rr = fits_i64_exec(&got[18]);
    proof {
        assert(read_as(got@[0], vs[0]));
        assert(read_as(got@[1], vs[1]));
        assert(read_as(got@[2], vs[2]));
        assert(read_as(got@[3], vs[3]));
        assert(read_as(got@[4], vs[4]));
        assert(read_as(got@[5], vs[5]));
        assert(read_as(got@[6], vs[6]));
        assert(read_as(got@[7], vs[7]));
        assert(read_as(got@[8], vs[8]));
        assert(read_as(got@[9], vs[9]));
        assert(read_as(got@[10], vs[10]));
        assert(read_as(got@[11], vs[11]));
        assert(read_as(got@[12], vs[12]));
        assert(read_as(got@[13], vs[13]));
        assert(read_as(got@[14], vs[14]));
        assert(read_as(got@[15], vs[15]));
        assert(read_as(got@[16], vs[16]));
        assert(read_as(got@[17], vs[17]));
        assert(read_as(got@[18], vs[18]));
    }
    let gear: i32 = match &got[8] {
        FieldValue::Num(g) => if i32::MIN as i128 <= *g && *g <= i32::MAX as i128 {
            *g as i32
        } else {
            return None;
        },
        _ => {
            return None;
        },
    };
    let timestamp: u64 = match &got[9] {
        FieldValue::Num(t) => if 0 <= *t && *t <= u64::MAX as i128 {
            *t as u64
        } else {
            return None;
        },
        _ => {
            return None;
        },
    };
    match (speed, rpm, engine_temp, fuel_level, battery_voltage, oil_pressure, throttle_position, brake_pressure) {
        (Some(speed), Some(rpm), Some(engine_temp), Some(fuel_level), Some(battery_voltage), Some(oil_pressure), Some(throttle_position), Some(brake_pressure)) => {
            match (latitude, longitude, altitude, acceleration, brake_temperature, tire_pressure_fl, tire_pressure_fr, tire_pressure_rl) {
                (Some(latitude), Some(longitude), Some(altitude), Some(acceleration), Some(brake_temperature), Some(tire_pressure_fl), Some(tire_pressure_fr), Some(tire_pressure_rl)) => {
                    match tire_pressure_rr {
                        Some(tire_pressure_rr) => {
                            let d = TelemetryData {
                                speed, rpm, engine_temp, fuel_level, battery_voltage, oil_pressure,
                                throttle_position, brake_pressure, gear, timestamp, latitude,
                                longitude, altitude, acceleration, brake_temperature,
                                tire_pressure_fl, tire_pressure_fr, tire_pressure_rl,
                                tire_pressure_rr,
                            };
                            assert(values_fit(vs));
                            assert(d == record_of(vs));
                            Some((d, end))
                        },
                        None => None,
                    }
                },
                _ => None,
            }
        },
        _ => None,
    }
}

/// The record that the main file's text holds, if it is well formed.
pub fn parse_record_json(s: &str) -> (r: Option<TelemetryData>)
    ensures
        r == parse_record(s@),
{
    let n = s.unicode_len();
    match record_read(s, n, 0) {
        Some((d, end)) => {
            if skip_ws_at(s, n, end) == n {
                Some(d)
            } else {
                None
            }
        },
        None => None,
    }
}

// Sessions: a JSON array of records.
/// The text after a session's first record: each further record after a
/// ',', then the closing ']'.
pub open spec fn more_records_text(rs: Seq<TelemetryData>, k: int) -> Seq<char>
    decreases rs.len() - k,
{
    if k >= rs.len() {
        seq![']']
    } else {
        seq![','] + record_text(rs[k]) + more_records_text(rs, k + 1)
    }
}

/// The text of a session file.
pub open spec fn session_text(rs: Seq<TelemetryData>) -> Seq<char> {
    if rs.len() == 0 {
        seq!['[', ']']
    } else {
        seq!['['] + record_text(rs[0]) + more_records_text(rs, 1)
    }
}

/// The records after a session's first, from `i` on, and the index after
/// the closing ']'.
pub open spec fn more_records_at(s: Seq<char>, i: int) -> Option<(Seq<TelemetryData>, int)>
    decreases s.len() - i,
{
    let j = skip_ws(s, i);
    if j < s.len() && s[j] == ']' {
        Some((Seq::empty(), j + 1))
    } else if j < s.len() && s[j] == ',' {
        match record_at(s, j + 1) {
            Some((d, e)) => if e <= i || e > s.len() {
                None
            } else {
                match more_records_at(s, e) {
                    Some((rest, end)) => Some((seq![d] + rest, end)),
                    None => None,
                }
            },
            None => None,
        }
    } else {
        None
    }
}

/// The records that a session file's text holds, if it is well formed.
pub open spec fn parse_session(s: Seq<char>) -> Option<Seq<TelemetryData>> {
    let j = skip_ws(s, 0);
    if !(j < s.len() && s[j] == '[') {
        None
    } else {
        let k = skip_ws(s, j + 1);
        let items = if k < s.len() && s[k] == ']' {
            Some((Seq::<TelemetryData>::empty(), k + 1))
        } else {
            match record_at(s, j + 1) {
                Some((d, e)) => match more_records_at(s, e) {
                    Some((rest, end)) => Some((seq![d] + rest, end)),
                    None => None,
                },
                None => None,
            }
        };
        match items {
            Some((rs, end)) => if skip_ws(s, end) == s.len() {
                Some(rs)
            } else {
                None
            },
            None => None,
        }
    }
}

proof fn lemma_record_at(s: Seq<char>, i: int, d: TelemetryData)
    requires
        text_at(s, i, record_text(d)),
    ensures
        record_at(s, i) == Some((d, i + record_text(d).len())),
        !is_ws(s[i]),
        s[i] == '{',
{
    let vals = record_values(d);
    assert(nulls_allowed(vals));
    let body = fields_text(vals, 0);
    assert(record_text(d) == seq!['{'] + body);
    lemma_text_at_split(s, i, seq!['{'], body);
    lemma_text_at_char(s, i, seq!['{'], 0);
    lemma_fields_at(s, i + 1, vals, 0);
    assert(vals.skip(0) =~= vals);
    assert(values_fit(vals));
    assert(record_of(vals) == d);
}

proof fn lemma_more_records_at(s: Seq<char>, i: int, rs: Seq<TelemetryData>, k: int)
    requires
        1 <= k <= rs.len(),
        text_at(s, i, more_records_text(rs, k)),
    ensures
        more_records_at(s, i) == Some((rs.skip(k), i + more_records_text(rs, k).len())),
    decreases rs.len() - k,
{
    if k >= rs.len() {
        lemma_text_at_char(s, i, seq![']'], 0);
        assert(rs.skip(k) =~= Seq::<TelemetryData>::empty());
    } else {
        let rt = record_text(rs[k]);
        let rest = more_records_text(rs, k + 1);
        assert(more_records_text(rs, k) == seq![','] + rt + rest);
        lemma_text_at_split(s, i, seq![','] + rt, rest);
        lemma_text_at_split(s, i, seq![','], rt);
        lemma_text_at_char(s, i, seq![','], 0);
        lemma_record_at(s, i + 1, rs[k]);
        lemma_more_records_at(s, i + 1 + rt.len(), rs, k + 1);
        assert(seq![rs[k]] + rs.skip(k + 1) =~= rs.skip(k));
    }
}

/// Reading back the text of a session gives the same records, in order.
pub proof fn lemma_session_round_trip(rs: Seq<TelemetryData>)
    ensures
        parse_session(session_text(rs)) == Some(rs),
{
    let s = session_text(rs);
    if rs.len() == 0 {
        assert(rs =~= Seq::<TelemetryData>::empty());
    } else {
        let rt = record_text(rs[0]);
        let rest = more_records_text(rs, 1);
        assert(text_at(s, 1, rt + rest)) by {
            assert(s.subrange(1, 1 + (rt + rest).len() as int) =~= rt + rest);
        }
        lemma_text_at_split(s, 1, rt, rest);
        lemma_record_at(s, 1, rs[0]);
        lemma_more_records_at(s, 1 + rt.len() as int, rs, 1);
        assert(seq![rs[0]] + rs.skip(1) =~= rs);
        assert(!is_ws(s[1]));
        assert(s.len() == 1 + rt.len() + rest.len());
    }
}

/// The text of a session file for `records`.
pub fn session_json(records: &[TelemetryData]) -> (r: String)
    ensures
        r@ == session_text(records@),
{
    proof {
        reveal_strlit("[]");
        reveal_strlit("[");
        reveal_strlit(",");
        reveal_strlit("]");
    }
    if records.len() == 0 {
        return String::from_str("[]");
    }
    let first = record_json(&records[0]);
    let mut out = String::from_str("[").concat(first.as_str());
    let mut k: usize = 1;
    while k < records.len()
        invariant
            1 <= k <= records@.len(),
            out@ + more_records_text(records@, k as int) == session_text(records@),
        decreases records.len() - k,
    {
        let ghost before = out@;
        let t = record_json(&records[k]);
        proof {
            reveal_strlit(",");
        }
        out.append(",");
        out.append(t.as_str());
        assert(before + more_records_text(records@, k as int) =~= out@ + more_records_text(
            records@,
            k + 1,
        ));
        k = k + 1;
    }
    out.append("]");
    proof {
        reveal_strlit("]");
    }
    assert(out@ =~= session_text(records@));
    out
}

/// The records that a session file's text holds, if it is well formed.
pub fn parse_session_json(s: &str) -> (r: Option<Vec<TelemetryData>>)
    ensures
        match r {
            Some(v) => parse_session(s@) == Some(v@),
            None => parse_session(s@) is None,
        },
{
    let n = s.unicode_len();
    let j = skip_ws_at(s, n, 0);
    if !(j < n && s.get_char(j) == '[') {
        return None;
    }
    let k = skip_ws_at(s, n, j + 1);
    let mut records: Vec<TelemetryData> = Vec::new();
    let end: usize;
    if k < n && s.get_char(k) == ']' {
        end = k + 1;
    } else {
        let (d, e) = match record_read(s, n, j + 1) {
            Some(x) => x,
            None => {
                return None;
            },
        };
        records.push(d);
        let ghost e0 = e as int;
        let mut i: usize = e;
        let mut done: bool = false;
        let mut fin: usize = 0;
        while !done
            invariant
                n == s@.len(),
                j == skip_ws(s@, 0),
                j < n && s@[j as int] == '[',
                k == skip_ws(s@, j + 1),
                !(k < n && s@[k as int] == ']'),
                record_at(s@, j + 1) == Some((d, e0)),
                i <= n,
                e0 <= i,
                records@.len() >= 1,
                !done ==> more_records_at(s@, e0) == match more_records_at(s@, i as int) {
                    Some((rest, end)) => Some((records@.drop_first() + rest, end)),
                    None => None::<(Seq<TelemetryData>, int)>,
                },
                done ==> more_records_at(s@, e0) == Some((records@.drop_first(), fin as int)),
                records@[0] == d,
                fin <= n,
            decreases n - i + (if done {
                0int
            } else {
                1int
            }),
        {
            let jj = skip_ws_at(s, n, i);
            if jj < n && s.get_char(jj) == ']' {
                assert(records@.drop_first() + Seq::<TelemetryData>::empty() =~= records@.drop_first());
                fin = jj + 1;
                done = true;
            } else if jj < n && s.get_char(jj) == ',' {
                match record_read(s, n, jj + 1) {
                    Some((d2, e2)) => {
                        let ghost old_records = records@;
                        records.push(d2);
                        proof {
                            assert(records@.drop_first() + match more_records_at(s@, e2 as int) {
                                Some((rest, end)) => rest,
                                None => Seq::empty(),
                            } =~= old_records.drop_first() + (seq![d2] + match more_records_at(
                                s@,
                                e2 as int,
                            ) {
                                Some((rest, end)) => rest,
                                None => Seq::empty(),
                            }));
                        }
                        i = e2;
                    },
                    None => {
                        return None;
                    },
                }
            } else {
                return None;
            }
        }
        assert(seq![d] + records@.drop_first() =~= records@);
        end = fin;
    }
    if skip_ws_at(s, n, end) != n {
        return None;
    }
    Some(records)
}

} // verus!
