//! Checks on plugin configuration: required settings and typed values.
use vstd::prelude::*;
use crate::plugin::{PluginConfig, PluginMetadata, PluginSetting, SettingType};

verus! {

/// The error text for a required setting that a configuration lacks.
pub open spec fn missing_text(name: Seq<char>) -> Seq<char> {
    "Required setting '"@ + name + "' is missing"@
}

/// Whether the setting is required and absent from the configuration.
pub open spec fn lacks(s: PluginSetting, config: Map<Seq<char>, Seq<char>>) -> bool {
    s.required && !config.contains_key(s.name@)
}

/// Every required setting of `metadata` is present in `config`; on failure
/// the error names the first required setting that is missing.
pub fn validate_config(metadata: &PluginMetadata, config: &PluginConfig) -> (r: Result<(), String>)
    ensures
        r is Ok <==> forall|i: int|
            0 <= i < metadata.settings@.len() ==> !lacks(#[trigger] metadata.settings@[i], config@),
        r matches Err(m) ==> exists|i: int|
            0 <= i < metadata.settings@.len() && lacks(#[trigger] metadata.settings@[i], config@)
                && m@ == missing_text(metadata.settings@[i].name@) && forall|j: int|
                0 <= j < i ==> !lacks(#[trigger] metadata.settings@[j], config@),
{
    let mut i: usize = 0;
    while i < metadata.settings.len()
        invariant
            i <= metadata.settings@.len(),
            forall|j: int| 0 <= j < i ==> !lacks(#[trigger] metadata.settings@[j], config@),
        decreases metadata.settings.len() - i,
    {
        let setting = &metadata.settings[i];
        if setting.required {
            if !config.contains_key(setting.name.as_str()) {
                let m = String::from_str("Required setting '").concat(setting.name.as_str()).concat(
                    "' is missing",
                );
                return Err(m);
            }
        }
        i = i + 1;
    }
    Ok(())
}

/// A setting's value, parsed by its declared kind.
#[derive(Debug, PartialEq, Eq)]
pub enum SettingValue {
    Text(String),
    Integer(i32),
    /// The text of a well-formed floating-point number.
    Float(String),
    Boolean(bool),
    /// A colour as `#RRGGBB`.
    Color(String),
    /// The path of a file that existed when the value was parsed.
    File(String),
}

pub open spec fn is_digit(c: char) -> bool {
    '0' <= c && c <= '9'
}

pub open spec fn all_digits(s: Seq<char>) -> bool {
    s.len() > 0 && forall|i: int| 0 <= i < s.len() ==> is_digit(#[trigger] s[i])
}

/// The value of a string of decimal digits.
pub open spec fn digits_value(s: Seq<char>) -> int
    decreases s.len(),
{
    if s.len() == 0 {
        0
    } else {
        digits_value(s.drop_last()) * 10 + (s.last() as int - '0' as int)
    }
}

/// The integer that `s` writes: an optional sign, then one or more decimal
/// digits, nothing else.
pub open spec fn integer_value(s: Seq<char>) -> Option<int> {
    if s.len() > 0 && s[0] == '-' && all_digits(s.drop_first()) {
        Some(-digits_value(s.drop_first()))
    } else if s.len() > 0 && s[0] == '+' && all_digits(s.drop_first()) {
        Some(digits_value(s.drop_first()))
    } else if all_digits(s) {
        Some(digits_value(s))
    } else {
        None
    }
}

pub open spec fn i32_value(s: Seq<char>) -> Option<i32> {
    match integer_value(s) {
        Some(v) => if i32::MIN <= v <= i32::MAX {
            Some(v as i32)
        } else {
            None
        },
        None => None,
    }
}

/// Relies on `str::parse::<i32>` (i32's `FromStr`): an optional `+` or `-`
/// and one or more ASCII digits, in range, give the number; anything else
/// gives an error, whose text is handed back.
#[verifier::external_body]
fn parse_i32(s: &str) -> (r: Result<i32, String>)
    ensures
        r matches Ok(v) ==> i32_value(s@) == Some(v),
        r is Err ==> i32_value(s@) is None,
{
    s.parse::<i32>().map_err(|e| e.to_string())
}

/// Relies on `str::parse::<bool>` (bool's `FromStr`): exactly "true" or
/// "false"; anything else gives an error, whose text is handed back.
#[verifier::external_body]
fn parse_bool(s: &str) -> (r: Result<bool, String>)
    ensures
        r matches Ok(b) ==> (b && s@ == "true"@) || (!b && s@ == "false"@),
        r is Err ==> s@ != "true"@ && s@ != "false"@,
{
    s.parse::<bool>().map_err(|e| e.to_string())
}


pub open spec fn is_sign(c: char) -> bool {
    c == '+' || c == '-'
}

pub open spec fn is_exp_mark(c: char) -> bool {
    c == 'e' || c == 'E'
}

/// `s` spells a word given in lower and in upper case, letter by letter in
/// either case.
pub open spec fn same_word(s: Seq<char>, lower: Seq<char>, upper: Seq<char>) -> bool {
    s.len() == lower.len() && forall|i: int|
        0 <= i < s.len() ==> #[trigger] s[i] == lower[i] || s[i] == upper[i]
}

/// Digits with at most one '.', and at least one digit.
pub open spec fn mantissa_ok(m: Seq<char>) -> bool {
    &&& exists|i: int| 0 <= i < m.len() && is_digit(#[trigger] m[i])
    &&& forall|i: int| 0 <= i < m.len() ==> is_digit(#[trigger] m[i]) || m[i] == '.'
    &&& forall|i: int, j: int| 0 <= i < j < m.len() && #[trigger] m[i] == '.' ==> #[trigger] m[j] != '.'
}

/// What follows the exponent mark: an optional sign and one or more digits.
pub open spec fn exponent_ok(x: Seq<char>) -> bool {
    all_digits(x) || (x.len() > 0 && is_sign(x[0]) && all_digits(x.drop_first()))
}

pub open spec fn number_ok(s: Seq<char>) -> bool {
    mantissa_ok(s) || exists|k: int|
        0 <= k < s.len() && is_exp_mark(#[trigger] s[k]) && mantissa_ok(s.take(k)) && exponent_ok(
            s.skip(k + 1),
        )
}

/// The syntax that std's `FromStr` for floating-point numbers accepts: an
/// optional sign, then "inf", "infinity" or "nan" in any case, or a decimal
/// number with an optional exponent.
pub open spec fn float_syntax(s: Seq<char>) -> bool {
    let body = if s.len() > 0 && is_sign(s[0]) {
        s.drop_first()
    } else {
        s
    };
    same_word(body, "inf"@, "INF"@) || same_word(body, "infinity"@, "INFINITY"@) || same_word(
        body,
        "nan"@,
        "NAN"@,
    ) || number_ok(body)
}

fn digit_char(c: char) -> (r: bool)
    ensures
        r == is_digit(c),
{
    '0' <= c && c <= '9'
}

fn matches_word(s: &str, from: usize, lower: &str, upper: &str) -> (r: bool)
    requires
        from <= s@.len(),
        lower@.len() == upper@.len(),
    ensures
        r == same_word(s@.skip(from as int), lower@, upper@),
{
    let n = s.unicode_len();
    let w = lower.unicode_len();
    if n - from != w {
        return false;
    }
    let mut i: usize = 0;
    while i < w
        invariant
            n == s@.len(),
            w == lower@.len(),
            w == upper@.len(),
            n - from == w,
            from <= n,
            i <= w,
            forall|j: int| 0 <= j < i ==> #[trigger] s@[from + j] == lower@[j] || s@[from + j] == upper@[j],
        decreases w - i,
    {
        let c = s.get_char(from + i);
        if c != lower.get_char(i) && c != upper.get_char(i) {
            assert(s@.skip(from as int)[i as int] == c);
            return false;
        }
        i = i + 1;
    }
    assert forall|j: int| 0 <= j < w implies #[trigger] s@.skip(from as int)[j] == lower@[j]
        || s@.skip(from as int)[j] == upper@[j] by {
        assert(s@.skip(from as int)[j] == s@[from + j]);
    }
    true
}

fn find_exp_mark(s: &str, from: usize) -> (k: usize)
    requires
        from <= s@.len(),
    ensures
        from <= k <= s@.len(),
        k < s@.len() ==> is_exp_mark(s@[k as int]),
        forall|i: int| from <= i < k ==> !is_exp_mark(#[trigger] s@[i]),
{
    let n = s.unicode_len();
    let mut i: usize = from;
    while i < n
        invariant
            n == s@.len(),
            from <= i <= n,
            forall|j: int| from <= j < i ==> !is_exp_mark(#[trigger] s@[j]),
        decreases n - i,
    {
        let c = s.get_char(i);
        if c == 'e' || c == 'E' {
            return i;
        }
        i = i + 1;
    }
    i
}

fn mantissa_check(s: &str, from: usize, to: usize) -> (r: bool)
    requires
        from <= to <= s@.len(),
    ensures
        r == mantissa_ok(s@.subrange(from as int, to as int)),
{
    let ghost m = s@.subrange(from as int, to as int);
    let mut i: usize = from;
    let mut digits: bool = false;
    let mut dot: bool = false;
    while i < to
        invariant
            from <= i <= to <= s@.len(),
            m == s@.subrange(from as int, to as int),
            forall|j: int| 0 <= j < i - from ==> is_digit(#[trigger] m[j]) || m[j] == '.',
            forall|a: int, b: int| 0 <= a < b < i - from && #[trigger] m[a] == '.' ==> #[trigger] m[b] != '.',
            dot <==> exists|j: int| 0 <= j < i - from && #[trigger] m[j] == '.',
            digits <==> exists|j: int| 0 <= j < i - from && is_digit(#[trigger] m[j]),
        decreases to - i,
    {
        let c = s.get_char(i);
        assert(m[i - from] == c);
        if digit_char(c) {
            digits = true;
        } else if c == '.' {
            if dot {
                let ghost a = choose|j: int| 0 <= j < i - from && #[trigger] m[j] == '.';
                assert(m[a] == '.' && m[i - from] == '.');
                return false;
            }
            dot = true;
        } else {
            assert(!(is_digit(m[i - from]) || m[i - from] == '.'));
            return false;
        }
        i = i + 1;
    }
    digits
}

fn exponent_check(s: &str, from: usize) -> (r: bool)
    requires
        from <= s@.len(),
    ensures
        r == exponent_ok(s@.skip(from as int)),
{
    let n = s.unicode_len();
    let ghost x = s@.skip(from as int);
    let mut start = from;
    if from < n {
        let c = s.get_char(from);
        assert(x[0] == c);
        if c == '+' || c == '-' {
            start = from + 1;
        }
    }
    if start == n {
        proof {
            if from < n {
                assert(x[0] == s@[from as int]);
                assert(!is_digit(x[0]));
                assert(x.drop_first().len() == 0);
            }
        }
        return false;
    }
    let mut i: usize = start;
    while i < n
        invariant
            x == s@.skip(from as int),
            start == from || start == from + 1,
            start > from ==> is_sign(x[0]),
            start == from ==> (from < n ==> !is_sign(x[0])),
            n == s@.len(),
            from <= start <= i <= n,
            start < n,
            forall|j: int| start <= j < i ==> is_digit(#[trigger] s@[j]),
        decreases n - i,
    {
        if !digit_char(s.get_char(i)) {
            assert(!is_digit(s@[i as int]));
            assert(!all_digits(x)) by {
                assert(x[i - from] == s@[i as int]);
            }
            assert(start > from ==> !all_digits(x.drop_first())) by {
                if start > from {
                    assert(x[i - from] == s@[i as int]);
                    assert(x.drop_first()[i - start] == x[i - from]);
                }
            }
            assert(start == from ==> !is_sign(x[0]));
            return false;
        }
        i = i + 1;
    }
    assert(start == from ==> all_digits(x)) by {
        if start == from {
            assert forall|j: int| 0 <= j < x.len() implies is_digit(#[trigger] x[j]) by {
                assert(x[j] == s@[from + j]);
            }
        }
    }
    assert(start > from ==> all_digits(x.drop_first()) && is_sign(x[0])) by {
        if start > from {
            assert forall|j: int| 0 <= j < x.drop_first().len() implies is_digit(
                #[trigger] x.drop_first()[j],
            ) by {
                assert(x[j + 1] == s@[start + j]);
                assert(x.drop_first()[j] == x[j + 1]);
            }
        }
    }
    true
}

fn number_check(s: &str, from: usize) -> (r: bool)
    requires
        from <= s@.len(),
    ensures
        r == number_ok(s@.skip(from as int)),
{
    let n = s.unicode_len();
    let ghost body = s@.skip(from as int);
    let k = find_exp_mark(s, from);
    let m = mantissa_check(s, from, k);
    assert(body.take(k - from) =~= s@.subrange(from as int, k as int));
    if k == n {
        assert(body =~= s@.subrange(from as int, k as int));
        assert(!exists|k2: int| 0 <= k2 < body.len() && is_exp_mark(#[trigger] body[k2])) by {
            assert forall|k2: int| 0 <= k2 < body.len() implies !is_exp_mark(#[trigger] body[k2]) by {
                assert(body[k2] == s@[from + k2]);
            }
        }
        return m;
    }
    assert(!mantissa_ok(body)) by {
        assert(body[k - from] == s@[k as int]);
    }
    let e = exponent_check(s, k + 1);
    assert(body.skip(k - from + 1) =~= s@.skip(k + 1));
    assert(body[k - from] == s@[k as int]);
    assert forall|k2: int|
        0 <= k2 < body.len() && is_exp_mark(#[trigger] body[k2]) && mantissa_ok(body.take(k2))
            implies k2 == k - from by {
        assert(body[k2] == s@[from + k2]);
        if k2 > k - from {
            assert(body.take(k2)[k - from] == s@[k as int]);
        }
    }
    m && e
}

fn float_text(s: &str) -> (r: bool)
    ensures
        r == float_syntax(s@),
{
    let n = s.unicode_len();
    let mut from: usize = 0;
    if n > 0 {
        let c = s.get_char(0);
        if c == '+' || c == '-' {
            from = 1;
        }
    }
    proof {
        reveal_strlit("inf");
        reveal_strlit("INF");
        reveal_strlit("infinity");
        reveal_strlit("INFINITY");
        reveal_strlit("nan");
        reveal_strlit("NAN");
        if from == 0 {
            assert(s@.skip(0) =~= s@);
        } else {
            assert(s@.skip(1) =~= s@.drop_first());
        }
    }
    matches_word(s, from, "inf", "INF") || matches_word(s, from, "infinity", "INFINITY")
        || matches_word(s, from, "nan", "NAN") || number_check(s, from)
}

/// Relies on `Path::exists`: whether something exists at the path now.
/// Nothing is promised of the answer.
#[verifier::external_body]
fn path_exists(p: &str) -> (r: bool) {
    std::path::Path::new(p).exists()
}

pub open spec fn is_hex_digit(c: char) -> bool {
    ('0' <= c && c <= '9') || ('a' <= c && c <= 'f') || ('A' <= c && c <= 'F')
}

/// `#` followed by six hexadecimal digits.
pub open spec fn is_color(s: Seq<char>) -> bool {
    s.len() == 7 && s[0] == '#' && forall|i: int| 1 <= i < 7 ==> is_hex_digit(#[trigger] s[i])
}

fn color_text(s: &str) -> (r: bool)
    ensures
        r == is_color(s@),
{
    let n = s.unicode_len();
    if n != 7 || s.get_char(0) != '#' {
        return false;
    }
    let mut i: usize = 1;
    while i < 7
        invariant
            s@.len() == 7,
            1 <= i <= 7,
            forall|j: int| 1 <= j < i ==> is_hex_digit(#[trigger] s@[j]),
        decreases 7 - i,
    {
        let c = s.get_char(i);
        if !(('0' <= c && c <= '9') || ('a' <= c && c <= 'f') || ('A' <= c && c <= 'F')) {
            return false;
        }
        i = i + 1;
    }
    true
}

/// What parsing `value` as a setting of kind `t` yields, given whether a
/// file exists at the path `value` (read for `File` settings only).
pub open spec fn parse_result(
    t: SettingType,
    value: Seq<char>,
    file_present: bool,
    r: Result<SettingValue, String>,
) -> bool {
    match t {
        SettingType::String => r matches Ok(SettingValue::Text(t)) && t@ == value,
        SettingType::Integer => match i32_value(value) {
            Some(v) => r == Ok::<SettingValue, String>(SettingValue::Integer(v)),
            None => r matches Err(m) && m@.take(17) == "Invalid integer: "@,
        },
        SettingType::Float => if float_syntax(value) {
            r matches Ok(SettingValue::Float(t)) && t@ == value
        } else {
            r matches Err(m) && m@.take(15) == "Invalid float: "@
        },
        SettingType::Boolean => if value == "true"@ {
            r == Ok::<SettingValue, String>(SettingValue::Boolean(true))
        } else if value == "false"@ {
            r == Ok::<SettingValue, String>(SettingValue::Boolean(false))
        } else {
            r matches Err(m) && m@.take(17) == "Invalid boolean: "@
        },
        SettingType::Color => if is_color(value) {
            r matches Ok(SettingValue::Color(t)) && t@ == value
        } else {
            r matches Err(m) && m@ == "Invalid color format. Use #RRGGBB"@
        },
        SettingType::File => if file_present {
            r matches Ok(SettingValue::File(t)) && t@ == value
        } else {
            r matches Err(m) && m@ == "File not found: "@ + value
        },
    }
}

/// Parses `value` as a setting of kind `setting_type`, given whether a file
/// exists at the path `value` (read for `File` settings only).
pub fn parse_setting_value_given(setting_type: &SettingType, value: &str, file_present: bool) -> (r:
    Result<SettingValue, String>)
    ensures
        parse_result(*setting_type, value@, file_present, r),
{
    proof {
        reveal_strlit("true");
        reveal_strlit("false");
        reveal_strlit("Invalid integer: ");
        reveal_strlit("Invalid float: ");
        reveal_strlit("Invalid float: cannot parse float from empty string");
        reveal_strlit("Invalid float: invalid float literal");
        reveal_strlit("Invalid boolean: ");
    }
    match setting_type {
        SettingType::String => Ok(SettingValue::Text(String::from_str(value))),
        SettingType::Integer => match parse_i32(value) {
            Ok(v) => Ok(SettingValue::Integer(v)),
            Err(e) => {
                let m = String::from_str("Invalid integer: ").concat(e.as_str());
                assert(m@.take(17) =~= "Invalid integer: "@);
                Err(m)
            },
        },
        SettingType::Float => {
            if float_text(value) {
                Ok(SettingValue::Float(String::from_str(value)))
            } else if value.unicode_len() == 0 {
                let m = String::from_str("Invalid float: cannot parse float from empty string");
                assert(m@.take(15) =~= "Invalid float: "@);
                Err(m)
            } else {
                let m = String::from_str("Invalid float: invalid float literal");
                assert(m@.take(15) =~= "Invalid float: "@);
                Err(m)
            }
        },
        SettingType::Boolean => match parse_bool(value) {
            Ok(b) => Ok(SettingValue::Boolean(b)),
            Err(e) => {
                let m = String::from_str("Invalid boolean: ").concat(e.as_str());
                assert(m@.take(17) =~= "Invalid boolean: "@);
                Err(m)
            },
        },
        SettingType::Color => {
            if color_text(value) {
                Ok(SettingValue::Color(String::from_str(value)))
            } else {
                Err(String::from_str("Invalid color format. Use #RRGGBB"))
            }
        },
        SettingType::File => {
            if file_present {
                Ok(SettingValue::File(String::from_str(value)))
            } else {
                Err(String::from_str("File not found: ").concat(value))
            }
        },
    }
}

/// Parses `value` as a setting of kind `setting_type`; a `File` setting is
/// accepted when a file exists at the path when it is checked.
pub fn parse_setting_value(setting_type: &SettingType, value: &str) -> (r: Result<
    SettingValue,
    String,
>)
    ensures
        exists|present: bool| parse_result(*setting_type, value@, present, r),
{
    let present = match setting_type {
        SettingType::File => path_exists(value),
        _ => false,
    };
    parse_setting_value_given(setting_type, value, present)
}

/// `s` is longer than `suffix` and ends with it.
pub open spec fn ends_with_text(s: Seq<char>, suffix: Seq<char>) -> bool {
    s.len() > suffix.len() && s.subrange(s.len() - suffix.len(), s.len() as int) == suffix
}

/// A file name with a non-empty stem and a native-library extension.
pub open spec fn is_library_name(s: Seq<char>) -> bool {
    ends_with_text(s, ".so"@) || ends_with_text(s, ".dll"@) || ends_with_text(s, ".dylib"@)
}

/// The plugin-library names among the first `n` entries, in their order.
pub open spec fn library_names(s: Seq<Seq<char>>, n: int) -> Seq<Seq<char>>
    decreases n,
{
    if n <= 0 {
        Seq::empty()
    } else if is_library_name(s[n - 1]) {
        library_names(s, n - 1).push(s[n - 1])
    } else {
        library_names(s, n - 1)
    }
}

fn ends_with_str(s: &str, suffix: &str) -> (r: bool)
    ensures
        r == ends_with_text(s@, suffix@),
{
    let n = s.unicode_len();
    let m = suffix.unicode_len();
    if n <= m {
        return false;
    }
    let mut k: usize = 0;
    while k < m
        invariant
            n == s@.len(),
            m == suffix@.len(),
            m < n,
            k <= m,
            forall|j: int| 0 <= j < k ==> s@[n - m + j] == suffix@[j],
        decreases m - k,
    {
        if s.get_char(n - m + k) != suffix.get_char(k) {
            assert(s@.subrange(n - m, n as int)[k as int] == s@[n - m + k]);
            return false;
        }
        k = k + 1;
    }
    assert(s@.subrange(n - m, n as int) =~= suffix@);
    true
}

/// Whether a directory entry names a plugin library (`.so`, `.dll` or
/// `.dylib`, with a non-empty stem).
pub fn is_plugin_library(name: &str) -> (r: bool)
    ensures
        r == is_library_name(name@),
{
    ends_with_str(name, ".so") || ends_with_str(name, ".dll") || ends_with_str(name, ".dylib")
}

/// The entries of a plugin directory that are plugin libraries, in order.
pub fn plugin_candidates(entries: &Vec<String>) -> (r: Vec<String>)
    ensures
        r@.map_values(|x: String| x@) == library_names(
            entries@.map_values(|x: String| x@),
            entries@.len() as int,
        ),
{
    let mut out: Vec<String> = Vec::new();
    let mut i: usize = 0;
    while i < entries.len()
        invariant
            i <= entries@.len(),
            out@.map_values(|x: String| x@) == library_names(
                entries@.map_values(|x: String| x@),
                i as int,
            ),
        decreases entries.len() - i,
    {
        if is_plugin_library(entries[i].as_str()) {
            out.push(entries[i].clone());
        }
        assert(out@.map_values(|x: String| x@) =~= library_names(
            entries@.map_values(|x: String| x@),
            i + 1,
        ));
        i = i + 1;
    }
    out
}

} // verus!
