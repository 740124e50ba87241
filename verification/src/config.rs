//! Server settings, read from environment variables with defaults.
use vstd::prelude::*;

use crate::text::chars_of;

verus! {

broadcast use vstd::string::group_string_axioms;

/// Whether `c` is an ASCII digit.
pub open spec fn is_digit(c: char) -> bool {
    48 <= (c as u32) <= 57
}

/// The number that the digits `s` write in decimal.
pub open spec fn digits_value(s: Seq<char>) -> int
    decreases s.len(),
{
    if s.len() == 0 {
        0
    } else {
        10 * digits_value(s.drop_last()) + ((s.last() as u32) - 48)
    }
}

/// Whether `s` starts with a sign.
pub open spec fn has_sign(s: Seq<char>) -> bool {
    s.len() > 0 && (s[0] == '-' || s[0] == '+')
}

/// `s` without its sign.
pub open spec fn digits_part(s: Seq<char>) -> Seq<char> {
    if has_sign(s) {
        s.drop_first()
    } else {
        s
    }
}

/// Whether `s` holds ASCII digits only.
pub open spec fn all_digits(s: Seq<char>) -> bool {
    forall|i: int| 0 <= i < s.len() ==> is_digit(#[trigger] s[i])
}

/// The `i32` that `s` writes, as `str::parse::<i32>` reads it: an optional `+` or `-`, then
/// one or more ASCII digits, within the range of `i32`.
pub open spec fn parse_i32_spec(s: Seq<char>) -> Option<i32> {
    let digits = digits_part(s);
    if digits.len() == 0 || !all_digits(digits) {
        None
    } else {
        let v = if s[0] == '-' {
            -digits_value(digits)
        } else {
            digits_value(digits)
        };
        if i32::MIN <= v <= i32::MAX {
            Some(v as i32)
        } else {
            None
        }
    }
}

/// The `bool` that `s` writes, as `str::parse::<bool>` reads it: exactly `true` or `false`.
pub open spec fn parse_bool_spec(s: Seq<char>) -> Option<bool> {
    if s == "true"@ {
        Some(true)
    } else if s == "false"@ {
        Some(false)
    } else {
        None
    }
}

proof fn lemma_digits_grow(s: Seq<char>, k: int)
    requires
        0 <= k <= s.len(),
        all_digits(s),
    ensures
        digits_value(s) >= digits_value(s.take(k)) >= 0,
    decreases s.len(),
{
    if s.len() > 0 {
        if k == s.len() {
            assert(s.take(k) =~= s);
            lemma_digits_grow(s.drop_last(), 0);
        } else {
            lemma_digits_grow(s.drop_last(), k);
            assert(s.drop_last().take(k) =~= s.take(k));
        }
    } else {
        assert(s.take(k) =~= s);
    }
}

/// Reads a decimal `i32`; `None` when `s` does not write one.
pub fn parse_i32(s: &str) -> (r: Option<i32>)
    ensures
        r == parse_i32_spec(s@),
{
    let chars = chars_of(s);
    let n = chars.len();
    let ghost cs = chars@;
    let signed = n > 0 && (chars[0] == '-' || chars[0] == '+');
    let negative = n > 0 && chars[0] == '-';
    let start: usize = if signed {
        1
    } else {
        0
    };
    let ghost digits = digits_part(cs);
    assert(digits =~= cs.subrange(start as int, n as int));
    if start == n {
        return None;
    }
    let mut acc: i64 = 0;
    let mut i = start;
    while i < n
        invariant
            cs == chars@,
            cs == s@,
            digits == digits_part(cs),
            n == chars@.len(),
            start <= i <= n,
            digits =~= cs.subrange(start as int, n as int),
            forall|j: int| 0 <= j < i - start ==> is_digit(#[trigger] digits[j]),
            acc == digits_value(digits.take(i - start)),
            0 <= acc <= 2147483648,
        decreases n - i,
    {
        let c = chars[i];
        let u = c as u32;
        if u < 48 || u > 57 {
            assert(!is_digit(digits[i - start]));
            assert(!all_digits(digits));
            return None;
        }
        assert(digits.take(i - start + 1).drop_last() =~= digits.take(i - start));
        let next = acc * 10 + (u - 48) as i64;
        if next > 2147483648 {
            proof {
                assert(digits_value(digits.take(i - start + 1)) == next);
                if all_digits(digits) {
                    lemma_digits_grow(digits, i - start + 1);
                }
            }
            return None;
        }
        acc = next;
        i = i + 1;
    }
    assert(digits.take(n - start) =~= digits);
    assert(all_digits(digits));
    if negative {
        Some((0 - acc) as i32)
    } else if acc <= 2147483647 {
        Some(acc as i32)
    } else {
        None
    }
}

/// Reads `true` or `false`; `None` for anything else.
pub fn parse_bool(s: &str) -> (r: Option<bool>)
    ensures
        r == parse_bool_spec(s@),
{
    let owned = s.to_string();
    if owned == "true".to_string() {
        Some(true)
    } else if owned == "false".to_string() {
        Some(false)
    } else {
        None
    }
}

/// The value of a setting: the one given, else the default.
pub open spec fn setting(value: Option<String>, default: Seq<char>) -> Seq<char> {
    match value {
        Some(v) => v@,
        None => default,
    }
}

fn setting_or(value: Option<String>, default: &str) -> (s: String)
    ensures
        s@ == setting(value, default@),
{
    match value {
        Some(v) => v,
        None => default.to_string(),
    }
}

fn setting_ref<'a>(value: &'a Option<String>, default: &'a str) -> (s: &'a str)
    ensures
        s@ == setting(*value, default@),
{
    match value {
        Some(v) => v.as_str(),
        None => default,
    }
}

/// The server's settings.
#[derive(Clone, Debug, Default)]
pub struct Config {
    pub host: String,
    pub port: String,
    pub model: String,
    pub threads: i32,
    pub use_gpu: bool,
    pub gpu_device: i32,
}

/// Whether the thread count, GPU switch and GPU device read as numbers and a switch, once
/// their defaults (`4`, `false`, `0`) stand in for missing values.
pub open spec fn settings_readable(
    threads: Option<String>,
    use_gpu: Option<String>,
    gpu_device: Option<String>,
) -> bool {
    &&& parse_i32_spec(setting(threads, "4"@)) is Some
    &&& parse_bool_spec(setting(use_gpu, "false"@)) is Some
    &&& parse_i32_spec(setting(gpu_device, "0"@)) is Some
}

impl Config {
    /// Whether [`Config::from_settings`] accepts these values.
    pub fn settings_readable(
        threads: &Option<String>,
        use_gpu: &Option<String>,
        gpu_device: &Option<String>,
    ) -> (r: bool)
        ensures
            r == settings_readable(*threads, *use_gpu, *gpu_device),
    {
        parse_i32(setting_ref(threads, "4")).is_some() && parse_bool(
            setting_ref(use_gpu, "false"),
        ).is_some() && parse_i32(setting_ref(gpu_device, "0")).is_some()
    }

    /// The settings from the values of `HOST`, `PORT`, `STT_MODEL`, `STT_THREADS`,
    /// `STT_USE_GPU` and `GPU_DEVICE` (`None` for a variable that is not set), each missing
    /// one replaced by its default: `0.0.0.0`, `3078`, `ggml-small.en.bin`, `4`, `false`, `0`.
    pub fn from_settings(
        host: Option<String>,
        port: Option<String>,
        model: Option<String>,
        threads: Option<String>,
        use_gpu: Option<String>,
        gpu_device: Option<String>,
    ) -> (c: Config)
        requires
            settings_readable(threads, use_gpu, gpu_device),
        ensures
            c.host@ == setting(host, "0.0.0.0"@),
            c.port@ == setting(port, "3078"@),
            c.model@ == setting(model, "ggml-small.en.bin"@),
            Some(c.threads) == parse_i32_spec(setting(threads, "4"@)),
            Some(c.use_gpu) == parse_bool_spec(setting(use_gpu, "false"@)),
            Some(c.gpu_device) == parse_i32_spec(setting(gpu_device, "0"@)),
    {
        let threads = parse_i32(setting_ref(&threads, "4")).unwrap();
        let use_gpu = parse_bool(setting_ref(&use_gpu, "false")).unwrap();
        let gpu_device = parse_i32(setting_ref(&gpu_device, "0")).unwrap();
        Config {
            host: setting_or(host, "0.0.0.0"),
            port: setting_or(port, "3078"),
            model: setting_or(model, "ggml-small.en.bin"),
            threads,
            use_gpu,
            gpu_device,
        }
    }
}

} // verus!
