//! Format identification and strict `major.minor` version parsing.

use vstd::prelude::*;

use crate::text::{chars_of, debug_string, debug_quoted, decimal, push_decimal, str_equal};
use crate::{FORMAT, SUPPORTED_MAJOR_VERSION};

verus! {

/// A parsed format version.
#[derive(Clone, Copy, Debug, PartialEq, Eq, Structural)]
pub struct FormatVersion {
    pub major: u16,
    pub minor: u16,
}

/// Why a document's `format` and `version` fields are not accepted.
#[derive(Clone, Debug, PartialEq, Eq)]
#[allow(inconsistent_fields)]
pub enum CompatibilityError {
    WrongFormat { actual: String },
    MalformedVersion(String),
    UnsupportedMajor { actual: u16 },
}

pub open spec fn is_ascii_digit(c: char) -> bool {
    '0' <= c && c <= '9'
}

pub open spec fn digit_value(c: char) -> nat {
    (c as int - '0' as int) as nat
}

/// A non-empty run of ASCII digits without a redundant leading zero.
pub open spec fn is_canonical_decimal(s: Seq<char>) -> bool {
    &&& s.len() > 0
    &&& forall|i: int| 0 <= i < s.len() ==> is_ascii_digit(#[trigger] s[i])
    &&& (s[0] == '0' ==> s.len() == 1)
}

/// The value of a run of decimal digits.
pub open spec fn decimal_value(s: Seq<char>) -> nat
    decreases s.len(),
{
    if s.len() == 0 {
        0
    } else {
        decimal_value(s.drop_last()) * 10 + digit_value(s.last())
    }
}

/// The position of the first occurrence of `c` in `s`, if any.
pub open spec fn first_index_of(s: Seq<char>, c: char) -> Option<nat>
    decreases s.len(),
{
    if s.len() == 0 {
        None
    } else if s[0] == c {
        Some(0)
    } else {
        match first_index_of(s.drop_first(), c) {
            Some(i) => Some(i + 1),
            None => None,
        }
    }
}

/// A version component: canonical decimal within the `u16` range.
pub open spec fn is_version_component(s: Seq<char>) -> bool {
    is_canonical_decimal(s) && decimal_value(s) <= u16::MAX
}

/// The version denoted by `v`: split at the first `.`, both sides version components.
pub open spec fn parse_version(v: Seq<char>) -> Option<FormatVersion> {
    match first_index_of(v, '.') {
        Some(i) => {
            let major = v.take(i as int);
            let minor = v.skip(i as int + 1);
            if is_version_component(major) && is_version_component(minor) {
                Some(
                    FormatVersion {
                        major: decimal_value(major) as u16,
                        minor: decimal_value(minor) as u16,
                    },
                )
            } else {
                None
            }
        },
        None => None,
    }
}

/// What `check_major` returns for a format name and version string.
pub open spec fn check_major_result(
    format: Seq<char>,
    version: Seq<char>,
    supported_major: u16,
) -> Option<FormatVersion> {
    if format != FORMAT@ {
        None
    } else {
        match parse_version(version) {
            Some(v) => if v.major == supported_major {
                Some(v)
            } else {
                None
            },
            None => None,
        }
    }
}

/// The error that accompanies a refused format/version pair.
pub open spec fn check_major_error(
    e: CompatibilityError,
    format: Seq<char>,
    version: Seq<char>,
) -> bool {
    if format != FORMAT@ {
        e matches CompatibilityError::WrongFormat { actual } && actual@ == format
    } else {
        match parse_version(version) {
            None => e matches CompatibilityError::MalformedVersion(actual) && actual@ == version,
            Some(v) => e == (CompatibilityError::UnsupportedMajor { actual: v.major }),
        }
    }
}

proof fn lemma_first_index_of(s: Seq<char>, c: char)
    ensures
        match first_index_of(s, c) {
            Some(i) => i < s.len() && s[i as int] == c && forall|j: int|
                0 <= j < i ==> s[j] != c,
            None => forall|j: int| 0 <= j < s.len() ==> s[j] != c,
        },
    decreases s.len(),
{
    if s.len() > 0 {
        lemma_first_index_of(s.drop_first(), c);
        if s[0] != c {
            assert forall|j: int| 1 <= j < s.len() implies s[j] == s.drop_first()[j - 1] by {}
        }
    }
}

/// Parses `s` as a version component.
fn parse_component(s: &Vec<char>, start: usize, end: usize) -> (r: Option<u16>)
    requires
        start <= end <= s.len(),
    ensures
        match r {
            Some(n) => is_version_component(s@.subrange(start as int, end as int))
                && n as nat == decimal_value(s@.subrange(start as int, end as int)),
            None => !is_version_component(s@.subrange(start as int, end as int)),
        },
{
    let ghost t = s@.subrange(start as int, end as int);
    if start == end {
        return None;
    }
    if s[start] == '0' && end - start != 1 {
        return None;
    }
    let mut value: u32 = 0;
    let mut i = start;
    while i < end
        invariant
            start < end <= s.len(),
            start <= i <= end,
            t == s@.subrange(start as int, end as int),
            forall|j: int| start <= j < i ==> is_ascii_digit(#[trigger] s@[j]),
            value as nat == decimal_value(s@.subrange(start as int, i as int)),
            value <= u16::MAX,
        decreases end - i,
    {
        let c = s[i];
        if !('0' <= c && c <= '9') {
            assert(t[i - start] == c);
            return None;
        }
        assert(s@.subrange(start as int, i + 1).drop_last() =~= s@.subrange(start as int, i as int));
        let d = (c as u32) - ('0' as u32);
        let next = value * 10 + d;
        if next > 65535 {
            proof {
                assert(t.take((i + 1 - start) as int) =~= s@.subrange(start as int, i + 1));
                if forall|j: int| 0 <= j < t.len() ==> is_ascii_digit(#[trigger] t[j]) {
                    lemma_decimal_prefix_bound(t, (i + 1 - start) as nat);
                }
            }
            return None;
        }
        value = next;
        i += 1;
    }
    assert(t =~= s@.subrange(start as int, i as int));
    Some(value as u16)
}

/// A digit prefix bounds the value of the whole run from below.
pub proof fn lemma_decimal_prefix_bound(t: Seq<char>, k: nat)
    requires
        k <= t.len(),
        forall|i: int| 0 <= i < t.len() ==> is_ascii_digit(#[trigger] t[i]),
    ensures
        decimal_value(t) >= decimal_value(t.take(k as int)),
    decreases t.len(),
{
    if t.len() > k {
        lemma_decimal_prefix_bound(t.drop_last(), k);
        assert(t.drop_last().take(k as int) =~= t.take(k as int));
    } else {
        assert(t.take(k as int) =~= t);
    }
}

} // verus!
verus! {

impl FormatVersion {
    pub fn new(major: u16, minor: u16) -> (r: Self)
        ensures
            r == (FormatVersion { major, minor }),
    {
        Self { major, minor }
    }

    /// Parses strict, unpadded `major.minor` decimal syntax with `u16` components.
    pub fn parse(value: &str) -> (r: Result<Self, CompatibilityError>)
        ensures
            match r {
                Ok(v) => parse_version(value@) == Some(v),
                Err(e) => parse_version(value@) is None && (e matches CompatibilityError::MalformedVersion(
                    actual,
                ) && actual@ == value@),
            },
    {
        let chars = chars_of(value);
        let mut dot: usize = 0;
        proof {
            lemma_first_index_of(value@, '.');
        }
        while dot < chars.len() && chars[dot] != '.'
            invariant
                chars@ == value@,
                dot <= chars.len(),
                forall|j: int| 0 <= j < dot ==> chars@[j] != '.',
            decreases chars.len() - dot,
        {
            dot += 1;
        }
        if dot == chars.len() {
            return Err(CompatibilityError::MalformedVersion(value.to_owned()));
        }
        let ghost i = first_index_of(value@, '.');
        assert(i == Some(dot as nat));
        assert(value@.take(dot as int) =~= chars@.subrange(0, dot as int));
        assert(value@.skip(dot + 1) =~= chars@.subrange(dot + 1, chars.len() as int));
        let major = parse_component(&chars, 0, dot);
        let minor = parse_component(&chars, dot + 1, chars.len());
        match (major, minor) {
            (Some(major), Some(minor)) => Ok(Self { major, minor }),
            _ => Err(CompatibilityError::MalformedVersion(value.to_owned())),
        }
    }
}

/// Checks the format name and that the version's major component is `supported_major`.
pub fn check_major(format: &str, version: &str, supported_major: u16) -> (r: Result<
    FormatVersion,
    CompatibilityError,
>)
    ensures
        match r {
            Ok(v) => check_major_result(format@, version@, supported_major) == Some(v),
            Err(e) => check_major_result(format@, version@, supported_major) is None
                && check_major_error(e, format@, version@),
        },
{
    if !str_equal(format, FORMAT) {
        return Err(CompatibilityError::WrongFormat { actual: format.to_owned() });
    }
    let version = FormatVersion::parse(version)?;
    if version.major != supported_major {
        return Err(CompatibilityError::UnsupportedMajor { actual: version.major });
    }
    Ok(version)
}

/// Checks that a document declares this crate's format and a supported `1.x` version.
pub fn check(format: &str, version: &str) -> (r: Result<FormatVersion, CompatibilityError>)
    ensures
        match r {
            Ok(v) => check_major_result(format@, version@, SUPPORTED_MAJOR_VERSION) == Some(v),
            Err(e) => check_major_result(format@, version@, SUPPORTED_MAJOR_VERSION) is None
                && check_major_error(e, format@, version@),
        },
{
    check_major(format, version, SUPPORTED_MAJOR_VERSION)
}

} // verus!
verus! {

/// The human-readable text of a compatibility error.
pub open spec fn compatibility_message(e: CompatibilityError) -> Seq<char> {
    match e {
        CompatibilityError::WrongFormat { actual } => "unsupported format "@ + debug_quoted(actual@)
            + " (expected \"typsastra-docx-ir\")"@,
        CompatibilityError::MalformedVersion(actual) => "malformed format version "@
            + debug_quoted(actual@) + " (expected major.minor)"@,
        CompatibilityError::UnsupportedMajor { actual } => "unsupported format major version "@
            + decimal(actual as nat) + " (supported: 1)"@,
    }
}

impl CompatibilityError {
    /// Renders the error as the message that validation reports at `$`.
    pub fn message(&self) -> (r: String)
        ensures
            r@ == compatibility_message(*self),
    {
        match self {
            CompatibilityError::WrongFormat { actual } => {
                let mut out = String::from_str("unsupported format ");
                out.append(debug_string(actual.as_str()).as_str());
                out.append(" (expected \"typsastra-docx-ir\")");
                out
            },
            CompatibilityError::MalformedVersion(actual) => {
                let mut out = String::from_str("malformed format version ");
                out.append(debug_string(actual.as_str()).as_str());
                out.append(" (expected major.minor)");
                out
            },
            CompatibilityError::UnsupportedMajor { actual } => {
                let mut out = String::from_str("unsupported format major version ");
                push_decimal(&mut out, *actual as u64);
                out.append(" (supported: 1)");
                out
            },
        }
    }
}

/// What `detect` accepts: the right format name and a version of major 1 or 2.
pub open spec fn detect_result(format: Seq<char>, version: Seq<char>) -> Option<FormatVersion> {
    if format != FORMAT@ {
        None
    } else {
        match parse_version(version) {
            Some(v) => if v.major == 1 || v.major == 2 {
                Some(v)
            } else {
                None
            },
            None => None,
        }
    }
}

/// Identifies a document envelope as any format major that this crate models.
pub fn detect(format: &str, version: &str) -> (r: Result<FormatVersion, CompatibilityError>)
    ensures
        match r {
            Ok(v) => detect_result(format@, version@) == Some(v),
            Err(e) => detect_result(format@, version@) is None && check_major_error(
                e,
                format@,
                version@,
            ),
        },
{
    if !str_equal(format, FORMAT) {
        return Err(CompatibilityError::WrongFormat { actual: format.to_owned() });
    }
    let version = FormatVersion::parse(version)?;
    if version.major != 1 && version.major != 2 {
        return Err(CompatibilityError::UnsupportedMajor { actual: version.major });
    }
    Ok(version)
}

} // verus!
verus! {

proof fn lemma_digit_char(d: nat)
    requires
        d < 10,
    ensures
        is_ascii_digit(crate::text::digit_char(d)),
        digit_value(crate::text::digit_char(d)) == d,
        d > 0 ==> crate::text::digit_char(d) != '0',
{
}

/// The decimal spelling of a number is canonical and spells that number.
pub proof fn lemma_decimal_is_canonical(n: nat)
    ensures
        is_canonical_decimal(crate::text::decimal(n)),
        decimal_value(crate::text::decimal(n)) == n,
        n > 0 ==> crate::text::decimal(n)[0] != '0',
        forall|i: int|
            0 <= i < crate::text::decimal(n).len() ==> #[trigger] crate::text::decimal(n)[i] != '.',
    decreases n,
{
    let s = crate::text::decimal(n);
    if n < 10 {
        lemma_digit_char(n);
        assert(s.drop_last() =~= Seq::<char>::empty());
        assert(decimal_value(Seq::<char>::empty()) == 0);
    } else {
        lemma_decimal_is_canonical(n / 10);
        lemma_digit_char(n % 10);
        let prefix = crate::text::decimal(n / 10);
        assert(s.drop_last() =~= prefix);
        assert(s.last() == crate::text::digit_char(n % 10));
        assert((n / 10) * 10 + n % 10 == n) by (nonlinear_arith);
        assert(decimal_value(s) == decimal_value(prefix) * 10 + digit_value(s.last()));
        assert(s[0] == prefix[0]);
        assert forall|i: int| 0 <= i < s.len() implies is_ascii_digit(#[trigger] s[i]) by {
            if i < prefix.len() {
                assert(s[i] == prefix[i]);
            }
        }
        assert forall|i: int| 0 <= i < s.len() implies #[trigger] s[i] != '.' by {
            if i < prefix.len() {
                assert(s[i] == prefix[i]);
            }
        }
    }
}

proof fn lemma_first_index_after(s: Seq<char>, t: Seq<char>, c: char)
    requires
        forall|i: int| 0 <= i < s.len() ==> #[trigger] s[i] != c,
        t.len() > 0,
        t[0] == c,
    ensures
        first_index_of(s + t, c) == Some(s.len()),
    decreases s.len(),
{
    if s.len() > 0 {
        assert((s + t).drop_first() =~= s.drop_first() + t);
        lemma_first_index_after(s.drop_first(), t, c);
    } else {
        assert(s + t =~= t);
    }
}

/// Spelling a version as `major.minor` and parsing it gives it back.
pub proof fn lemma_version_round_trip(major: u16, minor: u16)
    ensures
        parse_version(crate::text::decimal(major as nat) + "."@ + crate::text::decimal(
            minor as nat,
        )) == Some(FormatVersion { major, minor }),
{
    reveal_strlit(".");
    let a = crate::text::decimal(major as nat);
    let b = crate::text::decimal(minor as nat);
    lemma_decimal_is_canonical(major as nat);
    lemma_decimal_is_canonical(minor as nat);
    let v = a + "."@ + b;
    assert(v =~= a + ("."@ + b));
    lemma_first_index_after(a, "."@ + b, '.');
    assert(v.take(a.len() as int) =~= a);
    assert(v.skip(a.len() as int + 1) =~= b);
}

} // verus!
