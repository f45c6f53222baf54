//! Durable paragraph identities and the syntax of OPC part names and structural paths.

use vstd::prelude::*;

use crate::compatibility::{decimal_value, digit_value, is_ascii_digit};
use crate::compatibility::lemma_decimal_prefix_bound;
use crate::text::{chars_of, find_char, find_from, find_in, lemma_find_char, push_char};
pub use crate::paragraph_scan::{
    extract_paragraph_identities, extract_paragraph_identities_with_spans, LocatedParagraphIdentity,
    ParagraphIdentity, SourceIdentityError,
};

verus! {

pub const WML_TRANSITIONAL_NAMESPACE: &'static str =
    "http://schemas.openxmlformats.org/wordprocessingml/2006/main";

pub const WML_STRICT_NAMESPACE: &'static str = "http://purl.oclc.org/ooxml/wordprocessingml/main";

pub const W14_NAMESPACE: &'static str = "http://schemas.microsoft.com/office/word/2010/wordml";

pub const STRUCTURAL_PATH_VERSION: &'static str = "path-v1";

// ---------------------------------------------------------------------------
// OPC part names
// ---------------------------------------------------------------------------

pub open spec fn is_upper_hex(c: char) -> bool {
    ('0' <= c && c <= '9') || ('A' <= c && c <= 'F')
}

pub open spec fn upper_hex_value(c: char) -> nat {
    if '0' <= c && c <= '9' {
        (c as int - '0' as int) as nat
    } else {
        (c as int - 'A' as int + 10) as nat
    }
}

pub open spec fn is_ascii_alphanumeric_code(b: nat) -> bool {
    (48 <= b <= 57) || (65 <= b <= 90) || (97 <= b <= 122)
}

pub open spec fn is_ascii_control_code(b: nat) -> bool {
    b <= 31 || b == 127
}

/// A percent escape must not encode something that has a plain spelling or
/// that would change the path's structure.
pub open spec fn is_allowed_escape(b: nat) -> bool {
    &&& !is_ascii_alphanumeric_code(b)
    &&& !is_ascii_control_code(b)
    &&& b != 45 && b != 46 && b != 95 && b != 126 && b != 47 && b != 92
}

/// Every `%` starts an uppercase two-digit escape of an allowed byte.
pub open spec fn has_canonical_percent_escapes(s: Seq<char>) -> bool
    decreases s.len(),
{
    if s.len() == 0 {
        true
    } else if s[0] != '%' {
        has_canonical_percent_escapes(s.drop_first())
    } else {
        &&& s.len() >= 3
        &&& is_upper_hex(s[1])
        &&& is_upper_hex(s[2])
        &&& is_allowed_escape(upper_hex_value(s[1]) * 16 + upper_hex_value(s[2]))
        &&& has_canonical_percent_escapes(s.skip(3))
    }
}

/// A single `/`-separated part name segment.
pub open spec fn is_part_segment(c: Seq<char>) -> bool {
    c.len() > 0 && c.last() != '.' && has_canonical_percent_escapes(c)
}

/// Every `/`-separated segment of `s` is a part name segment.
pub open spec fn are_part_segments(s: Seq<char>) -> bool
    decreases s.len(),
{
    proof {
        lemma_find_char(s, '/');
    }
    match find_char(s, '/') {
        Some(i) => is_part_segment(s.take(i as int)) && are_part_segments(s.skip(i as int + 1)),
        None => is_part_segment(s),
    }
}

/// Characters a part name may contain: printable ASCII other than space,
/// `\`, `?`, `#` and `:`.
pub open spec fn is_part_char(c: char) -> bool {
    &&& (c as u32) < 128
    &&& !is_ascii_control_code((c as u32) as nat)
    &&& c != ' ' && c != '\\' && c != '?' && c != '#' && c != ':'
}

/// A canonical package-relative OPC part name.
pub open spec fn is_canonical_part_name(s: Seq<char>) -> bool {
    &&& forall|i: int| 0 <= i < s.len() ==> is_part_char(#[trigger] s[i])
    &&& are_part_segments(s)
}

} // verus!
verus! {

fn is_upper_hex_char(c: char) -> (r: bool)
    ensures
        r == is_upper_hex(c),
{
    ('0' <= c && c <= '9') || ('A' <= c && c <= 'F')
}

/// The value of an uppercase hexadecimal digit; zero for any other character.
pub fn hex_value(c: char) -> (r: u32)
    ensures
        r as nat == if is_upper_hex(c) {
            upper_hex_value(c)
        } else {
            0
        },
        r < 16,
{
    if '0' <= c && c <= '9' {
        (c as u32) - ('0' as u32)
    } else if 'A' <= c && c <= 'F' {
        (c as u32) - ('A' as u32) + 10
    } else {
        0
    }
}

fn is_allowed_escape_code(b: u32) -> (r: bool)
    ensures
        r == is_allowed_escape(b as nat),
{
    let alnum = (48 <= b && b <= 57) || (65 <= b && b <= 90) || (97 <= b && b <= 122);
    let control = b <= 31 || b == 127;
    !alnum && !control && b != 45 && b != 46 && b != 95 && b != 126 && b != 47 && b != 92
}

/// Whether `v[start..end]` uses only canonical percent escapes.
fn percent_escapes_ok(v: &Vec<char>, start: usize, end: usize) -> (r: bool)
    requires
        start <= end <= v.len(),
    ensures
        r == has_canonical_percent_escapes(v@.subrange(start as int, end as int)),
{
    let mut i = start;
    while i < end
        invariant
            start <= i <= end <= v.len(),
            has_canonical_percent_escapes(v@.subrange(start as int, end as int))
                == has_canonical_percent_escapes(v@.subrange(i as int, end as int)),
        decreases end - i,
    {
        let ghost rest = v@.subrange(i as int, end as int);
        if v[i] != '%' {
            assert(rest.drop_first() =~= v@.subrange(i + 1, end as int));
            i += 1;
        } else {
            if end - i < 3 {
                return false;
            }
            let high = v[i + 1];
            let low = v[i + 2];
            assert(rest[1] == high && rest[2] == low);
            if !is_upper_hex_char(high) || !is_upper_hex_char(low) {
                return false;
            }
            let code = hex_value(high) * 16 + hex_value(low);
            if !is_allowed_escape_code(code) {
                return false;
            }
            assert(rest.skip(3) =~= v@.subrange(i + 3, end as int));
            i += 3;
        }
    }
    assert(v@.subrange(i as int, end as int).len() == 0);
    true
}

/// Checks that `part` is a canonical package-relative OPC part name: non-empty
/// printable ASCII without space, `\`, `?`, `#` or `:`, whose `/`-separated
/// segments are non-empty, do not end in `.`, and use only uppercase percent
/// escapes of bytes that need escaping.
pub fn validate_part_name(part: &str) -> (r: Result<(), ()>)
    ensures
        r is Ok <==> is_canonical_part_name(part@),
{
    let v = chars_of(part);
    let mut k: usize = 0;
    while k < v.len()
        invariant
            v@ == part@,
            k <= v.len(),
            forall|i: int| 0 <= i < k ==> is_part_char(#[trigger] v@[i]),
        decreases v.len() - k,
    {
        let c = v[k];
        let code = c as u32;
        if !(code < 128 && !(code <= 31 || code == 127) && c != ' ' && c != '\\' && c != '?' && c
            != '#' && c != ':') {
            assert(!is_part_char(v@[k as int]));
            return Err(());
        }
        k += 1;
    }
    let mut start: usize = 0;
    assert(v@.skip(0) =~= v@);
    loop
        invariant
            v@ == part@,
            start <= v.len(),
            forall|i: int| 0 <= i < v.len() ==> is_part_char(#[trigger] v@[i]),
            are_part_segments(part@) == are_part_segments(v@.skip(start as int)),
        decreases v.len() - start,
    {
        let ghost rest = v@.skip(start as int);
        proof {
            lemma_find_char(rest, '/');
        }
        match find_from(&v, start, '/') {
            Some(j) => {
                assert(rest.take((j - start) as int) =~= v@.subrange(start as int, j as int));
                assert(rest.skip((j - start) as int + 1) =~= v@.skip(j + 1));
                if start == j || v[j - 1] == '.' || !percent_escapes_ok(&v, start, j) {
                    return Err(());
                }
                start = j + 1;
            },
            None => {
                assert(rest =~= v@.subrange(start as int, v.len() as int));
                if start == v.len() || v[v.len() - 1] == '.' || !percent_escapes_ok(
                    &v,
                    start,
                    v.len(),
                ) {
                    return Err(());
                }
                return Ok(());
            },
        }
    }
}

} // verus!
verus! {

// ---------------------------------------------------------------------------
// XML names
// ---------------------------------------------------------------------------

pub open spec fn in_range(v: u32, lo: u32, hi: u32) -> bool {
    lo <= v && v <= hi
}

/// XML 1.0 `NameStartChar` without `:`.
pub open spec fn is_xml_name_start(c: char) -> bool {
    let v = c as u32;
    ||| c == '_'
    ||| in_range(v, 0x41, 0x5A)
    ||| in_range(v, 0x61, 0x7A)
    ||| in_range(v, 0x00C0, 0x00D6)
    ||| in_range(v, 0x00D8, 0x00F6)
    ||| in_range(v, 0x00F8, 0x02FF)
    ||| in_range(v, 0x0370, 0x037D)
    ||| in_range(v, 0x037F, 0x1FFF)
    ||| in_range(v, 0x200C, 0x200D)
    ||| in_range(v, 0x2070, 0x218F)
    ||| in_range(v, 0x2C00, 0x2FEF)
    ||| in_range(v, 0x3001, 0xD7FF)
    ||| in_range(v, 0xF900, 0xFDCF)
    ||| in_range(v, 0xFDF0, 0xFFFD)
    ||| in_range(v, 0x10000, 0xEFFFF)
}

/// XML 1.0 `NameChar` without `:`.
pub open spec fn is_xml_name_character(c: char) -> bool {
    let v = c as u32;
    ||| is_xml_name_start(c)
    ||| in_range(v, 0x30, 0x39)
    ||| c == '-'
    ||| c == '.'
    ||| v == 0x00B7
    ||| in_range(v, 0x0300, 0x036F)
    ||| in_range(v, 0x203F, 0x2040)
}

/// An XML `NCName`: a non-empty name without colons.
pub open spec fn is_ncname(s: Seq<char>) -> bool {
    &&& s.len() > 0
    &&& is_xml_name_start(s[0])
    &&& forall|i: int| 1 <= i < s.len() ==> is_xml_name_character(#[trigger] s[i])
}

fn xml_name_start(c: char) -> (r: bool)
    ensures
        r == is_xml_name_start(c),
{
    let v = c as u32;
    c == '_' || (0x41 <= v && v <= 0x5A) || (0x61 <= v && v <= 0x7A) || (0x00C0 <= v && v
        <= 0x00D6) || (0x00D8 <= v && v <= 0x00F6) || (0x00F8 <= v && v <= 0x02FF) || (0x0370
        <= v && v <= 0x037D) || (0x037F <= v && v <= 0x1FFF) || (0x200C <= v && v <= 0x200D) || (
    0x2070 <= v && v <= 0x218F) || (0x2C00 <= v && v <= 0x2FEF) || (0x3001 <= v && v <= 0xD7FF)
        || (0xF900 <= v && v <= 0xFDCF) || (0xFDF0 <= v && v <= 0xFFFD) || (0x10000 <= v && v
        <= 0xEFFFF)
}

fn xml_name_character(c: char) -> (r: bool)
    ensures
        r == is_xml_name_character(c),
{
    let v = c as u32;
    xml_name_start(c) || (0x30 <= v && v <= 0x39) || c == '-' || c == '.' || v == 0x00B7 || (
    0x0300 <= v && v <= 0x036F) || (0x203F <= v && v <= 0x2040)
}

/// Whether `v[start..end]` is an XML `NCName`.
fn ncname_range(v: &Vec<char>, start: usize, end: usize) -> (r: bool)
    requires
        start <= end <= v.len(),
    ensures
        r == is_ncname(v@.subrange(start as int, end as int)),
{
    let ghost s = v@.subrange(start as int, end as int);
    if start == end || !xml_name_start(v[start]) {
        return false;
    }
    let mut i = start + 1;
    while i < end
        invariant
            start < i <= end <= v.len(),
            s == v@.subrange(start as int, end as int),
            forall|j: int| 1 <= j < i - start ==> is_xml_name_character(#[trigger] s[j]),
        decreases end - i,
    {
        if !xml_name_character(v[i]) {
            assert(s[i - start] == v@[i as int]);
            return false;
        }
        i += 1;
    }
    true
}

/// Whether `local` is an XML `NCName` (as relationship IDs and local names must be).
pub fn is_xml_local_name(local: &str) -> (r: bool)
    ensures
        r == is_ncname(local@),
{
    let v = chars_of(local);
    assert(v@.subrange(0, v.len() as int) =~= v@);
    ncname_range(&v, 0, v.len())
}

// ---------------------------------------------------------------------------
// Structural paths
// ---------------------------------------------------------------------------

/// The `path-v1` spelling of a namespace URI: `%` and `}` escaped.
pub open spec fn escaped_namespace(s: Seq<char>) -> Seq<char>
    decreases s.len(),
{
    if s.len() == 0 {
        Seq::empty()
    } else {
        let head = if s[0] == '%' {
            seq!['%', '2', '5']
        } else if s[0] == '}' {
            seq!['%', '7', 'D']
        } else {
            seq![s[0]]
        };
        head + escaped_namespace(s.drop_first())
    }
}

/// A namespace segment of a structural path: `%` only in `%25` or `%7D`, and
/// no `}` after the last escape.
pub open spec fn is_escaped_namespace(s: Seq<char>) -> bool
    decreases s.len(),
{
    proof {
        lemma_find_char(s, '%');
    }
    match find_char(s, '%') {
        Some(p) => {
            let p = p as int;
            &&& p + 3 <= s.len()
            &&& s[p + 1] == '2' && s[p + 2] == '5' || s[p + 1] == '7' && s[p + 2] == 'D'
            &&& is_escaped_namespace(s.skip(p + 3))
        },
        None => find_char(s, '}') is None,
    }
}

/// A path index: decimal digits without a leading zero that fit in `u64`.
pub open spec fn is_path_index(s: Seq<char>) -> bool {
    &&& s.len() > 0
    &&& s[0] != '0'
    &&& forall|i: int| 0 <= i < s.len() ==> is_ascii_digit(#[trigger] s[i])
    &&& decimal_value(s) <= u64::MAX
}

/// The length of the leading `/Q{namespace}local[index]` step of `s`, if it is one.
pub open spec fn first_path_step(s: Seq<char>) -> Option<nat> {
    if s.len() < 3 || s[0] != '/' || s[1] != 'Q' || s[2] != '{' {
        None
    } else {
        let step = s.skip(3);
        match find_char(step, '}') {
            None => None,
            Some(e) => {
                let e = e as int;
                let after = step.skip(e + 1);
                match find_char(after, '[') {
                    None => None,
                    Some(b) => {
                        let b = b as int;
                        let after_index = after.skip(b + 1);
                        match find_char(after_index, ']') {
                            None => None,
                            Some(c) => {
                                let c = c as int;
                                if is_escaped_namespace(step.take(e)) && is_ncname(after.take(b))
                                    && is_path_index(after_index.take(c)) {
                                    Some((3 + e + 1 + b + 1 + c + 1) as nat)
                                } else {
                                    None
                                }
                            },
                        }
                    },
                }
            },
        }
    }
}

pub proof fn lemma_first_path_step_len(s: Seq<char>)
    ensures
        first_path_step(s) matches Some(k) ==> 0 < k <= s.len(),
{
    if s.len() >= 3 {
        let step = s.skip(3);
        lemma_find_char(step, '}');
        if let Some(e) = find_char(step, '}') {
            let after = step.skip(e as int + 1);
            lemma_find_char(after, '[');
            if let Some(b) = find_char(after, '[') {
                let after_index = after.skip(b as int + 1);
                lemma_find_char(after_index, ']');
            }
        }
    }
}

/// A sequence of `/Q{namespace}local[index]` steps.
pub open spec fn are_path_steps(s: Seq<char>) -> bool
    decreases s.len(),
{
    if s.len() == 0 {
        true
    } else {
        proof {
            lemma_first_path_step_len(s);
        }
        match first_path_step(s) {
            None => false,
            Some(k) => are_path_steps(s.skip(k as int)),
        }
    }
}

/// A versioned structural path with at least one step.
pub open spec fn is_structural_path(s: Seq<char>) -> bool {
    &&& s.len() > 8
    &&& s.take(8) == "path-v1:"@
    &&& are_path_steps(s.skip(8))
}

} // verus!
verus! {

/// Whether `v[start..end]` is a well-escaped namespace segment.
fn escaped_namespace_range(v: &Vec<char>, start: usize, end: usize) -> (r: bool)
    requires
        start <= end <= v.len(),
    ensures
        r == is_escaped_namespace(v@.subrange(start as int, end as int)),
{
    let mut i = start;
    loop
        invariant
            start <= i <= end <= v.len(),
            is_escaped_namespace(v@.subrange(start as int, end as int)) == is_escaped_namespace(
                v@.subrange(i as int, end as int),
            ),
        decreases end - i,
    {
        let ghost s = v@.subrange(i as int, end as int);
        proof {
            lemma_find_char(s, '%');
        }
        match find_in(v, i, end, '%') {
            Some(p) => {
                if end - p < 3 {
                    return false;
                }
                assert(s[p - i + 1] == v@[p + 1] && s[p - i + 2] == v@[p + 2]);
                if !((v[p + 1] == '2' && v[p + 2] == '5') || (v[p + 1] == '7' && v[p + 2] == 'D')) {
                    return false;
                }
                assert(s.skip(p - i + 3) =~= v@.subrange(p + 3, end as int));
                i = p + 3;
            },
            None => {
                return find_in(v, i, end, '}').is_none();
            },
        }
    }
}

/// Whether `v[start..end]` is a path index.
fn path_index_range(v: &Vec<char>, start: usize, end: usize) -> (r: bool)
    requires
        start <= end <= v.len(),
    ensures
        r == is_path_index(v@.subrange(start as int, end as int)),
{
    let ghost t = v@.subrange(start as int, end as int);
    if start == end || v[start] == '0' {
        return false;
    }
    let mut value: u64 = 0;
    let mut overflow = false;
    let mut i = start;
    while i < end
        invariant
            start < end <= v.len(),
            start <= i <= end,
            t == v@.subrange(start as int, end as int),
            forall|j: int| start <= j < i ==> is_ascii_digit(#[trigger] v@[j]),
            !overflow ==> value as nat == decimal_value(v@.subrange(start as int, i as int)),
            overflow ==> decimal_value(v@.subrange(start as int, i as int)) > u64::MAX,
        decreases end - i,
    {
        let c = v[i];
        if !('0' <= c && c <= '9') {
            assert(t[i - start] == c);
            return false;
        }
        assert(v@.subrange(start as int, i + 1).drop_last() =~= v@.subrange(start as int, i as int));
        let d = ((c as u32) - ('0' as u32)) as u64;
        if !overflow {
            match value.checked_mul(10) {
                Some(m) => match m.checked_add(d) {
                    Some(n) => {
                        value = n;
                    },
                    None => {
                        overflow = true;
                    },
                },
                None => {
                    overflow = true;
                },
            }
        } else {
            assert(decimal_value(v@.subrange(start as int, i + 1)) >= decimal_value(
                v@.subrange(start as int, i as int),
            ) * 10) by (nonlinear_arith)
                requires
                    decimal_value(v@.subrange(start as int, i + 1)) == decimal_value(
                        v@.subrange(start as int, i as int),
                    ) * 10 + digit_value(c),
            ;
        }
        i += 1;
    }
    assert(t =~= v@.subrange(start as int, i as int));
    !overflow
}

/// The end of the path step that starts at `i`, if one does.
#[verifier::spinoff_prover]
#[verifier::rlimit(40)]
fn scan_path_step(v: &Vec<char>, i: usize) -> (r: Option<usize>)
    requires
        i <= v.len(),
    ensures
        match first_path_step(v@.skip(i as int)) {
            Some(k) => r == Some((i + k) as usize),
            None => r is None,
        },
{
    let ghost s = v@.skip(i as int);
    let len = v.len();
    if len - i < 3 || v[i] != '/' || v[i + 1] != 'Q' || v[i + 2] != '{' {
        return None;
    }
    let step_start = i + 3;
    let ghost step = s.skip(3);
    assert(step =~= v@.skip(step_start as int));
    proof {
        lemma_find_char(step, '}');
    }
    let e = match find_from(v, step_start, '}') {
        Some(e) => e,
        None => {
            return None;
        },
    };
    let after_start = e + 1;
    let ghost after = step.skip((e - step_start) as int + 1);
    assert(after =~= v@.skip(after_start as int));
    proof {
        lemma_find_char(after, '[');
    }
    let b = match find_from(v, after_start, '[') {
        Some(b) => b,
        None => {
            return None;
        },
    };
    let index_start = b + 1;
    let ghost after_index = after.skip((b - after_start) as int + 1);
    assert(after_index =~= v@.skip(index_start as int));
    proof {
        lemma_find_char(after_index, ']');
    }
    let c = match find_from(v, index_start, ']') {
        Some(c) => c,
        None => {
            return None;
        },
    };
    assert(step.take((e - step_start) as int) =~= v@.subrange(step_start as int, e as int));
    assert(after.take((b - after_start) as int) =~= v@.subrange(after_start as int, b as int));
    assert(after_index.take((c - index_start) as int) =~= v@.subrange(index_start as int, c as int));
    if escaped_namespace_range(v, step_start, e) && ncname_range(v, after_start, b)
        && path_index_range(v, index_start, c) {
        Some(c + 1)
    } else {
        None
    }
}

/// Checks the `path-v1` structural path grammar: `path-v1:` followed by one or
/// more `/Q{namespace}local[index]` steps.
pub fn is_valid_structural_path(path: &str) -> (r: bool)
    ensures
        r == is_structural_path(path@),
{
    proof {
        reveal_strlit("path-v1:");
    }
    let v = chars_of(path);
    if v.len() <= 8 {
        return false;
    }
    if !(v[0] == 'p' && v[1] == 'a' && v[2] == 't' && v[3] == 'h' && v[4] == '-' && v[5] == 'v'
        && v[6] == '1' && v[7] == ':') {
        assert(path@.take(8) != "path-v1:"@) by {
            assert(path@.take(8)[0] == v@[0]);
            assert(path@.take(8)[1] == v@[1]);
            assert(path@.take(8)[2] == v@[2]);
            assert(path@.take(8)[3] == v@[3]);
            assert(path@.take(8)[4] == v@[4]);
            assert(path@.take(8)[5] == v@[5]);
            assert(path@.take(8)[6] == v@[6]);
            assert(path@.take(8)[7] == v@[7]);
        }
        return false;
    }
    assert(path@.take(8) =~= "path-v1:"@);
    let len = v.len();
    let mut i: usize = 8;
    loop
        invariant
            v@ == path@,
            len == v.len(),
            8 <= i <= len,
            is_structural_path(path@) == are_path_steps(v@.skip(i as int)),
        decreases len - i,
    {
        if i == len {
            return true;
        }
        proof {
            lemma_first_path_step_len(v@.skip(i as int));
        }
        match scan_path_step(&v, i) {
            Some(next) => {
                assert(v@.skip(i as int).skip((next - i) as int) =~= v@.skip(next as int));
                i = next;
            },
            None => {
                return false;
            },
        }
    }
}

} // verus!
