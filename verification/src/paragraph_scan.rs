//! Paragraph identities from a stream of XML tokens: native `w14:paraId`
//! values and `path-v1` physical paths.

use vstd::prelude::*;

use std::collections::HashMap;
use std::ops::Range;

use crate::limits::{sat_add, BudgetCounters, LimitError, PackageBudget, ProcessingLimits};
use crate::model::{IdentityKind, SourceRef};
use crate::provenance::Sourced;
use crate::compatibility::{is_ascii_digit, lemma_decimal_is_canonical};
use crate::source_identity::{
    are_path_steps, escaped_namespace, first_path_step, is_canonical_part_name,
    is_escaped_namespace, is_ncname, is_structural_path, validate_part_name, W14_NAMESPACE,
    WML_STRICT_NAMESPACE, WML_TRANSITIONAL_NAMESPACE,
};
use crate::text::{
    chars_of, debug_quoted, decimal, find_char, lemma_find_char, lemma_find_char_exact,
    lemma_find_char_none, lossy_string, lossy_utf8, push_char, push_decimal, str_equal,
    utf8_string, utf8_text,
};
use crate::xml::{
    attribute_view, element_view, is_final, namespace_view, read_tokens, token_view, token_views,
    xml_tokens, AttributeToken, ElementToken, Namespace, XmlToken,
};

verus! {

/// An expanded name: namespace URI and local name.
pub type NameKey = (Seq<char>, Seq<char>);

/// The namespace URI a resolution stands for, or why it has none.
pub open spec fn namespace_text(ns: Namespace) -> Result<Seq<char>, Seq<char>> {
    match ns {
        Namespace::Bound(bytes) => utf8_text(bytes@),
        Namespace::Unbound => Ok(seq![]),
        Namespace::Unknown(prefix) => Err(
            "undeclared namespace prefix "@ + debug_quoted(lossy_utf8(prefix@)),
        ),
    }
}

/// One step of a structural path: `Q{namespace}local[index]`.
pub open spec fn path_step(ns: Seq<char>, local: Seq<char>, index: u64) -> Seq<char> {
    "Q{"@ + escaped_namespace(ns) + "}"@ + local + "["@ + decimal(index as nat) + "]"@
}

/// A WordprocessingML paragraph, transitional or strict.
pub open spec fn is_paragraph_name(ns: Seq<char>, local: Seq<char>) -> bool {
    local == "p"@ && (ns == WML_TRANSITIONAL_NAMESPACE@ || ns == WML_STRICT_NAMESPACE@)
}

/// The raw local name `paraId`.
pub open spec fn para_id_local() -> Seq<u8> {
    seq![112u8, 97u8, 114u8, 97u8, 73u8, 100u8]
}

pub open spec fn is_ascii_hex(c: char) -> bool {
    ('0' <= c && c <= '9') || ('a' <= c && c <= 'f') || ('A' <= c && c <= 'F')
}

/// Exactly eight hexadecimal digits.
pub open spec fn is_para_id_text(v: Seq<char>) -> bool {
    v.len() == 8 && forall|i: int| 0 <= i < 8 ==> is_ascii_hex(#[trigger] v[i])
}

pub open spec fn ascii_upper(c: char) -> char {
    if 'a' <= c && c <= 'z' {
        ((c as u32) - 32) as char
    } else {
        c
    }
}

/// The uppercase spelling of an ASCII string.
pub open spec fn uppercase(v: Seq<char>) -> Seq<char> {
    Seq::new(v.len(), |i: int| ascii_upper(v[i]))
}

pub open spec fn hex_digit_value(c: char) -> nat {
    if '0' <= c && c <= '9' {
        (c as int - '0' as int) as nat
    } else if 'a' <= c && c <= 'f' {
        (c as int - 'a' as int + 10) as nat
    } else {
        (c as int - 'A' as int + 10) as nat
    }
}

/// The number a string of hexadecimal digits spells.
pub open spec fn hex_number(v: Seq<char>) -> nat
    decreases v.len(),
{
    if v.len() == 0 {
        0
    } else {
        hex_number(v.drop_last()) * 16 + hex_digit_value(v.last())
    }
}

/// Sibling counts by expanded name, in first-seen order.
pub type NameCounts = Seq<(NameKey, u64)>;

/// Where `key` is counted in `counts`, if it is.
#[verifier::opaque]
pub open spec fn count_index(counts: NameCounts, key: NameKey) -> Option<nat> {
    if exists|k: int| 0 <= k < counts.len() && (#[trigger] counts[k]).0 == key {
        Some(
            (choose|k: int|
                0 <= k < counts.len() && (#[trigger] counts[k]).0 == key && forall|j: int|
                    0 <= j < k ==> (#[trigger] counts[j]).0 != key) as nat,
        )
    } else {
        None
    }
}

/// The one-based position of the next sibling named `key`, saturating.
pub open spec fn next_count(counts: NameCounts, key: NameKey) -> u64 {
    match count_index(counts, key) {
        Some(i) => sat_add(counts[i as int].1, 1),
        None => 1,
    }
}

/// The counts once another sibling named `key` was seen.
pub open spec fn bump(counts: NameCounts, key: NameKey) -> NameCounts {
    match count_index(counts, key) {
        Some(i) => counts.update(i as int, (key, sat_add(counts[i as int].1, 1))),
        None => counts.push((key, 1)),
    }
}

/// An open element: its path step and the counts of its children so far.
pub struct FrameView {
    pub step: Seq<char>,
    pub counts: NameCounts,
}

/// `/step` for each open element, outermost first.
pub open spec fn stack_path(stack: Seq<FrameView>) -> Seq<char>
    decreases stack.len(),
{
    if stack.len() == 0 {
        seq![]
    } else {
        stack_path(stack.drop_last()) + "/"@ + stack.last().step
    }
}

/// A paragraph found so far: its structural path, its identity, and the raw
/// byte span of its opening tag.
pub struct FoundView {
    pub path: Seq<char>,
    pub id: Seq<char>,
    pub native: bool,
    pub start: nat,
    pub end: nat,
}

/// The scan after some tokens.
pub struct ScanView {
    pub stack: Seq<FrameView>,
    pub root_counts: NameCounts,
    pub root_seen: bool,
    pub found: Seq<FoundView>,
    /// The path of each native ID seen so far, by its numeric value.
    pub native: Map<nat, Seq<char>>,
    pub budget: BudgetCounters,
}

/// Why a scan stopped.
pub enum ScanError {
    InvalidPartName(Seq<char>),
    InvalidXml(Seq<char>),
    InvalidParaId { path: Seq<char>, value: Seq<char> },
    DuplicateParaId { id: Seq<char>, first_path: Seq<char>, second_path: Seq<char> },
    Limit { resource: Seq<char>, observed: u64, limit: u64 },
}

pub enum StepView {
    Next(ScanView),
    Stop(ScanView),
    Fail(ScanError, BudgetCounters),
}

pub open spec fn initial_scan(budget: BudgetCounters) -> ScanView {
    ScanView {
        stack: seq![],
        root_counts: seq![],
        root_seen: false,
        found: seq![],
        native: Map::empty(),
        budget,
    }
}

/// Counts the element named `key` among its siblings (the children of the
/// innermost open element, or the roots) and charges it against the budget.
/// On success: the open elements and root counts afterwards, the budget, the
/// element's path and its index among same-named siblings.
pub open spec fn begin_parts(
    stack: Seq<FrameView>,
    root: NameCounts,
    before: BudgetCounters,
    key: NameKey,
    limits: ProcessingLimits,
) -> Result<
    (Seq<FrameView>, NameCounts, BudgetCounters, Seq<char>, u64),
    (ScanError, BudgetCounters),
> {
    let n = stack.len();
    let depth: usize = if n + 1 > usize::MAX {
        usize::MAX
    } else {
        (n + 1) as usize
    };
    let counts = if n == 0 {
        root
    } else {
        stack[n - 1].counts
    };
    let count = next_count(counts, key);
    let elements = sat_add(before.xml_elements, 1);
    let budget = BudgetCounters { xml_elements: elements, ..before };
    if elements > limits.max_xml_elements {
        Err(
            (
                ScanError::Limit {
                    resource: "XML elements"@,
                    observed: elements,
                    limit: limits.max_xml_elements,
                },
                budget,
            ),
        )
    } else if depth > limits.max_xml_nesting_depth {
        Err(
            (
                ScanError::Limit {
                    resource: "XML nesting depth"@,
                    observed: depth as u64,
                    limit: limits.max_xml_nesting_depth as u64,
                },
                budget,
            ),
        )
    } else if n == 0 {
        Ok((stack, bump(root, key), budget, "path-v1:"@ + "/"@ + path_step(key.0, key.1, count), count))
    } else {
        Ok(
            (
                stack.update(n - 1, FrameView { counts: bump(counts, key), ..stack[n - 1] }),
                root,
                budget,
                "path-v1:"@ + stack_path(stack) + "/"@ + path_step(key.0, key.1, count),
                count,
            ),
        )
    }
}

/// [`begin_parts`] on a whole scan.
pub open spec fn begin_element_view(s: ScanView, key: NameKey, limits: ProcessingLimits) -> Result<
    (ScanView, Seq<char>, u64),
    (ScanError, BudgetCounters),
> {
    match begin_parts(s.stack, s.root_counts, s.budget, key, limits) {
        Ok((stack, root_counts, budget, path, count)) => Ok(
            (ScanView { stack, root_counts, budget, ..s }, path, count),
        ),
        Err(e) => Err(e),
    }
}

/// The native ID among the first `k` attributes of a paragraph at `path`,
/// or the first error they hold.
pub open spec fn para_id_scan(
    part: Seq<char>,
    path: Seq<char>,
    attrs: Seq<Result<AttributeToken, String>>,
    k: nat,
) -> Result<Option<Seq<char>>, ScanError>
    decreases k,
{
    if k == 0 {
        Ok(None)
    } else {
        match para_id_scan(part, path, attrs, (k - 1) as nat) {
            Err(e) => Err(e),
            Ok(found) => match attrs[k - 1] {
                Err(message) => Err(ScanError::InvalidXml(message@)),
                Ok(a) => match namespace_text(a.namespace) {
                    Err(message) => Err(ScanError::InvalidXml(message)),
                    Ok(ns) => if ns == W14_NAMESPACE@ && a.local@ == para_id_local() {
                        if found is Some {
                            Err(
                                ScanError::InvalidXml(
                                    "multiple w14:paraId attributes at "@ + part + ":"@ + path,
                                ),
                            )
                        } else {
                            match a.value {
                                Err(message) => Err(ScanError::InvalidXml(message@)),
                                Ok(v) => if is_para_id_text(v@) {
                                    Ok(Some(uppercase(v@)))
                                } else {
                                    Err(ScanError::InvalidParaId { path, value: v@ })
                                },
                            }
                        }
                    } else {
                        Ok(found)
                    },
                },
            },
        }
    }
}

/// Records a paragraph at `path` whose opening tag spans `[start, end)`.
pub open spec fn record_view(
    part: Seq<char>,
    s: ScanView,
    path: Seq<char>,
    attrs: Seq<Result<AttributeToken, String>>,
    start: nat,
    end: nat,
) -> Result<ScanView, ScanError> {
    match para_id_scan(part, path, attrs, attrs.len()) {
        Err(e) => Err(e),
        Ok(Some(id)) => if s.native.contains_key(hex_number(id)) {
            Err(
                ScanError::DuplicateParaId {
                    id,
                    first_path: s.native[hex_number(id)],
                    second_path: path,
                },
            )
        } else {
            Ok(
                ScanView {
                    native: s.native.insert(hex_number(id), path),
                    found: s.found.push(FoundView { path, id, native: true, start, end }),
                    ..s
                },
            )
        },
        Ok(None) => Ok(
            ScanView {
                found: s.found.push(FoundView { path, id: path, native: false, start, end }),
                ..s
            },
        ),
    }
}

pub open spec fn sat_sub(a: nat, b: nat) -> nat {
    if a >= b {
        (a - b) as nat
    } else {
        0
    }
}

/// The raw span of a tag: it ends where reading stopped and reaches back
/// over the tag and its delimiters, `<`/`>` or `<`/`/>`.
pub open spec fn tag_span(input_len: nat, e: ElementToken, is_start: bool) -> (nat, nat) {
    let end = sat_sub(input_len, e.remaining as nat);
    (sat_sub(sat_sub(end, e.tag_len as nat), if is_start { 2 } else { 3 }), end)
}

/// An opening (`is_start`) or empty element tag.
pub open spec fn element_step(
    part: Seq<char>,
    input_len: nat,
    limits: ProcessingLimits,
    s: ScanView,
    e: ElementToken,
    is_start: bool,
) -> StepView {
    if s.stack.len() == 0 && s.root_seen {
        StepView::Fail(ScanError::InvalidXml("multiple root elements"@), s.budget)
    } else {
        let s0 = if s.stack.len() == 0 {
            ScanView { root_seen: true, ..s }
        } else {
            s
        };
        match namespace_text(e.namespace) {
            Err(message) => StepView::Fail(ScanError::InvalidXml(message), s0.budget),
            Ok(ns) => match utf8_text(e.local@) {
                Err(message) => StepView::Fail(ScanError::InvalidXml(message), s0.budget),
                Ok(local) => match begin_element_view(s0, (ns, local), limits) {
                    Err((error, budget)) => StepView::Fail(error, budget),
                    Ok((s1, path, count)) => {
                        let (start, end) = tag_span(input_len, e, is_start);
                        let recorded = if is_paragraph_name(ns, local) {
                            record_view(part, s1, path, e.attributes@, start, end)
                        } else {
                            Ok(s1)
                        };
                        match recorded {
                            Err(error) => StepView::Fail(error, s1.budget),
                            Ok(s2) => if is_start {
                                StepView::Next(
                                    ScanView {
                                        stack: s2.stack.push(
                                            FrameView {
                                                step: path_step(ns, local, count),
                                                counts: seq![],
                                            },
                                        ),
                                        ..s2
                                    },
                                )
                            } else {
                                StepView::Next(s2)
                            },
                        }
                    },
                },
            },
        }
    }
}

/// `u8::is_ascii_whitespace`.
pub open spec fn is_ascii_whitespace(b: u8) -> bool {
    b == 32 || b == 9 || b == 10 || b == 12 || b == 13
}

/// One token of the scan.
pub open spec fn token_step(
    part: Seq<char>,
    input_len: nat,
    limits: ProcessingLimits,
    s: ScanView,
    t: XmlToken,
) -> StepView {
    match t {
        XmlToken::Start(e) => element_step(part, input_len, limits, s, e, true),
        XmlToken::Empty(e) => element_step(part, input_len, limits, s, e, false),
        XmlToken::End => if s.stack.len() == 0 {
            StepView::Fail(
                ScanError::InvalidXml("closing element without an open element"@),
                s.budget,
            )
        } else {
            StepView::Next(ScanView { stack: s.stack.drop_last(), ..s })
        },
        XmlToken::Text(bytes) => if s.stack.len() == 0 && exists|i: int|
            0 <= i < bytes@.len() && !is_ascii_whitespace(#[trigger] bytes@[i]) {
            StepView::Fail(
                ScanError::InvalidXml("non-whitespace text outside the root element"@),
                s.budget,
            )
        } else {
            StepView::Next(s)
        },
        XmlToken::CData => if s.stack.len() == 0 {
            StepView::Fail(ScanError::InvalidXml("CDATA outside the root element"@), s.budget)
        } else {
            StepView::Next(s)
        },
        XmlToken::Other => StepView::Next(s),
        XmlToken::Eof => StepView::Stop(s),
        XmlToken::Malformed(message) => StepView::Fail(ScanError::InvalidXml(message@), s.budget),
    }
}

/// The scan after the first `k` tokens; it stops at the end of input or an error.
pub open spec fn scan_tokens(
    part: Seq<char>,
    tokens: Seq<XmlToken>,
    input_len: nat,
    limits: ProcessingLimits,
    budget: BudgetCounters,
    k: nat,
) -> StepView
    decreases k,
{
    if k == 0 {
        StepView::Next(initial_scan(budget))
    } else {
        match scan_tokens(part, tokens, input_len, limits, budget, (k - 1) as nat) {
            StepView::Next(s) => token_step(part, input_len, limits, s, tokens[k - 1]),
            other => other,
        }
    }
}

/// What the scan of every token gives: the paragraphs found, or the error,
/// and the budget afterwards. The input must hold exactly one root element,
/// closed by its end.
pub open spec fn scan_outcome(
    part: Seq<char>,
    tokens: Seq<XmlToken>,
    input_len: nat,
    limits: ProcessingLimits,
    budget: BudgetCounters,
) -> (Result<Seq<FoundView>, ScanError>, BudgetCounters) {
    match scan_tokens(part, tokens, input_len, limits, budget, tokens.len()) {
        StepView::Fail(error, b) => (Err(error), b),
        StepView::Next(s) | StepView::Stop(s) => if !s.root_seen {
            (Err(ScanError::InvalidXml("missing root element"@)), s.budget)
        } else if s.stack.len() > 0 {
            (Err(ScanError::InvalidXml("unclosed element at end of input"@)), s.budget)
        } else {
            (Ok(s.found), s.budget)
        },
    }
}

} // verus!

verus! {

/// A physical paragraph and its durable identity within one OPC part.
#[derive(Clone, Debug, PartialEq, Eq)]
pub struct ParagraphIdentity {
    /// Zero-based physical paragraph order within the OPC part.
    pub ordinal: usize,
    /// Physical XML location retained even when a native ID is available.
    pub structural_path: String,
    pub source: SourceRef,
}

/// A paragraph identity located in the original XML byte stream.
///
/// The byte span is parser transport metadata, not part of the stable identity.
#[derive(Debug, PartialEq, Eq)]
pub struct LocatedParagraphIdentity {
    pub identity: ParagraphIdentity,
    /// Half-open raw byte range from `<` through the byte after `>` in the
    /// paragraph's opening or empty tag, including any attributes and `/>`.
    /// Offsets include a leading BOM and are valid only for the original input.
    pub start_tag_range: Range<usize>,
}

impl ParagraphIdentity {
    /// Attaches this parsed identity to data entering the processing pipeline.
    pub fn attach<T>(self, value: T) -> (r: Sourced<T>)
        ensures
            r@ == (self.source, value),
    {
        Sourced::new(self.source, value)
    }
}

/// Why paragraph identities could not be extracted.
#[derive(Debug)]
pub enum SourceIdentityError {
    InvalidPartName(String),
    InvalidXml(String),
    InvalidParaId { part: String, path: String, value: String },
    DuplicateParaId { part: String, id: String, first_path: String, second_path: String },
    Limit(LimitError),
}

/// A found paragraph as this crate reports it, given its part and ordinal.
pub open spec fn found_matches(
    r: LocatedParagraphIdentity,
    part: Seq<char>,
    ordinal: int,
    f: FoundView,
) -> bool {
    &&& r.identity.ordinal == ordinal
    &&& r.identity.structural_path@ == f.path
    &&& r.identity.source.part@ == part
    &&& r.identity.source.id@ == f.id
    &&& r.identity.source.identity == (if f.native {
        IdentityKind::ParaId
    } else {
        IdentityKind::GeneratedPath
    })
    &&& r.start_tag_range.start == f.start
    &&& r.start_tag_range.end == f.end
}

/// A scan error as this crate reports it, given its part.
pub open spec fn error_matches(e: SourceIdentityError, part: Seq<char>, v: ScanError) -> bool {
    match v {
        ScanError::InvalidPartName(p) => e matches SourceIdentityError::InvalidPartName(x) && x@ == p,
        ScanError::InvalidXml(m) => e matches SourceIdentityError::InvalidXml(x) && x@ == m,
        ScanError::InvalidParaId { path, value } => e matches SourceIdentityError::InvalidParaId {
            part: p,
            path: q,
            value: w,
        } && p@ == part && q@ == path && w@ == value,
        ScanError::DuplicateParaId { id, first_path, second_path } => e matches SourceIdentityError::DuplicateParaId {
            part: p,
            id: i,
            first_path: f,
            second_path: g,
        } && p@ == part && i@ == id && f@ == first_path && g@ == second_path,
        ScanError::Limit { resource, observed, limit } => e matches SourceIdentityError::Limit(l)
            && l.resource@ == resource && l.observed == observed && l.limit == limit,
    }
}

fn invalid_xml(message: &str) -> (r: SourceIdentityError)
    ensures
        r matches SourceIdentityError::InvalidXml(m) && m@ == message@,
{
    SourceIdentityError::InvalidXml(String::from_str(message))
}

/// The `path-v1` spelling of a namespace URI: `%` as `%25` and `}` as `%7D`.
pub fn escape_namespace(namespace: &str) -> (r: String)
    ensures
        r@ == escaped_namespace(namespace@),
{
    let v = chars_of(namespace);
    let mut out = String::new();
    let mut i: usize = 0;
    assert(v@.skip(0) =~= v@);
    assert(out@ + escaped_namespace(v@) =~= escaped_namespace(v@));
    while i < v.len()
        invariant
            i <= v.len(),
            v@ == namespace@,
            out@ + escaped_namespace(v@.skip(i as int)) == escaped_namespace(v@),
        decreases v.len() - i,
    {
        let ghost rest = v@.skip(i as int);
        assert(rest.drop_first() =~= v@.skip(i + 1));
        let c = v[i];
        if c == '%' {
            out.append("%25");
            assert("%25"@ == seq!['%', '2', '5']) by {
                reveal_strlit("%25");
            }
        } else if c == '}' {
            out.append("%7D");
            assert("%7D"@ == seq!['%', '7', 'D']) by {
                reveal_strlit("%7D");
            }
        } else {
            push_char(&mut out, c);
        }
        i += 1;
    }
    assert(v@.skip(i as int) =~= seq![]);
    assert(out@ + seq![] =~= out@);
    out
}

/// An element's namespace URI and local name.
#[derive(Clone, Debug, PartialEq, Eq)]
struct ExpandedName {
    namespace: String,
    local: String,
}

spec fn key_of(name: ExpandedName) -> NameKey {
    (name.namespace@, name.local@)
}

impl ExpandedName {
    fn duplicate(&self) -> (r: ExpandedName)
        ensures
            r == *self,
    {
        ExpandedName { namespace: self.namespace.clone(), local: self.local.clone() }
    }

    fn is_paragraph(&self) -> (r: bool)
        ensures
            r == is_paragraph_name(self.namespace@, self.local@),
    {
        str_equal(self.local.as_str(), "p") && (str_equal(
            self.namespace.as_str(),
            WML_TRANSITIONAL_NAMESPACE,
        ) || str_equal(self.namespace.as_str(), WML_STRICT_NAMESPACE))
    }

    fn path_step(&self, index: u64) -> (r: String)
        ensures
            r@ == path_step(self.namespace@, self.local@, index),
    {
        let mut out = String::from_str("Q{");
        let escaped = escape_namespace(self.namespace.as_str());
        out.append(escaped.as_str());
        out.append("}");
        out.append(self.local.as_str());
        out.append("[");
        push_decimal(&mut out, index);
        out.append("]");
        out
    }
}

/// How many siblings of one expanded name an element has seen.
struct NameCount {
    name: ExpandedName,
    count: u64,
}

/// An open element: its path step and the counts of its children.
struct PathFrame {
    step: String,
    child_counts: Vec<NameCount>,
}

spec fn counts_view(v: Seq<NameCount>) -> NameCounts {
    Seq::new(v.len(), |i: int| (key_of(v[i].name), v[i].count))
}

spec fn frames_view(v: Seq<PathFrame>) -> Seq<FrameView> {
    Seq::new(v.len(), |i: int| FrameView { step: v[i].step@, counts: counts_view(v[i].child_counts@) })
}

fn same_name(a: &ExpandedName, b: &ExpandedName) -> (r: bool)
    ensures
        r == (key_of(*a) == key_of(*b)),
{
    str_equal(a.namespace.as_str(), b.namespace.as_str()) && str_equal(a.local.as_str(), b.local.as_str())
}

fn find_count(counts: &Vec<NameCount>, name: &ExpandedName) -> (r: Option<usize>)
    ensures
        r is None <==> count_index(counts_view(counts@), key_of(*name)) is None,
        r matches Some(i) ==> i < counts@.len() && count_index(counts_view(counts@), key_of(*name))
            == Some(i as nat) && counts_view(counts@)[i as int].0 == key_of(*name),
{
    let ghost c = counts_view(counts@);
    let ghost key = key_of(*name);
    let mut i: usize = 0;
    while i < counts.len()
        invariant
            i <= counts.len(),
            c == counts_view(counts@),
            key == key_of(*name),
            forall|j: int| 0 <= j < i ==> (#[trigger] c[j]).0 != key,
        decreases counts.len() - i,
    {
        if same_name(&counts[i].name, name) {
            proof {
                lemma_count_index_first(c, key, i as nat);
            }
            return Some(i);
        }
        i += 1;
    }
    proof {
        lemma_count_index(c, key);
    }
    None
}

/// Counts one more sibling named `name`, and returns its one-based position.
fn bump_count(counts: &mut Vec<NameCount>, name: &ExpandedName) -> (r: u64)
    ensures
        counts_view(final(counts)@) == bump(counts_view(old(counts)@), key_of(*name)),
        r == next_count(counts_view(old(counts)@), key_of(*name)),
{
    let ghost c = counts_view(counts@);
    match find_count(counts, name) {
        Some(i) => {
            let mut entry = counts.remove(i);
            entry.count = entry.count.saturating_add(1);
            let count = entry.count;
            counts.insert(i, entry);
            assert(counts_view(counts@) =~= c.update(i as int, (key_of(*name), count)));
            count
        },
        None => {
            counts.push(NameCount { name: name.duplicate(), count: 1 });
            assert(counts_view(counts@) =~= c.push((key_of(*name), 1)));
            1
        },
    }
}

/// What `count_index` finds: the first entry for `key`, or none at all.
proof fn lemma_count_index(c: NameCounts, key: NameKey)
    ensures
        match count_index(c, key) {
            Some(i) => i < c.len() && c[i as int].0 == key && forall|j: int|
                0 <= j < i ==> (#[trigger] c[j]).0 != key,
            None => forall|j: int| 0 <= j < c.len() ==> (#[trigger] c[j]).0 != key,
        },
{
    reveal(count_index);
    if exists|k: int| 0 <= k < c.len() && (#[trigger] c[k]).0 == key {
        let w = choose|k: int| 0 <= k < c.len() && (#[trigger] c[k]).0 == key;
        lemma_first_exists(c, key, w);
    }
}

/// Some index is the first one for `key` when any index is.
proof fn lemma_first_exists(c: NameCounts, key: NameKey, w: int)
    requires
        0 <= w < c.len(),
        c[w].0 == key,
    ensures
        exists|k: int|
            0 <= k < c.len() && (#[trigger] c[k]).0 == key && forall|j: int|
                0 <= j < k ==> (#[trigger] c[j]).0 != key,
    decreases w,
{
    if exists|j: int| 0 <= j < w && (#[trigger] c[j]).0 == key {
        let j = choose|j: int| 0 <= j < w && (#[trigger] c[j]).0 == key;
        lemma_first_exists(c, key, j);
    } else {
        assert(forall|j: int| 0 <= j < w ==> (#[trigger] c[j]).0 != key);
    }
}

/// The first entry for `key` is the one `count_index` finds.
proof fn lemma_count_index_first(c: NameCounts, key: NameKey, i: nat)
    requires
        i < c.len(),
        c[i as int].0 == key,
        forall|j: int| 0 <= j < i ==> (#[trigger] c[j]).0 != key,
    ensures
        count_index(c, key) == Some(i),
{
    lemma_count_index(c, key);
    match count_index(c, key) {
        Some(k) => {
            if k < i {
                assert(c[k as int].0 != key);
            }
            if k > i {
                assert(c[i as int].0 != key);
            }
        },
        None => {
            assert(c[i as int].0 != key);
        },
    }
}

/// After a bump, the name is found at the count it was given.
proof fn lemma_bump_lookup(c: NameCounts, key: NameKey)
    ensures
        count_index(bump(c, key), key) matches Some(i) && i < bump(c, key).len() && bump(
            c,
            key,
        )[i as int].1 == next_count(c, key),
{
    lemma_count_index(c, key);
    let b = bump(c, key);
    match count_index(c, key) {
        Some(i) => {
            assert forall|j: int| 0 <= j < i implies (#[trigger] b[j]).0 != key by {
                assert(b[j] == c[j]);
            }
            lemma_count_index_first(b, key, i);
        },
        None => {
            let n = c.len();
            assert forall|j: int| 0 <= j < n implies (#[trigger] b[j]).0 != key by {
                assert(b[j] == c[j]);
            }
            lemma_count_index_first(b, key, n);
        },
    }
}

/// The index of the last element named `key`: among the children of the
/// innermost open element, else among the roots, else 1.
spec fn current_index_view(stack: Seq<FrameView>, root: NameCounts, key: NameKey) -> u64 {
    if stack.len() > 0 && count_index(stack.last().counts, key) is Some {
        stack.last().counts[count_index(stack.last().counts, key)->0 as int].1
    } else {
        match count_index(root, key) {
            Some(j) => root[j as int].1,
            None => 1,
        }
    }
}

fn begin_element(
    name: &ExpandedName,
    stack: &mut Vec<PathFrame>,
    root_counts: &mut Vec<NameCount>,
    budget: &mut PackageBudget,
    limits: &ProcessingLimits,
) -> (r: Result<String, SourceIdentityError>)
    ensures
        match begin_parts(
            frames_view(old(stack)@),
            counts_view(old(root_counts)@),
            old(budget)@,
            key_of(*name),
            *limits,
        ) {
            Ok((frames, root, b, path, _)) => r matches Ok(p) && p@ == path && frames_view(
                final(stack)@,
            ) == frames && counts_view(final(root_counts)@) == root && final(budget)@ == b,
            Err((e, b)) => r matches Err(x) && error_matches(x, seq![], e) && final(budget)@ == b,
        },
{
    let ghost frames0 = frames_view(stack@);
    let ghost key = key_of(*name);
    let depth = stack.len().saturating_add(1);
    let count = if stack.len() == 0 {
        bump_count(root_counts, name)
    } else {
        let mut frame = stack.pop().unwrap();
        let ghost f0 = frame;
        let c = bump_count(&mut frame.child_counts, name);
        stack.push(frame);
        assert(frames_view(stack@) =~= frames0.update(
            frames0.len() - 1,
            FrameView { counts: counts_view(frame.child_counts@), ..frames0[frames0.len() - 1] },
        ));
        c
    };
    match budget.observe_xml_element(depth, limits) {
        Ok(()) => {},
        Err(e) => {
            return Err(SourceIdentityError::Limit(e));
        },
    }
    let mut path = String::from_str("path-v1:");
    let mut i: usize = 0;
    while i < stack.len()
        invariant
            i <= stack.len(),
            frames_view(stack@).len() == frames0.len(),
            forall|j: int| 0 <= j < frames0.len() ==> (#[trigger] frames_view(stack@)[j]).step
                == frames0[j].step,
            path@ == "path-v1:"@ + stack_path(frames0.take(i as int)),
        decreases stack.len() - i,
    {
        assert(frames0.take(i + 1).drop_last() =~= frames0.take(i as int));
        assert(frames_view(stack@)[i as int].step == stack@[i as int].step@);
        path.append("/");
        path.append(stack[i].step.as_str());
        i += 1;
    }
    assert(frames0.take(i as int) =~= frames0);
    path.append("/");
    let step = name.path_step(count);
    path.append(step.as_str());
    proof {
        if frames0.len() == 0 {
            assert(stack_path(frames0) =~= seq![]);
        }
    }
    Ok(path)
}

fn current_index(name: &ExpandedName, stack: &Vec<PathFrame>, root_counts: &Vec<NameCount>) -> (r:
    u64)
    ensures
        r == current_index_view(frames_view(stack@), counts_view(root_counts@), key_of(*name)),
{
    if stack.len() > 0 {
        let last = stack.len() - 1;
        assert(frames_view(stack@).last().counts == counts_view(stack@[last as int].child_counts@));
        match find_count(&stack[last].child_counts, name) {
            Some(i) => {
                return stack[last].child_counts[i].count;
            },
            None => {},
        }
    }
    match find_count(root_counts, name) {
        Some(j) => root_counts[j].count,
        None => 1,
    }
}

/// The namespace URI of a resolution: empty when unbound.
fn namespace_uri(namespace: &Namespace) -> (r: Result<String, SourceIdentityError>)
    ensures
        match namespace_text(*namespace) {
            Ok(ns) => r matches Ok(s) && s@ == ns,
            Err(m) => r matches Err(SourceIdentityError::InvalidXml(x)) && x@ == m,
        },
{
    match namespace {
        Namespace::Bound(bytes) => match utf8_string(bytes.as_slice()) {
            Ok(text) => Ok(text),
            Err(message) => Err(SourceIdentityError::InvalidXml(message)),
        },
        Namespace::Unbound => Ok(String::new()),
        Namespace::Unknown(prefix) => {
            let mut message = String::from_str("undeclared namespace prefix ");
            let lossy = lossy_string(prefix.as_slice());
            let quoted = crate::text::debug_string(lossy.as_str());
            message.append(quoted.as_str());
            Err(SourceIdentityError::InvalidXml(message))
        },
    }
}

/// The expanded name of an element: its namespace URI and its local name as UTF-8.
fn expanded_name(namespace: &Namespace, local: &Vec<u8>) -> (r: Result<
    ExpandedName,
    SourceIdentityError,
>)
    ensures
        match namespace_text(*namespace) {
            Err(m) => r matches Err(SourceIdentityError::InvalidXml(x)) && x@ == m,
            Ok(ns) => match utf8_text(local@) {
                Err(m) => r matches Err(SourceIdentityError::InvalidXml(x)) && x@ == m,
                Ok(l) => r matches Ok(name) && name.namespace@ == ns && name.local@ == l,
            },
        },
{
    let namespace = namespace_uri(namespace)?;
    match utf8_string(local.as_slice()) {
        Ok(local) => Ok(ExpandedName { namespace, local }),
        Err(message) => Err(SourceIdentityError::InvalidXml(message)),
    }
}

fn ascii_hex(c: char) -> (r: bool)
    ensures
        r == is_ascii_hex(c),
{
    ('0' <= c && c <= '9') || ('a' <= c && c <= 'f') || ('A' <= c && c <= 'F')
}

/// A `w14:paraId` value in its canonical uppercase spelling, or the error
/// naming the paragraph when it is not eight hexadecimal digits.
fn normalize_para_id(part: &str, path: &str, value: &str) -> (r: Result<String, SourceIdentityError>)
    ensures
        if is_para_id_text(value@) {
            r matches Ok(s) && s@ == uppercase(value@)
        } else {
            r matches Err(SourceIdentityError::InvalidParaId { part: p, path: q, value: w })
                && p@ == part@ && q@ == path@ && w@ == value@
        },
{
    let v = chars_of(value);
    let mut ok = v.len() == 8;
    let mut i: usize = 0;
    while ok && i < v.len()
        invariant
            i <= v.len(),
            v@ == value@,
            ok ==> v.len() == 8 && forall|j: int| 0 <= j < i ==> is_ascii_hex(#[trigger] v@[j]),
            !ok ==> !is_para_id_text(value@),
        decreases v.len() - i,
    {
        if !ascii_hex(v[i]) {
            ok = false;
        }
        i += 1;
    }
    if !ok {
        return Err(
            SourceIdentityError::InvalidParaId {
                part: String::from_str(part),
                path: String::from_str(path),
                value: String::from_str(value),
            },
        );
    }
    let mut out = String::new();
    let mut k: usize = 0;
    while k < v.len()
        invariant
            k <= v.len(),
            v@ == value@,
            v.len() == 8,
            out@ == uppercase(value@).take(k as int),
        decreases v.len() - k,
    {
        let c = v[k];
        let u = if 'a' <= c && c <= 'z' {
            ((c as u32) - 32) as u8 as char
        } else {
            c
        };
        assert(u == ascii_upper(c)) by {
            if 'a' <= c && c <= 'z' {
                assert(((c as u32) - 32) as u8 as char == ((c as u32) - 32) as char);
            }
        }
        push_char(&mut out, u);
        assert(uppercase(value@).take(k + 1) =~= uppercase(value@).take(k as int).push(u));
        k += 1;
    }
    assert(uppercase(value@).take(8) =~= uppercase(value@));
    Ok(out)
}

/// `16^n`: one more than the largest number `n` hexadecimal digits spell.
pub open spec fn hex_limit(n: nat) -> nat
    decreases n,
{
    if n == 0 {
        1
    } else {
        hex_limit((n - 1) as nat) * 16
    }
}

proof fn lemma_hex_limit_mono(i: nat, j: nat)
    requires
        i <= j,
    ensures
        hex_limit(i) <= hex_limit(j),
    decreases j,
{
    if i < j {
        lemma_hex_limit_mono(i, (j - 1) as nat);
    }
}

/// The number a canonical paraId spells.
fn para_id_number(id: &str) -> (r: u64)
    requires
        id@.len() == 8,
        forall|j: int| 0 <= j < 8 ==> is_upper_hex_digit(#[trigger] id@[j]),
    ensures
        r as nat == hex_number(id@),
{
    let v = chars_of(id);
    let mut acc: u64 = 0;
    let mut i: usize = 0;
    assert(hex_limit(8) == 4294967296) by {
        reveal_with_fuel(hex_limit, 9);
    }
    while i < 8
        invariant
            i <= 8,
            v@ == id@,
            v@.len() == 8,
            forall|j: int| 0 <= j < 8 ==> is_upper_hex_digit(#[trigger] v@[j]),
            acc as nat == hex_number(v@.take(i as int)),
            acc < hex_limit(i as nat),
            hex_limit(8) == 4294967296,
        decreases 8 - i,
    {
        let c = v[i];
        let d: u64 = if '0' <= c && c <= '9' {
            (c as u64) - ('0' as u64)
        } else if 'a' <= c && c <= 'f' {
            (c as u64) - ('a' as u64) + 10
        } else {
            (c as u64) - ('A' as u64) + 10
        };
        assert(d as nat == hex_digit_value(c));
        assert(d < 16);
        proof {
            lemma_hex_limit_mono((i + 1) as nat, 8);
            let hl = hex_limit(i as nat);
            assert(acc * 16 + d < hl * 16) by (nonlinear_arith)
                requires
                    acc < hl,
                    d < 16,
            ;
        }
        assert(v@.take(i + 1).drop_last() =~= v@.take(i as int));
        acc = acc * 16 + d;
        i += 1;
    }
    assert(v@.take(8) =~= v@);
    acc
}

/// Once the attribute scan has failed, it keeps that error.
proof fn lemma_para_id_scan_error(
    part: Seq<char>,
    path: Seq<char>,
    attrs: Seq<Result<AttributeToken, String>>,
    k: nat,
    m: nat,
)
    requires
        k <= m,
        para_id_scan(part, path, attrs, k) is Err,
    ensures
        para_id_scan(part, path, attrs, m) == para_id_scan(part, path, attrs, k),
    decreases m,
{
    if k < m {
        lemma_para_id_scan_error(part, path, attrs, k, (m - 1) as nat);
    }
}

/// A native ID found among the attributes is eight uppercase hexadecimal digits.
pub proof fn lemma_para_id_shape(
    part: Seq<char>,
    path: Seq<char>,
    attrs: Seq<Result<AttributeToken, String>>,
    k: nat,
)
    ensures
        para_id_scan(part, path, attrs, k) matches Ok(Some(id)) ==> id.len() == 8 && forall|j: int|
            0 <= j < 8 ==> is_upper_hex_digit(#[trigger] id[j]),
    decreases k,
{
    if k > 0 {
        lemma_para_id_shape(part, path, attrs, (k - 1) as nat);
        if let Ok(Some(id)) = para_id_scan(part, path, attrs, k) {
            if para_id_scan(part, path, attrs, (k - 1) as nat) is Ok {
                if let Ok(a) = attrs[k - 1] {
                    if let Ok(v) = a.value {
                        if is_para_id_text(v@) && id == uppercase(v@) {
                            assert forall|j: int| 0 <= j < 8 implies is_upper_hex_digit(
                                #[trigger] id[j],
                            ) by {
                                assert(is_ascii_hex(v@[j]));
                            }
                        }
                    }
                }
            }
        }
    }
}

/// An uppercase hexadecimal digit.
pub open spec fn is_upper_hex_digit(c: char) -> bool {
    ('0' <= c && c <= '9') || ('A' <= c && c <= 'F')
}

/// The native ID among a paragraph's attributes: none, one valid
/// `w14:paraId` (uppercased), or the first error the attributes hold.
fn para_id_of(part: &str, path: &str, attrs: &Vec<Result<AttributeToken, String>>) -> (r: Result<
    Option<String>,
    SourceIdentityError,
>)
    ensures
        match para_id_scan(part@, path@, attrs@, attrs@.len()) {
            Ok(None) => r matches Ok(None),
            Ok(Some(id)) => r matches Ok(Some(s)) && s@ == id,
            Err(e) => r matches Err(x) && error_matches(x, part@, e),
        },
{
    let mut para_id: Option<String> = None;
    let mut i: usize = 0;
    while i < attrs.len()
        invariant
            i <= attrs.len(),
            match para_id_scan(part@, path@, attrs@, i as nat) {
                Ok(None) => para_id is None,
                Ok(Some(id)) => para_id matches Some(s) && s@ == id,
                Err(_) => false,
            },
        decreases attrs.len() - i,
    {
        let ghost next = para_id_scan(part@, path@, attrs@, (i + 1) as nat);
        match &attrs[i] {
            Err(message) => {
                proof {
                    lemma_para_id_scan_error(part@, path@, attrs@, (i + 1) as nat, attrs@.len());
                }
                return Err(SourceIdentityError::InvalidXml(message.clone()));
            },
            Ok(attribute) => {
                let namespace = match namespace_uri(&attribute.namespace) {
                    Ok(namespace) => namespace,
                    Err(error) => {
                        proof {
                            lemma_para_id_scan_error(
                                part@,
                                path@,
                                attrs@,
                                (i + 1) as nat,
                                attrs@.len(),
                            );
                        }
                        return Err(error);
                    },
                };
                let local = attribute.local.as_slice();
                let is_para_id = str_equal(namespace.as_str(), W14_NAMESPACE) && local.len() == 6
                    && local[0] == 112u8 && local[1] == 97u8 && local[2] == 114u8 && local[3]
                    == 97u8 && local[4] == 73u8 && local[5] == 100u8;
                assert(is_para_id == (namespace@ == W14_NAMESPACE@ && attribute.local@
                    == para_id_local())) by {
                    if attribute.local@.len() == 6 {
                        if attribute.local@ =~= para_id_local() {
                        }
                    }
                }
                if is_para_id {
                    if para_id.is_some() {
                        let mut message = String::from_str("multiple w14:paraId attributes at ");
                        message.append(part);
                        message.append(":");
                        message.append(path);
                        proof {
                            lemma_para_id_scan_error(
                                part@,
                                path@,
                                attrs@,
                                (i + 1) as nat,
                                attrs@.len(),
                            );
                        }
                        return Err(SourceIdentityError::InvalidXml(message));
                    }
                    match &attribute.value {
                        Err(message) => {
                            proof {
                                lemma_para_id_scan_error(
                                    part@,
                                    path@,
                                    attrs@,
                                    (i + 1) as nat,
                                    attrs@.len(),
                                );
                            }
                            return Err(SourceIdentityError::InvalidXml(message.clone()));
                        },
                        Ok(value) => {
                            match normalize_para_id(part, path, value.as_str()) {
                                Ok(id) => {
                                    para_id = Some(id);
                                },
                                Err(error) => {
                                    proof {
                                        lemma_para_id_scan_error(
                                            part@,
                                            path@,
                                            attrs@,
                                            (i + 1) as nat,
                                            attrs@.len(),
                                        );
                                    }
                                    return Err(error);
                                },
                            }
                        },
                    }
                }
            },
        }
        i += 1;
    }
    Ok(para_id)
}

/// The raw byte span of an element's opening (or empty) tag.
fn start_tag_range(input_len: usize, element: &ElementToken, empty: bool) -> (r: Range<usize>)
    ensures
        (r.start as nat, r.end as nat) == tag_span(input_len as nat, *element, !empty),
{
    let end = input_len.saturating_sub(element.remaining);
    let delimiters: usize = if empty {
        3
    } else {
        2
    };
    let start = end.saturating_sub(element.tag_len).saturating_sub(delimiters);
    Range { start, end }
}

/// The state of a scan in progress.
struct Scan {
    stack: Vec<PathFrame>,
    root_counts: Vec<NameCount>,
    root_seen: bool,
    identities: Vec<LocatedParagraphIdentity>,
    /// The structural path of each native ID seen, by its numeric value.
    native_paths: HashMap<u64, String>,
}

spec fn found_of(r: LocatedParagraphIdentity) -> FoundView {
    FoundView {
        path: r.identity.structural_path@,
        id: r.identity.source.id@,
        native: r.identity.source.identity == IdentityKind::ParaId,
        start: r.start_tag_range.start as nat,
        end: r.start_tag_range.end as nat,
    }
}

spec fn native_view(m: Map<u64, String>) -> Map<nat, Seq<char>> {
    Map::new(|k: nat| k <= u64::MAX && m.contains_key(k as u64), |k: nat| m[k as u64]@)
}

spec fn scan_view(s: Scan, budget: BudgetCounters) -> ScanView {
    ScanView {
        stack: frames_view(s.stack@),
        root_counts: counts_view(s.root_counts@),
        root_seen: s.root_seen,
        found: Seq::new(s.identities@.len(), |i: int| found_of(s.identities@[i])),
        native: native_view(s.native_paths@),
        budget,
    }
}

/// Every identity found so far names `part`, has its position as ordinal and
/// is native or generated.
spec fn scan_wf(s: Scan, part: Seq<char>) -> bool {
    forall|i: int|
        0 <= i < s.identities@.len() ==> {
            let r = #[trigger] s.identities@[i];
            &&& r.identity.ordinal == i
            &&& r.identity.source.part@ == part
            &&& (r.identity.source.identity == IdentityKind::ParaId || r.identity.source.identity
                == IdentityKind::GeneratedPath)
        }
}

fn record_paragraph(
    part: &str,
    attributes: &Vec<Result<AttributeToken, String>>,
    path: String,
    scan: &mut Scan,
    range: Range<usize>,
    Ghost(budget): Ghost<BudgetCounters>,
) -> (r: Result<(), SourceIdentityError>)
    requires
        scan_wf(*old(scan), part@),
    ensures
        match record_view(
            part@,
            scan_view(*old(scan), budget),
            path@,
            attributes@,
            range.start as nat,
            range.end as nat,
        ) {
            Ok(v) => r is Ok && scan_view(*final(scan), budget) == v && scan_wf(*final(scan), part@),
            Err(e) => r matches Err(x) && error_matches(x, part@, e),
        },
{
    broadcast use vstd::std_specs::hash::group_hash_axioms;

    let ghost v0 = scan_view(*scan, budget);
    proof {
        lemma_para_id_shape(part@, path@, attributes@, attributes@.len());
    }
    let para_id = para_id_of(part, path.as_str(), attributes)?;
    let (id, identity) = match para_id {
        Some(id) => {
            let key = para_id_number(id.as_str());
            match scan.native_paths.insert(key, path.clone()) {
                Some(first_path) => {
                    return Err(
                        SourceIdentityError::DuplicateParaId {
                            part: String::from_str(part),
                            id,
                            first_path,
                            second_path: path,
                        },
                    );
                },
                None => {},
            }
            assert(native_view(scan.native_paths@) =~= v0.native.insert(hex_number(id@), path@));
            (id, IdentityKind::ParaId)
        },
        None => (path.clone(), IdentityKind::GeneratedPath),
    };
    let ghost found_before = v0.found;
    let located = LocatedParagraphIdentity {
        identity: ParagraphIdentity {
            ordinal: scan.identities.len(),
            structural_path: path,
            source: SourceRef { part: String::from_str(part), id, identity },
        },
        start_tag_range: range,
    };
    scan.identities.push(located);
    assert(scan_view(*scan, budget).found =~= found_before.push(found_of(located)));
    Ok(())
}

fn element_step_exec(
    part: &str,
    input_len: usize,
    limits: &ProcessingLimits,
    scan: &mut Scan,
    budget: &mut PackageBudget,
    element: &ElementToken,
    is_start: bool,
) -> (r: Result<(), SourceIdentityError>)
    requires
        scan_wf(*old(scan), part@),
    ensures
        match element_step(
            part@,
            input_len as nat,
            *limits,
            scan_view(*old(scan), old(budget)@),
            *element,
            is_start,
        ) {
            StepView::Next(v) => r is Ok && scan_view(*final(scan), final(budget)@) == v && scan_wf(
                *final(scan),
                part@,
            ),
            StepView::Fail(e, b) => {
                &&& r matches Err(x) && error_matches(x, part@, e)
                &&& final(budget)@ == b
            },
            StepView::Stop(_) => false,
        },
{
    if scan.stack.len() == 0 {
        if scan.root_seen {
            return Err(invalid_xml("multiple root elements"));
        }
        scan.root_seen = true;
    }
    let ghost s0 = scan_view(*scan, budget@);
    let name = expanded_name(&element.namespace, &element.local)?;
    let ghost key = key_of(name);
    let ghost stack0 = frames_view(scan.stack@);
    let ghost root0 = counts_view(scan.root_counts@);
    let path = begin_element(&name, &mut scan.stack, &mut scan.root_counts, budget, limits)?;
    let ghost parts = begin_parts(stack0, root0, s0.budget, key, *limits);
    let ghost count = parts->Ok_0.4;
    let ghost s1 = scan_view(*scan, budget@);
    assert(s1 == ScanView {
        stack: parts->Ok_0.0,
        root_counts: parts->Ok_0.1,
        budget: parts->Ok_0.2,
        ..s0
    });
    if name.is_paragraph() {
        let range = start_tag_range(input_len, element, !is_start);
        record_paragraph(part, &element.attributes, path, scan, range, Ghost(budget@))?;
    }
    if is_start {
        let index = current_index(&name, &scan.stack, &scan.root_counts);
        proof {
            if stack0.len() > 0 {
                lemma_bump_lookup(stack0.last().counts, key);
                assert(frames_view(scan.stack@).last().counts == bump(stack0.last().counts, key));
            } else {
                lemma_bump_lookup(root0, key);
            }
            assert(index == count);
        }
        let ghost frames = frames_view(scan.stack@);
        let step = name.path_step(index);
        let child_counts: Vec<NameCount> = Vec::new();
        assert(counts_view(child_counts@) =~= seq![]);
        let frame = PathFrame { step, child_counts };
        scan.stack.push(frame);
        assert(frames_view(scan.stack@) =~= frames.push(FrameView { step: step@, counts: seq![] }));
    }
    Ok(())
}

fn has_non_whitespace(bytes: &Vec<u8>) -> (r: bool)
    ensures
        r == exists|i: int| 0 <= i < bytes@.len() && !is_ascii_whitespace(#[trigger] bytes@[i]),
{
    let mut i: usize = 0;
    while i < bytes.len()
        invariant
            i <= bytes.len(),
            forall|j: int| 0 <= j < i ==> is_ascii_whitespace(#[trigger] bytes@[j]),
        decreases bytes.len() - i,
    {
        let b = bytes[i];
        if !(b == 32 || b == 9 || b == 10 || b == 12 || b == 13) {
            assert(!is_ascii_whitespace(bytes@[i as int]));
            return true;
        }
        i += 1;
    }
    false
}

fn token_step_exec(
    part: &str,
    input_len: usize,
    limits: &ProcessingLimits,
    scan: &mut Scan,
    budget: &mut PackageBudget,
    token: &XmlToken,
) -> (r: Result<bool, SourceIdentityError>)
    requires
        scan_wf(*old(scan), part@),
    ensures
        match token_step(part@, input_len as nat, *limits, scan_view(*old(scan), old(budget)@), *token) {
            StepView::Next(v) => r matches Ok(true) && scan_view(*final(scan), final(budget)@) == v
                && scan_wf(*final(scan), part@),
            StepView::Stop(v) => r matches Ok(false) && scan_view(*final(scan), final(budget)@) == v
                && scan_wf(*final(scan), part@),
            StepView::Fail(e, b) => {
                &&& r matches Err(x) && error_matches(x, part@, e)
                &&& final(budget)@ == b
            },
        },
{
    match token {
        XmlToken::Start(element) => {
            element_step_exec(part, input_len, limits, scan, budget, element, true)?;
            Ok(true)
        },
        XmlToken::Empty(element) => {
            element_step_exec(part, input_len, limits, scan, budget, element, false)?;
            Ok(true)
        },
        XmlToken::End => {
            if scan.stack.len() == 0 {
                return Err(invalid_xml("closing element without an open element"));
            }
            let ghost frames = frames_view(scan.stack@);
            scan.stack.pop();
            assert(frames_view(scan.stack@) =~= frames.drop_last());
            Ok(true)
        },
        XmlToken::Text(bytes) => {
            if scan.stack.len() == 0 && has_non_whitespace(bytes) {
                return Err(invalid_xml("non-whitespace text outside the root element"));
            }
            Ok(true)
        },
        XmlToken::CData => {
            if scan.stack.len() == 0 {
                return Err(invalid_xml("CDATA outside the root element"));
            }
            Ok(true)
        },
        XmlToken::Other => Ok(true),
        XmlToken::Eof => Ok(false),
        XmlToken::Malformed(message) => Err(SourceIdentityError::InvalidXml(message.clone())),
    }
}

/// Once the scan has stopped or failed, later tokens do not change it.
proof fn lemma_scan_settled(
    part: Seq<char>,
    tokens: Seq<XmlToken>,
    input_len: nat,
    limits: ProcessingLimits,
    budget: BudgetCounters,
    k: nat,
    m: nat,
)
    requires
        k <= m,
        !(scan_tokens(part, tokens, input_len, limits, budget, k) is Next),
    ensures
        scan_tokens(part, tokens, input_len, limits, budget, m) == scan_tokens(
            part,
            tokens,
            input_len,
            limits,
            budget,
            k,
        ),
    decreases m,
{
    if k < m {
        lemma_scan_settled(part, tokens, input_len, limits, budget, k, (m - 1) as nat);
    }
}

/// The result and budget of an extraction match a scan's outcome.
pub open spec fn outcome_matches(
    r: Result<Vec<LocatedParagraphIdentity>, SourceIdentityError>,
    budget: BudgetCounters,
    part: Seq<char>,
    outcome: (Result<Seq<FoundView>, ScanError>, BudgetCounters),
) -> bool {
    &&& budget == outcome.1
    &&& match outcome.0 {
        Ok(found) => r matches Ok(v) && v@.len() == found.len() && forall|i: int|
            0 <= i < found.len() ==> found_matches(#[trigger] v@[i], part, i, found[i]),
        Err(e) => r matches Err(x) && error_matches(x, part, e),
    }
}

/// Identifies the paragraphs of one OPC part from its XML tokens: each
/// WordprocessingML paragraph gets its `w14:paraId` (uppercased) or else its
/// `path-v1` physical path, and the raw span of its opening tag within an
/// input of `input_len` bytes. Every element is charged against the budget.
pub fn paragraph_identities_from_tokens(
    part: &str,
    tokens: &Vec<XmlToken>,
    input_len: usize,
    budget: &mut PackageBudget,
    limits: &ProcessingLimits,
) -> (r: Result<Vec<LocatedParagraphIdentity>, SourceIdentityError>)
    ensures
        outcome_matches(
            r,
            final(budget)@,
            part@,
            scan_outcome(part@, tokens@, input_len as nat, *limits, old(budget)@),
        ),
{
    let ghost budget0 = budget@;
    let mut scan = Scan {
        stack: Vec::new(),
        root_counts: Vec::new(),
        root_seen: false,
        identities: Vec::new(),
        native_paths: HashMap::new(),
    };
    proof {
        broadcast use vstd::std_specs::hash::group_hash_axioms;

        assert(scan_view(scan, budget@) =~= initial_scan(budget0)) by {
            assert(frames_view(scan.stack@) =~= seq![]);
            assert(counts_view(scan.root_counts@) =~= seq![]);
            assert(native_view(scan.native_paths@) =~= Map::empty());
            assert(scan_view(scan, budget@).found =~= seq![]);
        }
    }
    let ghost n = tokens@.len();
    let mut i: usize = 0;
    let mut stopped = false;
    while i < tokens.len() && !stopped
        invariant
            i <= tokens.len(),
            n == tokens@.len(),
            budget0 == old(budget)@,
            scan_wf(scan, part@),
            !stopped ==> scan_tokens(part@, tokens@, input_len as nat, *limits, budget0, i as nat)
                == StepView::Next(scan_view(scan, budget@)),
            stopped ==> scan_tokens(part@, tokens@, input_len as nat, *limits, budget0, n)
                == StepView::Stop(scan_view(scan, budget@)),
        decreases tokens.len() - i,
    {
        let ghost before = scan_view(scan, budget@);
        assert(scan_tokens(part@, tokens@, input_len as nat, *limits, budget0, (i + 1) as nat)
            == token_step(part@, input_len as nat, *limits, before, tokens@[i as int]));
        match token_step_exec(part, input_len, limits, &mut scan, budget, &tokens[i]) {
            Ok(true) => {},
            Ok(false) => {
                proof {
                    lemma_scan_settled(
                        part@,
                        tokens@,
                        input_len as nat,
                        *limits,
                        budget0,
                        (i + 1) as nat,
                        n,
                    );
                }
                stopped = true;
            },
            Err(error) => {
                proof {
                    lemma_scan_settled(
                        part@,
                        tokens@,
                        input_len as nat,
                        *limits,
                        budget0,
                        (i + 1) as nat,
                        n,
                    );
                }
                return Err(error);
            },
        }
        i += 1;
    }
    let ghost last = scan_tokens(part@, tokens@, input_len as nat, *limits, budget0, n);
    assert(last == StepView::Next(scan_view(scan, budget@)) || last == StepView::Stop(
        scan_view(scan, budget@),
    ));
    if !scan.root_seen {
        return Err(invalid_xml("missing root element"));
    }
    if scan.stack.len() > 0 {
        return Err(invalid_xml("unclosed element at end of input"));
    }
    let ghost found = scan_view(scan, budget@).found;
    assert forall|k: int| 0 <= k < found.len() implies found_matches(
        #[trigger] scan.identities@[k],
        part@,
        k,
        found[k],
    ) by {
        assert(found[k] == found_of(scan.identities@[k]));
    }
    Ok(scan.identities)
}

/// Charging `n` input bytes read in chunks of at most 8192: the budget
/// afterwards, and the first limit exceeded, if any.
pub open spec fn charge_reads(before: BudgetCounters, n: nat, limits: ProcessingLimits) -> (
    BudgetCounters,
    Option<(Seq<char>, u64, u64)>,
)
    decreases n,
{
    if n == 0 {
        (before, None)
    } else {
        let chunk: u64 = if n > 8192 {
            8192
        } else {
            n as u64
        };
        let current = sat_add(before.current_entry_expanded_bytes, chunk);
        let total = sat_add(before.total_expanded_bytes, chunk);
        let after = BudgetCounters {
            current_entry_expanded_bytes: current,
            total_expanded_bytes: total,
            ..before
        };
        if current > limits.max_zip_entry_expanded_bytes {
            (
                after,
                Some(("expanded ZIP entry bytes"@, current, limits.max_zip_entry_expanded_bytes)),
            )
        } else if total > limits.max_zip_total_expanded_bytes {
            (after, Some(("total expanded ZIP bytes"@, total, limits.max_zip_total_expanded_bytes)))
        } else {
            charge_reads(after, (n - chunk) as nat, limits)
        }
    }
}

/// Extracting from an `xml_len`-byte part whose reader produced `tokens`:
/// the part name is checked, one ZIP entry is begun, every input byte is
/// charged before parsing, then the tokens are scanned.
pub open spec fn extraction_outcome(
    part: Seq<char>,
    xml_len: nat,
    tokens: Seq<XmlToken>,
    limits: ProcessingLimits,
    before: BudgetCounters,
) -> (Result<Seq<FoundView>, ScanError>, BudgetCounters) {
    if !is_canonical_part_name(part) {
        (Err(ScanError::InvalidPartName(part)), before)
    } else {
        let entries = sat_add(before.zip_entries, 1);
        if entries > limits.max_zip_entries {
            (
                Err(
                    ScanError::Limit {
                        resource: "ZIP entries"@,
                        observed: entries,
                        limit: limits.max_zip_entries,
                    },
                ),
                BudgetCounters { zip_entries: entries, ..before },
            )
        } else {
            let (charged, over) = charge_reads(
                BudgetCounters { zip_entries: entries, current_entry_expanded_bytes: 0, ..before },
                xml_len,
                limits,
            );
            match over {
                Some((resource, observed, limit)) => (
                    Err(ScanError::Limit { resource, observed, limit }),
                    charged,
                ),
                None => scan_outcome(part, tokens, xml_len, limits, charged),
            }
        }
    }
}

fn charge_input(budget: &mut PackageBudget, len: usize, limits: &ProcessingLimits) -> (r: Result<
    (),
    SourceIdentityError,
>)
    ensures
        final(budget)@ == charge_reads(old(budget)@, len as nat, *limits).0,
        match charge_reads(old(budget)@, len as nat, *limits).1 {
            None => r is Ok,
            Some((resource, observed, limit)) => r matches Err(SourceIdentityError::Limit(e))
                && e.resource@ == resource && e.observed == observed && e.limit == limit,
        },
{
    let ghost b0 = budget@;
    let mut offset: usize = 0;
    while offset < len
        invariant
            offset <= len,
            b0 == old(budget)@,
            charge_reads(b0, len as nat, *limits) == charge_reads(
                budget@,
                (len - offset) as nat,
                *limits,
            ),
        decreases len - offset,
    {
        let remaining = len - offset;
        let chunk: usize = if remaining > 8192 {
            8192
        } else {
            remaining
        };
        match budget.add_expanded_bytes(chunk as u64, limits) {
            Ok(()) => {},
            Err(e) => {
                return Err(SourceIdentityError::Limit(e));
            },
        }
        offset += chunk;
    }
    Ok(())
}

/// Extracts paragraph identities together with exact opening-tag byte ranges.
///
/// Validates the part name, begins one ZIP entry, charges every byte of
/// `xml` against the per-entry and total expanded-byte limits before XML
/// parsing begins, then scans the tokens quick-xml reads from `xml`
/// ([`xml_extraction`]). Ranges address the raw
/// bytes of `xml`, including any UTF-8 BOM, not decoded character positions.
/// They are parser transport metadata and must not be used as stable identities.
pub fn extract_paragraph_identities_with_spans(
    part: &str,
    xml: &[u8],
    budget: &mut PackageBudget,
    limits: &ProcessingLimits,
) -> (r: Result<Vec<LocatedParagraphIdentity>, SourceIdentityError>)
    ensures
        outcome_matches(r, final(budget)@, part@, xml_extraction(part@, xml@, *limits, old(budget)@)),
{
    let ghost b0 = budget@;
    if validate_part_name(part).is_err() {
        let r = Err(SourceIdentityError::InvalidPartName(String::from_str(part)));
        assert(outcome_matches(
            r,
            b0,
            part@,
            xml_extraction(part@, xml@, *limits, b0),
        ));
        return r;
    }
    match budget.begin_zip_entry(limits) {
        Ok(()) => {},
        Err(e) => {
            let r = Err(SourceIdentityError::Limit(e));
            assert(outcome_matches(
                r,
                budget@,
                part@,
                xml_extraction(part@, xml@, *limits, b0),
            ));
            return r;
        },
    }
    match charge_input(budget, xml.len(), limits) {
        Ok(()) => {},
        Err(e) => {
            let r = Err(e);
            assert(outcome_matches(
                r,
                budget@,
                part@,
                xml_extraction(part@, xml@, *limits, b0),
            ));
            return r;
        },
    }
    let tokens = read_tokens(xml);
    let r = paragraph_identities_from_tokens(part, &tokens, xml.len(), budget, limits);
    proof {
        lemma_xml_extraction(part@, xml@, tokens@, *limits, b0);
    }
    assert(outcome_matches(
        r,
        budget@,
        part@,
        extraction_outcome(part@, xml@.len(), tokens@, *limits, b0),
    ));
    r
}

/// A paragraph identity as this crate reports it, given its part and ordinal.
pub open spec fn identity_matches(r: ParagraphIdentity, part: Seq<char>, ordinal: int, f: FoundView) -> bool {
    &&& r.ordinal == ordinal
    &&& r.structural_path@ == f.path
    &&& r.source.part@ == part
    &&& r.source.id@ == f.id
    &&& r.source.identity == (if f.native {
        IdentityKind::ParaId
    } else {
        IdentityKind::GeneratedPath
    })
}

/// [`outcome_matches`] without the spans.
pub open spec fn identities_match(
    r: Result<Vec<ParagraphIdentity>, SourceIdentityError>,
    budget: BudgetCounters,
    part: Seq<char>,
    outcome: (Result<Seq<FoundView>, ScanError>, BudgetCounters),
) -> bool {
    &&& budget == outcome.1
    &&& match outcome.0 {
        Ok(found) => r matches Ok(v) && v@.len() == found.len() && forall|i: int|
            0 <= i < found.len() ==> identity_matches(#[trigger] v@[i], part, i, found[i]),
        Err(e) => r matches Err(x) && error_matches(x, part, e),
    }
}

/// Extracts physical WordprocessingML paragraph identities from one OPC story part.
///
/// Namespace prefixes, text, formatting, comments, and attribute order do not
/// participate in generated identities. `w14:paraId` values are matched by
/// namespace URI and emitted as uppercase hexadecimal.
///
/// Each call consumes one ZIP-entry budget and charges all bytes read against
/// the per-entry and total expanded-byte limits before XML parsing begins.
pub fn extract_paragraph_identities(
    part: &str,
    xml: &[u8],
    budget: &mut PackageBudget,
    limits: &ProcessingLimits,
) -> (r: Result<Vec<ParagraphIdentity>, SourceIdentityError>)
    ensures
        identities_match(r, final(budget)@, part@, xml_extraction(part@, xml@, *limits, old(budget)@)),
{
    let located = extract_paragraph_identities_with_spans(part, xml, budget, limits);
    let ghost outcome = xml_extraction(part@, xml@, *limits, old(budget)@);
    match located {
        Err(e) => {
            assert(identities_match(Err(e), budget@, part@, outcome));
            Err(e)
        },
        Ok(items) => {
            let mut out: Vec<ParagraphIdentity> = Vec::new();
            let ghost found = outcome.0->Ok_0;
            let mut items = items;
            let ghost all = items@;
            assert(all.len() == items.len());
            let mut k: usize = 0;
            while items.len() > 0
                invariant
                    k + items@.len() == all.len(),
                    all.len() <= usize::MAX,
                    items@ == all.skip(k as int),
                    out@.len() == k,
                    all.len() == found.len(),
                    forall|i: int| 0 <= i < all.len() ==> found_matches(#[trigger] all[i], part@, i, found[i]),
                    forall|i: int| 0 <= i < k ==> identity_matches(#[trigger] out@[i], part@, i, found[i]),
                decreases items@.len(),
            {
                let item = items.remove(0);
                assert(item == all[k as int]);
                assert(items@ =~= all.skip(k + 1));
                out.push(item.identity);
                k += 1;
            }
            assert(identities_match(Ok(out), budget@, part@, outcome));
            Ok(out)
        },
    }
}

impl SourceIdentityError {
    /// Renders the error for people.
    pub fn message(&self) -> (r: String)
        ensures
            r@ == identity_error_message(*self),
    {
        match self {
            SourceIdentityError::InvalidPartName(part) => {
                let mut out = String::from_str("invalid OPC part name ");
                out.append(crate::text::debug_string(part.as_str()).as_str());
                out
            },
            SourceIdentityError::InvalidXml(message) => {
                let mut out = String::from_str("invalid WordprocessingML: ");
                out.append(message.as_str());
                out
            },
            SourceIdentityError::InvalidParaId { part, path, value } => {
                let mut out = String::from_str("invalid w14:paraId ");
                out.append(crate::text::debug_string(value.as_str()).as_str());
                out.append(" at ");
                out.append(part.as_str());
                out.append(":");
                out.append(path.as_str());
                out.append(" (expected eight hexadecimal digits)");
                out
            },
            SourceIdentityError::DuplicateParaId { part, id, first_path, second_path } => {
                let mut out = String::from_str("duplicate w14:paraId ");
                out.append(id.as_str());
                out.append(" in ");
                out.append(part.as_str());
                out.append(" at ");
                out.append(first_path.as_str());
                out.append(" and ");
                out.append(second_path.as_str());
                out
            },
            SourceIdentityError::Limit(error) => error.message(),
        }
    }
}

/// The text of an extraction error.
pub open spec fn identity_error_message(e: SourceIdentityError) -> Seq<char> {
    match e {
        SourceIdentityError::InvalidPartName(part) => "invalid OPC part name "@ + debug_quoted(
            part@,
        ),
        SourceIdentityError::InvalidXml(message) => "invalid WordprocessingML: "@ + message@,
        SourceIdentityError::InvalidParaId { part, path, value } => "invalid w14:paraId "@
            + debug_quoted(value@) + " at "@ + part@ + ":"@ + path@
            + " (expected eight hexadecimal digits)"@,
        SourceIdentityError::DuplicateParaId { part, id, first_path, second_path } =>
            "duplicate w14:paraId "@ + id@ + " in "@ + part@ + " at "@ + first_path@ + " and "@
            + second_path@,
        SourceIdentityError::Limit(error) => error.resource@ + " exceeds limit of "@ + decimal(
            error.limit as nat,
        ) + " (observed "@ + decimal(error.observed as nat) + ")"@,
    }
}

impl From<LimitError> for SourceIdentityError {
    fn from(value: LimitError) -> (r: Self) {
        SourceIdentityError::Limit(value)
    }
}

impl vstd::std_specs::convert::FromSpecImpl<LimitError> for SourceIdentityError {
    open spec fn obeys_from_spec() -> bool {
        true
    }

    open spec fn from_spec(v: LimitError) -> Self {
        SourceIdentityError::Limit(v)
    }
}

} // verus!
verus! {

// ---------------------------------------------------------------------------
// What every scan keeps
// ---------------------------------------------------------------------------

/// Eight uppercase hexadecimal digits: the canonical spelling of a paraId.
pub open spec fn is_canonical_para_id(id: Seq<char>) -> bool {
    id.len() == 8 && forall|j: int| 0 <= j < 8 ==> is_upper_hex_digit(#[trigger] id[j])
}

/// The identities found so far are well formed: a native ID is canonical and
/// recorded by its number, a generated ID is its path, and no two native IDs
/// share a number.
pub open spec fn found_well_formed(s: ScanView) -> bool {
    &&& forall|i: int|
        0 <= i < s.found.len() ==> ((#[trigger] s.found[i]).native ==> is_canonical_para_id(
            s.found[i].id,
        ) && s.native.contains_key(hex_number(s.found[i].id)))
    &&& forall|i: int| 0 <= i < s.found.len() ==> (!(#[trigger] s.found[i]).native ==> s.found[i].id
        == s.found[i].path)
    &&& forall|i: int, j: int|
        0 <= i < j < s.found.len() && (#[trigger] s.found[i]).native && (#[trigger] s.found[j]).native
            ==> hex_number(s.found[i].id) != hex_number(s.found[j].id)
}

proof fn lemma_record_keeps(
    part: Seq<char>,
    s: ScanView,
    path: Seq<char>,
    attrs: Seq<Result<AttributeToken, String>>,
    start: nat,
    end: nat,
)
    requires
        found_well_formed(s),
    ensures
        record_view(part, s, path, attrs, start, end) matches Ok(v) ==> found_well_formed(v),
{
    lemma_para_id_shape(part, path, attrs, attrs.len());
    if let Ok(v) = record_view(part, s, path, attrs, start, end) {
        let n = s.found.len();
        assert(v.found.len() == n + 1);
        assert forall|i: int| 0 <= i < n implies v.found[i] == s.found[i] by {}
        if v.found[n as int].native {
            let id = v.found[n as int].id;
            assert forall|i: int, j: int|
                0 <= i < j < v.found.len() && (#[trigger] v.found[i]).native
                    && (#[trigger] v.found[j]).native implies hex_number(v.found[i].id) != hex_number(
                v.found[j].id,
            ) by {
                if j == n {
                    assert(s.native.contains_key(hex_number(s.found[i].id)));
                }
            }
        }
    }
}

proof fn lemma_step_keeps(
    part: Seq<char>,
    input_len: nat,
    limits: ProcessingLimits,
    s: ScanView,
    t: XmlToken,
)
    requires
        found_well_formed(s),
    ensures
        token_step(part, input_len, limits, s, t) matches StepView::Next(v) ==> found_well_formed(v),
        token_step(part, input_len, limits, s, t) matches StepView::Stop(v) ==> found_well_formed(v),
{
    match t {
        XmlToken::Start(e) => lemma_element_keeps(part, input_len, limits, s, e, true),
        XmlToken::Empty(e) => lemma_element_keeps(part, input_len, limits, s, e, false),
        _ => {},
    }
}

proof fn lemma_element_keeps(
    part: Seq<char>,
    input_len: nat,
    limits: ProcessingLimits,
    s: ScanView,
    e: ElementToken,
    is_start: bool,
)
    requires
        found_well_formed(s),
    ensures
        element_step(part, input_len, limits, s, e, is_start) matches StepView::Next(v)
            ==> found_well_formed(v),
{
    let s0 = if s.stack.len() == 0 {
        ScanView { root_seen: true, ..s }
    } else {
        s
    };
    if let Ok(ns) = namespace_text(e.namespace) {
        if let Ok(local) = utf8_text(e.local@) {
            if let Ok((s1, path, count)) = begin_element_view(s0, (ns, local), limits) {
                let (start, end) = tag_span(input_len, e, is_start);
                lemma_record_keeps(part, s1, path, e.attributes@, start, end);
            }
        }
    }
}

proof fn lemma_scan_keeps(
    part: Seq<char>,
    tokens: Seq<XmlToken>,
    input_len: nat,
    limits: ProcessingLimits,
    budget: BudgetCounters,
    k: nat,
)
    ensures
        scan_tokens(part, tokens, input_len, limits, budget, k) matches StepView::Next(v)
            ==> found_well_formed(v),
        scan_tokens(part, tokens, input_len, limits, budget, k) matches StepView::Stop(v)
            ==> found_well_formed(v),
    decreases k,
{
    if k > 0 {
        lemma_scan_keeps(part, tokens, input_len, limits, budget, (k - 1) as nat);
        if let StepView::Next(s) = scan_tokens(part, tokens, input_len, limits, budget, (k - 1) as nat) {
            lemma_step_keeps(part, input_len, limits, s, tokens[k - 1]);
        }
    }
}

/// Every identity of a successful scan is well formed: a native ID is eight
/// uppercase hexadecimal digits, a generated ID is the paragraph's structural
/// path, and no two paragraphs of the part share a native ID.
pub proof fn lemma_identities_are_canonical_and_unique(
    part: Seq<char>,
    tokens: Seq<XmlToken>,
    input_len: nat,
    limits: ProcessingLimits,
    budget: BudgetCounters,
)
    ensures
        scan_outcome(part, tokens, input_len, limits, budget).0 matches Ok(found) ==> {
            &&& forall|i: int|
                0 <= i < found.len() && (#[trigger] found[i]).native ==> is_canonical_para_id(
                    found[i].id,
                )
            &&& forall|i: int|
                0 <= i < found.len() && !(#[trigger] found[i]).native ==> found[i].id
                    == found[i].path
            &&& forall|i: int, j: int|
                0 <= i < j < found.len() && (#[trigger] found[i]).native
                    && (#[trigger] found[j]).native ==> found[i].id != found[j].id
        },
{
    lemma_scan_keeps(part, tokens, input_len, limits, budget, tokens.len());
    if let Ok(found) = scan_outcome(part, tokens, input_len, limits, budget).0 {
        assert forall|i: int, j: int|
            0 <= i < j < found.len() && (#[trigger] found[i]).native
                && (#[trigger] found[j]).native implies found[i].id != found[j].id by {
            assert(hex_number(found[i].id) != hex_number(found[j].id));
        }
    }
}

} // verus!
verus! {

/// `x + n`, saturating at `u64::MAX`.
pub open spec fn sat_total(x: u64, n: nat) -> u64 {
    if x + n > u64::MAX {
        u64::MAX
    } else {
        (x + n) as u64
    }
}

/// Charging reads touches only the expanded-byte counters, and when no limit
/// is exceeded it adds exactly `n` bytes to each.
pub proof fn lemma_charge_reads_adds_every_byte(
    before: BudgetCounters,
    n: nat,
    limits: ProcessingLimits,
)
    ensures
        charge_reads(before, n, limits).0.zip_entries == before.zip_entries,
        charge_reads(before, n, limits).0.xml_elements == before.xml_elements,
        charge_reads(before, n, limits).1 is None ==> {
            &&& charge_reads(before, n, limits).0.current_entry_expanded_bytes == sat_total(
                before.current_entry_expanded_bytes,
                n,
            )
            &&& charge_reads(before, n, limits).0.total_expanded_bytes == sat_total(
                before.total_expanded_bytes,
                n,
            )
        },
    decreases n,
{
    if n > 0 {
        let chunk: u64 = if n > 8192 {
            8192
        } else {
            n as u64
        };
        let after = BudgetCounters {
            current_entry_expanded_bytes: sat_add(before.current_entry_expanded_bytes, chunk),
            total_expanded_bytes: sat_add(before.total_expanded_bytes, chunk),
            ..before
        };
        lemma_charge_reads_adds_every_byte(after, (n - chunk) as nat, limits);
    }
}

/// Scanning tokens charges nothing but XML elements.
proof fn lemma_scan_budget(
    part: Seq<char>,
    tokens: Seq<XmlToken>,
    input_len: nat,
    limits: ProcessingLimits,
    budget: BudgetCounters,
    k: nat,
)
    ensures
        ({
            let b = match scan_tokens(part, tokens, input_len, limits, budget, k) {
                StepView::Next(s) => s.budget,
                StepView::Stop(s) => s.budget,
                StepView::Fail(_, b) => b,
            };
            b == BudgetCounters { xml_elements: b.xml_elements, ..budget }
        }),
    decreases k,
{
    if k > 0 {
        lemma_scan_budget(part, tokens, input_len, limits, budget, (k - 1) as nat);
    }
}

/// An extraction from a part with a canonical name begins exactly one ZIP
/// entry; with room for its bytes, it charges every byte of the input to the
/// entry and the package before parsing, and parsing then charges only XML
/// elements.
pub proof fn lemma_extraction_charges_once(
    part: Seq<char>,
    xml_len: nat,
    tokens: Seq<XmlToken>,
    limits: ProcessingLimits,
    before: BudgetCounters,
)
    requires
        is_canonical_part_name(part),
    ensures
        extraction_outcome(part, xml_len, tokens, limits, before).1.zip_entries == sat_add(
            before.zip_entries,
            1,
        ),
        sat_add(before.zip_entries, 1) <= limits.max_zip_entries && xml_len
            <= limits.max_zip_entry_expanded_bytes && sat_total(before.total_expanded_bytes, xml_len)
            <= limits.max_zip_total_expanded_bytes ==> {
            &&& extraction_outcome(part, xml_len, tokens, limits, before).1.current_entry_expanded_bytes
                == xml_len
            &&& extraction_outcome(part, xml_len, tokens, limits, before).1.total_expanded_bytes
                == sat_total(before.total_expanded_bytes, xml_len)
        },
{
    let entries = sat_add(before.zip_entries, 1);
    let begun = BudgetCounters { zip_entries: entries, current_entry_expanded_bytes: 0, ..before };
    lemma_charge_reads_adds_every_byte(begun, xml_len, limits);
    let (charged, over) = charge_reads(begun, xml_len, limits);
    lemma_scan_budget(part, tokens, xml_len, limits, charged, tokens.len());
    if entries <= limits.max_zip_entries && xml_len <= limits.max_zip_entry_expanded_bytes
        && sat_total(before.total_expanded_bytes, xml_len) <= limits.max_zip_total_expanded_bytes {
        lemma_charge_reads_within(begun, xml_len, limits);
    }
}

/// Reads that stay within both expanded-byte limits exceed neither.
proof fn lemma_charge_reads_within(before: BudgetCounters, n: nat, limits: ProcessingLimits)
    requires
        sat_total(before.current_entry_expanded_bytes, n) <= limits.max_zip_entry_expanded_bytes,
        sat_total(before.total_expanded_bytes, n) <= limits.max_zip_total_expanded_bytes,
    ensures
        charge_reads(before, n, limits).1 is None,
    decreases n,
{
    if n > 0 {
        let chunk: u64 = if n > 8192 {
            8192
        } else {
            n as u64
        };
        let after = BudgetCounters {
            current_entry_expanded_bytes: sat_add(before.current_entry_expanded_bytes, chunk),
            total_expanded_bytes: sat_add(before.total_expanded_bytes, chunk),
            ..before
        };
        lemma_charge_reads_within(after, (n - chunk) as nat, limits);
    }
}

} // verus!

verus! {

/// Escaped namespace text: no `}`, and every `%` starts `%25` or `%7D`.
spec fn escapes_ok(t: Seq<char>) -> bool {
    &&& forall|j: int| 0 <= j < t.len() ==> #[trigger] t[j] != '}'
    &&& forall|p: int|
        0 <= p < t.len() && #[trigger] t[p] == '%' ==> p + 2 < t.len() && (t[p + 1] == '2'
            && t[p + 2] == '5' || t[p + 1] == '7' && t[p + 2] == 'D')
}

proof fn lemma_escapes_ok_accepted(t: Seq<char>)
    requires
        escapes_ok(t),
    ensures
        is_escaped_namespace(t),
    decreases t.len(),
{
    lemma_find_char(t, '%');
    match find_char(t, '%') {
        Some(p) => {
            let p = p as int;
            assert(t[p] == '%');
            let r = t.skip(p + 3);
            assert forall|j: int| 0 <= j < r.len() implies #[trigger] r[j] != '}' by {
                assert(r[j] == t[j + p + 3]);
            }
            assert forall|q: int| 0 <= q < r.len() && #[trigger] r[q] == '%' implies q + 2 < r.len()
                && (r[q + 1] == '2' && r[q + 2] == '5' || r[q + 1] == '7' && r[q + 2] == 'D') by {
                assert(r[q] == t[q + p + 3]);
                assert(t[q + p + 3] == '%');
            }
            lemma_escapes_ok_accepted(r);
        },
        None => {
            lemma_find_char_none(t, '}');
        },
    }
}

proof fn lemma_escaped_namespace_ok(ns: Seq<char>)
    ensures
        escapes_ok(escaped_namespace(ns)),
    decreases ns.len(),
{
    if ns.len() > 0 {
        lemma_escaped_namespace_ok(ns.drop_first());
        let rest = escaped_namespace(ns.drop_first());
        let head = if ns[0] == '%' {
            seq!['%', '2', '5']
        } else if ns[0] == '}' {
            seq!['%', '7', 'D']
        } else {
            seq![ns[0]]
        };
        let t = escaped_namespace(ns);
        assert(t == head + rest);
        let h = head.len() as int;
        assert forall|j: int| 0 <= j < t.len() implies #[trigger] t[j] != '}' by {
            if j >= h {
                assert(t[j] == rest[j - h]);
            }
        }
        assert forall|p: int| 0 <= p < t.len() && #[trigger] t[p] == '%' implies p + 2 < t.len()
            && (t[p + 1] == '2' && t[p + 2] == '5' || t[p + 1] == '7' && t[p + 2] == 'D') by {
            if p >= h {
                assert(t[p] == rest[p - h]);
                assert(t[p + 1] == rest[p + 1 - h]);
                assert(t[p + 2] == rest[p + 2 - h]);
            }
        }
    }
}

/// A generated step `/Q{namespace}local[index]` followed by anything is read back
/// as exactly that step.
proof fn lemma_step_is_read_back(ns: Seq<char>, local: Seq<char>, index: u64, rest: Seq<char>)
    requires
        is_ncname(local),
        index >= 1,
    ensures
        first_path_step(("/"@ + path_step(ns, local, index)) + rest) == Some(
            ("/"@ + path_step(ns, local, index)).len(),
        ),
{
    reveal_strlit("/");
    reveal_strlit("Q{");
    reveal_strlit("}");
    reveal_strlit("[");
    reveal_strlit("]");
    let e = escaped_namespace(ns);
    let d = decimal(index as nat);
    let x = "/"@ + path_step(ns, local, index);
    let s = x + rest;
    assert(x =~= seq!['/', 'Q', '{'] + (e + (seq!['}'] + (local + (seq!['['] + (d + seq![']']))))));
    assert(s[0] == '/' && s[1] == 'Q' && s[2] == '{');
    let step = s.skip(3);
    assert(step =~= e + (seq!['}'] + (local + (seq!['['] + (d + (seq![']'] + rest))))));
    lemma_escaped_namespace_ok(ns);
    lemma_escapes_ok_accepted(e);
    assert forall|j: int| 0 <= j < e.len() implies step[j] != '}' by {
        assert(step[j] == e[j]);
    }
    lemma_find_char_exact(step, '}', e.len());
    let after = step.skip(e.len() as int + 1);
    assert(after =~= local + (seq!['['] + (d + (seq![']'] + rest))));
    assert forall|j: int| 0 <= j < local.len() implies after[j] != '[' by {
        assert(after[j] == local[j]);
        if j == 0 {
            assert(crate::source_identity::is_xml_name_start(local[j]));
        } else {
            assert(crate::source_identity::is_xml_name_character(local[j]));
        }
    }
    lemma_find_char_exact(after, '[', local.len());
    let after_index = after.skip(local.len() as int + 1);
    assert(after_index =~= d + (seq![']'] + rest));
    lemma_decimal_is_canonical(index as nat);
    assert forall|j: int| 0 <= j < d.len() implies after_index[j] != ']' by {
        assert(after_index[j] == d[j]);
        assert(is_ascii_digit(d[j]));
    }
    lemma_find_char_exact(after_index, ']', d.len());
    assert(step.take(e.len() as int) =~= e);
    assert(after.take(local.len() as int) =~= local);
    assert(after_index.take(d.len() as int) =~= d);
}

/// A step `Q{namespace}local[index]` generated from an NCName `local` and a
/// positive index.
pub open spec fn is_generated_step(step: Seq<char>) -> bool {
    exists|ns: Seq<char>, local: Seq<char>, index: u64|
        #![trigger path_step(ns, local, index)]
        is_ncname(local) && index >= 1 && step == path_step(ns, local, index)
}

/// Steps in front of a run of steps still form a run of steps.
proof fn lemma_stack_steps(stack: Seq<FrameView>, tail: Seq<char>)
    requires
        forall|i: int| 0 <= i < stack.len() ==> is_generated_step(#[trigger] stack[i].step),
        are_path_steps(tail),
    ensures
        are_path_steps(stack_path(stack) + tail),
    decreases stack.len(),
{
    reveal_strlit("/");
    if stack.len() == 0 {
        assert(stack_path(stack) + tail =~= tail);
    } else {
        let n = stack.len() - 1;
        let x = "/"@ + stack[n].step;
        assert(is_generated_step(stack[n].step));
        let (ns, local, index) = choose|ns: Seq<char>, local: Seq<char>, index: u64|
            #![trigger path_step(ns, local, index)]
            is_ncname(local) && index >= 1 && stack[n].step == path_step(ns, local, index);
        lemma_step_is_read_back(ns, local, index, tail);
        assert((x + tail).skip(x.len() as int) =~= tail);
        assert(are_path_steps(x + tail));
        let inner = stack.drop_last();
        assert forall|i: int| 0 <= i < inner.len() implies is_generated_step(#[trigger] inner[i].step) by {
            assert(inner[i] == stack[i]);
        }
        lemma_stack_steps(inner, x + tail);
        assert(stack_path(stack) + tail =~= stack_path(inner) + (x + tail));
    }
}

/// The structural path given to an element is one that the `path-v1` grammar
/// accepts, whenever the steps of the open elements were generated from NCNames
/// and positive indices, and so were the element's own local name and index:
/// every step is read back as written.
pub proof fn lemma_generated_paths_are_structural(
    stack: Seq<FrameView>,
    key: NameKey,
    count: u64,
)
    requires
        forall|i: int| 0 <= i < stack.len() ==> is_generated_step(#[trigger] stack[i].step),
        is_ncname(key.1),
        count >= 1,
    ensures
        is_structural_path("path-v1:"@ + stack_path(stack) + "/"@ + path_step(key.0, key.1, count)),
{
    reveal_strlit("path-v1:");
    reveal_strlit("/");
    let x = "/"@ + path_step(key.0, key.1, count);
    lemma_step_is_read_back(key.0, key.1, count, seq![]);
    assert(x + seq![] =~= x);
    assert(first_path_step(x) == Some(x.len()));
    assert(are_path_steps(Seq::<char>::empty()));
    assert(x.skip(x.len() as int) =~= Seq::<char>::empty());
    assert(are_path_steps(x));
    lemma_stack_steps(stack, x);
    let p = "path-v1:"@ + stack_path(stack) + "/"@ + path_step(key.0, key.1, count);
    assert(p =~= "path-v1:"@ + (stack_path(stack) + x));
    assert(p.take(8) =~= "path-v1:"@);
    assert(p.skip(8) =~= stack_path(stack) + x);
}

/// The path with which an element is begun is a valid structural path, given
/// open elements whose steps were generated from NCNames and positive indices
/// and an element whose local name is an NCName. The element's index is
/// positive and the open elements' steps are kept.
pub proof fn lemma_begun_paths_are_structural(
    stack: Seq<FrameView>,
    root: NameCounts,
    before: BudgetCounters,
    key: NameKey,
    limits: ProcessingLimits,
)
    requires
        forall|i: int| 0 <= i < stack.len() ==> is_generated_step(#[trigger] stack[i].step),
        is_ncname(key.1),
    ensures
        begin_parts(stack, root, before, key, limits) matches Ok((after, _, _, path, count)) ==> {
            &&& is_structural_path(path)
            &&& count >= 1
            &&& after.len() == stack.len()
            &&& forall|i: int| 0 <= i < after.len() ==> (#[trigger] after[i]).step == stack[i].step
        },
{
    let counts = if stack.len() == 0 {
        root
    } else {
        stack[stack.len() - 1].counts
    };
    let count = next_count(counts, key);
    assert(count >= 1);
    lemma_generated_paths_are_structural(stack, key, count);
    if stack.len() == 0 {
        assert(stack_path(stack) =~= Seq::<char>::empty());
        assert("path-v1:"@ + stack_path(stack) + "/"@ + path_step(key.0, key.1, count)
            =~= "path-v1:"@ + "/"@ + path_step(key.0, key.1, count));
    }
}

/// An element token whose local name, where it decodes, is an NCName.
pub open spec fn local_name_is_ncname(t: XmlToken) -> bool {
    match t {
        XmlToken::Start(e) => utf8_text(e.local@) matches Ok(l) ==> is_ncname(l),
        XmlToken::Empty(e) => utf8_text(e.local@) matches Ok(l) ==> is_ncname(l),
        _ => true,
    }
}

/// The open elements have generated steps and every paragraph found so far
/// has a valid structural path.
pub open spec fn paths_generated(s: ScanView) -> bool {
    &&& forall|i: int| 0 <= i < s.stack.len() ==> is_generated_step(#[trigger] s.stack[i].step)
    &&& forall|i: int| 0 <= i < s.found.len() ==> is_structural_path(#[trigger] s.found[i].path)
}

proof fn lemma_element_keeps_paths(
    part: Seq<char>,
    input_len: nat,
    limits: ProcessingLimits,
    s: ScanView,
    e: ElementToken,
    is_start: bool,
)
    requires
        paths_generated(s),
        utf8_text(e.local@) matches Ok(l) ==> is_ncname(l),
    ensures
        element_step(part, input_len, limits, s, e, is_start) matches StepView::Next(v)
            ==> paths_generated(v),
{
    let s0 = if s.stack.len() == 0 {
        ScanView { root_seen: true, ..s }
    } else {
        s
    };
    if let Ok(ns) = namespace_text(e.namespace) {
        if let Ok(local) = utf8_text(e.local@) {
            lemma_begun_paths_are_structural(s0.stack, s0.root_counts, s0.budget, (ns, local), limits);
            if let Ok((s1, path, count)) = begin_element_view(s0, (ns, local), limits) {
                assert forall|i: int| 0 <= i < s1.stack.len() implies is_generated_step(#[trigger] s1.stack[i].step) by {
                    assert(s1.stack[i].step == s0.stack[i].step);
                }
                let (start, end) = tag_span(input_len, e, is_start);
                let recorded = if is_paragraph_name(ns, local) {
                    record_view(part, s1, path, e.attributes@, start, end)
                } else {
                    Ok(s1)
                };
                if let Ok(s2) = recorded {
                    assert(s2.stack == s1.stack);
                    assert forall|i: int| 0 <= i < s2.found.len() implies is_structural_path(#[trigger] s2.found[i].path) by {
                        if i < s1.found.len() {
                            assert(s2.found[i] == s1.found[i]);
                        }
                    }
                    if is_start {
                        let step = path_step(ns, local, count);
                        assert(is_generated_step(step));
                        let pushed = s2.stack.push(FrameView { step, counts: seq![] });
                        assert forall|i: int| 0 <= i < pushed.len() implies is_generated_step(#[trigger] pushed[i].step) by {
                            if i < s2.stack.len() {
                                assert(pushed[i] == s2.stack[i]);
                            }
                        }
                    }
                }
            }
        }
    }
}

proof fn lemma_scan_keeps_paths(
    part: Seq<char>,
    tokens: Seq<XmlToken>,
    input_len: nat,
    limits: ProcessingLimits,
    budget: BudgetCounters,
    k: nat,
)
    requires
        k <= tokens.len(),
        forall|i: int| 0 <= i < tokens.len() ==> local_name_is_ncname(#[trigger] tokens[i]),
    ensures
        scan_tokens(part, tokens, input_len, limits, budget, k) matches StepView::Next(v)
            ==> paths_generated(v),
        scan_tokens(part, tokens, input_len, limits, budget, k) matches StepView::Stop(v)
            ==> paths_generated(v),
    decreases k,
{
    if k > 0 {
        lemma_scan_keeps_paths(part, tokens, input_len, limits, budget, (k - 1) as nat);
        if let StepView::Next(s) = scan_tokens(part, tokens, input_len, limits, budget, (k - 1) as nat) {
            assert(local_name_is_ncname(tokens[k - 1]));
            match tokens[k - 1] {
                XmlToken::Start(e) => lemma_element_keeps_paths(part, input_len, limits, s, e, true),
                XmlToken::Empty(e) => lemma_element_keeps_paths(part, input_len, limits, s, e, false),
                XmlToken::End => {
                    if s.stack.len() > 0 {
                        let v = s.stack.drop_last();
                        assert forall|i: int| 0 <= i < v.len() implies is_generated_step(#[trigger] v[i].step) by {
                            assert(v[i] == s.stack[i]);
                        }
                    }
                },
                _ => {},
            }
        }
    }
}

/// Every paragraph that an extraction finds has a structural path that the
/// `path-v1` grammar accepts (and so `is_valid_structural_path`), whenever the
/// local names of the elements read are XML NCNames.
pub proof fn lemma_extracted_paths_are_structural(
    part: Seq<char>,
    xml_len: nat,
    tokens: Seq<XmlToken>,
    limits: ProcessingLimits,
    before: BudgetCounters,
)
    requires
        forall|i: int| 0 <= i < tokens.len() ==> local_name_is_ncname(#[trigger] tokens[i]),
    ensures
        extraction_outcome(part, xml_len, tokens, limits, before).0 matches Ok(found) ==> forall|i: int|
            0 <= i < found.len() ==> is_structural_path(#[trigger] found[i].path),
{
    if is_canonical_part_name(part) {
        let entries = sat_add(before.zip_entries, 1);
        let (charged, over) = charge_reads(
            BudgetCounters { zip_entries: entries, current_entry_expanded_bytes: 0, ..before },
            xml_len,
            limits,
        );
        lemma_scan_keeps_paths(part, tokens, xml_len, limits, charged, tokens.len());
    }
}

// ---------------------------------------------------------------------------
// The scan reads tokens only through their views
// ---------------------------------------------------------------------------

proof fn lemma_namespace_text_views(a: Namespace, b: Namespace)
    requires
        namespace_view(a) == namespace_view(b),
    ensures
        namespace_text(a) == namespace_text(b),
{
    match a {
        Namespace::Bound(x) => {
            if let Namespace::Bound(y) = b {
                assert(x@ == y@);
            }
        },
        Namespace::Unbound => {},
        Namespace::Unknown(x) => {
            if let Namespace::Unknown(y) = b {
                assert(x@ == y@);
            }
        },
    }
}

proof fn lemma_para_id_scan_views(
    part: Seq<char>,
    path: Seq<char>,
    a: Seq<Result<AttributeToken, String>>,
    b: Seq<Result<AttributeToken, String>>,
    k: nat,
)
    requires
        a.len() == b.len(),
        k <= a.len(),
        forall|i: int| 0 <= i < a.len() ==> attribute_view(#[trigger] a[i]) == attribute_view(b[i]),
    ensures
        para_id_scan(part, path, a, k) == para_id_scan(part, path, b, k),
    decreases k,
{
    if k > 0 {
        lemma_para_id_scan_views(part, path, a, b, (k - 1) as nat);
        let i = k - 1;
        assert(attribute_view(a[i]) == attribute_view(b[i]));
        match a[i] {
            Ok(x) => {
                if let Ok(y) = b[i] {
                    lemma_namespace_text_views(x.namespace, y.namespace);
                    assert(x.local@ == y.local@);
                    match x.value {
                        Ok(v) => {
                            if let Ok(w) = y.value {
                                assert(v@ == w@);
                            }
                        },
                        Err(m) => {
                            if let Err(n) = y.value {
                                assert(m@ == n@);
                            }
                        },
                    }
                }
            },
            Err(m) => {
                if let Err(n) = b[i] {
                    assert(m@ == n@);
                }
            },
        }
    }
}

proof fn lemma_element_step_views(
    part: Seq<char>,
    input_len: nat,
    limits: ProcessingLimits,
    s: ScanView,
    a: ElementToken,
    b: ElementToken,
    is_start: bool,
)
    requires
        element_view(a) == element_view(b),
    ensures
        element_step(part, input_len, limits, s, a, is_start) == element_step(
            part,
            input_len,
            limits,
            s,
            b,
            is_start,
        ),
{
    lemma_namespace_text_views(a.namespace, b.namespace);
    assert(a.local@ == b.local@);
    let av = a.attributes@;
    let bv = b.attributes@;
    assert(av.map_values(|x: Result<AttributeToken, String>| attribute_view(x)) == bv.map_values(
        |x: Result<AttributeToken, String>| attribute_view(x),
    ));
    assert(av.len() == bv.len()) by {
        assert(av.map_values(|x: Result<AttributeToken, String>| attribute_view(x)).len() == av.len());
    }
    assert forall|i: int| 0 <= i < av.len() implies attribute_view(#[trigger] av[i]) == attribute_view(bv[i]) by {
        assert(av.map_values(|x: Result<AttributeToken, String>| attribute_view(x))[i] == attribute_view(av[i]));
        assert(bv.map_values(|x: Result<AttributeToken, String>| attribute_view(x))[i] == attribute_view(bv[i]));
    }
    assert forall|path: Seq<char>| #[trigger] para_id_scan(part, path, av, av.len()) == para_id_scan(part, path, bv, bv.len()) by {
        lemma_para_id_scan_views(part, path, av, bv, av.len());
    }
}

proof fn lemma_token_step_views(
    part: Seq<char>,
    input_len: nat,
    limits: ProcessingLimits,
    s: ScanView,
    a: XmlToken,
    b: XmlToken,
)
    requires
        token_view(a) == token_view(b),
    ensures
        token_step(part, input_len, limits, s, a) == token_step(part, input_len, limits, s, b),
{
    match a {
        XmlToken::Start(x) => {
            if let XmlToken::Start(y) = b {
                lemma_element_step_views(part, input_len, limits, s, x, y, true);
            }
        },
        XmlToken::Empty(x) => {
            if let XmlToken::Empty(y) = b {
                lemma_element_step_views(part, input_len, limits, s, x, y, false);
            }
        },
        XmlToken::Text(x) => {
            if let XmlToken::Text(y) = b {
                assert(x@ == y@);
            }
        },
        XmlToken::Malformed(x) => {
            if let XmlToken::Malformed(y) = b {
                assert(x@ == y@);
            }
        },
        _ => {},
    }
}

proof fn lemma_scan_tokens_views(
    part: Seq<char>,
    a: Seq<XmlToken>,
    b: Seq<XmlToken>,
    input_len: nat,
    limits: ProcessingLimits,
    budget: BudgetCounters,
    k: nat,
)
    requires
        token_views(a) == token_views(b),
        k <= a.len(),
    ensures
        scan_tokens(part, a, input_len, limits, budget, k) == scan_tokens(part, b, input_len, limits, budget, k),
    decreases k,
{
    assert(a.len() == token_views(a).len());
    assert(b.len() == token_views(b).len());
    if k > 0 {
        lemma_scan_tokens_views(part, a, b, input_len, limits, budget, (k - 1) as nat);
        let i = k - 1;
        assert(token_views(a)[i] == token_view(a[i]));
        assert(token_views(b)[i] == token_view(b[i]));
        if let StepView::Next(s) = scan_tokens(part, a, input_len, limits, budget, (k - 1) as nat) {
            lemma_token_step_views(part, input_len, limits, s, a[i], b[i]);
        }
    }
}

/// The scan, and so the extraction, reads its tokens only through their
/// views: token lists that read alike give the same outcome.
pub proof fn lemma_extraction_reads_token_views(
    part: Seq<char>,
    xml_len: nat,
    a: Seq<XmlToken>,
    b: Seq<XmlToken>,
    limits: ProcessingLimits,
    before: BudgetCounters,
)
    requires
        token_views(a) == token_views(b),
    ensures
        extraction_outcome(part, xml_len, a, limits, before) == extraction_outcome(part, xml_len, b, limits, before),
        forall|budget: BudgetCounters| #[trigger] scan_outcome(part, a, xml_len, limits, budget) == scan_outcome(part, b, xml_len, limits, budget),
{
    assert(a.len() == token_views(a).len());
    assert(b.len() == token_views(b).len());
    assert forall|budget: BudgetCounters| #[trigger] scan_outcome(part, a, xml_len, limits, budget) == scan_outcome(part, b, xml_len, limits, budget) by {
        lemma_scan_tokens_views(part, a, b, xml_len, limits, budget, a.len());
    }
}

/// What extracting the paragraphs of `part` from the XML bytes `xml` gives: the
/// outcome over the tokens quick-xml reads from those bytes. Which token
/// values stand for those tokens does not matter, by
/// [`lemma_extraction_reads_token_views`].
pub open spec fn xml_extraction(
    part: Seq<char>,
    xml: Seq<u8>,
    limits: ProcessingLimits,
    before: BudgetCounters,
) -> (Result<Seq<FoundView>, ScanError>, BudgetCounters) {
    let tokens = choose|tokens: Seq<XmlToken>| token_views(tokens) == xml_tokens(xml);
    extraction_outcome(part, xml.len(), tokens, limits, before)
}

/// Any token values that read as the tokens of `xml` give [`xml_extraction`].
pub proof fn lemma_xml_extraction(
    part: Seq<char>,
    xml: Seq<u8>,
    tokens: Seq<XmlToken>,
    limits: ProcessingLimits,
    before: BudgetCounters,
)
    requires
        token_views(tokens) == xml_tokens(xml),
    ensures
        xml_extraction(part, xml, limits, before) == extraction_outcome(part, xml.len(), tokens, limits, before),
{
    let chosen = choose|t: Seq<XmlToken>| token_views(t) == xml_tokens(xml);
    assert(token_views(chosen) == xml_tokens(xml));
    lemma_extraction_reads_token_views(part, xml.len(), chosen, tokens, limits, before);
}


// ---------------------------------------------------------------------------
// What paragraph identities depend on
// ---------------------------------------------------------------------------

/// The part of a token that paragraph identities depend on: an element opened,
/// with its resolved namespace, its decoded local name and, for a paragraph,
/// the native ID its attributes hold (`None` when they are malformed), or an
/// element closed. Text, CDATA, comments, processing instructions, namespace
/// prefixes, attribute order, attributes other than `w14:paraId` and the byte
/// positions of tags are not part of it.
pub enum SkeletonToken {
    Open { ns: Result<Seq<char>, Seq<char>>, local: Result<Seq<char>, Seq<char>>, native: Option<Option<Seq<char>>> },
    Close,
}

/// The native ID that the attributes of a paragraph hold, or `None` when they
/// are malformed.
pub open spec fn native_of(part: Seq<char>, attrs: Seq<Result<AttributeToken, String>>) -> Option<
    Option<Seq<char>>,
> {
    match para_id_scan(part, seq![], attrs, attrs.len()) {
        Ok(found) => Some(found),
        Err(_) => None,
    }
}

pub open spec fn open_of(part: Seq<char>, e: ElementToken) -> SkeletonToken {
    let ns = namespace_text(e.namespace);
    let local = utf8_text(e.local@);
    let native = match (ns, local) {
        (Ok(n), Ok(l)) => if is_paragraph_name(n, l) {
            native_of(part, e.attributes@)
        } else {
            Some(None)
        },
        _ => Some(None),
    };
    SkeletonToken::Open { ns, local, native }
}

/// The skeleton of the first `k` tokens, and whether the end of input came
/// among them (after which nothing is read).
pub open spec fn skeleton_prefix(part: Seq<char>, tokens: Seq<XmlToken>, k: nat) -> (Seq<SkeletonToken>, bool)
    decreases k,
{
    if k == 0 {
        (seq![], false)
    } else {
        let (p, stopped) = skeleton_prefix(part, tokens, (k - 1) as nat);
        if stopped {
            (p, true)
        } else {
            match tokens[k - 1] {
                XmlToken::Start(e) => (p.push(open_of(part, e)), false),
                XmlToken::Empty(e) => (p.push(open_of(part, e)).push(SkeletonToken::Close), false),
                XmlToken::End => (p.push(SkeletonToken::Close), false),
                XmlToken::Eof => (p, true),
                _ => (p, false),
            }
        }
    }
}

/// The skeleton of a token list: what its paragraph identities depend on.
pub open spec fn skeleton(part: Seq<char>, tokens: Seq<XmlToken>) -> Seq<SkeletonToken> {
    skeleton_prefix(part, tokens, tokens.len()).0
}

/// Records a paragraph at `path` with the native ID its attributes hold.
pub open spec fn skeleton_record(s: ScanView, path: Seq<char>, native: Option<Option<Seq<char>>>) -> Option<ScanView> {
    match native {
        None => None,
        Some(Some(id)) => if s.native.contains_key(hex_number(id)) {
            None
        } else {
            Some(
                ScanView {
                    native: s.native.insert(hex_number(id), path),
                    found: s.found.push(FoundView { path, id, native: true, start: 0, end: 0 }),
                    ..s
                },
            )
        },
        Some(None) => Some(
            ScanView { found: s.found.push(FoundView { path, id: path, native: false, start: 0, end: 0 }), ..s },
        ),
    }
}

/// One step of the scan over a skeleton; `None` where the scan fails.
pub open spec fn skeleton_step(limits: ProcessingLimits, s: ScanView, t: SkeletonToken) -> Option<ScanView> {
    match t {
        SkeletonToken::Close => if s.stack.len() == 0 {
            None
        } else {
            Some(ScanView { stack: s.stack.drop_last(), ..s })
        },
        SkeletonToken::Open { ns, local, native } => if s.stack.len() == 0 && s.root_seen {
            None
        } else {
            let s0 = if s.stack.len() == 0 {
                ScanView { root_seen: true, ..s }
            } else {
                s
            };
            match (ns, local) {
                (Ok(ns), Ok(local)) => match begin_element_view(s0, (ns, local), limits) {
                    Err(_) => None,
                    Ok((s1, path, count)) => {
                        let recorded = if is_paragraph_name(ns, local) {
                            skeleton_record(s1, path, native)
                        } else {
                            Some(s1)
                        };
                        match recorded {
                            None => None,
                            Some(s2) => Some(
                                ScanView {
                                    stack: s2.stack.push(FrameView { step: path_step(ns, local, count), counts: seq![] }),
                                    ..s2
                                },
                            ),
                        }
                    },
                },
                _ => None,
            }
        },
    }
}

/// The scan over a skeleton, from a budget that has counted `elements` XML elements.
pub open spec fn skeleton_run(limits: ProcessingLimits, elements: u64, sk: Seq<SkeletonToken>) -> Option<ScanView>
    decreases sk.len(),
{
    if sk.len() == 0 {
        Some(initial_scan(BudgetCounters { zip_entries: 0, current_entry_expanded_bytes: 0, total_expanded_bytes: 0, xml_elements: elements }))
    } else {
        match skeleton_run(limits, elements, sk.drop_last()) {
            None => None,
            Some(s) => skeleton_step(limits, s, sk.last()),
        }
    }
}

/// The paragraphs a skeleton gives, as a scan of the whole input does.
pub open spec fn skeleton_outcome(limits: ProcessingLimits, elements: u64, sk: Seq<SkeletonToken>) -> Option<Seq<FoundView>> {
    match skeleton_run(limits, elements, sk) {
        None => None,
        Some(t) => if !t.root_seen || t.stack.len() > 0 {
            None
        } else {
            Some(t.found)
        },
    }
}

/// Two lists of paragraphs with the same paths and identities, in order.
pub open spec fn same_identities(a: Seq<FoundView>, b: Seq<FoundView>) -> bool {
    &&& a.len() == b.len()
    &&& forall|i: int|
        0 <= i < a.len() ==> (#[trigger] a[i]).path == b[i].path && a[i].id == b[i].id && a[i].native == b[i].native
}

/// A scan state and a skeleton state that agree on everything but byte spans
/// and the byte counters of the budget.
pub open spec fn agrees(s: ScanView, t: ScanView) -> bool {
    &&& s.stack == t.stack
    &&& s.root_counts == t.root_counts
    &&& s.root_seen == t.root_seen
    &&& s.native == t.native
    &&& s.budget.xml_elements == t.budget.xml_elements
    &&& same_identities(s.found, t.found)
}

/// A native ID found among the attributes does not depend on the paragraph's path.
proof fn lemma_para_id_path_free(
    part: Seq<char>,
    p: Seq<char>,
    q: Seq<char>,
    attrs: Seq<Result<AttributeToken, String>>,
    k: nat,
)
    ensures
        para_id_scan(part, p, attrs, k) is Ok <==> para_id_scan(part, q, attrs, k) is Ok,
        para_id_scan(part, p, attrs, k) matches Ok(x) ==> para_id_scan(part, q, attrs, k) == Ok::<Option<Seq<char>>, ScanError>(x),
    decreases k,
{
    if k > 0 {
        lemma_para_id_path_free(part, p, q, attrs, (k - 1) as nat);
    }
}

proof fn lemma_element_agrees(
    part: Seq<char>,
    input_len: nat,
    limits: ProcessingLimits,
    s: ScanView,
    t: ScanView,
    e: ElementToken,
    is_start: bool,
)
    requires
        agrees(s, t),
    ensures
        element_step(part, input_len, limits, s, e, is_start) matches StepView::Next(v) ==> {
            let opened = skeleton_step(limits, t, open_of(part, e));
            &&& opened matches Some(w)
            &&& if is_start {
                agrees(v, w)
            } else {
                skeleton_step(limits, w, SkeletonToken::Close) matches Some(x) && agrees(v, x)
            }
        },
{
    let s0 = if s.stack.len() == 0 {
        ScanView { root_seen: true, ..s }
    } else {
        s
    };
    let t0 = if t.stack.len() == 0 {
        ScanView { root_seen: true, ..t }
    } else {
        t
    };
    if let StepView::Next(v) = element_step(part, input_len, limits, s, e, is_start) {
        let ns = namespace_text(e.namespace)->Ok_0;
        let local = utf8_text(e.local@)->Ok_0;
        let (s1, path, count) = begin_element_view(s0, (ns, local), limits)->Ok_0;
        assert(begin_element_view(t0, (ns, local), limits) is Ok);
        let (t1, tpath, tcount) = begin_element_view(t0, (ns, local), limits)->Ok_0;
        assert(path == tpath && count == tcount);
        assert(agrees(s1, t1));
        let (start, end) = tag_span(input_len, e, is_start);
        if is_paragraph_name(ns, local) {
            let attrs = e.attributes@;
            lemma_para_id_path_free(part, path, seq![], attrs, attrs.len());
            let s2 = record_view(part, s1, path, attrs, start, end)->Ok_0;
            let t2 = skeleton_record(t1, path, native_of(part, attrs))->Some_0;
            assert(s2.found.len() == t2.found.len());
            assert forall|i: int| 0 <= i < s2.found.len() implies (#[trigger] s2.found[i]).path == t2.found[i].path
                && s2.found[i].id == t2.found[i].id && s2.found[i].native == t2.found[i].native by {
                if i < s1.found.len() {
                    assert(s2.found[i] == s1.found[i]);
                    assert(t2.found[i] == t1.found[i]);
                }
            }
            assert(agrees(s2, t2));
            if !is_start {
                let w = ScanView { stack: t2.stack.push(FrameView { step: path_step(ns, local, count), counts: seq![] }), ..t2 };
                assert(w.stack.drop_last() =~= t2.stack);
            }
        } else {
            if !is_start {
                let w = ScanView { stack: t1.stack.push(FrameView { step: path_step(ns, local, count), counts: seq![] }), ..t1 };
                assert(w.stack.drop_last() =~= t1.stack);
            }
        }
    }
}

proof fn lemma_scan_agrees(
    part: Seq<char>,
    tokens: Seq<XmlToken>,
    input_len: nat,
    limits: ProcessingLimits,
    budget: BudgetCounters,
    k: nat,
)
    requires
        k <= tokens.len(),
    ensures
        ({
            let (sk, stopped) = skeleton_prefix(part, tokens, k);
            match scan_tokens(part, tokens, input_len, limits, budget, k) {
                StepView::Next(s) => !stopped && (skeleton_run(limits, budget.xml_elements, sk) matches Some(t) && agrees(s, t)),
                StepView::Stop(s) => stopped && (skeleton_run(limits, budget.xml_elements, sk) matches Some(t) && agrees(s, t)),
                StepView::Fail(_, _) => true,
            }
        }),
    decreases k,
{
    let elements = budget.xml_elements;
    if k == 0 {
        let t = initial_scan(BudgetCounters { zip_entries: 0, current_entry_expanded_bytes: 0, total_expanded_bytes: 0, xml_elements: elements });
        assert(skeleton_run(limits, elements, seq![]) == Some(t));
        assert(agrees(initial_scan(budget), t));
    } else {
        lemma_scan_agrees(part, tokens, input_len, limits, budget, (k - 1) as nat);
        let (p, stopped) = skeleton_prefix(part, tokens, (k - 1) as nat);
        if let StepView::Next(s) = scan_tokens(part, tokens, input_len, limits, budget, (k - 1) as nat) {
            let t = skeleton_run(limits, elements, p)->Some_0;
            match tokens[k - 1] {
                XmlToken::Start(e) => {
                    lemma_element_agrees(part, input_len, limits, s, t, e, true);
                    assert(p.push(open_of(part, e)).drop_last() =~= p);
                    assert(skeleton_run(limits, elements, p.push(open_of(part, e))) == skeleton_step(limits, t, open_of(part, e)));
                },
                XmlToken::Empty(e) => {
                    lemma_element_agrees(part, input_len, limits, s, t, e, false);
                    let q = p.push(open_of(part, e));
                    assert(q.drop_last() =~= p);
                    assert(q.push(SkeletonToken::Close).drop_last() =~= q);
                    assert(skeleton_run(limits, elements, q) == skeleton_step(limits, t, open_of(part, e)));
                    if let Some(w) = skeleton_run(limits, elements, q) {
                        assert(skeleton_run(limits, elements, q.push(SkeletonToken::Close)) == skeleton_step(
                            limits,
                            w,
                            SkeletonToken::Close,
                        ));
                    }
                },
                XmlToken::End => {
                    assert(p.push(SkeletonToken::Close).drop_last() =~= p);
                    assert(skeleton_run(limits, elements, p.push(SkeletonToken::Close)) == skeleton_step(limits, t, SkeletonToken::Close));
                },
                _ => {},
            }
        }
    }
}

/// A scan that succeeds finds exactly the paragraphs its skeleton gives.
pub proof fn lemma_scan_follows_skeleton(
    part: Seq<char>,
    tokens: Seq<XmlToken>,
    input_len: nat,
    limits: ProcessingLimits,
    budget: BudgetCounters,
)
    ensures
        scan_outcome(part, tokens, input_len, limits, budget).0 matches Ok(found) ==> (skeleton_outcome(
            limits,
            budget.xml_elements,
            skeleton(part, tokens),
        ) matches Some(g) && same_identities(found, g)),
{
    lemma_scan_agrees(part, tokens, input_len, limits, budget, tokens.len());
}

/// Paragraph identities survive edits that leave the skeleton alone: text,
/// comments, processing instructions, CDATA inside the root, namespace
/// prefixes (names are compared by namespace URI), attribute order,
/// attributes other than `w14:paraId`, an empty paragraph written as an
/// opening and a closing tag, and the byte length of the input. Two
/// extractions with the same skeleton from budgets that have counted the same
/// number of XML elements that both succeed find the same paragraphs, in
/// order, with the same paths and identities.
pub proof fn lemma_identities_survive_edits(
    part: Seq<char>,
    len_a: nat,
    a: Seq<XmlToken>,
    len_b: nat,
    b: Seq<XmlToken>,
    limits: ProcessingLimits,
    before_a: BudgetCounters,
    before_b: BudgetCounters,
)
    requires
        skeleton(part, a) == skeleton(part, b),
        before_a.xml_elements == before_b.xml_elements,
    ensures
        extraction_outcome(part, len_a, a, limits, before_a).0 matches Ok(fa) ==> (extraction_outcome(
            part,
            len_b,
            b,
            limits,
            before_b,
        ).0 matches Ok(fb) ==> same_identities(fa, fb)),
{
    if is_canonical_part_name(part) {
        let entries_a = sat_add(before_a.zip_entries, 1);
        let begun_a = BudgetCounters { zip_entries: entries_a, current_entry_expanded_bytes: 0, ..before_a };
        let entries_b = sat_add(before_b.zip_entries, 1);
        let begun_b = BudgetCounters { zip_entries: entries_b, current_entry_expanded_bytes: 0, ..before_b };
        lemma_charge_reads_adds_every_byte(begun_a, len_a, limits);
        lemma_charge_reads_adds_every_byte(begun_b, len_b, limits);
        let charged_a = charge_reads(begun_a, len_a, limits).0;
        let charged_b = charge_reads(begun_b, len_b, limits).0;
        lemma_scan_follows_skeleton(part, a, len_a, limits, charged_a);
        lemma_scan_follows_skeleton(part, b, len_b, limits, charged_b);
    }
}


/// Every span found so far lies within an input of `input_len` bytes.
pub open spec fn spans_within(s: ScanView, input_len: nat) -> bool {
    forall|i: int| 0 <= i < s.found.len() ==> (#[trigger] s.found[i]).start <= s.found[i].end <= input_len
}

proof fn lemma_scan_keeps_spans(
    part: Seq<char>,
    tokens: Seq<XmlToken>,
    input_len: nat,
    limits: ProcessingLimits,
    budget: BudgetCounters,
    k: nat,
)
    ensures
        scan_tokens(part, tokens, input_len, limits, budget, k) matches StepView::Next(v) ==> spans_within(v, input_len),
        scan_tokens(part, tokens, input_len, limits, budget, k) matches StepView::Stop(v) ==> spans_within(v, input_len),
    decreases k,
{
    if k > 0 {
        lemma_scan_keeps_spans(part, tokens, input_len, limits, budget, (k - 1) as nat);
        if let StepView::Next(s) = scan_tokens(part, tokens, input_len, limits, budget, (k - 1) as nat) {
            let step = token_step(part, input_len, limits, s, tokens[k - 1]);
            if let StepView::Next(v) = step {
                assert forall|i: int| 0 <= i < v.found.len() implies (#[trigger] v.found[i]).start <= v.found[i].end
                    <= input_len by {
                    if i < s.found.len() {
                        assert(v.found[i] == s.found[i]);
                    }
                }
            }
        }
    }
}

/// Every opening-tag span an extraction reports lies within the input:
/// `start <= end <= xml_len`.
pub proof fn lemma_spans_lie_within_input(
    part: Seq<char>,
    xml_len: nat,
    tokens: Seq<XmlToken>,
    limits: ProcessingLimits,
    before: BudgetCounters,
)
    ensures
        extraction_outcome(part, xml_len, tokens, limits, before).0 matches Ok(found) ==> forall|i: int|
            0 <= i < found.len() ==> (#[trigger] found[i]).start <= found[i].end <= xml_len,
{
    if is_canonical_part_name(part) {
        let entries = sat_add(before.zip_entries, 1);
        let (charged, over) = charge_reads(
            BudgetCounters { zip_entries: entries, current_entry_expanded_bytes: 0, ..before },
            xml_len,
            limits,
        );
        lemma_scan_keeps_spans(part, tokens, xml_len, limits, charged, tokens.len());
    }
}

} // verus!
