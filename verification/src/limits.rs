//! Resource limits for untrusted packages, XML and IR documents.

use vstd::prelude::*;

verus! {

/// Conservative bounds on input and generated sizes.
#[derive(Clone, Debug, PartialEq, Eq, Structural)]
pub struct ProcessingLimits {
    /// Maximum compressed source DOCX size.
    pub max_document_bytes: u64,
    pub max_zip_entries: u64,
    pub max_zip_entry_expanded_bytes: u64,
    pub max_zip_total_expanded_bytes: u64,
    pub max_xml_elements: u64,
    pub max_xml_nesting_depth: usize,
    pub max_ir_json_bytes: u64,
    pub max_json_nesting_depth: usize,
    pub max_pages: u64,
    pub max_regions: u64,
    pub max_lines: u64,
    pub max_diagnostics: u64,
    pub max_text_bytes: u64,
    pub max_string_bytes: u64,
    pub max_elements: u64,
    pub max_generated_ir_bytes: u64,
}

/// The documented security defaults.
pub open spec fn default_limits() -> ProcessingLimits {
    ProcessingLimits {
        max_document_bytes: 104857600,
        max_zip_entries: 10000,
        max_zip_entry_expanded_bytes: 268435456,
        max_zip_total_expanded_bytes: 1073741824,
        max_xml_elements: 10000000,
        max_xml_nesting_depth: 128,
        max_ir_json_bytes: 268435456,
        max_json_nesting_depth: 64,
        max_pages: 10000,
        max_regions: 1000000,
        max_lines: 5000000,
        max_diagnostics: 100000,
        max_text_bytes: 134217728,
        max_string_bytes: 201326592,
        max_elements: 6000000,
        max_generated_ir_bytes: 268435456,
    }
}

impl Default for ProcessingLimits {
    fn default() -> (r: Self)
        ensures
            r == default_limits(),
    {
        Self {
            max_document_bytes: 100 * 1024 * 1024,
            max_zip_entries: 10_000,
            max_zip_entry_expanded_bytes: 256 * 1024 * 1024,
            max_zip_total_expanded_bytes: 1024 * 1024 * 1024,
            max_xml_elements: 10_000_000,
            max_xml_nesting_depth: 128,
            max_ir_json_bytes: 256 * 1024 * 1024,
            max_json_nesting_depth: 64,
            max_pages: 10_000,
            max_regions: 1_000_000,
            max_lines: 5_000_000,
            max_diagnostics: 100_000,
            max_text_bytes: 128 * 1024 * 1024,
            max_string_bytes: 192 * 1024 * 1024,
            max_elements: 6_000_000,
            max_generated_ir_bytes: 256 * 1024 * 1024,
        }
    }
}

/// A resource that went over its limit.
#[derive(Clone, Debug, PartialEq, Eq)]
pub struct LimitError {
    pub resource: &'static str,
    pub observed: u64,
    pub limit: u64,
}

/// `observed` is within `limit`, or the error naming `resource`.
pub open spec fn limit_result(resource: Seq<char>, observed: u64, limit: u64, r: Result<
    (),
    LimitError,
>) -> bool {
    if observed > limit {
        r matches Err(e) && e.resource@ == resource && e.observed == observed && e.limit == limit
    } else {
        r is Ok
    }
}

impl LimitError {
    /// `resource exceeds limit of L (observed O)`.
    pub fn message(&self) -> (r: String)
        ensures
            r@ == self.resource@ + " exceeds limit of "@ + crate::text::decimal(self.limit as nat)
                + " (observed "@ + crate::text::decimal(self.observed as nat) + ")"@,
    {
        let mut out = String::from_str(self.resource);
        out.append(" exceeds limit of ");
        crate::text::push_decimal(&mut out, self.limit);
        out.append(" (observed ");
        crate::text::push_decimal(&mut out, self.observed);
        out.append(")");
        out
    }
}

/// Fails when `observed` exceeds `limit`.
pub fn check_limit(resource: &'static str, observed: u64, limit: u64) -> (r: Result<
    (),
    LimitError,
>)
    ensures
        limit_result(resource@, observed, limit, r),
{
    if observed > limit {
        Err(LimitError { resource, observed, limit })
    } else {
        Ok(())
    }
}

/// Counters charged while a package is streamed.
#[derive(Clone, Copy, Debug, PartialEq, Eq, Structural)]
pub struct BudgetCounters {
    pub zip_entries: u64,
    pub current_entry_expanded_bytes: u64,
    pub total_expanded_bytes: u64,
    pub xml_elements: u64,
}

/// Running resource accounting for one DOCX package.
#[derive(Clone, Debug, PartialEq, Eq)]
pub struct PackageBudget {
    zip_entries: u64,
    current_entry_expanded_bytes: u64,
    total_expanded_bytes: u64,
    xml_elements: u64,
}

impl View for PackageBudget {
    type V = BudgetCounters;

    closed spec fn view(&self) -> BudgetCounters {
        BudgetCounters {
            zip_entries: self.zip_entries,
            current_entry_expanded_bytes: self.current_entry_expanded_bytes,
            total_expanded_bytes: self.total_expanded_bytes,
            xml_elements: self.xml_elements,
        }
    }
}

pub open spec fn sat_add(x: u64, y: u64) -> u64 {
    if x + y > u64::MAX {
        u64::MAX
    } else {
        (x + y) as u64
    }
}

impl Default for PackageBudget {
    fn default() -> (r: Self)
        ensures
            r@ == (BudgetCounters {
                zip_entries: 0,
                current_entry_expanded_bytes: 0,
                total_expanded_bytes: 0,
                xml_elements: 0,
            }),
    {
        PackageBudget {
            zip_entries: 0,
            current_entry_expanded_bytes: 0,
            total_expanded_bytes: 0,
            xml_elements: 0,
        }
    }
}

/// The budget after `begin_zip_entry`, and whether it succeeds.
pub open spec fn begin_zip_entry_effect(
    before: BudgetCounters,
    limits: ProcessingLimits,
    after: BudgetCounters,
    r: Result<(), LimitError>,
) -> bool {
    let entries = sat_add(before.zip_entries, 1);
    &&& limit_result("ZIP entries"@, entries, limits.max_zip_entries, r)
    &&& after == (if r is Ok {
        BudgetCounters { zip_entries: entries, current_entry_expanded_bytes: 0, ..before }
    } else {
        BudgetCounters { zip_entries: entries, ..before }
    })
}

/// The budget after `add_expanded_bytes`, and whether it succeeds.
pub open spec fn add_expanded_bytes_effect(
    before: BudgetCounters,
    bytes: u64,
    limits: ProcessingLimits,
    after: BudgetCounters,
    r: Result<(), LimitError>,
) -> bool {
    let current = sat_add(before.current_entry_expanded_bytes, bytes);
    let total = sat_add(before.total_expanded_bytes, bytes);
    &&& after == BudgetCounters {
        current_entry_expanded_bytes: current,
        total_expanded_bytes: total,
        ..before
    }
    &&& if current > limits.max_zip_entry_expanded_bytes {
        limit_result("expanded ZIP entry bytes"@, current, limits.max_zip_entry_expanded_bytes, r)
    } else {
        limit_result("total expanded ZIP bytes"@, total, limits.max_zip_total_expanded_bytes, r)
    }
}

/// The budget after `observe_xml_element`, and whether it succeeds.
pub open spec fn observe_xml_element_effect(
    before: BudgetCounters,
    depth: usize,
    limits: ProcessingLimits,
    after: BudgetCounters,
    r: Result<(), LimitError>,
) -> bool {
    let elements = sat_add(before.xml_elements, 1);
    &&& after == BudgetCounters { xml_elements: elements, ..before }
    &&& if elements > limits.max_xml_elements {
        limit_result("XML elements"@, elements, limits.max_xml_elements, r)
    } else {
        limit_result(
            "XML nesting depth"@,
            depth as u64,
            limits.max_xml_nesting_depth as u64,
            r,
        )
    }
}

/// Beginning a ZIP entry counts one more entry and restarts the per-entry
/// byte count only when it succeeds; the package totals are untouched.
pub proof fn lemma_begin_zip_entry_keeps_totals(
    before: BudgetCounters,
    limits: ProcessingLimits,
    after: BudgetCounters,
    r: Result<(), LimitError>,
)
    requires
        begin_zip_entry_effect(before, limits, after, r),
    ensures
        after.zip_entries >= before.zip_entries,
        after.total_expanded_bytes == before.total_expanded_bytes,
        after.xml_elements == before.xml_elements,
        r is Err ==> after.current_entry_expanded_bytes == before.current_entry_expanded_bytes,
{
}

/// Charging expanded bytes never lowers a byte count, and touches no other counter.
pub proof fn lemma_expanded_bytes_never_decrease(
    before: BudgetCounters,
    bytes: u64,
    limits: ProcessingLimits,
    after: BudgetCounters,
    r: Result<(), LimitError>,
)
    requires
        add_expanded_bytes_effect(before, bytes, limits, after, r),
    ensures
        after.current_entry_expanded_bytes >= before.current_entry_expanded_bytes,
        after.total_expanded_bytes >= before.total_expanded_bytes,
        after.zip_entries == before.zip_entries,
        after.xml_elements == before.xml_elements,
{
}

/// Charging expanded bytes in two steps adds both amounts to the entry's and
/// the package's byte counts, and the second step succeeds exactly when both
/// sums stay within their limits (the first step then succeeded too).
pub proof fn lemma_expanded_bytes_add_up(
    b0: BudgetCounters,
    x: u64,
    y: u64,
    limits: ProcessingLimits,
    b1: BudgetCounters,
    r1: Result<(), LimitError>,
    b2: BudgetCounters,
    r2: Result<(), LimitError>,
)
    requires
        add_expanded_bytes_effect(b0, x, limits, b1, r1),
        add_expanded_bytes_effect(b1, y, limits, b2, r2),
        b0.current_entry_expanded_bytes + x + y <= u64::MAX,
        b0.total_expanded_bytes + x + y <= u64::MAX,
    ensures
        b2.current_entry_expanded_bytes == b0.current_entry_expanded_bytes + x + y,
        b2.total_expanded_bytes == b0.total_expanded_bytes + x + y,
        b2.zip_entries == b0.zip_entries,
        b2.xml_elements == b0.xml_elements,
        r2 is Ok <==> (b0.current_entry_expanded_bytes + x + y <= limits.max_zip_entry_expanded_bytes
            && b0.total_expanded_bytes + x + y <= limits.max_zip_total_expanded_bytes),
        r2 is Ok ==> r1 is Ok,
{
}

/// Beginning a ZIP entry succeeds exactly when the package then holds no more
/// entries than allowed.
pub proof fn lemma_zip_entries_are_limited(
    before: BudgetCounters,
    limits: ProcessingLimits,
    after: BudgetCounters,
    r: Result<(), LimitError>,
)
    requires
        begin_zip_entry_effect(before, limits, after, r),
        before.zip_entries < u64::MAX,
    ensures
        after.zip_entries == before.zip_entries + 1,
        r is Ok <==> before.zip_entries + 1 <= limits.max_zip_entries,
        r is Ok ==> after.current_entry_expanded_bytes == 0,
{
}

/// Observing an XML element at `depth` succeeds exactly when the package then
/// holds no more elements than allowed and the depth is within its limit.
pub proof fn lemma_xml_elements_are_limited(
    before: BudgetCounters,
    depth: usize,
    limits: ProcessingLimits,
    after: BudgetCounters,
    r: Result<(), LimitError>,
)
    requires
        observe_xml_element_effect(before, depth, limits, after, r),
        before.xml_elements < u64::MAX,
    ensures
        r is Ok <==> (before.xml_elements + 1 <= limits.max_xml_elements && depth <= limits.max_xml_nesting_depth),
{
}

/// Observing an XML element counts it, whether or not a limit is exceeded.
pub proof fn lemma_elements_never_decrease(
    before: BudgetCounters,
    depth: usize,
    limits: ProcessingLimits,
    after: BudgetCounters,
    r: Result<(), LimitError>,
)
    requires
        observe_xml_element_effect(before, depth, limits, after, r),
    ensures
        after.xml_elements >= before.xml_elements,
        before.xml_elements < u64::MAX ==> after.xml_elements == before.xml_elements + 1,
        after.zip_entries == before.zip_entries,
        after.total_expanded_bytes == before.total_expanded_bytes,
{
}

impl PackageBudget {
    /// Checks the compressed size of a source document.
    pub fn check_document_bytes(&self, observed: u64, limits: &ProcessingLimits) -> (r: Result<
        (),
        LimitError,
    >)
        ensures
            limit_result("source document bytes"@, observed, limits.max_document_bytes, r),
    {
        check_limit("source document bytes", observed, limits.max_document_bytes)
    }

    /// Charges one ZIP entry and starts counting its expanded bytes from zero.
    pub fn begin_zip_entry(&mut self, limits: &ProcessingLimits) -> (r: Result<(), LimitError>)
        ensures
            begin_zip_entry_effect(old(self)@, *limits, final(self)@, r),
    {
        self.zip_entries = self.zip_entries.saturating_add(1);
        check_limit("ZIP entries", self.zip_entries, limits.max_zip_entries)?;
        self.current_entry_expanded_bytes = 0;
        Ok(())
    }

    /// Charges expanded bytes to the current entry and to the package total.
    pub fn add_expanded_bytes(&mut self, bytes: u64, limits: &ProcessingLimits) -> (r: Result<
        (),
        LimitError,
    >)
        ensures
            add_expanded_bytes_effect(old(self)@, bytes, *limits, final(self)@, r),
    {
        self.current_entry_expanded_bytes = self.current_entry_expanded_bytes.saturating_add(bytes);
        self.total_expanded_bytes = self.total_expanded_bytes.saturating_add(bytes);
        check_limit(
            "expanded ZIP entry bytes",
            self.current_entry_expanded_bytes,
            limits.max_zip_entry_expanded_bytes,
        )?;
        check_limit(
            "total expanded ZIP bytes",
            self.total_expanded_bytes,
            limits.max_zip_total_expanded_bytes,
        )
    }

    /// Charges one XML element opened at `depth`.
    pub fn observe_xml_element(&mut self, depth: usize, limits: &ProcessingLimits) -> (r: Result<
        (),
        LimitError,
    >)
        ensures
            observe_xml_element_effect(old(self)@, depth, *limits, final(self)@, r),
    {
        self.xml_elements = self.xml_elements.saturating_add(1);
        check_limit("XML elements", self.xml_elements, limits.max_xml_elements)?;
        check_limit("XML nesting depth", depth as u64, limits.max_xml_nesting_depth as u64)
    }
}

} // verus!
verus! {

/// Where a JSON nesting scan stands after some prefix of the input.
pub struct JsonScan {
    pub depth: nat,
    pub in_string: bool,
    pub escaped: bool,
}

/// One byte of the scan: strings (with backslash escapes) hide punctuation,
/// `{`/`[` open a level and `}`/`]` close one, never going below zero.
pub open spec fn json_scan_step(s: JsonScan, byte: u8) -> JsonScan {
    if s.in_string {
        if s.escaped {
            JsonScan { escaped: false, ..s }
        } else if byte == 92u8 {
            JsonScan { escaped: true, ..s }
        } else if byte == 34u8 {
            JsonScan { in_string: false, ..s }
        } else {
            s
        }
    } else if byte == 34u8 {
        JsonScan { in_string: true, ..s }
    } else if byte == 123u8 || byte == 91u8 {
        JsonScan { depth: s.depth + 1, ..s }
    } else if byte == 125u8 || byte == 93u8 {
        JsonScan { depth: if s.depth == 0 { 0 } else { (s.depth - 1) as nat }, ..s }
    } else {
        s
    }
}

/// The scan state after the first `n` bytes.
pub open spec fn json_scan(bytes: Seq<u8>, n: nat) -> JsonScan
    decreases n,
{
    if n == 0 || n > bytes.len() {
        JsonScan { depth: 0, in_string: false, escaped: false }
    } else {
        json_scan_step(json_scan(bytes, (n - 1) as nat), bytes[n - 1])
    }
}

/// An opening bracket of JSON: `[` or `{`.
pub open spec fn is_open_bracket(b: u8) -> bool {
    b == 91u8 || b == 123u8
}

/// A closing bracket of JSON: `]` or `}`.
pub open spec fn is_close_bracket(b: u8) -> bool {
    b == 93u8 || b == 125u8
}

/// Opening brackets less closing brackets.
pub open spec fn bracket_balance(s: Seq<u8>) -> int {
    s.filter(|b: u8| is_open_bracket(b)).len() - s.filter(|b: u8| is_close_bracket(b)).len()
}

/// The depth reached by the first opening bracket that goes above `max_depth`, if any.
pub open spec fn json_depth_violation(bytes: Seq<u8>, max_depth: nat) -> Option<nat> {
    if exists|n: nat| 1 <= n <= bytes.len() && #[trigger] json_scan(bytes, n).depth > max_depth {
        let n = choose|n: nat|
            1 <= n <= bytes.len() && #[trigger] json_scan(bytes, n).depth > max_depth && forall|
                m: nat,
            | 1 <= m < n ==> #[trigger] json_scan(bytes, m).depth <= max_depth;
        Some(json_scan(bytes, n).depth)
    } else {
        None
    }
}

proof fn lemma_json_depth_bounded(bytes: Seq<u8>, n: nat)
    requires
        n <= bytes.len(),
    ensures
        json_scan(bytes, n).depth <= n,
    decreases n,
{
    if n > 0 {
        lemma_json_depth_bounded(bytes, (n - 1) as nat);
    }
}

proof fn lemma_bracket_balance_push(s: Seq<u8>, b: u8)
    ensures
        bracket_balance(s.push(b)) == bracket_balance(s) + (if is_open_bracket(b) {
            1int
        } else if is_close_bracket(b) {
            -1int
        } else {
            0int
        }),
{
    reveal(Seq::filter);
    assert(s.push(b).drop_last() =~= s);
}

proof fn lemma_scan_is_balance(bytes: Seq<u8>, n: nat)
    requires
        n <= bytes.len(),
        forall|i: int| 0 <= i < bytes.len() ==> bytes[i] != 34u8,
        forall|m: nat| m <= bytes.len() ==> bracket_balance(#[trigger] bytes.take(m as int)) >= 0,
    ensures
        json_scan(bytes, n).depth == bracket_balance(bytes.take(n as int)),
        !json_scan(bytes, n).in_string,
    decreases n,
{
    if n == 0 {
        reveal(Seq::filter);
        assert(bytes.take(0) =~= Seq::<u8>::empty());
    } else {
        lemma_scan_is_balance(bytes, (n - 1) as nat);
        assert(bytes.take(n as int) =~= bytes.take(n - 1).push(bytes[n - 1]));
        lemma_bracket_balance_push(bytes.take(n - 1), bytes[n - 1]);
        assert(bracket_balance(bytes.take(n as int)) >= 0);
    }
}

/// Outside strings, the depth that is checked is the bracket nesting: for
/// JSON text without string quotes whose brackets never close more than they
/// opened, the depth after each prefix is its opening brackets less its
/// closing ones (a `]` or `}` returns to the depth before its `[` or `{`),
/// and the text is accepted exactly when no prefix nests deeper than
/// `max_depth`.
pub proof fn lemma_json_depth_is_bracket_nesting(bytes: Seq<u8>, max_depth: nat)
    requires
        forall|i: int| 0 <= i < bytes.len() ==> bytes[i] != 34u8,
        forall|m: nat| m <= bytes.len() ==> bracket_balance(#[trigger] bytes.take(m as int)) >= 0,
    ensures
        forall|n: nat| n <= bytes.len() ==> #[trigger] json_scan(bytes, n).depth == bracket_balance(bytes.take(n as int)),
        json_depth_violation(bytes, max_depth) is None <==> forall|m: nat|
            m <= bytes.len() ==> bracket_balance(#[trigger] bytes.take(m as int)) <= max_depth,
{
    assert forall|n: nat| n <= bytes.len() implies #[trigger] json_scan(bytes, n).depth == bracket_balance(bytes.take(n as int)) by {
        lemma_scan_is_balance(bytes, n);
    }
    if json_depth_violation(bytes, max_depth) is None {
        assert forall|m: nat| m <= bytes.len() implies bracket_balance(#[trigger] bytes.take(m as int)) <= max_depth by {
            assert(json_scan(bytes, m).depth == bracket_balance(bytes.take(m as int)));
            if m == 0 {
                reveal(Seq::filter);
                assert(bytes.take(0) =~= Seq::<u8>::empty());
            }
        }
    } else {
        let n = choose|n: nat| 1 <= n <= bytes.len() && #[trigger] json_scan(bytes, n).depth > max_depth;
        assert(json_scan(bytes, n).depth == bracket_balance(bytes.take(n as int)));
    }
}

proof fn lemma_json_scan_prefix(a: Seq<u8>, b: Seq<u8>, n: nat)
    requires
        n <= a.len(),
    ensures
        json_scan(a + b, n) == json_scan(a, n),
    decreases n,
{
    if n > 0 {
        lemma_json_scan_prefix(a, b, (n - 1) as nat);
        assert((a + b)[n - 1] == a[n - 1]);
    }
}

proof fn lemma_json_scan_inside(u: Seq<u8>, start: nat, m: nat, depth: nat)
    requires
        start + m <= u.len(),
        json_scan(u, start) == (JsonScan { depth, in_string: true, escaped: false }),
        forall|i: int| start <= i < start + m ==> u[i] != 34u8 && u[i] != 92u8,
    ensures
        json_scan(u, start + m) == (JsonScan { depth, in_string: true, escaped: false }),
    decreases m,
{
    if m > 0 {
        lemma_json_scan_inside(u, start, (m - 1) as nat, depth);
        assert(u[start + m - 1] != 34u8 && u[start + m - 1] != 92u8);
    }
}

/// Brackets inside strings are not nesting: a string literal (a quote, bytes
/// without quotes or backslashes, a quote) leaves the scan, and so the depth,
/// where it was.
pub proof fn lemma_strings_hide_brackets(s: Seq<u8>, t: Seq<u8>)
    requires
        !json_scan(s, s.len()).in_string,
        !json_scan(s, s.len()).escaped,
        forall|i: int| 0 <= i < t.len() ==> t[i] != 34u8 && t[i] != 92u8,
    ensures
        json_scan(s + seq![34u8] + t + seq![34u8], (s.len() + t.len() + 2) as nat) == json_scan(s, s.len()),
{
    let u = s + seq![34u8] + t + seq![34u8];
    let d = json_scan(s, s.len()).depth;
    assert(u =~= s + (seq![34u8] + t + seq![34u8]));
    lemma_json_scan_prefix(s, seq![34u8] + t + seq![34u8], s.len());
    assert(u[s.len() as int] == 34u8);
    assert(json_scan(u, (s.len() + 1) as nat) == (JsonScan { depth: d, in_string: true, escaped: false }));
    assert forall|i: int| s.len() + 1 <= i < s.len() + 1 + t.len() implies u[i] != 34u8 && u[i] != 92u8 by {
        assert(u[i] == t[i - s.len() - 1]);
    }
    lemma_json_scan_inside(u, (s.len() + 1) as nat, t.len(), d);
    assert(u[(s.len() + t.len() + 1) as int] == 34u8);
}

/// Rejects JSON text whose array/object nesting exceeds `max_depth`, ignoring
/// brackets inside strings.
pub fn check_json_depth(bytes: &[u8], max_depth: usize) -> (r: Result<(), LimitError>)
    ensures
        match json_depth_violation(bytes@, max_depth as nat) {
            Some(d) => r matches Err(e) && e.resource@ == "JSON nesting depth"@ && e.observed
                == d && e.limit == max_depth as u64,
            None => r is Ok,
        },
{
    let mut depth: usize = 0;
    let mut in_string = false;
    let mut escaped = false;
    let mut i: usize = 0;
    while i < bytes.len()
        invariant
            i <= bytes.len(),
            json_scan(bytes@, i as nat) == (JsonScan {
                depth: depth as nat,
                in_string,
                escaped,
            }),
            forall|m: nat| 1 <= m <= i ==> #[trigger] json_scan(bytes@, m).depth <= max_depth,
        decreases bytes.len() - i,
    {
        proof {
            lemma_json_depth_bounded(bytes@, i as nat);
        }
        let byte = bytes[i];
        if in_string {
            if escaped {
                escaped = false;
            } else if byte == 92u8 {
                escaped = true;
            } else if byte == 34u8 {
                in_string = false;
            }
        } else if byte == 34u8 {
            in_string = true;
        } else if byte == 123u8 || byte == 91u8 {
            depth = depth + 1;
            if depth > max_depth {
                proof {
                    let n = (i + 1) as nat;
                    assert(json_scan(bytes@, n).depth == depth);
                    let k = choose|k: nat|
                        1 <= k <= bytes@.len() && #[trigger] json_scan(bytes@, k).depth > max_depth
                            && forall|m: nat|
                            1 <= m < k ==> #[trigger] json_scan(bytes@, m).depth <= max_depth;
                    assert(k == n) by {
                        if k > n {
                            assert(json_scan(bytes@, n).depth > max_depth);
                        }
                    }
                }
                return Err(
                    LimitError {
                        resource: "JSON nesting depth",
                        observed: depth as u64,
                        limit: max_depth as u64,
                    },
                );
            }
        } else if byte == 125u8 || byte == 93u8 {
            depth = depth.saturating_sub(1);
        }
        i += 1;
    }
    Ok(())
}

} // verus!
verus! {

/// Each document limit of `high` is at least that of `low`.
pub open spec fn limits_at_least(high: ProcessingLimits, low: ProcessingLimits) -> bool {
    &&& high.max_document_bytes >= low.max_document_bytes
    &&& high.max_pages >= low.max_pages
    &&& high.max_regions >= low.max_regions
    &&& high.max_lines >= low.max_lines
    &&& high.max_diagnostics >= low.max_diagnostics
    &&& high.max_text_bytes >= low.max_text_bytes
    &&& high.max_string_bytes >= low.max_string_bytes
    &&& high.max_elements >= low.max_elements
}

} // verus!
