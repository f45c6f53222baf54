//! Semantic validation of format-2 documents with path-aware errors.

use vstd::prelude::*;

use crate::model::{pt_is_finite, pt_is_nonnegative, pt_is_positive, pt_is_unit, Overflow, Pt, Rect};
use crate::source_identity::{
    is_canonical_part_name, is_ncname, is_structural_path, is_valid_structural_path,
    is_xml_local_name, validate_part_name,
};
use crate::text::{blank, concat, concat_indexed, decimal, indexed, is_blank, push_decimal, str_equal};
use crate::v2::model::{
    AffineTransform, BoxBorders, ClipGeometry, EdgeInsets, Fill, FloatingPlacement, GradientKind,
    IdentityKind, InlineContent, InlineKind, LineLayout, NormalizedInsets, ParagraphRegion,
    Region, RegionGeometry, RegionId, ResolvedRun, ImageRegion, ShapeRegion, TableCellRegion,
    TableRegion, common_of, source_of, Size, SectionLayout, ColumnLayout, SectionPageGeometry,
    PageLayout, StoryKind, DocumentLayout, SUPPORTED_MAJOR_VERSION,
    ObjectPlacement, PathCommand, PathGeometry, PageFragment, Point, RelationshipRef,
    ResolvedLineSpacing, ResolvedParagraphStyle, ResolvedTypography, RgbaColor, RoleAssignment,
    RoleProvenance, SemanticRole, SourceRef, Stroke, TextDecoration,
};
use crate::compatibility::{check_major_result, parse_version};
use crate::text::debug_quoted;
use crate::FORMAT;
use crate::validation::{
    lemma_contains_after, lemma_contains_before, optional_environment_errors, validate_layout_environment, ValidationErrors,
    error_texts, nonempty_errors, optional_nonempty_errors, push_error, utf8_len, on_char_boundary,
    validate_nonempty, validate_optional_nonempty, ErrorText, ValidationError,
};
use vstd::seq_lib::lemma_concat_associative;

verus! {

/// One error at `path` when `failed`.
pub open spec fn when(failed: bool, path: Seq<char>, message: Seq<char>) -> Seq<ErrorText> {
    if failed {
        seq![(path, message)]
    } else {
        seq![]
    }
}

fn report(errors: &mut Vec<ValidationError>, failed: bool, path: String, message: &str)
    ensures
        error_texts(final(errors)@) == error_texts(old(errors)@) + when(failed, path@, message@),
{
    if failed {
        push_error(errors, path, String::from_str(message));
    } else {
        assert(error_texts(errors@) + seq![] =~= error_texts(errors@));
    }
}

pub open spec fn finite_errors(path: Seq<char>, v: Pt) -> Seq<ErrorText> {
    when(!pt_is_finite(v), path, "must be finite"@)
}

pub open spec fn nonnegative_errors(path: Seq<char>, v: Pt) -> Seq<ErrorText> {
    when(!pt_is_nonnegative(v), path, "must be finite and non-negative"@)
}

pub open spec fn positive_errors(path: Seq<char>, v: Pt) -> Seq<ErrorText> {
    when(!pt_is_positive(v), path, "must be finite and greater than zero"@)
}

pub open spec fn unit_errors(path: Seq<char>, v: Pt) -> Seq<ErrorText> {
    when(!pt_is_unit(v), path, "must be finite and between zero and one"@)
}

fn check_finite(errors: &mut Vec<ValidationError>, path: String, v: Pt)
    ensures
        error_texts(final(errors)@) == error_texts(old(errors)@) + finite_errors(path@, v),
{
    report(errors, !v.is_finite(), path, "must be finite");
}

fn check_nonnegative(errors: &mut Vec<ValidationError>, path: String, v: Pt)
    ensures
        error_texts(final(errors)@) == error_texts(old(errors)@) + nonnegative_errors(path@, v),
{
    report(errors, !v.is_nonnegative(), path, "must be finite and non-negative");
}

fn check_positive(errors: &mut Vec<ValidationError>, path: String, v: Pt)
    ensures
        error_texts(final(errors)@) == error_texts(old(errors)@) + positive_errors(path@, v),
{
    report(errors, !v.is_positive(), path, "must be finite and greater than zero");
}

fn check_unit(errors: &mut Vec<ValidationError>, path: String, v: Pt)
    ensures
        error_texts(final(errors)@) == error_texts(old(errors)@) + unit_errors(path@, v),
{
    report(errors, !v.is_unit(), path, "must be finite and between zero and one");
}

/// Coordinates finite, extents finite and non-negative.
pub open spec fn rect_errors(path: Seq<char>, r: Rect) -> Seq<ErrorText> {
    finite_errors(path + ".x"@, r.x) + finite_errors(path + ".y"@, r.y) + nonnegative_errors(
        path + ".width"@,
        r.width,
    ) + nonnegative_errors(path + ".height"@, r.height)
}

fn check_rect(errors: &mut Vec<ValidationError>, path: &str, r: Rect)
    ensures
        error_texts(final(errors)@) == error_texts(old(errors)@) + rect_errors(path@, r),
{
    let ghost b0 = error_texts(errors@);
    check_finite(errors, concat(path, ".x"), r.x);
    let ghost x1 = finite_errors(path@ + ".x"@, r.x);
    check_finite(errors, concat(path, ".y"), r.y);
    let ghost x2 = finite_errors(path@ + ".y"@, r.y);
    proof {
        lemma_concat_associative(b0, x1, x2);
    }
    check_nonnegative(errors, concat(path, ".width"), r.width);
    let ghost x3 = nonnegative_errors(path@ + ".width"@, r.width);
    proof {
        lemma_concat_associative(b0, x1 + x2, x3);
    }
    check_nonnegative(errors, concat(path, ".height"), r.height);
    let ghost x4 = nonnegative_errors(path@ + ".height"@, r.height);
    proof {
        lemma_concat_associative(b0, x1 + x2 + x3, x4);
    }
}

pub open spec fn point_errors(path: Seq<char>, p: Point) -> Seq<ErrorText> {
    finite_errors(path + ".x"@, p.x) + finite_errors(path + ".y"@, p.y)
}

fn check_point(errors: &mut Vec<ValidationError>, path: &str, p: Point)
    ensures
        error_texts(final(errors)@) == error_texts(old(errors)@) + point_errors(path@, p),
{
    let ghost b0 = error_texts(errors@);
    check_finite(errors, concat(path, ".x"), p.x);
    check_finite(errors, concat(path, ".y"), p.y);
    proof {
        lemma_concat_associative(b0, finite_errors(path@ + ".x"@, p.x), finite_errors(path@ + ".y"@, p.y));
    }
}

/// Every inset finite and non-negative.
pub open spec fn insets_errors(path: Seq<char>, e: EdgeInsets) -> Seq<ErrorText> {
    nonnegative_errors(path + ".top"@, e.top) + nonnegative_errors(path + ".right"@, e.right)
        + nonnegative_errors(path + ".bottom"@, e.bottom) + nonnegative_errors(
        path + ".left"@,
        e.left,
    )
}

fn check_insets(errors: &mut Vec<ValidationError>, path: &str, e: EdgeInsets)
    ensures
        error_texts(final(errors)@) == error_texts(old(errors)@) + insets_errors(path@, e),
{
    let ghost b0 = error_texts(errors@);
    check_nonnegative(errors, concat(path, ".top"), e.top);
    let ghost x1 = nonnegative_errors(path@ + ".top"@, e.top);
    check_nonnegative(errors, concat(path, ".right"), e.right);
    let ghost x2 = nonnegative_errors(path@ + ".right"@, e.right);
    proof {
        lemma_concat_associative(b0, x1, x2);
    }
    check_nonnegative(errors, concat(path, ".bottom"), e.bottom);
    let ghost x3 = nonnegative_errors(path@ + ".bottom"@, e.bottom);
    proof {
        lemma_concat_associative(b0, x1 + x2, x3);
    }
    check_nonnegative(errors, concat(path, ".left"), e.left);
    let ghost x4 = nonnegative_errors(path@ + ".left"@, e.left);
    proof {
        lemma_concat_associative(b0, x1 + x2 + x3, x4);
    }
}

pub open spec fn color_errors(path: Seq<char>, c: RgbaColor) -> Seq<ErrorText> {
    unit_errors(path + ".alpha"@, c.alpha)
}

fn check_color(errors: &mut Vec<ValidationError>, path: &str, c: RgbaColor)
    ensures
        error_texts(final(errors)@) == error_texts(old(errors)@) + color_errors(path@, c),
{
    check_unit(errors, concat(path, ".alpha"), c.alpha);
}

pub open spec fn border_errors(path: Seq<char>, b: Option<crate::v2::model::Border>) -> Seq<ErrorText> {
    match b {
        Some(b) => color_errors(path + ".color"@, b.color) + nonnegative_errors(
            path + ".width_pt"@,
            b.width_pt,
        ) + nonnegative_errors(path + ".space_pt"@, b.space_pt),
        None => seq![],
    }
}

fn check_border(errors: &mut Vec<ValidationError>, path: &str, b: Option<crate::v2::model::Border>)
    ensures
        error_texts(final(errors)@) == error_texts(old(errors)@) + border_errors(path@, b),
{
    let ghost b0 = error_texts(errors@);
    match b {
        Some(border) => {
            let color_path = concat(path, ".color");
            check_color(errors, color_path.as_str(), border.color);
            let ghost x1 = color_errors(path@ + ".color"@, border.color);
            check_nonnegative(errors, concat(path, ".width_pt"), border.width_pt);
            let ghost x2 = nonnegative_errors(path@ + ".width_pt"@, border.width_pt);
            proof {
                lemma_concat_associative(b0, x1, x2);
            }
            check_nonnegative(errors, concat(path, ".space_pt"), border.space_pt);
            let ghost x3 = nonnegative_errors(path@ + ".space_pt"@, border.space_pt);
            proof {
                lemma_concat_associative(b0, x1 + x2, x3);
            }
        },
        None => {
            assert(b0 + seq![] =~= b0);
        },
    }
}

pub open spec fn borders_errors(path: Seq<char>, b: BoxBorders) -> Seq<ErrorText> {
    border_errors(path + ".top"@, b.top) + border_errors(path + ".right"@, b.right) + border_errors(
        path + ".bottom"@,
        b.bottom,
    ) + border_errors(path + ".left"@, b.left)
}

fn check_borders(errors: &mut Vec<ValidationError>, path: &str, b: BoxBorders)
    ensures
        error_texts(final(errors)@) == error_texts(old(errors)@) + borders_errors(path@, b),
{
    let ghost b0 = error_texts(errors@);
    check_border(errors, concat(path, ".top").as_str(), b.top);
    let ghost x1 = border_errors(path@ + ".top"@, b.top);
    check_border(errors, concat(path, ".right").as_str(), b.right);
    let ghost x2 = border_errors(path@ + ".right"@, b.right);
    proof {
        lemma_concat_associative(b0, x1, x2);
    }
    check_border(errors, concat(path, ".bottom").as_str(), b.bottom);
    let ghost x3 = border_errors(path@ + ".bottom"@, b.bottom);
    proof {
        lemma_concat_associative(b0, x1 + x2, x3);
    }
    check_border(errors, concat(path, ".left").as_str(), b.left);
    let ghost x4 = border_errors(path@ + ".left"@, b.left);
    proof {
        lemma_concat_associative(b0, x1 + x2 + x3, x4);
    }
}

pub open spec fn overflow_errors(path: Seq<char>, o: Option<Overflow>) -> Seq<ErrorText> {
    match o {
        Some(o) => nonnegative_errors(path + ".overflow.past_content_area_pt"@, o.past_content_area_pt),
        None => seq![],
    }
}

fn check_overflow(errors: &mut Vec<ValidationError>, path: &str, o: Option<Overflow>)
    ensures
        error_texts(final(errors)@) == error_texts(old(errors)@) + overflow_errors(path@, o),
{
    match o {
        Some(o) => check_nonnegative(
            errors,
            concat(path, ".overflow.past_content_area_pt"),
            o.past_content_area_pt,
        ),
        None => {
            assert(error_texts(errors@) + seq![] =~= error_texts(errors@));
        },
    }
}

/// A half-open UTF-8 range into `text`: ordered, in bounds, on code point boundaries.
pub open spec fn range_errors(path: Seq<char>, range: [usize; 2], text: Seq<char>) -> Seq<ErrorText> {
    let start = range[0] as nat;
    let end = range[1] as nat;
    if start > end || end > utf8_len(text) {
        seq![(path, "must be an ordered range within text length "@ + decimal(utf8_len(text)))]
    } else if !on_char_boundary(text, start) || !on_char_boundary(text, end) {
        seq![(path, "must fall on UTF-8 code point boundaries"@)]
    } else {
        seq![]
    }
}

fn check_range(errors: &mut Vec<ValidationError>, path: String, range: [usize; 2], text: &str)
    ensures
        error_texts(final(errors)@) == error_texts(old(errors)@) + range_errors(path@, range, text@),
{
    let start = range[0];
    let end = range[1];
    let len = text.len();
    if start > end || end > len {
        let mut message = String::from_str("must be an ordered range within text length ");
        push_decimal(&mut message, len as u64);
        push_error(errors, path, message);
    } else if !text.is_char_boundary(start) || !text.is_char_boundary(end) {
        push_error(errors, path, String::from_str("must fall on UTF-8 code point boundaries"));
    } else {
        assert(error_texts(errors@) + seq![] =~= error_texts(errors@));
    }
}

pub open spec fn fragment_errors(path: Seq<char>, f: PageFragment) -> Seq<ErrorText> {
    if f.count == 0 {
        seq![(path + ".count"@, "must be greater than zero"@)]
    } else if f.index >= f.count {
        seq![(path + ".index"@, "must be less than count"@)]
    } else {
        seq![]
    }
}

fn check_fragment(errors: &mut Vec<ValidationError>, path: &str, f: PageFragment)
    ensures
        error_texts(final(errors)@) == error_texts(old(errors)@) + fragment_errors(path@, f),
{
    if f.count == 0 {
        push_error(errors, concat(path, ".count"), String::from_str("must be greater than zero"));
    } else if f.index >= f.count {
        push_error(errors, concat(path, ".index"), String::from_str("must be less than count"));
    } else {
        assert(error_texts(errors@) + seq![] =~= error_texts(errors@));
    }
}

} // verus!
verus! {

/// Canonical decimal digits spelling a number no greater than `limit`.
pub open spec fn is_canonical_number(s: Seq<char>, limit: nat) -> bool {
    crate::compatibility::is_canonical_decimal(s) && crate::compatibility::decimal_value(s) <= limit
}

/// What `i64::to_string` produces: an optional `-` before a canonical number.
pub open spec fn is_canonical_i64(s: Seq<char>) -> bool {
    ||| is_canonical_number(s, 0x7FFF_FFFF_FFFF_FFFF)
    ||| (s.len() > 1 && s[0] == '-' && is_canonical_number(s.drop_first(), 0x8000_0000_0000_0000)
        && crate::compatibility::decimal_value(s.drop_first()) >= 1)
}

/// What `u32::to_string` produces.
pub open spec fn is_canonical_u32(s: Seq<char>) -> bool {
    is_canonical_number(s, 0xFFFF_FFFF)
}

/// Whether `v[start..]` is canonical decimal digits spelling at most `limit`.
fn canonical_number(v: &Vec<char>, start: usize, limit: u64) -> (r: bool)
    requires
        start <= v.len(),
    ensures
        r == is_canonical_number(v@.skip(start as int), limit as nat),
{
    let ghost t = v@.skip(start as int);
    let end = v.len();
    if start == end {
        return false;
    }
    if v[start] == '0' && end - start != 1 {
        return false;
    }
    let mut value: u64 = 0;
    let mut i = start;
    while i < end
        invariant
            start < end == v.len(),
            start <= i <= end,
            t == v@.skip(start as int),
            forall|j: int| start <= j < i ==> crate::compatibility::is_ascii_digit(#[trigger] v@[j]),
            value as nat == crate::compatibility::decimal_value(v@.subrange(start as int, i as int)),
            value <= limit,
        decreases end - i,
    {
        let c = v[i];
        if !('0' <= c && c <= '9') {
            assert(t[i - start] == c);
            return false;
        }
        assert(v@.subrange(start as int, i + 1).drop_last() =~= v@.subrange(start as int, i as int));
        let d = (c as u64) - ('0' as u64);
        let next: u128 = (value as u128) * 10 + (d as u128);
        if next > limit as u128 {
            proof {
                assert(t.take((i + 1 - start) as int) =~= v@.subrange(start as int, i + 1));
                if forall|j: int| 0 <= j < t.len() ==> crate::compatibility::is_ascii_digit(#[trigger] t[j]) {
                    crate::compatibility::lemma_decimal_prefix_bound(t, (i + 1 - start) as nat);
                }
            }
            return false;
        }
        value = next as u64;
        i += 1;
    }
    assert(t =~= v@.subrange(start as int, i as int));
    true
}

fn canonical_i64(s: &str) -> (r: bool)
    ensures
        r == is_canonical_i64(s@),
{
    let v = crate::text::chars_of(s);
    assert(v@.skip(0) =~= v@);
    if canonical_number(&v, 0, 0x7FFF_FFFF_FFFF_FFFF) {
        return true;
    }
    if v.len() > 1 && v[0] == '-' {
        assert(v@.skip(1) =~= v@.drop_first());
        if canonical_number(&v, 1, 0x8000_0000_0000_0000) {
            // A canonical number with no leading zero other than "0" itself is at
            // least one unless it is "0".
            if v.len() == 2 && v[1] == '0' {
                assert(crate::compatibility::decimal_value(v@.drop_first()) == 0) by {
                    let z = seq!['0'];
                    assert(v@.drop_first() =~= z);
                    assert(z.drop_last() =~= Seq::<char>::empty());
                    assert(crate::compatibility::decimal_value(Seq::<char>::empty()) == 0);
                    assert(crate::compatibility::decimal_value(z) == crate::compatibility::decimal_value(
                        z.drop_last(),
                    ) * 10 + crate::compatibility::digit_value(z.last()));
                }
                return false;
            }
            proof {
                let t = v@.drop_first();
                assert(t[0] != '0');
                lemma_leading_digit_positive(t);
            }
            return true;
        }
    }
    false
}

/// A canonical number that does not start with `0` is at least one.
proof fn lemma_leading_digit_positive(t: Seq<char>)
    requires
        crate::compatibility::is_canonical_decimal(t),
        t[0] != '0',
    ensures
        crate::compatibility::decimal_value(t) >= 1,
    decreases t.len(),
{
    if t.len() == 1 {
        assert(t.drop_last() =~= Seq::<char>::empty());
    } else {
        let p = t.drop_last();
        assert(p[0] == t[0]);
        assert forall|i: int| 0 <= i < p.len() implies crate::compatibility::is_ascii_digit(
            #[trigger] p[i],
        ) by {
            assert(p[i] == t[i]);
        }
        lemma_leading_digit_positive(p);
    }
}

fn canonical_u32(s: &str) -> (r: bool)
    ensures
        r == is_canonical_u32(s@),
{
    let v = crate::text::chars_of(s);
    assert(v@.skip(0) =~= v@);
    canonical_number(&v, 0, 0xFFFF_FFFF)
}

/// Whether an ID is spelled as its identity kind requires.
pub open spec fn matches_identity(id: Seq<char>, kind: IdentityKind) -> bool {
    match kind {
        IdentityKind::ParaId => crate::validation::is_canonical_para_id(id),
        IdentityKind::RelationshipId => is_ncname(id),
        IdentityKind::WordId => is_canonical_i64(id),
        IdentityKind::DrawingId => is_canonical_u32(id),
        IdentityKind::GeneratedPath => is_structural_path(id),
    }
}

pub open spec fn source_errors(path: Seq<char>, s: SourceRef) -> Seq<ErrorText> {
    when(!is_canonical_part_name(s.part@), path + ".part"@, "must be a canonical package-relative OPC part name"@)
        + if is_blank(s.id@) {
        seq![(path + ".id"@, "must not be empty"@)]
    } else {
        when(!matches_identity(s.id@, s.identity), path + ".id"@, "does not match its identity kind"@)
    }
}

fn check_source(errors: &mut Vec<ValidationError>, path: &str, s: &SourceRef)
    ensures
        error_texts(final(errors)@) == error_texts(old(errors)@) + source_errors(path@, *s),
{
    let ghost b0 = error_texts(errors@);
    report(
        errors,
        validate_part_name(s.part.as_str()).is_err(),
        concat(path, ".part"),
        "must be a canonical package-relative OPC part name",
    );
    if blank(s.id.as_str()) {
        push_error(errors, concat(path, ".id"), String::from_str("must not be empty"));
    } else {
        let id = s.id.as_str();
        let valid = match s.identity {
            IdentityKind::ParaId => crate::validation::canonical_para_id(id),
            IdentityKind::RelationshipId => is_xml_local_name(id),
            IdentityKind::WordId => canonical_i64(id),
            IdentityKind::DrawingId => canonical_u32(id),
            IdentityKind::GeneratedPath => is_valid_structural_path(id),
        };
        report(errors, !valid, concat(path, ".id"), "does not match its identity kind");
    }
    assert(error_texts(errors@) =~= b0 + source_errors(path@, *s));
}

fn check_optional_source(errors: &mut Vec<ValidationError>, path: &str, s: &Option<SourceRef>)
    ensures
        error_texts(final(errors)@) == error_texts(old(errors)@) + match *s {
            Some(v) => source_errors(path@, v),
            None => seq![],
        },
{
    match s {
        Some(v) => check_source(errors, path, v),
        None => {
            assert(error_texts(errors@) + seq![] =~= error_texts(errors@));
        },
    }
}

pub open spec fn relationship_errors(path: Seq<char>, r: RelationshipRef) -> Seq<ErrorText> {
    when(!is_canonical_part_name(r.source_part@), path + ".source_part"@, "must be a canonical package-relative OPC part name"@)
        + when(!is_canonical_part_name(r.target_part@), path + ".target_part"@, "must be a canonical package-relative OPC part name"@)
        + when(!is_ncname(r.id@), path + ".id"@, "must be an XML NCName relationship ID"@)
}

fn check_relationship(errors: &mut Vec<ValidationError>, path: &str, r: &RelationshipRef)
    ensures
        error_texts(final(errors)@) == error_texts(old(errors)@) + relationship_errors(path@, *r),
{
    let ghost b0 = error_texts(errors@);
    report(
        errors,
        validate_part_name(r.source_part.as_str()).is_err(),
        concat(path, ".source_part"),
        "must be a canonical package-relative OPC part name",
    );
    report(
        errors,
        validate_part_name(r.target_part.as_str()).is_err(),
        concat(path, ".target_part"),
        "must be a canonical package-relative OPC part name",
    );
    report(errors, !is_xml_local_name(r.id.as_str()), concat(path, ".id"), "must be an XML NCName relationship ID");
    assert(error_texts(errors@) =~= b0 + relationship_errors(path@, *r));
}

pub open spec fn role_errors(path: Seq<char>, role: RoleAssignment) -> Seq<ErrorText> {
    when(role.role matches SemanticRole::Heading { level } && level == 0, path + ".role.level"@, "must be greater than zero"@)
        + match role.provenance {
        RoleProvenance::SourceDeclared { source, declaration } => source_errors(
            path + ".provenance.source"@,
            source,
        ) + nonempty_errors(path + ".provenance.declaration"@, declaration@),
        RoleProvenance::Inferred { rule } => nonempty_errors(path + ".provenance.rule"@, rule@),
    }
}

fn check_role(errors: &mut Vec<ValidationError>, path: &str, role: &RoleAssignment)
    ensures
        error_texts(final(errors)@) == error_texts(old(errors)@) + role_errors(path@, *role),
{
    let ghost b0 = error_texts(errors@);
    let zero_heading = match role.role {
        SemanticRole::Heading { level } => level == 0,
        _ => false,
    };
    report(errors, zero_heading, concat(path, ".role.level"), "must be greater than zero");
    match &role.provenance {
        RoleProvenance::SourceDeclared { source, declaration } => {
            check_source(errors, concat(path, ".provenance.source").as_str(), source);
            validate_nonempty(errors, concat(path, ".provenance.declaration"), declaration.as_str());
        },
        RoleProvenance::Inferred { rule } => {
            validate_nonempty(errors, concat(path, ".provenance.rule"), rule.as_str());
        },
    }
    assert(error_texts(errors@) =~= b0 + role_errors(path@, *role));
}

} // verus!
verus! {

/// A check that needs `f32` arithmetic, which this crate leaves to its caller.
#[derive(Clone, Copy, Debug, PartialEq, Eq, Structural)]
pub enum ArithmeticQuery {
    /// `m11 * m22 - m12 * m21 == 0.0`.
    Singular(crate::v2::model::AffineTransform),
    /// `baseline < bbox.y || baseline > bbox.y + bbox.height`.
    BaselineOutside { baseline: Pt, bbox: Rect },
    /// `left + right >= 1.0`.
    CropWidthExhausted(NormalizedInsets),
    /// `top + bottom >= 1.0`.
    CropHeightExhausted(NormalizedInsets),
}

/// The caller's verdict on one query: whether its condition holds in `f32`.
#[derive(Clone, Copy, Debug, PartialEq, Eq, Structural)]
pub struct ArithmeticAnswer {
    pub query: ArithmeticQuery,
    pub holds: bool,
}

/// What the first answer to `q` says; a query with no answer does not hold.
pub open spec fn answer_of(answers: Seq<ArithmeticAnswer>, q: ArithmeticQuery) -> bool
    decreases answers.len(),
{
    if answers.len() == 0 {
        false
    } else if answers[0].query == q {
        answers[0].holds
    } else {
        answer_of(answers.drop_first(), q)
    }
}

fn lookup_answer(answers: &Vec<ArithmeticAnswer>, q: ArithmeticQuery) -> (r: bool)
    ensures
        r == answer_of(answers@, q),
{
    let mut i: usize = 0;
    assert(answers@.skip(0) =~= answers@);
    while i < answers.len()
        invariant
            i <= answers.len(),
            answer_of(answers@, q) == answer_of(answers@.skip(i as int), q),
        decreases answers.len() - i,
    {
        let ghost rest = answers@.skip(i as int);
        assert(rest[0] == answers@[i as int]);
        if answers[i].query == q {
            return answers[i].holds;
        }
        assert(rest.drop_first() =~= answers@.skip(i + 1));
        i += 1;
    }
    false
}

pub open spec fn path_errors(path: Seq<char>, p: PathGeometry) -> Seq<ErrorText> {
    (if p.commands@.len() == 0 {
        seq![(path + ".commands"@, "must not be empty"@)]
    } else if !(p.commands@[0] is MoveTo) {
        seq![(path + ".commands[0]"@, "must begin with move_to"@)]
    } else {
        seq![]
    }) + commands_errors(path, p.commands@, p.commands@.len())
}

pub open spec fn command_errors(path: Seq<char>, c: PathCommand) -> Seq<ErrorText> {
    match c {
        PathCommand::MoveTo { point } => point_errors(path + ".point"@, point),
        PathCommand::LineTo { point } => point_errors(path + ".point"@, point),
        PathCommand::CubicTo { control1, control2, point } => point_errors(
            path + ".control1"@,
            control1,
        ) + point_errors(path + ".control2"@, control2) + point_errors(path + ".point"@, point),
        PathCommand::Close => seq![],
    }
}

pub open spec fn commands_errors(path: Seq<char>, cs: Seq<PathCommand>, k: nat) -> Seq<ErrorText>
    decreases k,
{
    if k == 0 {
        seq![]
    } else {
        commands_errors(path, cs, (k - 1) as nat) + command_errors(
            indexed(path + ".commands"@, (k - 1) as nat),
            cs[k - 1],
        )
    }
}

fn check_command(errors: &mut Vec<ValidationError>, path: &str, c: PathCommand)
    ensures
        error_texts(final(errors)@) == error_texts(old(errors)@) + command_errors(path@, c),
{
    let ghost b0 = error_texts(errors@);
    match c {
        PathCommand::MoveTo { point } => check_point(errors, concat(path, ".point").as_str(), point),
        PathCommand::LineTo { point } => check_point(errors, concat(path, ".point").as_str(), point),
        PathCommand::CubicTo { control1, control2, point } => {
            check_point(errors, concat(path, ".control1").as_str(), control1);
            check_point(errors, concat(path, ".control2").as_str(), control2);
            check_point(errors, concat(path, ".point").as_str(), point);
        },
        PathCommand::Close => {},
    }
    assert(error_texts(errors@) =~= b0 + command_errors(path@, c));
}

fn check_path(errors: &mut Vec<ValidationError>, path: &str, p: &PathGeometry)
    ensures
        error_texts(final(errors)@) == error_texts(old(errors)@) + path_errors(path@, *p),
{
    let ghost b0 = error_texts(errors@);
    if p.commands.len() == 0 {
        push_error(errors, concat(path, ".commands"), String::from_str("must not be empty"));
    } else {
        let first_moves = match p.commands[0] {
            PathCommand::MoveTo { .. } => true,
            _ => false,
        };
        report(errors, !first_moves, concat(path, ".commands[0]"), "must begin with move_to");
    }
    let ghost head = error_texts(errors@);
    let mut i: usize = 0;
    while i < p.commands.len()
        invariant
            i <= p.commands.len(),
            error_texts(errors@) == head + commands_errors(path@, p.commands@, i as nat),
        decreases p.commands.len() - i,
    {
        let command_path = concat_indexed(path, ".commands", i);
        check_command(errors, command_path.as_str(), p.commands[i]);
        assert(error_texts(errors@) =~= head + commands_errors(path@, p.commands@, (i + 1) as nat));
        i += 1;
    }
    assert(error_texts(errors@) =~= b0 + path_errors(path@, *p));
}

pub open spec fn floating_errors(path: Seq<char>, f: FloatingPlacement) -> Seq<ErrorText> {
    point_errors(path + ".offset_pt"@, f.offset_pt) + insets_errors(
        path + ".distance_from_text_pt"@,
        f.distance_from_text_pt,
    ) + match f.wrap_polygon {
        Some(p) => path_errors(path + ".wrap_polygon"@, p),
        None => seq![],
    }
}

fn check_floating(errors: &mut Vec<ValidationError>, path: &str, f: &FloatingPlacement)
    ensures
        error_texts(final(errors)@) == error_texts(old(errors)@) + floating_errors(path@, *f),
{
    let ghost b0 = error_texts(errors@);
    check_point(errors, concat(path, ".offset_pt").as_str(), f.offset_pt);
    check_insets(errors, concat(path, ".distance_from_text_pt").as_str(), f.distance_from_text_pt);
    match &f.wrap_polygon {
        Some(p) => check_path(errors, concat(path, ".wrap_polygon").as_str(), p),
        None => {},
    }
    assert(error_texts(errors@) =~= b0 + floating_errors(path@, *f));
}

pub open spec fn placement_errors(path: Seq<char>, p: ObjectPlacement) -> Seq<ErrorText> {
    match p {
        ObjectPlacement::Floating { placement } => floating_errors(path + ".placement"@, placement),
        ObjectPlacement::Inline => seq![],
    }
}

fn check_placement(errors: &mut Vec<ValidationError>, path: &str, p: &ObjectPlacement)
    ensures
        error_texts(final(errors)@) == error_texts(old(errors)@) + placement_errors(path@, *p),
{
    match p {
        ObjectPlacement::Floating { placement } => check_floating(
            errors,
            concat(path, ".placement").as_str(),
            placement,
        ),
        ObjectPlacement::Inline => {
            assert(error_texts(errors@) + seq![] =~= error_texts(errors@));
        },
    }
}

/// A crop: each inset in `[0, 1]`, and opposite insets that leave something.
pub open spec fn crop_errors(path: Seq<char>, n: NormalizedInsets, a: Seq<ArithmeticAnswer>) -> Seq<
    ErrorText,
> {
    unit_errors(path + ".top"@, n.top) + unit_errors(path + ".right"@, n.right) + unit_errors(
        path + ".bottom"@,
        n.bottom,
    ) + unit_errors(path + ".left"@, n.left) + when(
        answer_of(a, ArithmeticQuery::CropWidthExhausted(n)),
        path,
        "left and right crop must leave positive width"@,
    ) + when(
        answer_of(a, ArithmeticQuery::CropHeightExhausted(n)),
        path,
        "top and bottom crop must leave positive height"@,
    )
}

pub open spec fn crop_queries(n: NormalizedInsets) -> Seq<ArithmeticQuery> {
    seq![ArithmeticQuery::CropWidthExhausted(n), ArithmeticQuery::CropHeightExhausted(n)]
}

fn check_crop(
    errors: &mut Vec<ValidationError>,
    path: &str,
    n: NormalizedInsets,
    answers: &Vec<ArithmeticAnswer>,
)
    ensures
        error_texts(final(errors)@) == error_texts(old(errors)@) + crop_errors(path@, n, answers@),
{
    let ghost b0 = error_texts(errors@);
    check_unit(errors, concat(path, ".top"), n.top);
    check_unit(errors, concat(path, ".right"), n.right);
    check_unit(errors, concat(path, ".bottom"), n.bottom);
    check_unit(errors, concat(path, ".left"), n.left);
    let width = lookup_answer(answers, ArithmeticQuery::CropWidthExhausted(n));
    report(errors, width, String::from_str(path), "left and right crop must leave positive width");
    let height = lookup_answer(answers, ArithmeticQuery::CropHeightExhausted(n));
    report(errors, height, String::from_str(path), "top and bottom crop must leave positive height");
    assert(error_texts(errors@) =~= b0 + crop_errors(path@, n, answers@));
}

pub open spec fn fill_queries(f: Fill) -> Seq<ArithmeticQuery> {
    match f {
        Fill::Image { crop: Some(c), .. } => crop_queries(c),
        _ => seq![],
    }
}

pub open spec fn stops_errors(path: Seq<char>, stops: Seq<crate::v2::model::GradientStop>, k: nat) -> Seq<
    ErrorText,
>
    decreases k,
{
    if k == 0 {
        seq![]
    } else {
        let i = (k - 1) as nat;
        let stop_path = indexed(path + ".gradient.stops"@, i);
        let previous = if i == 0 {
            Pt { bits: 0 }
        } else {
            stops[i - 1].position
        };
        stops_errors(path, stops, i) + unit_errors(stop_path + ".position"@, stops[i as int].position)
            + color_errors(stop_path + ".color"@, stops[i as int].color) + when(
            i > 0 && crate::model::pt_less(stops[i as int].position, previous),
            stop_path + ".position"@,
            "must not precede the previous stop"@,
        )
    }
}

pub open spec fn fill_errors(path: Seq<char>, f: Fill, a: Seq<ArithmeticAnswer>) -> Seq<ErrorText> {
    match f {
        Fill::NoFill => seq![],
        Fill::Solid { color } => color_errors(path + ".color"@, color),
        Fill::Gradient { gradient } => when(gradient.stops@.len() == 0, path + ".gradient.stops"@, "must not be empty"@)
            + stops_errors(path, gradient.stops@, gradient.stops@.len()) + match gradient.kind {
            GradientKind::Linear { angle_degrees } => finite_errors(
                path + ".gradient.kind.angle_degrees"@,
                angle_degrees,
            ),
            GradientKind::Radial => seq![],
        },
        Fill::Image { relationship, crop } => relationship_errors(
            path + ".relationship"@,
            relationship,
        ) + match crop {
            Some(c) => crop_errors(path + ".crop"@, c, a),
            None => seq![],
        },
        Fill::Pattern { foreground, background, preset } => color_errors(
            path + ".foreground"@,
            foreground,
        ) + color_errors(path + ".background"@, background) + nonempty_errors(
            path + ".preset"@,
            preset@,
        ),
    }
}

fn check_stops(errors: &mut Vec<ValidationError>, path: &str, stops: &Vec<crate::v2::model::GradientStop>)
    ensures
        error_texts(final(errors)@) == error_texts(old(errors)@) + stops_errors(
            path@,
            stops@,
            stops@.len(),
        ),
{
    let ghost head = error_texts(errors@);
    let mut previous = Pt { bits: 0 };
    let mut i: usize = 0;
    while i < stops.len()
        invariant
            i <= stops.len(),
            error_texts(errors@) == head + stops_errors(path@, stops@, i as nat),
            previous == (if i == 0 {
                Pt { bits: 0 }
            } else {
                stops@[i - 1].position
            }),
        decreases stops.len() - i,
    {
        let stop = stops[i];
        let stop_path = concat_indexed(path, ".gradient.stops", i);
        check_unit(errors, concat(stop_path.as_str(), ".position"), stop.position);
        check_color(errors, concat(stop_path.as_str(), ".color").as_str(), stop.color);
        report(
            errors,
            i > 0 && stop.position.less_than(previous),
            concat(stop_path.as_str(), ".position"),
            "must not precede the previous stop",
        );
        assert(error_texts(errors@) =~= head + stops_errors(path@, stops@, (i + 1) as nat));
        previous = stop.position;
        i += 1;
    }
}

fn check_fill(errors: &mut Vec<ValidationError>, path: &str, f: &Fill, answers: &Vec<ArithmeticAnswer>)
    ensures
        error_texts(final(errors)@) == error_texts(old(errors)@) + fill_errors(path@, *f, answers@),
{
    let ghost b0 = error_texts(errors@);
    match f {
        Fill::NoFill => {},
        Fill::Solid { color } => check_color(errors, concat(path, ".color").as_str(), *color),
        Fill::Gradient { gradient } => {
            report(
                errors,
                gradient.stops.len() == 0,
                concat(path, ".gradient.stops"),
                "must not be empty",
            );
            check_stops(errors, path, &gradient.stops);
            match gradient.kind {
                GradientKind::Linear { angle_degrees } => check_finite(
                    errors,
                    concat(path, ".gradient.kind.angle_degrees"),
                    angle_degrees,
                ),
                GradientKind::Radial => {},
            }
        },
        Fill::Image { relationship, crop } => {
            check_relationship(errors, concat(path, ".relationship").as_str(), relationship);
            match crop {
                Some(c) => check_crop(errors, concat(path, ".crop").as_str(), *c, answers),
                None => {},
            }
        },
        Fill::Pattern { foreground, background, preset } => {
            check_color(errors, concat(path, ".foreground").as_str(), *foreground);
            check_color(errors, concat(path, ".background").as_str(), *background);
            validate_nonempty(errors, concat(path, ".preset"), preset.as_str());
        },
    }
    assert(error_texts(errors@) =~= b0 + fill_errors(path@, *f, answers@));
}

pub open spec fn stroke_errors(path: Seq<char>, s: Stroke) -> Seq<ErrorText> {
    color_errors(path + ".color"@, s.color) + positive_errors(path + ".width_pt"@, s.width_pt)
        + dashes_errors(path, s.dash_pattern_pt@, s.dash_pattern_pt@.len())
}

pub open spec fn dashes_errors(path: Seq<char>, d: Seq<Pt>, k: nat) -> Seq<ErrorText>
    decreases k,
{
    if k == 0 {
        seq![]
    } else {
        dashes_errors(path, d, (k - 1) as nat) + positive_errors(
            indexed(path + ".dash_pattern_pt"@, (k - 1) as nat),
            d[k - 1],
        )
    }
}

fn check_stroke(errors: &mut Vec<ValidationError>, path: &str, s: &Stroke)
    ensures
        error_texts(final(errors)@) == error_texts(old(errors)@) + stroke_errors(path@, *s),
{
    let ghost b0 = error_texts(errors@);
    check_color(errors, concat(path, ".color").as_str(), s.color);
    check_positive(errors, concat(path, ".width_pt"), s.width_pt);
    let ghost head = error_texts(errors@);
    let mut i: usize = 0;
    while i < s.dash_pattern_pt.len()
        invariant
            i <= s.dash_pattern_pt.len(),
            error_texts(errors@) == head + dashes_errors(path@, s.dash_pattern_pt@, i as nat),
        decreases s.dash_pattern_pt.len() - i,
    {
        check_positive(errors, concat_indexed(path, ".dash_pattern_pt", i), s.dash_pattern_pt[i]);
        assert(error_texts(errors@) =~= head + dashes_errors(path@, s.dash_pattern_pt@, (i + 1) as nat));
        i += 1;
    }
    assert(error_texts(errors@) =~= b0 + stroke_errors(path@, *s));
}

} // verus!
verus! {

pub open spec fn line_spacing_errors(path: Seq<char>, s: ResolvedLineSpacing) -> Seq<ErrorText> {
    match s {
        ResolvedLineSpacing::Auto { multiplier } => positive_errors(
            path + ".line_spacing.multiplier"@,
            multiplier,
        ),
        ResolvedLineSpacing::Exact { value_pt } => positive_errors(
            path + ".line_spacing.value_pt"@,
            value_pt,
        ),
        ResolvedLineSpacing::AtLeast { value_pt } => positive_errors(
            path + ".line_spacing.value_pt"@,
            value_pt,
        ),
    }
}

/// Spacing non-negative, indents finite, line spacing positive, borders and shading valid.
pub open spec fn style_errors(path: Seq<char>, s: ResolvedParagraphStyle) -> Seq<ErrorText> {
    nonnegative_errors(path + ".spacing_before_pt"@, s.spacing_before_pt) + nonnegative_errors(
        path + ".spacing_after_pt"@,
        s.spacing_after_pt,
    ) + finite_errors(path + ".indent_start_pt"@, s.indent_start_pt) + finite_errors(
        path + ".indent_end_pt"@,
        s.indent_end_pt,
    ) + finite_errors(path + ".first_line_indent_pt"@, s.first_line_indent_pt)
        + line_spacing_errors(path, s.line_spacing) + borders_errors(path + ".borders"@, s.borders)
        + match s.shading {
        Some(c) => color_errors(path + ".shading"@, c),
        None => seq![],
    }
}

fn check_line_spacing(errors: &mut Vec<ValidationError>, path: &str, s: ResolvedLineSpacing)
    ensures
        error_texts(final(errors)@) == error_texts(old(errors)@) + line_spacing_errors(path@, s),
{
    match s {
        ResolvedLineSpacing::Auto { multiplier } => check_positive(
            errors,
            concat(path, ".line_spacing.multiplier"),
            multiplier,
        ),
        ResolvedLineSpacing::Exact { value_pt } => check_positive(
            errors,
            concat(path, ".line_spacing.value_pt"),
            value_pt,
        ),
        ResolvedLineSpacing::AtLeast { value_pt } => check_positive(
            errors,
            concat(path, ".line_spacing.value_pt"),
            value_pt,
        ),
    }
}

fn check_style(errors: &mut Vec<ValidationError>, path: &str, s: &ResolvedParagraphStyle)
    ensures
        error_texts(final(errors)@) == error_texts(old(errors)@) + style_errors(path@, *s),
{
    let ghost b0 = error_texts(errors@);
    check_nonnegative(errors, concat(path, ".spacing_before_pt"), s.spacing_before_pt);
    let ghost x1 = nonnegative_errors(path@ + ".spacing_before_pt"@, s.spacing_before_pt);
    check_nonnegative(errors, concat(path, ".spacing_after_pt"), s.spacing_after_pt);
    let ghost x2 = nonnegative_errors(path@ + ".spacing_after_pt"@, s.spacing_after_pt);
    proof { lemma_concat_associative(b0, x1, x2); }
    check_finite(errors, concat(path, ".indent_start_pt"), s.indent_start_pt);
    let ghost x3 = finite_errors(path@ + ".indent_start_pt"@, s.indent_start_pt);
    proof { lemma_concat_associative(b0, x1 + x2, x3); }
    check_finite(errors, concat(path, ".indent_end_pt"), s.indent_end_pt);
    let ghost x4 = finite_errors(path@ + ".indent_end_pt"@, s.indent_end_pt);
    proof { lemma_concat_associative(b0, x1 + x2 + x3, x4); }
    check_finite(errors, concat(path, ".first_line_indent_pt"), s.first_line_indent_pt);
    let ghost x5 = finite_errors(path@ + ".first_line_indent_pt"@, s.first_line_indent_pt);
    proof { lemma_concat_associative(b0, x1 + x2 + x3 + x4, x5); }
    check_line_spacing(errors, path, s.line_spacing);
    let ghost x6 = line_spacing_errors(path@, s.line_spacing);
    proof { lemma_concat_associative(b0, x1 + x2 + x3 + x4 + x5, x6); }
    check_borders(errors, concat(path, ".borders").as_str(), s.borders);
    let ghost x7 = borders_errors(path@ + ".borders"@, s.borders);
    proof { lemma_concat_associative(b0, x1 + x2 + x3 + x4 + x5 + x6, x7); }
    let ghost x8 = match s.shading {
        Some(c) => color_errors(path@ + ".shading"@, c),
        None => seq![],
    };
    match s.shading {
        Some(c) => check_color(errors, concat(path, ".shading").as_str(), c),
        None => {
            assert(error_texts(errors@) + seq![] =~= error_texts(errors@));
        },
    }
    proof { lemma_concat_associative(b0, x1 + x2 + x3 + x4 + x5 + x6 + x7, x8); }
}

pub open spec fn decoration_errors(path: Seq<char>, d: Option<TextDecoration>) -> Seq<ErrorText> {
    match d {
        Some(d) => color_errors(path + ".color"@, d.color) + match d.width_pt {
            Some(w) => positive_errors(path + ".width_pt"@, w),
            None => seq![],
        },
        None => seq![],
    }
}

fn check_decoration(errors: &mut Vec<ValidationError>, path: &str, d: Option<TextDecoration>)
    ensures
        error_texts(final(errors)@) == error_texts(old(errors)@) + decoration_errors(path@, d),
{
    let ghost b0 = error_texts(errors@);
    match d {
        Some(d) => {
            check_color(errors, concat(path, ".color").as_str(), d.color);
            match d.width_pt {
                Some(w) => check_positive(errors, concat(path, ".width_pt"), w),
                None => {},
            }
        },
        None => {},
    }
    assert(error_texts(errors@) =~= b0 + decoration_errors(path@, d));
}

/// A named font, a positive size and scale, finite spacing and shift, valid colours.
pub open spec fn typography_errors(path: Seq<char>, t: ResolvedTypography) -> Seq<ErrorText> {
    nonempty_errors(path + ".font.family"@, t.font.family@) + optional_nonempty_errors(
        path + ".font.postscript_name"@,
        t.font.postscript_name,
    ) + positive_errors(path + ".size_pt"@, t.size_pt) + color_errors(path + ".color"@, t.color)
        + finite_errors(path + ".letter_spacing_pt"@, t.letter_spacing_pt) + positive_errors(
        path + ".horizontal_scale"@,
        t.horizontal_scale,
    ) + finite_errors(path + ".baseline_shift_pt"@, t.baseline_shift_pt) + decoration_errors(
        path + ".underline"@,
        t.underline,
    ) + decoration_errors(path + ".strike"@, t.strike)
}

fn check_typography(errors: &mut Vec<ValidationError>, path: &str, t: &ResolvedTypography)
    ensures
        error_texts(final(errors)@) == error_texts(old(errors)@) + typography_errors(path@, *t),
{
    let ghost b0 = error_texts(errors@);
    validate_nonempty(errors, concat(path, ".font.family"), t.font.family.as_str());
    validate_optional_nonempty(errors, concat(path, ".font.postscript_name"), &t.font.postscript_name);
    check_positive(errors, concat(path, ".size_pt"), t.size_pt);
    check_color(errors, concat(path, ".color").as_str(), t.color);
    check_finite(errors, concat(path, ".letter_spacing_pt"), t.letter_spacing_pt);
    check_positive(errors, concat(path, ".horizontal_scale"), t.horizontal_scale);
    check_finite(errors, concat(path, ".baseline_shift_pt"), t.baseline_shift_pt);
    check_decoration(errors, concat(path, ".underline").as_str(), t.underline);
    check_decoration(errors, concat(path, ".strike").as_str(), t.strike);
    assert(error_texts(errors@) =~= b0 + typography_errors(path@, *t));
}

pub open spec fn transform_errors(path: Seq<char>, m: AffineTransform) -> Seq<ErrorText> {
    finite_errors(path + ".m11"@, m.m11) + finite_errors(path + ".m12"@, m.m12) + finite_errors(
        path + ".m21"@,
        m.m21,
    ) + finite_errors(path + ".m22"@, m.m22) + finite_errors(path + ".dx"@, m.dx) + finite_errors(
        path + ".dy"@,
        m.dy,
    )
}

/// Both boxes valid, a finite and invertible transform, and a valid clip.
pub open spec fn geometry_errors(path: Seq<char>, g: RegionGeometry, a: Seq<ArithmeticAnswer>) -> Seq<
    ErrorText,
> {
    rect_errors(path + ".bbox_pt"@, g.bbox_pt) + rect_errors(path + ".local_bbox_pt"@, g.local_bbox_pt)
        + transform_errors(path + ".local_to_parent"@, g.local_to_parent) + when(
        answer_of(a, ArithmeticQuery::Singular(g.local_to_parent)),
        path + ".local_to_parent"@,
        "must be invertible"@,
    ) + clip_errors(path, g.clip)
}

pub open spec fn clip_errors(path: Seq<char>, clip: Option<ClipGeometry>) -> Seq<ErrorText> {
    match clip {
        Some(ClipGeometry::Rect { rect_pt }) => rect_errors(path + ".clip.rect_pt"@, rect_pt),
        Some(ClipGeometry::Path { path: p }) => path_errors(path + ".clip.path"@, p),
        None => seq![],
    }
}

fn check_transform(errors: &mut Vec<ValidationError>, path: &str, m: AffineTransform)
    ensures
        error_texts(final(errors)@) == error_texts(old(errors)@) + transform_errors(path@, m),
{
    let ghost b0 = error_texts(errors@);
    check_finite(errors, concat(path, ".m11"), m.m11);
    check_finite(errors, concat(path, ".m12"), m.m12);
    check_finite(errors, concat(path, ".m21"), m.m21);
    check_finite(errors, concat(path, ".m22"), m.m22);
    check_finite(errors, concat(path, ".dx"), m.dx);
    check_finite(errors, concat(path, ".dy"), m.dy);
    assert(error_texts(errors@) =~= b0 + transform_errors(path@, m));
}

fn check_clip(errors: &mut Vec<ValidationError>, path: &str, clip: &Option<ClipGeometry>)
    ensures
        error_texts(final(errors)@) == error_texts(old(errors)@) + clip_errors(path@, *clip),
{
    match clip {
        Some(ClipGeometry::Rect { rect_pt }) => check_rect(
            errors,
            concat(path, ".clip.rect_pt").as_str(),
            *rect_pt,
        ),
        Some(ClipGeometry::Path { path: p }) => check_path(errors, concat(path, ".clip.path").as_str(), p),
        None => {
            assert(error_texts(errors@) + seq![] =~= error_texts(errors@));
        },
    }
}

fn check_geometry(
    errors: &mut Vec<ValidationError>,
    path: &str,
    g: &RegionGeometry,
    answers: &Vec<ArithmeticAnswer>,
)
    ensures
        error_texts(final(errors)@) == error_texts(old(errors)@) + geometry_errors(path@, *g, answers@),
{
    let ghost b0 = error_texts(errors@);
    check_rect(errors, concat(path, ".bbox_pt").as_str(), g.bbox_pt);
    let ghost x1 = rect_errors(path@ + ".bbox_pt"@, g.bbox_pt);
    check_rect(errors, concat(path, ".local_bbox_pt").as_str(), g.local_bbox_pt);
    let ghost x2 = rect_errors(path@ + ".local_bbox_pt"@, g.local_bbox_pt);
    proof { lemma_concat_associative(b0, x1, x2); }
    let transform_path = concat(path, ".local_to_parent");
    check_transform(errors, transform_path.as_str(), g.local_to_parent);
    let ghost x3 = transform_errors(path@ + ".local_to_parent"@, g.local_to_parent);
    proof { lemma_concat_associative(b0, x1 + x2, x3); }
    let singular = lookup_answer(answers, ArithmeticQuery::Singular(g.local_to_parent));
    report(errors, singular, transform_path, "must be invertible");
    let ghost x4 = when(
        answer_of(answers@, ArithmeticQuery::Singular(g.local_to_parent)),
        path@ + ".local_to_parent"@,
        "must be invertible"@,
    );
    proof { lemma_concat_associative(b0, x1 + x2 + x3, x4); }
    check_clip(errors, path, &g.clip);
    let ghost x5 = clip_errors(path@, g.clip);
    proof { lemma_concat_associative(b0, x1 + x2 + x3 + x4, x5); }
}

} // verus!
verus! {

pub open spec fn optional_source_errors(path: Seq<char>, s: Option<SourceRef>) -> Seq<ErrorText> {
    match s {
        Some(v) => source_errors(path, v),
        None => seq![],
    }
}

/// The end of the item before `i`, zero for the first.
pub open spec fn end_before(ranges: Seq<[usize; 2]>, i: nat) -> nat {
    if i == 0 {
        0
    } else {
        ranges[i - 1][1] as nat
    }
}

pub open spec fn line_ranges(lines: Seq<LineLayout>) -> Seq<[usize; 2]> {
    Seq::new(lines.len(), |i: int| lines[i].range_utf8)
}

pub open spec fn run_ranges(runs: Seq<ResolvedRun>) -> Seq<[usize; 2]> {
    Seq::new(runs.len(), |i: int| runs[i].range_utf8)
}

pub open spec fn baseline_query(line: LineLayout) -> ArithmeticQuery {
    ArithmeticQuery::BaselineOutside { baseline: line.baseline_y_pt, bbox: line.bbox_pt }
}

/// A line: its range, not before the previous line's end, its box and metrics,
/// and a baseline inside the box.
pub open spec fn line_errors(
    path: Seq<char>,
    text: Seq<char>,
    line: LineLayout,
    previous_end: nat,
    a: Seq<ArithmeticAnswer>,
) -> Seq<ErrorText> {
    range_errors(path + ".range_utf8"@, line.range_utf8, text) + when(
        (line.range_utf8[0] as nat) < previous_end,
        path + ".range_utf8"@,
        "must not overlap the previous line"@,
    ) + rect_errors(path + ".bbox_pt"@, line.bbox_pt) + finite_errors(
        path + ".baseline_y_pt"@,
        line.baseline_y_pt,
    ) + nonnegative_errors(path + ".ascent_pt"@, line.ascent_pt) + nonnegative_errors(
        path + ".descent_pt"@,
        line.descent_pt,
    ) + when(answer_of(a, baseline_query(line)), path + ".baseline_y_pt"@, "must lie within line bbox_pt"@)
}

pub open spec fn lines_errors(
    path: Seq<char>,
    text: Seq<char>,
    lines: Seq<LineLayout>,
    a: Seq<ArithmeticAnswer>,
    k: nat,
) -> Seq<ErrorText>
    decreases k,
{
    if k == 0 {
        seq![]
    } else {
        let i = (k - 1) as nat;
        lines_errors(path, text, lines, a, i) + line_errors(
            indexed(path + ".lines"@, i),
            text,
            lines[i as int],
            end_before(line_ranges(lines), i),
            a,
        )
    }
}

fn check_line(
    errors: &mut Vec<ValidationError>,
    path: &str,
    text: &str,
    line: LineLayout,
    previous_end: usize,
    answers: &Vec<ArithmeticAnswer>,
)
    ensures
        error_texts(final(errors)@) == error_texts(old(errors)@) + line_errors(
            path@,
            text@,
            line,
            previous_end as nat,
            answers@,
        ),
{
    let ghost b0 = error_texts(errors@);
    check_range(errors, concat(path, ".range_utf8"), line.range_utf8, text);
    let ghost x1 = range_errors(path@ + ".range_utf8"@, line.range_utf8, text@);
    report(
        errors,
        line.range_utf8[0] < previous_end,
        concat(path, ".range_utf8"),
        "must not overlap the previous line",
    );
    let ghost x2 = when(
        (line.range_utf8[0] as nat) < previous_end as nat,
        path@ + ".range_utf8"@,
        "must not overlap the previous line"@,
    );
    proof { lemma_concat_associative(b0, x1, x2); }
    check_rect(errors, concat(path, ".bbox_pt").as_str(), line.bbox_pt);
    let ghost x3 = rect_errors(path@ + ".bbox_pt"@, line.bbox_pt);
    proof { lemma_concat_associative(b0, x1 + x2, x3); }
    check_finite(errors, concat(path, ".baseline_y_pt"), line.baseline_y_pt);
    let ghost x4 = finite_errors(path@ + ".baseline_y_pt"@, line.baseline_y_pt);
    proof { lemma_concat_associative(b0, x1 + x2 + x3, x4); }
    check_nonnegative(errors, concat(path, ".ascent_pt"), line.ascent_pt);
    let ghost x5 = nonnegative_errors(path@ + ".ascent_pt"@, line.ascent_pt);
    proof { lemma_concat_associative(b0, x1 + x2 + x3 + x4, x5); }
    check_nonnegative(errors, concat(path, ".descent_pt"), line.descent_pt);
    let ghost x6 = nonnegative_errors(path@ + ".descent_pt"@, line.descent_pt);
    proof { lemma_concat_associative(b0, x1 + x2 + x3 + x4 + x5, x6); }
    let outside = lookup_answer(
        answers,
        ArithmeticQuery::BaselineOutside { baseline: line.baseline_y_pt, bbox: line.bbox_pt },
    );
    report(errors, outside, concat(path, ".baseline_y_pt"), "must lie within line bbox_pt");
    let ghost x7 = when(
        answer_of(answers@, baseline_query(line)),
        path@ + ".baseline_y_pt"@,
        "must lie within line bbox_pt"@,
    );
    proof { lemma_concat_associative(b0, x1 + x2 + x3 + x4 + x5 + x6, x7); }
}

fn check_lines(
    errors: &mut Vec<ValidationError>,
    path: &str,
    text: &str,
    lines: &Vec<LineLayout>,
    answers: &Vec<ArithmeticAnswer>,
)
    ensures
        error_texts(final(errors)@) == error_texts(old(errors)@) + lines_errors(
            path@,
            text@,
            lines@,
            answers@,
            lines@.len(),
        ),
{
    let ghost head = error_texts(errors@);
    let mut previous_end: usize = 0;
    let mut i: usize = 0;
    while i < lines.len()
        invariant
            i <= lines.len(),
            error_texts(errors@) == head + lines_errors(path@, text@, lines@, answers@, i as nat),
            previous_end as nat == end_before(line_ranges(lines@), i as nat),
        decreases lines.len() - i,
    {
        let line = lines[i];
        check_line(errors, concat_indexed(path, ".lines", i).as_str(), text, line, previous_end, answers);
        assert(error_texts(errors@) =~= head + lines_errors(path@, text@, lines@, answers@, (i + 1) as nat));
        previous_end = line.range_utf8[1];
        i += 1;
    }
}

/// A run: its range, not before the previous run's end, its source and typography.
pub open spec fn run_errors(path: Seq<char>, text: Seq<char>, run: ResolvedRun, previous_end: nat) -> Seq<
    ErrorText,
> {
    range_errors(path + ".range_utf8"@, run.range_utf8, text) + when(
        (run.range_utf8[0] as nat) < previous_end,
        path + ".range_utf8"@,
        "must not overlap the previous run"@,
    ) + optional_source_errors(path + ".source"@, run.source) + typography_errors(
        path + ".typography"@,
        run.typography,
    )
}

pub open spec fn runs_errors(path: Seq<char>, text: Seq<char>, runs: Seq<ResolvedRun>, k: nat) -> Seq<
    ErrorText,
>
    decreases k,
{
    if k == 0 {
        seq![]
    } else {
        let i = (k - 1) as nat;
        runs_errors(path, text, runs, i) + run_errors(
            indexed(path + ".runs"@, i),
            text,
            runs[i as int],
            end_before(run_ranges(runs), i),
        )
    }
}

fn check_run(errors: &mut Vec<ValidationError>, path: &str, text: &str, run: &ResolvedRun, previous_end: usize)
    ensures
        error_texts(final(errors)@) == error_texts(old(errors)@) + run_errors(
            path@,
            text@,
            *run,
            previous_end as nat,
        ),
{
    let ghost b0 = error_texts(errors@);
    check_range(errors, concat(path, ".range_utf8"), run.range_utf8, text);
    report(
        errors,
        run.range_utf8[0] < previous_end,
        concat(path, ".range_utf8"),
        "must not overlap the previous run",
    );
    check_optional_source(errors, concat(path, ".source").as_str(), &run.source);
    check_typography(errors, concat(path, ".typography").as_str(), &run.typography);
    assert(error_texts(errors@) =~= b0 + run_errors(path@, text@, *run, previous_end as nat));
}

fn check_runs(errors: &mut Vec<ValidationError>, path: &str, text: &str, runs: &Vec<ResolvedRun>)
    ensures
        error_texts(final(errors)@) == error_texts(old(errors)@) + runs_errors(
            path@,
            text@,
            runs@,
            runs@.len(),
        ),
{
    let ghost head = error_texts(errors@);
    let mut previous_end: usize = 0;
    let mut i: usize = 0;
    while i < runs.len()
        invariant
            i <= runs.len(),
            error_texts(errors@) == head + runs_errors(path@, text@, runs@, i as nat),
            previous_end as nat == end_before(run_ranges(runs@), i as nat),
        decreases runs.len() - i,
    {
        check_run(errors, concat_indexed(path, ".runs", i).as_str(), text, &runs[i], previous_end);
        assert(error_texts(errors@) =~= head + runs_errors(path@, text@, runs@, (i + 1) as nat));
        previous_end = runs[i].range_utf8[1];
        i += 1;
    }
}

pub open spec fn field_errors(path: Seq<char>, text: Seq<char>, c: InlineContent) -> Seq<ErrorText> {
    match c.kind {
        InlineKind::Field { instruction, result_range_utf8 } => nonempty_errors(
            path + ".instruction"@,
            instruction@,
        ) + range_errors(path + ".result_range_utf8"@, result_range_utf8, text) + when(
            result_range_utf8[0] < c.range_utf8[0] || result_range_utf8[1] > c.range_utf8[1],
            path + ".result_range_utf8"@,
            "must be contained in range_utf8"@,
        ),
        _ => seq![],
    }
}

/// Inline content: its range and source, and for a field, its instruction and
/// a result range inside its own.
pub open spec fn inline_errors(path: Seq<char>, text: Seq<char>, c: InlineContent) -> Seq<ErrorText> {
    range_errors(path + ".range_utf8"@, c.range_utf8, text) + optional_source_errors(
        path + ".source"@,
        c.source,
    ) + field_errors(path, text, c)
}

pub open spec fn inlines_errors(path: Seq<char>, text: Seq<char>, cs: Seq<InlineContent>, k: nat) -> Seq<
    ErrorText,
>
    decreases k,
{
    if k == 0 {
        seq![]
    } else {
        let i = (k - 1) as nat;
        inlines_errors(path, text, cs, i) + inline_errors(indexed(path + ".content"@, i), text, cs[i as int])
    }
}

fn check_field(errors: &mut Vec<ValidationError>, path: &str, text: &str, c: &InlineContent)
    ensures
        error_texts(final(errors)@) == error_texts(old(errors)@) + field_errors(path@, text@, *c),
{
    let ghost b0 = error_texts(errors@);
    match &c.kind {
        InlineKind::Field { instruction, result_range_utf8 } => {
            validate_nonempty(errors, concat(path, ".instruction"), instruction.as_str());
            check_range(errors, concat(path, ".result_range_utf8"), *result_range_utf8, text);
            report(
                errors,
                result_range_utf8[0] < c.range_utf8[0] || result_range_utf8[1] > c.range_utf8[1],
                concat(path, ".result_range_utf8"),
                "must be contained in range_utf8",
            );
        },
        _ => {},
    }
    assert(error_texts(errors@) =~= b0 + field_errors(path@, text@, *c));
}

fn check_inline(errors: &mut Vec<ValidationError>, path: &str, text: &str, c: &InlineContent)
    ensures
        error_texts(final(errors)@) == error_texts(old(errors)@) + inline_errors(path@, text@, *c),
{
    let ghost b0 = error_texts(errors@);
    check_range(errors, concat(path, ".range_utf8"), c.range_utf8, text);
    check_optional_source(errors, concat(path, ".source").as_str(), &c.source);
    check_field(errors, path, text, c);
    assert(error_texts(errors@) =~= b0 + inline_errors(path@, text@, *c));
}

fn check_inlines(errors: &mut Vec<ValidationError>, path: &str, text: &str, cs: &Vec<InlineContent>)
    ensures
        error_texts(final(errors)@) == error_texts(old(errors)@) + inlines_errors(
            path@,
            text@,
            cs@,
            cs@.len(),
        ),
{
    let ghost head = error_texts(errors@);
    let mut i: usize = 0;
    while i < cs.len()
        invariant
            i <= cs.len(),
            error_texts(errors@) == head + inlines_errors(path@, text@, cs@, i as nat),
        decreases cs.len() - i,
    {
        check_inline(errors, concat_indexed(path, ".content", i).as_str(), text, &cs[i]);
        assert(error_texts(errors@) =~= head + inlines_errors(path@, text@, cs@, (i + 1) as nat));
        i += 1;
    }
}

pub open spec fn optional_rect_errors(path: Seq<char>, r: Option<Rect>) -> Seq<ErrorText> {
    match r {
        Some(r) => rect_errors(path, r),
        None => seq![],
    }
}

/// A paragraph: fragment, boxes, style, overflow, then its lines, runs and
/// inline content against its text.
pub open spec fn paragraph_errors(path: Seq<char>, p: ParagraphRegion, a: Seq<ArithmeticAnswer>) -> Seq<
    ErrorText,
> {
    fragment_errors(path + ".fragment"@, p.fragment) + rect_errors(path + ".frame_bbox_pt"@, p.frame_bbox_pt)
        + optional_rect_errors(path + ".content_bbox_pt"@, p.content_bbox_pt) + style_errors(
        path + ".style"@,
        p.style,
    ) + overflow_errors(path, p.overflow) + lines_errors(path, p.text@, p.lines@, a, p.lines@.len())
        + runs_errors(path, p.text@, p.runs@, p.runs@.len()) + inlines_errors(
        path,
        p.text@,
        p.content@,
        p.content@.len(),
    )
}

fn check_paragraph(
    errors: &mut Vec<ValidationError>,
    path: &str,
    p: &ParagraphRegion,
    answers: &Vec<ArithmeticAnswer>,
)
    ensures
        error_texts(final(errors)@) == error_texts(old(errors)@) + paragraph_errors(path@, *p, answers@),
{
    let ghost b0 = error_texts(errors@);
    check_fragment(errors, concat(path, ".fragment").as_str(), p.fragment);
    let ghost x1 = fragment_errors(path@ + ".fragment"@, p.fragment);
    check_rect(errors, concat(path, ".frame_bbox_pt").as_str(), p.frame_bbox_pt);
    let ghost x2 = rect_errors(path@ + ".frame_bbox_pt"@, p.frame_bbox_pt);
    proof { lemma_concat_associative(b0, x1, x2); }
    match p.content_bbox_pt {
        Some(r) => check_rect(errors, concat(path, ".content_bbox_pt").as_str(), r),
        None => {
            assert(error_texts(errors@) + seq![] =~= error_texts(errors@));
        },
    }
    let ghost x3 = optional_rect_errors(path@ + ".content_bbox_pt"@, p.content_bbox_pt);
    proof { lemma_concat_associative(b0, x1 + x2, x3); }
    check_style(errors, concat(path, ".style").as_str(), &p.style);
    let ghost x4 = style_errors(path@ + ".style"@, p.style);
    proof { lemma_concat_associative(b0, x1 + x2 + x3, x4); }
    check_overflow(errors, path, p.overflow);
    let ghost x5 = overflow_errors(path@, p.overflow);
    proof { lemma_concat_associative(b0, x1 + x2 + x3 + x4, x5); }
    check_lines(errors, path, p.text.as_str(), &p.lines, answers);
    let ghost x6 = lines_errors(path@, p.text@, p.lines@, answers@, p.lines@.len());
    proof { lemma_concat_associative(b0, x1 + x2 + x3 + x4 + x5, x6); }
    check_runs(errors, path, p.text.as_str(), &p.runs);
    let ghost x7 = runs_errors(path@, p.text@, p.runs@, p.runs@.len());
    proof { lemma_concat_associative(b0, x1 + x2 + x3 + x4 + x5 + x6, x7); }
    check_inlines(errors, path, p.text.as_str(), &p.content);
    let ghost x8 = inlines_errors(path@, p.text@, p.content@, p.content@.len());
    proof { lemma_concat_associative(b0, x1 + x2 + x3 + x4 + x5 + x6 + x7, x8); }
}

} // verus!
verus! {

pub open spec fn linked_errors(path: Seq<char>, ids: Seq<RegionId>, k: nat) -> Seq<ErrorText>
    decreases k,
{
    if k == 0 {
        seq![]
    } else {
        linked_errors(path, ids, (k - 1) as nat) + nonempty_errors(
            indexed(path + ".linked_from"@, (k - 1) as nat),
            ids[k - 1].0@,
        )
    }
}

fn check_linked(errors: &mut Vec<ValidationError>, path: &str, ids: &Vec<RegionId>)
    ensures
        error_texts(final(errors)@) == error_texts(old(errors)@) + linked_errors(path@, ids@, ids@.len()),
{
    let ghost head = error_texts(errors@);
    let mut i: usize = 0;
    while i < ids.len()
        invariant
            i <= ids.len(),
            error_texts(errors@) == head + linked_errors(path@, ids@, i as nat),
        decreases ids.len() - i,
    {
        validate_nonempty(errors, concat_indexed(path, ".linked_from", i), ids[i].0.as_str());
        assert(error_texts(errors@) =~= head + linked_errors(path@, ids@, (i + 1) as nat));
        i += 1;
    }
}

pub open spec fn table_errors(path: Seq<char>, t: TableRegion) -> Seq<ErrorText> {
    fragment_errors(path + ".fragment"@, t.fragment) + rect_errors(path + ".content_bbox_pt"@, t.content_bbox_pt)
        + nonnegative_errors(path + ".cell_spacing_pt"@, t.cell_spacing_pt) + borders_errors(
        path + ".borders"@,
        t.borders,
    ) + optional_floating_errors(path + ".floating"@, t.floating) + overflow_errors(path, t.overflow)
}

fn check_table(errors: &mut Vec<ValidationError>, path: &str, t: &TableRegion)
    ensures
        error_texts(final(errors)@) == error_texts(old(errors)@) + table_errors(path@, *t),
{
    let ghost b0 = error_texts(errors@);
    check_fragment(errors, concat(path, ".fragment").as_str(), t.fragment);
    let ghost x1 = fragment_errors(path@ + ".fragment"@, t.fragment);
    check_rect(errors, concat(path, ".content_bbox_pt").as_str(), t.content_bbox_pt);
    let ghost x2 = rect_errors(path@ + ".content_bbox_pt"@, t.content_bbox_pt);
    proof { lemma_concat_associative(b0, x1, x2); }
    check_nonnegative(errors, concat(path, ".cell_spacing_pt"), t.cell_spacing_pt);
    let ghost x3 = nonnegative_errors(path@ + ".cell_spacing_pt"@, t.cell_spacing_pt);
    proof { lemma_concat_associative(b0, x1 + x2, x3); }
    check_borders(errors, concat(path, ".borders").as_str(), t.borders);
    let ghost x4 = borders_errors(path@ + ".borders"@, t.borders);
    proof { lemma_concat_associative(b0, x1 + x2 + x3, x4); }
    check_optional_floating(errors, path, &t.floating);
    let ghost x5 = optional_floating_errors(path@ + ".floating"@, t.floating);
    proof { lemma_concat_associative(b0, x1 + x2 + x3 + x4, x5); }
    check_overflow(errors, path, t.overflow);
    let ghost x6 = overflow_errors(path@, t.overflow);
    proof { lemma_concat_associative(b0, x1 + x2 + x3 + x4 + x5, x6); }
}

pub open spec fn optional_floating_errors(path: Seq<char>, f: Option<FloatingPlacement>) -> Seq<ErrorText> {
    match f {
        Some(f) => floating_errors(path, f),
        None => seq![],
    }
}

fn check_optional_floating(errors: &mut Vec<ValidationError>, path: &str, f: &Option<FloatingPlacement>)
    ensures
        error_texts(final(errors)@) == error_texts(old(errors)@) + optional_floating_errors(
            path@ + ".floating"@,
            *f,
        ),
{
    match f {
        Some(f) => check_floating(errors, concat(path, ".floating").as_str(), f),
        None => {
            assert(error_texts(errors@) + seq![] =~= error_texts(errors@));
        },
    }
}

pub open spec fn optional_fill_errors(path: Seq<char>, f: Option<Fill>, a: Seq<ArithmeticAnswer>) -> Seq<
    ErrorText,
> {
    match f {
        Some(f) => fill_errors(path, f, a),
        None => seq![],
    }
}

pub open spec fn cell_errors(path: Seq<char>, c: TableCellRegion, a: Seq<ArithmeticAnswer>) -> Seq<
    ErrorText,
> {
    fragment_errors(path + ".fragment"@, c.fragment) + when(
        c.grid_span == 0,
        path + ".grid_span"@,
        "must be greater than zero"@,
    ) + when(c.row_span == 0, path + ".row_span"@, "must be greater than zero"@) + rect_errors(
        path + ".content_bbox_pt"@,
        c.content_bbox_pt,
    ) + insets_errors(path + ".padding_pt"@, c.padding_pt) + borders_errors(path + ".borders"@, c.borders)
        + optional_fill_errors(path + ".fill"@, c.fill, a) + overflow_errors(path, c.overflow)
}

fn check_cell(
    errors: &mut Vec<ValidationError>,
    path: &str,
    c: &TableCellRegion,
    answers: &Vec<ArithmeticAnswer>,
)
    ensures
        error_texts(final(errors)@) == error_texts(old(errors)@) + cell_errors(path@, *c, answers@),
{
    let ghost b0 = error_texts(errors@);
    check_fragment(errors, concat(path, ".fragment").as_str(), c.fragment);
    let ghost x1 = fragment_errors(path@ + ".fragment"@, c.fragment);
    report(errors, c.grid_span == 0, concat(path, ".grid_span"), "must be greater than zero");
    let ghost x2 = when(c.grid_span == 0, path@ + ".grid_span"@, "must be greater than zero"@);
    proof { lemma_concat_associative(b0, x1, x2); }
    report(errors, c.row_span == 0, concat(path, ".row_span"), "must be greater than zero");
    let ghost x3 = when(c.row_span == 0, path@ + ".row_span"@, "must be greater than zero"@);
    proof { lemma_concat_associative(b0, x1 + x2, x3); }
    check_rect(errors, concat(path, ".content_bbox_pt").as_str(), c.content_bbox_pt);
    let ghost x4 = rect_errors(path@ + ".content_bbox_pt"@, c.content_bbox_pt);
    proof { lemma_concat_associative(b0, x1 + x2 + x3, x4); }
    check_insets(errors, concat(path, ".padding_pt").as_str(), c.padding_pt);
    let ghost x5 = insets_errors(path@ + ".padding_pt"@, c.padding_pt);
    proof { lemma_concat_associative(b0, x1 + x2 + x3 + x4, x5); }
    check_borders(errors, concat(path, ".borders").as_str(), c.borders);
    let ghost x6 = borders_errors(path@ + ".borders"@, c.borders);
    proof { lemma_concat_associative(b0, x1 + x2 + x3 + x4 + x5, x6); }
    match &c.fill {
        Some(f) => check_fill(errors, concat(path, ".fill").as_str(), f, answers),
        None => {
            assert(error_texts(errors@) + seq![] =~= error_texts(errors@));
        },
    }
    let ghost x7 = optional_fill_errors(path@ + ".fill"@, c.fill, answers@);
    proof { lemma_concat_associative(b0, x1 + x2 + x3 + x4 + x5 + x6, x7); }
    check_overflow(errors, path, c.overflow);
    let ghost x8 = overflow_errors(path@, c.overflow);
    proof { lemma_concat_associative(b0, x1 + x2 + x3 + x4 + x5 + x6 + x7, x8); }
}

pub open spec fn size_errors(path: Seq<char>, s: Option<Size>) -> Seq<ErrorText> {
    match s {
        Some(s) => positive_errors(path + ".width"@, s.width) + positive_errors(path + ".height"@, s.height),
        None => seq![],
    }
}

fn check_size(errors: &mut Vec<ValidationError>, path: &str, s: Option<Size>)
    ensures
        error_texts(final(errors)@) == error_texts(old(errors)@) + size_errors(path@, s),
{
    let ghost b0 = error_texts(errors@);
    match s {
        Some(s) => {
            check_positive(errors, concat(path, ".width"), s.width);
            check_positive(errors, concat(path, ".height"), s.height);
        },
        None => {},
    }
    assert(error_texts(errors@) =~= b0 + size_errors(path@, s));
}

pub open spec fn optional_crop_errors(path: Seq<char>, c: Option<NormalizedInsets>, a: Seq<ArithmeticAnswer>) -> Seq<
    ErrorText,
> {
    match c {
        Some(c) => crop_errors(path, c, a),
        None => seq![],
    }
}

pub open spec fn image_errors(path: Seq<char>, i: ImageRegion, a: Seq<ArithmeticAnswer>) -> Seq<
    ErrorText,
> {
    relationship_errors(path + ".relationship"@, i.relationship) + size_errors(
        path + ".intrinsic_size_px"@,
        i.intrinsic_size_px,
    ) + optional_crop_errors(path + ".crop"@, i.crop, a) + placement_errors(path + ".placement"@, i.placement)
        + unit_errors(path + ".opacity"@, i.opacity)
}

fn check_image(
    errors: &mut Vec<ValidationError>,
    path: &str,
    i: &ImageRegion,
    answers: &Vec<ArithmeticAnswer>,
)
    ensures
        error_texts(final(errors)@) == error_texts(old(errors)@) + image_errors(path@, *i, answers@),
{
    let ghost b0 = error_texts(errors@);
    check_relationship(errors, concat(path, ".relationship").as_str(), &i.relationship);
    let ghost x1 = relationship_errors(path@ + ".relationship"@, i.relationship);
    check_size(errors, concat(path, ".intrinsic_size_px").as_str(), i.intrinsic_size_px);
    let ghost x2 = size_errors(path@ + ".intrinsic_size_px"@, i.intrinsic_size_px);
    proof { lemma_concat_associative(b0, x1, x2); }
    check_optional_crop(errors, path, i.crop, answers);
    let ghost x3 = optional_crop_errors(path@ + ".crop"@, i.crop, answers@);
    proof { lemma_concat_associative(b0, x1 + x2, x3); }
    check_placement(errors, concat(path, ".placement").as_str(), &i.placement);
    let ghost x4 = placement_errors(path@ + ".placement"@, i.placement);
    proof { lemma_concat_associative(b0, x1 + x2 + x3, x4); }
    check_unit(errors, concat(path, ".opacity"), i.opacity);
    let ghost x5 = unit_errors(path@ + ".opacity"@, i.opacity);
    proof { lemma_concat_associative(b0, x1 + x2 + x3 + x4, x5); }
}

fn check_optional_crop(
    errors: &mut Vec<ValidationError>,
    path: &str,
    c: Option<NormalizedInsets>,
    answers: &Vec<ArithmeticAnswer>,
)
    ensures
        error_texts(final(errors)@) == error_texts(old(errors)@) + optional_crop_errors(
            path@ + ".crop"@,
            c,
            answers@,
        ),
{
    match c {
        Some(c) => check_crop(errors, concat(path, ".crop").as_str(), c, answers),
        None => {
            assert(error_texts(errors@) + seq![] =~= error_texts(errors@));
        },
    }
}

pub open spec fn shape_errors(path: Seq<char>, s: ShapeRegion, a: Seq<ArithmeticAnswer>) -> Seq<
    ErrorText,
> {
    path_errors(path + ".path"@, s.path) + fill_errors(path + ".fill"@, s.fill, a) + match s.stroke {
        Some(k) => stroke_errors(path + ".stroke"@, k),
        None => seq![],
    } + unit_errors(path + ".opacity"@, s.opacity) + placement_errors(path + ".placement"@, s.placement)
}

fn check_shape(
    errors: &mut Vec<ValidationError>,
    path: &str,
    s: &ShapeRegion,
    answers: &Vec<ArithmeticAnswer>,
)
    ensures
        error_texts(final(errors)@) == error_texts(old(errors)@) + shape_errors(path@, *s, answers@),
{
    let ghost b0 = error_texts(errors@);
    check_path(errors, concat(path, ".path").as_str(), &s.path);
    check_fill(errors, concat(path, ".fill").as_str(), &s.fill, answers);
    match &s.stroke {
        Some(k) => check_stroke(errors, concat(path, ".stroke").as_str(), k),
        None => {},
    }
    check_unit(errors, concat(path, ".opacity"), s.opacity);
    check_placement(errors, concat(path, ".placement").as_str(), &s.placement);
    assert(error_texts(errors@) =~= b0 + shape_errors(path@, *s, answers@));
}

/// The checks that depend on what kind of region it is.
pub open spec fn kind_errors(path: Seq<char>, r: Region, a: Seq<ArithmeticAnswer>) -> Seq<ErrorText> {
    match r {
        Region::Story(s) => linked_errors(path, s.linked_from@, s.linked_from@.len()),
        Region::Paragraph(p) => paragraph_errors(path, p, a),
        Region::Table(t) => table_errors(path, t),
        Region::TableRow(w) => fragment_errors(path + ".fragment"@, w.fragment) + overflow_errors(
            path,
            w.overflow,
        ),
        Region::TableCell(c) => cell_errors(path, c, a),
        Region::Image(i) => image_errors(path, i, a),
        Region::Shape(s) => shape_errors(path, s, a),
    }
}

/// One region on its own: source, geometry, role, then its kind's checks.
pub open spec fn region_errors(path: Seq<char>, r: Region, a: Seq<ArithmeticAnswer>) -> Seq<ErrorText> {
    source_errors(path + ".source"@, source_of(r)) + geometry_errors(
        path + ".geometry"@,
        common_of(r).geometry,
        a,
    ) + match common_of(r).role {
        Some(role) => role_errors(path + ".role"@, role),
        None => seq![],
    } + kind_errors(path, r, a)
}

fn check_kind(errors: &mut Vec<ValidationError>, path: &str, r: &Region, answers: &Vec<ArithmeticAnswer>)
    ensures
        error_texts(final(errors)@) == error_texts(old(errors)@) + kind_errors(path@, *r, answers@),
{
    let ghost b0 = error_texts(errors@);
    match r {
        Region::Story(s) => check_linked(errors, path, &s.linked_from),
        Region::Paragraph(p) => check_paragraph(errors, path, p, answers),
        Region::Table(t) => check_table(errors, path, t),
        Region::TableRow(w) => {
            check_fragment(errors, concat(path, ".fragment").as_str(), w.fragment);
            check_overflow(errors, path, w.overflow);
            assert(error_texts(errors@) =~= b0 + kind_errors(path@, *r, answers@));
        },
        Region::TableCell(c) => check_cell(errors, path, c, answers),
        Region::Image(i) => check_image(errors, path, i, answers),
        Region::Shape(s) => check_shape(errors, path, s, answers),
    }
}

fn check_region(errors: &mut Vec<ValidationError>, path: &str, r: &Region, answers: &Vec<ArithmeticAnswer>)
    ensures
        error_texts(final(errors)@) == error_texts(old(errors)@) + region_errors(path@, *r, answers@),
{
    let ghost b0 = error_texts(errors@);
    check_source(errors, concat(path, ".source").as_str(), r.source());
    let ghost x1 = source_errors(path@ + ".source"@, source_of(*r));
    let common = r.common();
    check_geometry(errors, concat(path, ".geometry").as_str(), &common.geometry, answers);
    let ghost x2 = geometry_errors(path@ + ".geometry"@, common_of(*r).geometry, answers@);
    proof { lemma_concat_associative(b0, x1, x2); }
    match &common.role {
        Some(role) => check_role(errors, concat(path, ".role").as_str(), role),
        None => {
            assert(error_texts(errors@) + seq![] =~= error_texts(errors@));
        },
    }
    let ghost x3 = match common_of(*r).role {
        Some(role) => role_errors(path@ + ".role"@, role),
        None => seq![],
    };
    proof { lemma_concat_associative(b0, x1 + x2, x3); }
    check_kind(errors, path, r, answers);
    let ghost x4 = kind_errors(path@, *r, answers@);
    proof { lemma_concat_associative(b0, x1 + x2 + x3, x4); }
}

} // verus!
verus! {

/// `must be {expected}, got {actual}`.
pub open spec fn position_message(expected: nat, actual: nat) -> Seq<char> {
    "must be "@ + decimal(expected) + ", got "@ + decimal(actual)
}

fn report_position(errors: &mut Vec<ValidationError>, path: String, expected: usize, actual: usize)
    ensures
        error_texts(final(errors)@) == error_texts(old(errors)@) + when(
            expected != actual,
            path@,
            position_message(expected as nat, actual as nat),
        ),
{
    if expected != actual {
        let mut message = String::from_str("must be ");
        push_decimal(&mut message, expected as u64);
        message.append(", got ");
        push_decimal(&mut message, actual as u64);
        push_error(errors, path, message);
    } else {
        assert(error_texts(errors@) + seq![] =~= error_texts(errors@));
    }
}

/// Whether a section before `i` has the same ID as section `i`.
pub open spec fn section_id_repeated(sections: Seq<SectionLayout>, i: int) -> bool {
    exists|j: int| 0 <= j < i && #[trigger] sections[j].id.0@ == sections[i].id.0@
}

pub open spec fn page_range_message(page_count: nat) -> Seq<char> {
    "must be a non-empty ordered range within "@ + decimal(page_count) + " pages"@
}

/// The start of the page range before section `i`, zero for the first.
pub open spec fn start_before(sections: Seq<SectionLayout>, i: int) -> nat {
    if i == 0 {
        0
    } else {
        sections[i - 1].page_range[0] as nat
    }
}

/// Section `i`: its position, a unique non-empty ID, its source, and a page
/// range that is non-empty, within the pages, and starts no earlier than the
/// previous section's.
pub open spec fn section_errors(sections: Seq<SectionLayout>, i: int, page_count: nat) -> Seq<ErrorText> {
    let s = sections[i];
    let path = indexed("sections"@, i as nat);
    let start = s.page_range[0] as nat;
    let end = s.page_range[1] as nat;
    when(s.index != i, path + ".index"@, position_message(i as nat, s.index as nat)) + nonempty_errors(
        path + ".id"@,
        s.id.0@,
    ) + when(section_id_repeated(sections, i), path + ".id"@, "must be unique"@) + source_errors(
        path + ".source"@,
        s.source,
    ) + when(
        start < start_before(sections, i) || start >= end || end > page_count,
        path + ".page_range"@,
        page_range_message(page_count),
    )
}

pub open spec fn sections_scan(sections: Seq<SectionLayout>, page_count: nat, k: nat) -> Seq<ErrorText>
    decreases k,
{
    if k == 0 {
        seq![]
    } else {
        sections_scan(sections, page_count, (k - 1) as nat) + section_errors(sections, k - 1, page_count)
    }
}

/// Every section, then whether sections and pages are both present or both absent.
pub open spec fn sections_errors(sections: Seq<SectionLayout>, page_count: nat) -> Seq<ErrorText> {
    sections_scan(sections, page_count, sections.len()) + if page_count == 0 {
        when(sections.len() > 0, "sections"@, "must be empty when pages is empty"@)
    } else {
        when(sections.len() == 0, "sections"@, "must describe every recorded page"@)
    }
}

fn section_id_repeated_exec(sections: &Vec<SectionLayout>, i: usize) -> (r: bool)
    requires
        i < sections.len(),
    ensures
        r == section_id_repeated(sections@, i as int),
{
    let mut j: usize = 0;
    while j < i
        invariant
            i < sections.len(),
            j <= i,
            forall|m: int| 0 <= m < j ==> sections@[m].id.0@ != sections@[i as int].id.0@,
        decreases i - j,
    {
        if str_equal(sections[j].id.0.as_str(), sections[i].id.0.as_str()) {
            return true;
        }
        j += 1;
    }
    false
}

fn check_section(errors: &mut Vec<ValidationError>, sections: &Vec<SectionLayout>, i: usize, page_count: usize)
    requires
        i < sections.len(),
    ensures
        error_texts(final(errors)@) == error_texts(old(errors)@) + section_errors(
            sections@,
            i as int,
            page_count as nat,
        ),
{
    let ghost b0 = error_texts(errors@);
    let s = &sections[i];
    let path = concat_indexed("sections", "", i);
    proof {
        reveal_strlit("");
    }
    assert("sections"@ + ""@ =~= "sections"@);
    let ghost p = indexed("sections"@, i as nat);
    assert(path@ == p);
    report_position(errors, concat(path.as_str(), ".index"), i, s.index);
    let ghost x1 = when(s.index != i, p + ".index"@, position_message(i as nat, s.index as nat));
    validate_nonempty(errors, concat(path.as_str(), ".id"), s.id.0.as_str());
    let ghost x2 = nonempty_errors(p + ".id"@, s.id.0@);
    proof { lemma_concat_associative(b0, x1, x2); }
    let repeated = section_id_repeated_exec(sections, i);
    report(errors, repeated, concat(path.as_str(), ".id"), "must be unique");
    let ghost x3 = when(section_id_repeated(sections@, i as int), p + ".id"@, "must be unique"@);
    proof { lemma_concat_associative(b0, x1 + x2, x3); }
    check_source(errors, concat(path.as_str(), ".source").as_str(), &s.source);
    let ghost x4 = source_errors(p + ".source"@, s.source);
    proof { lemma_concat_associative(b0, x1 + x2 + x3, x4); }
    let start = s.page_range[0];
    let end = s.page_range[1];
    let previous_start = if i == 0 {
        0
    } else {
        sections[i - 1].page_range[0]
    };
    let bad = start < previous_start || start >= end || end > page_count;
    if bad {
        let mut message = String::from_str("must be a non-empty ordered range within ");
        push_decimal(&mut message, page_count as u64);
        message.append(" pages");
        push_error(errors, concat(path.as_str(), ".page_range"), message);
    } else {
        assert(error_texts(errors@) + seq![] =~= error_texts(errors@));
    }
    let ghost x5 = when(bad, p + ".page_range"@, page_range_message(page_count as nat));
    proof { lemma_concat_associative(b0, x1 + x2 + x3 + x4, x5); }
    assert(x1 + x2 + x3 + x4 + x5 == section_errors(sections@, i as int, page_count as nat));
}

fn check_sections(errors: &mut Vec<ValidationError>, sections: &Vec<SectionLayout>, page_count: usize)
    ensures
        error_texts(final(errors)@) == error_texts(old(errors)@) + sections_errors(
            sections@,
            page_count as nat,
        ),
{
    let ghost b0 = error_texts(errors@);
    let mut i: usize = 0;
    while i < sections.len()
        invariant
            i <= sections.len(),
            error_texts(errors@) == b0 + sections_scan(sections@, page_count as nat, i as nat),
        decreases sections.len() - i,
    {
        check_section(errors, sections, i, page_count);
        assert(error_texts(errors@) =~= b0 + sections_scan(sections@, page_count as nat, (i + 1) as nat));
        i += 1;
    }
    if page_count == 0 {
        report(errors, sections.len() > 0, String::from_str("sections"), "must be empty when pages is empty");
    } else {
        report(errors, sections.len() == 0, String::from_str("sections"), "must describe every recorded page");
    }
    assert(error_texts(errors@) =~= b0 + sections_errors(sections@, page_count as nat));
}

/// Whether a section's page range holds page `position`.
pub open spec fn covers(s: SectionLayout, position: nat) -> bool {
    s.page_range[0] <= position && position < s.page_range[1]
}

/// The positions of the sections on page `position`, in document order.
pub open spec fn sections_on(sections: Seq<SectionLayout>, position: nat, k: nat) -> Seq<int>
    decreases k,
{
    if k == 0 {
        seq![]
    } else {
        sections_on(sections, position, (k - 1) as nat) + if covers(sections[k - 1], position) {
            seq![k - 1]
        } else {
            seq![]
        }
    }
}

fn sections_on_exec(sections: &Vec<SectionLayout>, position: usize) -> (r: Vec<usize>)
    ensures
        r@.len() == sections_on(sections@, position as nat, sections@.len()).len(),
        forall|j: int|
            0 <= j < r@.len() ==> r@[j] as int == sections_on(sections@, position as nat, sections@.len())[j]
                && r@[j] < sections@.len(),
{
    let mut r: Vec<usize> = Vec::new();
    let mut k: usize = 0;
    while k < sections.len()
        invariant
            k <= sections.len(),
            r@.len() == sections_on(sections@, position as nat, k as nat).len(),
            forall|j: int|
                0 <= j < r@.len() ==> r@[j] as int == sections_on(sections@, position as nat, k as nat)[j]
                    && r@[j] < k,
        decreases sections.len() - k,
    {
        let ghost before = sections_on(sections@, position as nat, k as nat);
        let s = &sections[k];
        if s.page_range[0] <= position && position < s.page_range[1] {
            r.push(k);
            assert(sections_on(sections@, position as nat, (k + 1) as nat) =~= before + seq![k as int]);
        } else {
            assert(sections_on(sections@, position as nat, (k + 1) as nat) =~= before);
        }
        k += 1;
    }
    r
}

pub open spec fn column_errors(path: Seq<char>, m: nat, c: ColumnLayout) -> Seq<ErrorText> {
    when(c.index != m, path + ".index"@, position_message(m, c.index as nat)) + rect_errors(
        path + ".bbox_pt"@,
        c.bbox_pt,
    )
}

pub open spec fn columns_errors(path: Seq<char>, cs: Seq<ColumnLayout>, k: nat) -> Seq<ErrorText>
    decreases k,
{
    if k == 0 {
        seq![]
    } else {
        columns_errors(path, cs, (k - 1) as nat) + column_errors(
            indexed(path + ".columns"@, (k - 1) as nat),
            (k - 1) as nat,
            cs[k - 1],
        )
    }
}

/// A section geometry at position `j` of its page: the section expected there,
/// margins, gutter, usable box and columns.
pub open spec fn page_geometry_errors(
    path: Seq<char>,
    sections: Seq<SectionLayout>,
    expected: Seq<int>,
    j: nat,
    g: SectionPageGeometry,
) -> Seq<ErrorText> {
    (if j < expected.len() {
        when(
            sections[expected[j as int]].id.0@ != g.section_id.0@,
            path + ".section_id"@,
            "must follow document section order for this page"@,
        )
    } else {
        seq![(path + ".section_id"@, "does not correspond to a section on this page"@)]
    }) + insets_errors(path + ".margins_pt"@, g.margins_pt) + nonnegative_errors(
        path + ".gutter_pt"@,
        g.gutter_pt,
    ) + rect_errors(path + ".usable_content_bbox_pt"@, g.usable_content_bbox_pt) + columns_errors(
        path,
        g.columns@,
        g.columns@.len(),
    )
}

pub open spec fn page_geometries_errors(
    path: Seq<char>,
    sections: Seq<SectionLayout>,
    expected: Seq<int>,
    gs: Seq<SectionPageGeometry>,
    k: nat,
) -> Seq<ErrorText>
    decreases k,
{
    if k == 0 {
        seq![]
    } else {
        page_geometries_errors(path, sections, expected, gs, (k - 1) as nat) + page_geometry_errors(
            indexed(path + ".section_geometries"@, (k - 1) as nat),
            sections,
            expected,
            (k - 1) as nat,
            gs[k - 1],
        )
    }
}

/// Page `position` on its own: its index, one geometry for each section on
/// it, in section order, and a positive size.
pub open spec fn page_errors(sections: Seq<SectionLayout>, position: nat, page: PageLayout) -> Seq<
    ErrorText,
> {
    let path = indexed("pages"@, position);
    let expected = sections_on(sections, position, sections.len());
    when(page.index != position, path + ".index"@, position_message(position, page.index as nat)) + when(
        page.section_geometries@.len() != expected.len(),
        path + ".section_geometries"@,
        "must contain one entry for every section occurring on this page"@,
    ) + page_geometries_errors(
        path,
        sections,
        expected,
        page.section_geometries@,
        page.section_geometries@.len(),
    ) + positive_errors(path + ".size_pt.width"@, page.size_pt.width) + positive_errors(
        path + ".size_pt.height"@,
        page.size_pt.height,
    )
}

fn check_columns(errors: &mut Vec<ValidationError>, path: &str, cs: &Vec<ColumnLayout>)
    ensures
        error_texts(final(errors)@) == error_texts(old(errors)@) + columns_errors(path@, cs@, cs@.len()),
{
    let ghost head = error_texts(errors@);
    let mut m: usize = 0;
    while m < cs.len()
        invariant
            m <= cs.len(),
            error_texts(errors@) == head + columns_errors(path@, cs@, m as nat),
        decreases cs.len() - m,
    {
        let column_path = concat_indexed(path, ".columns", m);
        report_position(errors, concat(column_path.as_str(), ".index"), m, cs[m].index);
        check_rect(errors, concat(column_path.as_str(), ".bbox_pt").as_str(), cs[m].bbox_pt);
        assert(error_texts(errors@) =~= head + columns_errors(path@, cs@, (m + 1) as nat));
        m += 1;
    }
}

fn check_page_geometry(
    errors: &mut Vec<ValidationError>,
    path: &str,
    sections: &Vec<SectionLayout>,
    expected: &Vec<usize>,
    j: usize,
    g: &SectionPageGeometry,
    Ghost(spec_expected): Ghost<Seq<int>>,
)
    requires
        expected@.len() == spec_expected.len(),
        forall|m: int|
            0 <= m < expected@.len() ==> #[trigger] expected@[m] as int == spec_expected[m] && expected@[m]
                < sections@.len(),
    ensures
        error_texts(final(errors)@) == error_texts(old(errors)@) + page_geometry_errors(
            path@,
            sections@,
            spec_expected,
            j as nat,
            *g,
        ),
{
    let ghost b0 = error_texts(errors@);
    if j < expected.len() {
        let matches = str_equal(sections[expected[j]].id.0.as_str(), g.section_id.0.as_str());
        report(
            errors,
            !matches,
            concat(path, ".section_id"),
            "must follow document section order for this page",
        );
    } else {
        push_error(
            errors,
            concat(path, ".section_id"),
            String::from_str("does not correspond to a section on this page"),
        );
    }
    check_insets(errors, concat(path, ".margins_pt").as_str(), g.margins_pt);
    check_nonnegative(errors, concat(path, ".gutter_pt"), g.gutter_pt);
    check_rect(errors, concat(path, ".usable_content_bbox_pt").as_str(), g.usable_content_bbox_pt);
    check_columns(errors, path, &g.columns);
    assert(error_texts(errors@) =~= b0 + page_geometry_errors(path@, sections@, spec_expected, j as nat, *g));
}

fn check_page_geometries(
    errors: &mut Vec<ValidationError>,
    path: &str,
    sections: &Vec<SectionLayout>,
    expected: &Vec<usize>,
    geometries: &Vec<SectionPageGeometry>,
    Ghost(spec_expected): Ghost<Seq<int>>,
)
    requires
        expected@.len() == spec_expected.len(),
        forall|m: int|
            0 <= m < expected@.len() ==> #[trigger] expected@[m] as int == spec_expected[m] && expected@[m]
                < sections@.len(),
    ensures
        error_texts(final(errors)@) == error_texts(old(errors)@) + page_geometries_errors(
            path@,
            sections@,
            spec_expected,
            geometries@,
            geometries@.len(),
        ),
{
    let ghost head = error_texts(errors@);
    let mut j: usize = 0;
    while j < geometries.len()
        invariant
            j <= geometries.len(),
            expected@.len() == spec_expected.len(),
            forall|m: int|
                0 <= m < expected@.len() ==> #[trigger] expected@[m] as int == spec_expected[m] && expected@[m]
                    < sections@.len(),
            error_texts(errors@) == head + page_geometries_errors(
                path@,
                sections@,
                spec_expected,
                geometries@,
                j as nat,
            ),
        decreases geometries.len() - j,
    {
        let geometry_path = concat_indexed(path, ".section_geometries", j);
        check_page_geometry(
            errors,
            geometry_path.as_str(),
            sections,
            expected,
            j,
            &geometries[j],
            Ghost(spec_expected),
        );
        proof {
            lemma_concat_associative(
                head,
                page_geometries_errors(path@, sections@, spec_expected, geometries@, j as nat),
                page_geometry_errors(
                    indexed(path@ + ".section_geometries"@, j as nat),
                    sections@,
                    spec_expected,
                    j as nat,
                    geometries@[j as int],
                ),
            );
        }
        j += 1;
    }
}

fn check_page(errors: &mut Vec<ValidationError>, sections: &Vec<SectionLayout>, position: usize, page: &PageLayout)
    ensures
        error_texts(final(errors)@) == error_texts(old(errors)@) + page_errors(
            sections@,
            position as nat,
            *page,
        ),
{
    let ghost b0 = error_texts(errors@);
    let path = concat_indexed("pages", "", position);
    proof {
        reveal_strlit("");
    }
    assert("pages"@ + ""@ =~= "pages"@);
    let ghost p = indexed("pages"@, position as nat);
    assert(path@ == p);
    report_position(errors, concat(path.as_str(), ".index"), position, page.index);
    let ghost x1 = when(page.index != position, p + ".index"@, position_message(position as nat, page.index as nat));
    let expected = sections_on_exec(sections, position);
    let ghost spec_expected = sections_on(sections@, position as nat, sections@.len());
    report(
        errors,
        page.section_geometries.len() != expected.len(),
        concat(path.as_str(), ".section_geometries"),
        "must contain one entry for every section occurring on this page",
    );
    let ghost x2 = when(
        page.section_geometries@.len() != spec_expected.len(),
        p + ".section_geometries"@,
        "must contain one entry for every section occurring on this page"@,
    );
    proof { lemma_concat_associative(b0, x1, x2); }
    check_page_geometries(errors, path.as_str(), sections, &expected, &page.section_geometries, Ghost(spec_expected));
    let ghost x3 = page_geometries_errors(
        p,
        sections@,
        spec_expected,
        page.section_geometries@,
        page.section_geometries@.len(),
    );
    proof { lemma_concat_associative(b0, x1 + x2, x3); }
    check_positive(errors, concat(path.as_str(), ".size_pt.width"), page.size_pt.width);
    let ghost x4 = positive_errors(p + ".size_pt.width"@, page.size_pt.width);
    proof { lemma_concat_associative(b0, x1 + x2 + x3, x4); }
    check_positive(errors, concat(path.as_str(), ".size_pt.height"), page.size_pt.height);
    let ghost x5 = positive_errors(p + ".size_pt.height"@, page.size_pt.height);
    proof { lemma_concat_associative(b0, x1 + x2 + x3 + x4, x5); }
}

} // verus!
verus! {

/// The ID of a region as text.
pub open spec fn region_id(r: Region) -> Seq<char> {
    common_of(r).id.0@
}

/// `pages[page].regions[position]`.
pub open spec fn region_path(page: nat, position: nat) -> Seq<char> {
    indexed(indexed("pages"@, page) + ".regions"@, position)
}

/// The last of the first `k` regions with ID `id`.
pub open spec fn last_in_regions(regions: Seq<Region>, id: Seq<char>, k: nat) -> Option<nat>
    decreases k,
{
    if k == 0 {
        None
    } else if region_id(regions[k - 1]) == id {
        Some((k - 1) as nat)
    } else {
        last_in_regions(regions, id, (k - 1) as nat)
    }
}

/// The last region with ID `id` on the first `k` pages, as `(page, position)`.
pub open spec fn last_in_pages(pages: Seq<PageLayout>, id: Seq<char>, k: nat) -> Option<(nat, nat)>
    decreases k,
{
    if k == 0 {
        None
    } else {
        match last_in_regions(pages[k - 1].regions@, id, pages[k - 1].regions@.len()) {
            Some(q) => Some(((k - 1) as nat, q)),
            None => last_in_pages(pages, id, (k - 1) as nat),
        }
    }
}

/// The region that an ID names: the last region that carries it.
pub open spec fn lookup(pages: Seq<PageLayout>, id: Seq<char>) -> Option<(nat, nat)> {
    last_in_pages(pages, id, pages.len())
}

/// The region at `(page, position)`.
pub open spec fn region_at(pages: Seq<PageLayout>, at: (nat, nat)) -> Region {
    pages[at.0 as int].regions@[at.1 as int]
}

/// The last region before `(page, position)` with the same ID.
pub open spec fn earlier_use(pages: Seq<PageLayout>, page: nat, position: nat) -> Option<(nat, nat)> {
    let id = region_id(pages[page as int].regions@[position as int]);
    match last_in_regions(pages[page as int].regions@, id, position) {
        Some(q) => Some((page, q)),
        None => last_in_pages(pages, id, page),
    }
}

fn find_in_regions(regions: &Vec<Region>, id: &str, k: usize) -> (r: Option<usize>)
    requires
        k <= regions.len(),
    ensures
        r matches Some(q) ==> q < k,
        match r {
            Some(q) => last_in_regions(regions@, id@, k as nat) == Some(q as nat),
            None => last_in_regions(regions@, id@, k as nat) is None,
        },
{
    let mut i: usize = k;
    while i > 0
        invariant
            i <= k <= regions.len(),
            last_in_regions(regions@, id@, k as nat) == last_in_regions(regions@, id@, i as nat),
        decreases i,
    {
        if str_equal(regions[i - 1].common().id.0.as_str(), id) {
            return Some(i - 1);
        }
        i -= 1;
    }
    None
}

fn find_in_pages(pages: &Vec<PageLayout>, id: &str, k: usize) -> (r: Option<(usize, usize)>)
    requires
        k <= pages.len(),
    ensures
        r matches Some(at) ==> at.0 < k && at.1 < pages@[at.0 as int].regions@.len(),
        match r {
            Some(at) => last_in_pages(pages@, id@, k as nat) == Some((at.0 as nat, at.1 as nat)),
            None => last_in_pages(pages@, id@, k as nat) is None,
        },
{
    let mut i: usize = k;
    while i > 0
        invariant
            i <= k <= pages.len(),
            last_in_pages(pages@, id@, k as nat) == last_in_pages(pages@, id@, i as nat),
        decreases i,
    {
        let regions = &pages[i - 1].regions;
        match find_in_regions(regions, id, regions.len()) {
            Some(q) => {
                return Some((i - 1, q));
            },
            None => {},
        }
        i -= 1;
    }
    None
}

fn find_region(pages: &Vec<PageLayout>, id: &str) -> (r: Option<(usize, usize)>)
    ensures
        r matches Some(at) ==> at.0 < pages@.len() && at.1 < pages@[at.0 as int].regions@.len(),
        match r {
            Some(at) => lookup(pages@, id@) == Some((at.0 as nat, at.1 as nat)),
            None => lookup(pages@, id@) is None,
        },
{
    find_in_pages(pages, id, pages.len())
}

/// `must be unique; first used at pages[p].regions[q]` when an earlier region has the ID.
pub open spec fn duplicate_errors(pages: Seq<PageLayout>, page: nat, position: nat) -> Seq<ErrorText> {
    match earlier_use(pages, page, position) {
        Some(at) => seq![
            (region_path(page, position) + ".id"@, "must be unique; first used at "@ + region_path(
                at.0,
                at.1,
            )),
        ],
        None => seq![],
    }
}

/// A region as the page walk sees it: its own checks, a non-empty ID, and an
/// ID that no earlier region used.
pub open spec fn placed_region_errors(
    pages: Seq<PageLayout>,
    page: nat,
    position: nat,
    a: Seq<ArithmeticAnswer>,
) -> Seq<ErrorText> {
    let r = pages[page as int].regions@[position as int];
    let path = region_path(page, position);
    region_errors(path, r, a) + nonempty_errors(path + ".id"@, region_id(r)) + duplicate_errors(
        pages,
        page,
        position,
    )
}

pub open spec fn placed_regions_errors(
    pages: Seq<PageLayout>,
    page: nat,
    a: Seq<ArithmeticAnswer>,
    k: nat,
) -> Seq<ErrorText>
    decreases k,
{
    if k == 0 {
        seq![]
    } else {
        placed_regions_errors(pages, page, a, (k - 1) as nat) + placed_region_errors(
            pages,
            page,
            (k - 1) as nat,
            a,
        )
    }
}

/// Each page, then each of its regions.
pub open spec fn pages_errors(
    sections: Seq<SectionLayout>,
    pages: Seq<PageLayout>,
    a: Seq<ArithmeticAnswer>,
    k: nat,
) -> Seq<ErrorText>
    decreases k,
{
    if k == 0 {
        seq![]
    } else {
        let p = (k - 1) as nat;
        pages_errors(sections, pages, a, p) + page_errors(sections, p, pages[p as int]) + placed_regions_errors(
            pages,
            p,
            a,
            pages[p as int].regions@.len(),
        )
    }
}

fn region_path_string(page: usize, position: usize) -> (r: String)
    ensures
        r@ == region_path(page as nat, position as nat),
{
    let p = concat_indexed("pages", "", page);
    proof {
        reveal_strlit("");
    }
    assert("pages"@ + ""@ =~= "pages"@);
    concat_indexed(p.as_str(), ".regions", position)
}

fn check_duplicate(errors: &mut Vec<ValidationError>, pages: &Vec<PageLayout>, page: usize, position: usize)
    requires
        page < pages.len(),
        position < pages@[page as int].regions@.len(),
    ensures
        error_texts(final(errors)@) == error_texts(old(errors)@) + duplicate_errors(
            pages@,
            page as nat,
            position as nat,
        ),
{
    let id = pages[page].regions[position].common().id.0.as_str();
    let earlier = match find_in_regions(&pages[page].regions, id, position) {
        Some(q) => Some((page, q)),
        None => find_in_pages(pages, id, page),
    };
    match earlier {
        Some(at) => {
            let mut message = String::from_str("must be unique; first used at ");
            let first = region_path_string(at.0, at.1);
            message.append(first.as_str());
            let path = region_path_string(page, position);
            push_error(errors, concat(path.as_str(), ".id"), message);
        },
        None => {
            assert(error_texts(errors@) + seq![] =~= error_texts(errors@));
        },
    }
}

fn check_placed_region(
    errors: &mut Vec<ValidationError>,
    pages: &Vec<PageLayout>,
    page: usize,
    position: usize,
    answers: &Vec<ArithmeticAnswer>,
)
    requires
        page < pages.len(),
        position < pages@[page as int].regions@.len(),
    ensures
        error_texts(final(errors)@) == error_texts(old(errors)@) + placed_region_errors(
            pages@,
            page as nat,
            position as nat,
            answers@,
        ),
{
    let ghost b0 = error_texts(errors@);
    let region = &pages[page].regions[position];
    let path = region_path_string(page, position);
    check_region(errors, path.as_str(), region, answers);
    validate_nonempty(errors, concat(path.as_str(), ".id"), region.common().id.0.as_str());
    check_duplicate(errors, pages, page, position);
    assert(error_texts(errors@) =~= b0 + placed_region_errors(pages@, page as nat, position as nat, answers@));
}

fn check_placed_regions(
    errors: &mut Vec<ValidationError>,
    pages: &Vec<PageLayout>,
    p: usize,
    answers: &Vec<ArithmeticAnswer>,
)
    requires
        p < pages.len(),
    ensures
        error_texts(final(errors)@) == error_texts(old(errors)@) + placed_regions_errors(
            pages@,
            p as nat,
            answers@,
            pages@[p as int].regions@.len(),
        ),
{
    let ghost head = error_texts(errors@);
    let mut q: usize = 0;
    while q < pages[p].regions.len()
        invariant
            p < pages.len(),
            q <= pages@[p as int].regions@.len(),
            error_texts(errors@) == head + placed_regions_errors(pages@, p as nat, answers@, q as nat),
        decreases pages@[p as int].regions@.len() - q,
    {
        check_placed_region(errors, pages, p, q, answers);
        proof {
            lemma_concat_associative(
                head,
                placed_regions_errors(pages@, p as nat, answers@, q as nat),
                placed_region_errors(pages@, p as nat, q as nat, answers@),
            );
        }
        q += 1;
    }
}

fn check_pages(
    errors: &mut Vec<ValidationError>,
    sections: &Vec<SectionLayout>,
    pages: &Vec<PageLayout>,
    answers: &Vec<ArithmeticAnswer>,
)
    ensures
        error_texts(final(errors)@) == error_texts(old(errors)@) + pages_errors(
            sections@,
            pages@,
            answers@,
            pages@.len(),
        ),
{
    let ghost b0 = error_texts(errors@);
    let mut p: usize = 0;
    while p < pages.len()
        invariant
            p <= pages.len(),
            error_texts(errors@) == b0 + pages_errors(sections@, pages@, answers@, p as nat),
        decreases pages.len() - p,
    {
        check_page(errors, sections, p, &pages[p]);
        let ghost before = pages_errors(sections@, pages@, answers@, p as nat);
        let ghost x1 = page_errors(sections@, p as nat, pages@[p as int]);
        check_placed_regions(errors, pages, p, answers);
        let ghost x2 = placed_regions_errors(pages@, p as nat, answers@, pages@[p as int].regions@.len());
        proof {
            lemma_concat_associative(b0, before, x1);
            lemma_concat_associative(b0, before + x1, x2);
            assert(pages_errors(sections@, pages@, answers@, (p + 1) as nat) == before + x1 + x2);
        }
        p += 1;
    }
}

} // verus!
verus! {

/// The region that an ID lookup finds at `(page, position)` is this one: no
/// later region carries its ID.
pub open spec fn kept(pages: Seq<PageLayout>, page: nat, position: nat) -> bool {
    lookup(pages, region_id(region_at(pages, (page, position)))) == Some((page, position))
}

/// Which region kinds may compose which.
pub open spec fn valid_parent(parent: Region, child: Region) -> bool {
    ||| parent is Shape && (child matches Region::Story(s) && s.story_kind == StoryKind::TextBox)
    ||| parent is Story && (child is Paragraph || child is Table || child is Image || child is Shape)
    ||| parent is Table && child is TableRow
    ||| parent is TableRow && child is TableCell
    ||| parent is TableCell && (child is Paragraph || child is Table || child is Image || child is Shape)
    ||| parent is Paragraph && (child is Image || child is Shape)
}

fn valid_parent_exec(parent: &Region, child: &Region) -> (r: bool)
    ensures
        r == valid_parent(*parent, *child),
{
    match parent {
        Region::Shape(_) => match child {
            Region::Story(s) => s.story_kind == StoryKind::TextBox,
            _ => false,
        },
        Region::Story(_) | Region::TableCell(_) => match child {
            Region::Paragraph(_) | Region::Table(_) | Region::Image(_) | Region::Shape(_) => true,
            _ => false,
        },
        Region::Table(_) => match child {
            Region::TableRow(_) => true,
            _ => false,
        },
        Region::TableRow(_) => match child {
            Region::TableCell(_) => true,
            _ => false,
        },
        Region::Paragraph(_) => match child {
            Region::Image(_) | Region::Shape(_) => true,
            _ => false,
        },
        Region::Image(_) => false,
    }
}

/// The parent ID that a region names, as text.
pub open spec fn parent_key(r: Region) -> Option<Seq<char>> {
    match common_of(r).parent_id {
        Some(pid) => Some(pid.0@),
        None => None,
    }
}

/// A named parent that no region carries.
pub open spec fn parent_missing(pages: Seq<PageLayout>, r: Region) -> bool {
    parent_key(r) matches Some(pid) && lookup(pages, pid) is None
}

pub open spec fn parent_errors(pages: Seq<PageLayout>, path: Seq<char>, r: Region) -> Seq<ErrorText> {
    match parent_key(r) {
        Some(pid) => match lookup(pages, pid) {
            None => seq![(path + ".parent_id"@, "must reference a region"@)],
            Some(at) => when(
                !valid_parent(region_at(pages, at), r),
                path + ".parent_id"@,
                "references an incompatible composition parent"@,
            ),
        },
        None => when(!(r is Story), path + ".parent_id"@, "non-story regions must have a composition parent"@),
    }
}

pub open spec fn owner_errors(pages: Seq<PageLayout>, path: Seq<char>, r: Region) -> Seq<ErrorText> {
    match common_of(r).owner_id {
        Some(o) => if o.0@ == region_id(r) {
            seq![(path + ".owner_id"@, "must not reference itself"@)]
        } else if lookup(pages, o.0@) is None {
            seq![(path + ".owner_id"@, "must reference a region"@)]
        } else {
            seq![]
        },
        None => seq![],
    }
}

/// The parent named by the region that `id` names.
pub open spec fn parent_step(pages: Seq<PageLayout>, id: Seq<char>) -> Option<Seq<char>> {
    match lookup(pages, id) {
        Some(at) => parent_key(region_at(pages, at)),
        None => None,
    }
}

/// Following parents from `current` meets an ID already in `seen`, taking at
/// most `fuel` steps.
pub open spec fn walk_revisits(
    pages: Seq<PageLayout>,
    current: Seq<char>,
    seen: Seq<Seq<char>>,
    fuel: nat,
) -> bool
    decreases fuel,
{
    if seen.contains(current) {
        true
    } else if fuel == 0 {
        false
    } else {
        match parent_step(pages, current) {
            Some(next) => walk_revisits(pages, next, seen.push(current), (fuel - 1) as nat),
            None => false,
        }
    }
}

pub open spec fn region_count(pages: Seq<PageLayout>, k: nat) -> nat
    decreases k,
{
    if k == 0 {
        0
    } else {
        region_count(pages, (k - 1) as nat) + pages[k - 1].regions@.len()
    }
}

/// One step more than there are regions.
pub open spec fn walk_fuel(pages: Seq<PageLayout>) -> nat {
    region_count(pages, pages.len()) + 1
}

/// The composition checks of one region: its parent exists and may hold it
/// (a story needs none); unless the parent is missing, its owner is another
/// existing region and its parent chain does not come back to an ID.
pub open spec fn structure_errors(pages: Seq<PageLayout>, page: nat, position: nat) -> Seq<ErrorText> {
    let r = region_at(pages, (page, position));
    let path = region_path(page, position);
    parent_errors(pages, path, r) + if parent_missing(pages, r) {
        seq![]
    } else {
        owner_errors(pages, path, r) + when(
            walk_revisits(pages, region_id(r), seq![], walk_fuel(pages)),
            path + ".parent_id"@,
            "must not form a cycle"@,
        )
    }
}

pub open spec fn story_link_errors(pages: Seq<PageLayout>, path: Seq<char>, ids: Seq<RegionId>, k: nat) -> Seq<
    ErrorText,
>
    decreases k,
{
    if k == 0 {
        seq![]
    } else {
        story_link_errors(pages, path, ids, (k - 1) as nat) + when(
            lookup(pages, ids[k - 1].0@) is None,
            indexed(path + ".linked_from"@, (k - 1) as nat),
            "must reference a region"@,
        )
    }
}

/// The region that inline content refers to, if it refers to one.
pub open spec fn inline_target(kind: InlineKind) -> Option<Seq<char>> {
    match kind {
        InlineKind::NoteReference { target_story_id } => Some(target_story_id.0@),
        InlineKind::CommentReference { target_story_id } => Some(target_story_id.0@),
        InlineKind::Object { target_region_id } => Some(target_region_id.0@),
        _ => None,
    }
}

/// Notes point at footnote or endnote stories, comments at comment stories,
/// objects at any region.
pub open spec fn target_fits(kind: InlineKind, target: Region) -> bool {
    match kind {
        InlineKind::NoteReference { .. } => target matches Region::Story(s) && (s.story_kind
            == StoryKind::Footnote || s.story_kind == StoryKind::Endnote),
        InlineKind::CommentReference { .. } => target matches Region::Story(s) && s.story_kind
            == StoryKind::Comment,
        _ => true,
    }
}

pub open spec fn reference_errors(pages: Seq<PageLayout>, path: Seq<char>, c: InlineContent) -> Seq<
    ErrorText,
> {
    match inline_target(c.kind) {
        Some(t) => match lookup(pages, t) {
            None => seq![(path, "target must reference a region"@)],
            Some(at) => when(!target_fits(c.kind, region_at(pages, at)), path, "target has the wrong story kind"@),
        },
        None => seq![],
    }
}

pub open spec fn references_errors(pages: Seq<PageLayout>, path: Seq<char>, cs: Seq<InlineContent>, k: nat) -> Seq<
    ErrorText,
>
    decreases k,
{
    if k == 0 {
        seq![]
    } else {
        references_errors(pages, path, cs, (k - 1) as nat) + reference_errors(
            pages,
            indexed(path + ".content"@, (k - 1) as nat),
            cs[k - 1],
        )
    }
}

/// Story links and inline references of one region point at existing regions
/// of a fitting kind.
pub open spec fn link_errors(pages: Seq<PageLayout>, page: nat, position: nat) -> Seq<ErrorText> {
    let path = region_path(page, position);
    match region_at(pages, (page, position)) {
        Region::Story(s) => story_link_errors(pages, path, s.linked_from@, s.linked_from@.len()),
        Region::Paragraph(p) => references_errors(pages, path, p.content@, p.content@.len()),
        _ => seq![],
    }
}

/// Whether the region at `other` comes before the one at `position` among the
/// ordered regions of the same parent on the same page: by reading order, then
/// by position.
pub open spec fn read_before(pages: Seq<PageLayout>, page: nat, position: nat, other: nat) -> bool {
    let r = region_at(pages, (page, position));
    let s = region_at(pages, (page, other));
    &&& kept(pages, page, other)
    &&& parent_key(s) == parent_key(r)
    &&& common_of(s).reading_order matches Some(o2)
    &&& common_of(r).reading_order matches Some(o)
    &&& (o2 < o || (o2 == o && other < position))
}

/// How many of the first `k` regions of the page read before the one at `position`.
pub open spec fn rank_among(pages: Seq<PageLayout>, page: nat, position: nat, k: nat) -> nat
    decreases k,
{
    if k == 0 {
        0
    } else {
        rank_among(pages, page, position, (k - 1) as nat) + if read_before(
            pages,
            page,
            position,
            (k - 1) as nat,
        ) {
            1nat
        } else {
            0nat
        }
    }
}

/// A region's place in the reading order of its parent on its page.
pub open spec fn reading_rank(pages: Seq<PageLayout>, page: nat, position: nat) -> nat {
    rank_among(pages, page, position, pages[page as int].regions@.len())
}

/// Reading orders are `0, 1, 2, …` within each parent on each page.
pub open spec fn reading_errors(pages: Seq<PageLayout>, page: nat, position: nat) -> Seq<ErrorText> {
    match common_of(region_at(pages, (page, position))).reading_order {
        Some(o) => when(
            o != reading_rank(pages, page, position),
            region_path(page, position) + ".reading_order"@,
            "must be contiguous from zero within its parent; expected "@ + decimal(
                reading_rank(pages, page, position),
            ),
        ),
        None => seq![],
    }
}

/// The three checks that relate regions to one another.
#[derive(Clone, Copy, Debug, PartialEq, Eq, Structural)]
pub enum CrossCheck {
    Structure,
    Links,
    ReadingOrder,
}

/// A cross check of one region; each is made once per ID, on the region that
/// the ID names.
pub open spec fn cross_errors(pages: Seq<PageLayout>, check: CrossCheck, page: nat, position: nat) -> Seq<
    ErrorText,
> {
    if kept(pages, page, position) {
        match check {
            CrossCheck::Structure => structure_errors(pages, page, position),
            CrossCheck::Links => link_errors(pages, page, position),
            CrossCheck::ReadingOrder => reading_errors(pages, page, position),
        }
    } else {
        seq![]
    }
}

pub open spec fn cross_regions(pages: Seq<PageLayout>, check: CrossCheck, page: nat, k: nat) -> Seq<ErrorText>
    decreases k,
{
    if k == 0 {
        seq![]
    } else {
        cross_regions(pages, check, page, (k - 1) as nat) + cross_errors(pages, check, page, (k - 1) as nat)
    }
}

pub open spec fn cross_pages(pages: Seq<PageLayout>, check: CrossCheck, k: nat) -> Seq<ErrorText>
    decreases k,
{
    if k == 0 {
        seq![]
    } else {
        cross_pages(pages, check, (k - 1) as nat) + cross_regions(
            pages,
            check,
            (k - 1) as nat,
            pages[k - 1].regions@.len(),
        )
    }
}

} // verus!
verus! {

fn kept_exec(pages: &Vec<PageLayout>, page: usize, position: usize) -> (r: bool)
    requires
        page < pages.len(),
        position < pages@[page as int].regions@.len(),
    ensures
        r == kept(pages@, page as nat, position as nat),
{
    match find_region(pages, pages[page].regions[position].common().id.0.as_str()) {
        Some(at) => at.0 == page && at.1 == position,
        None => false,
    }
}

fn region_count_exec(pages: &Vec<PageLayout>) -> (r: u128)
    ensures
        r as nat == region_count(pages@, pages@.len()),
        r < u128::MAX,
{
    let mut total: u128 = 0;
    let mut i: usize = 0;
    while i < pages.len()
        invariant
            i <= pages.len(),
            total as nat == region_count(pages@, i as nat),
            total <= (i as int) * (usize::MAX as int),
        decreases pages.len() - i,
    {
        assert((i + 1) * (usize::MAX as int) <= (usize::MAX as int) * (usize::MAX as int)) by (nonlinear_arith)
            requires
                i + 1 <= usize::MAX,
        ;
        assert((usize::MAX as int) * (usize::MAX as int) < u128::MAX) by (nonlinear_arith)
            requires
                usize::MAX <= u64::MAX,
        ;
        total = total + pages[i].regions.len() as u128;
        i += 1;
    }
    assert((pages.len() as int) * (usize::MAX as int) < u128::MAX) by (nonlinear_arith)
        requires
            pages.len() <= usize::MAX,
            usize::MAX <= u64::MAX,
    ;
    total
}

spec fn seen_view(v: Seq<&str>) -> Seq<Seq<char>> {
    Seq::new(v.len(), |i: int| v[i]@)
}

fn seen_contains(seen: &Vec<&str>, s: &str) -> (r: bool)
    ensures
        r == seen_view(seen@).contains(s@),
{
    let mut i: usize = 0;
    while i < seen.len()
        invariant
            i <= seen.len(),
            forall|j: int| 0 <= j < i ==> seen_view(seen@)[j] != s@,
        decreases seen.len() - i,
    {
        if str_equal(seen[i], s) {
            assert(seen_view(seen@)[i as int] == s@);
            return true;
        }
        i += 1;
    }
    false
}

fn walk_exec(pages: &Vec<PageLayout>, start: &str, fuel: u128) -> (r: bool)
    ensures
        r == walk_revisits(pages@, start@, seq![], fuel as nat),
{
    let mut seen: Vec<&str> = Vec::new();
    let mut current: &str = start;
    let mut f: u128 = fuel;
    assert(seen_view(seen@) =~= Seq::<Seq<char>>::empty());
    loop
        invariant
            walk_revisits(pages@, start@, seq![], fuel as nat) == walk_revisits(
                pages@,
                current@,
                seen_view(seen@),
                f as nat,
            ),
        decreases f,
    {
        if seen_contains(&seen, current) {
            return true;
        }
        if f == 0 {
            return false;
        }
        match find_region(pages, current) {
            Some(at) => match &pages[at.0].regions[at.1].common().parent_id {
                Some(pid) => {
                    let ghost before = seen_view(seen@);
                    seen.push(current);
                    assert(seen_view(seen@) =~= before.push(current@));
                    current = pid.0.as_str();
                    f = f - 1;
                },
                None => {
                    return false;
                },
            },
            None => {
                return false;
            },
        }
    }
}

fn check_structure(
    errors: &mut Vec<ValidationError>,
    pages: &Vec<PageLayout>,
    page: usize,
    position: usize,
    fuel: u128,
)
    requires
        page < pages.len(),
        position < pages@[page as int].regions@.len(),
        fuel as nat == walk_fuel(pages@),
    ensures
        error_texts(final(errors)@) == error_texts(old(errors)@) + structure_errors(
            pages@,
            page as nat,
            position as nat,
        ),
{
    let ghost b0 = error_texts(errors@);
    let region = &pages[page].regions[position];
    let common = region.common();
    let path = region_path_string(page, position);
    let parent_path = concat(path.as_str(), ".parent_id");
    match &common.parent_id {
        Some(pid) => match find_region(pages, pid.0.as_str()) {
            None => {
                push_error(errors, parent_path, String::from_str("must reference a region"));
                return;
            },
            Some(at) => {
                let fits = valid_parent_exec(&pages[at.0].regions[at.1], region);
                report(errors, !fits, parent_path, "references an incompatible composition parent");
            },
        },
        None => {
            let story = match region {
                Region::Story(_) => true,
                _ => false,
            };
            report(errors, !story, parent_path, "non-story regions must have a composition parent");
        },
    }
    match &common.owner_id {
        Some(o) => {
            if str_equal(o.0.as_str(), common.id.0.as_str()) {
                push_error(errors, concat(path.as_str(), ".owner_id"), String::from_str("must not reference itself"));
            } else if find_region(pages, o.0.as_str()).is_none() {
                push_error(errors, concat(path.as_str(), ".owner_id"), String::from_str("must reference a region"));
            }
        },
        None => {},
    }
    let cycle = walk_exec(pages, common.id.0.as_str(), fuel);
    report(errors, cycle, concat(path.as_str(), ".parent_id"), "must not form a cycle");
    assert(error_texts(errors@) =~= b0 + structure_errors(pages@, page as nat, position as nat));
}

fn check_story_links(
    errors: &mut Vec<ValidationError>,
    pages: &Vec<PageLayout>,
    path: &str,
    ids: &Vec<RegionId>,
)
    ensures
        error_texts(final(errors)@) == error_texts(old(errors)@) + story_link_errors(
            pages@,
            path@,
            ids@,
            ids@.len(),
        ),
{
    let ghost head = error_texts(errors@);
    let mut i: usize = 0;
    while i < ids.len()
        invariant
            i <= ids.len(),
            error_texts(errors@) == head + story_link_errors(pages@, path@, ids@, i as nat),
        decreases ids.len() - i,
    {
        let missing = find_region(pages, ids[i].0.as_str()).is_none();
        report(errors, missing, concat_indexed(path, ".linked_from", i), "must reference a region");
        assert(error_texts(errors@) =~= head + story_link_errors(pages@, path@, ids@, (i + 1) as nat));
        i += 1;
    }
}

fn target_fits_exec(kind: &InlineKind, target: &Region) -> (r: bool)
    ensures
        r == target_fits(*kind, *target),
{
    match kind {
        InlineKind::NoteReference { .. } => match target {
            Region::Story(s) => s.story_kind == StoryKind::Footnote || s.story_kind == StoryKind::Endnote,
            _ => false,
        },
        InlineKind::CommentReference { .. } => match target {
            Region::Story(s) => s.story_kind == StoryKind::Comment,
            _ => false,
        },
        _ => true,
    }
}

fn check_reference(errors: &mut Vec<ValidationError>, pages: &Vec<PageLayout>, path: String, c: &InlineContent)
    ensures
        error_texts(final(errors)@) == error_texts(old(errors)@) + reference_errors(pages@, path@, *c),
{
    let target = match &c.kind {
        InlineKind::NoteReference { target_story_id } => Some(target_story_id.0.as_str()),
        InlineKind::CommentReference { target_story_id } => Some(target_story_id.0.as_str()),
        InlineKind::Object { target_region_id } => Some(target_region_id.0.as_str()),
        _ => None,
    };
    match target {
        Some(t) => match find_region(pages, t) {
            None => push_error(errors, path, String::from_str("target must reference a region")),
            Some(at) => {
                let fits = target_fits_exec(&c.kind, &pages[at.0].regions[at.1]);
                report(errors, !fits, path, "target has the wrong story kind");
            },
        },
        None => {
            assert(error_texts(errors@) + seq![] =~= error_texts(errors@));
        },
    }
}

fn check_references(
    errors: &mut Vec<ValidationError>,
    pages: &Vec<PageLayout>,
    path: &str,
    cs: &Vec<InlineContent>,
)
    ensures
        error_texts(final(errors)@) == error_texts(old(errors)@) + references_errors(
            pages@,
            path@,
            cs@,
            cs@.len(),
        ),
{
    let ghost head = error_texts(errors@);
    let mut i: usize = 0;
    while i < cs.len()
        invariant
            i <= cs.len(),
            error_texts(errors@) == head + references_errors(pages@, path@, cs@, i as nat),
        decreases cs.len() - i,
    {
        check_reference(errors, pages, concat_indexed(path, ".content", i), &cs[i]);
        assert(error_texts(errors@) =~= head + references_errors(pages@, path@, cs@, (i + 1) as nat));
        i += 1;
    }
}

fn check_links(errors: &mut Vec<ValidationError>, pages: &Vec<PageLayout>, page: usize, position: usize)
    requires
        page < pages.len(),
        position < pages@[page as int].regions@.len(),
    ensures
        error_texts(final(errors)@) == error_texts(old(errors)@) + link_errors(
            pages@,
            page as nat,
            position as nat,
        ),
{
    let path = region_path_string(page, position);
    match &pages[page].regions[position] {
        Region::Story(s) => check_story_links(errors, pages, path.as_str(), &s.linked_from),
        Region::Paragraph(p) => check_references(errors, pages, path.as_str(), &p.content),
        _ => {
            assert(error_texts(errors@) + seq![] =~= error_texts(errors@));
        },
    }
}

fn same_parent(a: &Option<RegionId>, b: &Option<RegionId>) -> (r: bool)
    ensures
        r == ((match *a {
            Some(x) => Some(x.0@),
            None => None::<Seq<char>>,
        }) == (match *b {
            Some(x) => Some(x.0@),
            None => None::<Seq<char>>,
        })),
{
    match (a, b) {
        (Some(x), Some(y)) => str_equal(x.0.as_str(), y.0.as_str()),
        (None, None) => true,
        _ => false,
    }
}

fn read_before_exec(pages: &Vec<PageLayout>, page: usize, position: usize, other: usize) -> (r: bool)
    requires
        page < pages.len(),
        position < pages@[page as int].regions@.len(),
        other < pages@[page as int].regions@.len(),
    ensures
        r == read_before(pages@, page as nat, position as nat, other as nat),
{
    let r = pages[page].regions[position].common();
    let s = pages[page].regions[other].common();
    if !kept_exec(pages, page, other) || !same_parent(&s.parent_id, &r.parent_id) {
        return false;
    }
    match (s.reading_order, r.reading_order) {
        (Some(o2), Some(o)) => o2 < o || (o2 == o && other < position),
        _ => false,
    }
}

fn check_reading(errors: &mut Vec<ValidationError>, pages: &Vec<PageLayout>, page: usize, position: usize)
    requires
        page < pages.len(),
        position < pages@[page as int].regions@.len(),
    ensures
        error_texts(final(errors)@) == error_texts(old(errors)@) + reading_errors(
            pages@,
            page as nat,
            position as nat,
        ),
{
    match pages[page].regions[position].common().reading_order {
        Some(o) => {
            let n = pages[page].regions.len();
            let mut rank: usize = 0;
            let mut k: usize = 0;
            while k < n
                invariant
                    page < pages.len(),
                    position < n == pages@[page as int].regions@.len(),
                    k <= n,
                    rank <= k,
                    rank as nat == rank_among(pages@, page as nat, position as nat, k as nat),
                decreases n - k,
            {
                if read_before_exec(pages, page, position, k) {
                    rank += 1;
                }
                k += 1;
            }
            if o != rank {
                let mut message = String::from_str("must be contiguous from zero within its parent; expected ");
                push_decimal(&mut message, rank as u64);
                let path = region_path_string(page, position);
                push_error(errors, concat(path.as_str(), ".reading_order"), message);
            } else {
                assert(error_texts(errors@) + seq![] =~= error_texts(errors@));
            }
        },
        None => {
            assert(error_texts(errors@) + seq![] =~= error_texts(errors@));
        },
    }
}

fn check_cross(errors: &mut Vec<ValidationError>, pages: &Vec<PageLayout>, check: CrossCheck, fuel: u128)
    requires
        fuel as nat == walk_fuel(pages@),
    ensures
        error_texts(final(errors)@) == error_texts(old(errors)@) + cross_pages(pages@, check, pages@.len()),
{
    let ghost b0 = error_texts(errors@);
    let mut p: usize = 0;
    while p < pages.len()
        invariant
            p <= pages.len(),
            fuel as nat == walk_fuel(pages@),
            error_texts(errors@) == b0 + cross_pages(pages@, check, p as nat),
        decreases pages.len() - p,
    {
        let ghost head = error_texts(errors@);
        let mut q: usize = 0;
        while q < pages[p].regions.len()
            invariant
                p < pages.len(),
                q <= pages@[p as int].regions@.len(),
                fuel as nat == walk_fuel(pages@),
                error_texts(errors@) == head + cross_regions(pages@, check, p as nat, q as nat),
            decreases pages@[p as int].regions@.len() - q,
        {
            if kept_exec(pages, p, q) {
                match check {
                    CrossCheck::Structure => check_structure(errors, pages, p, q, fuel),
                    CrossCheck::Links => check_links(errors, pages, p, q),
                    CrossCheck::ReadingOrder => check_reading(errors, pages, p, q),
                }
            } else {
                assert(error_texts(errors@) + seq![] =~= error_texts(errors@));
            }
            proof {
                lemma_concat_associative(
                    head,
                    cross_regions(pages@, check, p as nat, q as nat),
                    cross_errors(pages@, check, p as nat, q as nat),
                );
            }
            q += 1;
        }
        proof {
            lemma_concat_associative(
                b0,
                cross_pages(pages@, check, p as nat),
                cross_regions(pages@, check, p as nat, pages@[p as int].regions@.len()),
            );
        }
        p += 1;
    }
}

} // verus!
verus! {

/// The region kinds that can be split across pages.
#[derive(Clone, Copy, Debug, PartialEq, Eq, Structural)]
pub enum FragmentKind {
    Paragraph,
    Table,
    TableRow,
    TableCell,
}

/// A source occurrence whose later fragments are still expected.
pub struct OpenFragment {
    pub start_path: Seq<char>,
    pub kind: FragmentKind,
    pub part: Seq<char>,
    pub id: Seq<char>,
    pub count: nat,
    pub next: nat,
    pub previous_page: nat,
    pub text: Option<Seq<char>>,
}

/// The kind and fragment of a region that can be split.
pub open spec fn fragment_of(r: Region) -> Option<(FragmentKind, PageFragment)> {
    match r {
        Region::Paragraph(v) => Some((FragmentKind::Paragraph, v.fragment)),
        Region::Table(v) => Some((FragmentKind::Table, v.fragment)),
        Region::TableRow(v) => Some((FragmentKind::TableRow, v.fragment)),
        Region::TableCell(v) => Some((FragmentKind::TableCell, v.fragment)),
        _ => None,
    }
}

pub open spec fn text_of(r: Region) -> Option<Seq<char>> {
    match r {
        Region::Paragraph(v) => Some(v.text@),
        _ => None,
    }
}

pub open spec fn same_occurrence(s: OpenFragment, kind: FragmentKind, r: Region) -> bool {
    s.kind == kind && s.part == source_of(r).part@ && s.id == source_of(r).id@
}

/// The first open occurrence from `i` on with the same kind and source as `r`.
pub open spec fn find_fragment(active: Seq<OpenFragment>, kind: FragmentKind, r: Region, i: nat) -> Option<
    nat,
>
    decreases active.len() - i,
{
    if i >= active.len() {
        None
    } else if same_occurrence(active[i as int], kind, r) {
        Some(i)
    } else {
        find_fragment(active, kind, r, i + 1)
    }
}

proof fn lemma_find_fragment_bound(active: Seq<OpenFragment>, kind: FragmentKind, r: Region, i: nat)
    ensures
        find_fragment(active, kind, r, i) matches Some(k) ==> i <= k < active.len() && same_occurrence(
            active[k as int],
            kind,
            r,
        ),
    decreases active.len() - i,
{
    if i < active.len() && !same_occurrence(active[i as int], kind, r) {
        lemma_find_fragment_bound(active, kind, r, i + 1);
    }
}

/// The errors of a continuation fragment against its open occurrence.
pub open spec fn continuation_errors(path: Seq<char>, page: nat, f: PageFragment, text: Option<Seq<char>>, s: OpenFragment) -> Seq<
    ErrorText,
> {
    when(
        f.index != s.next || f.count != s.count,
        path + ".fragment"@,
        "must be fragment "@ + decimal(s.next) + " of "@ + decimal(s.count),
    ) + when(
        page <= s.previous_page,
        path + ".fragment.index"@,
        "continuation fragments must appear on later pages"@,
    ) + when(
        text matches Some(t) && s.text != Some(t),
        path + ".text"@,
        "must match the logical text of fragment zero"@,
    )
}

/// One region advances the open occurrences. Fragment zero opens an occurrence
/// (reporting and dropping one still open for the same kind and source);
/// a later fragment must continue an open occurrence, in order, with the same
/// count, on a later page and, for a paragraph, with the same text; the last
/// fragment closes it. Regions that cannot split, and fragments that are not
/// well formed, leave the occurrences as they are.
pub open spec fn fragment_step(active: Seq<OpenFragment>, page: nat, position: nat, r: Region) -> (
    Seq<OpenFragment>,
    Seq<ErrorText>,
) {
    match fragment_of(r) {
        None => (active, seq![]),
        Some((kind, f)) => if f.count == 0 || f.index >= f.count {
            (active, seq![])
        } else {
            let path = region_path(page, position);
            if f.index == 0 {
                let (a1, e) = match find_fragment(active, kind, r, 0) {
                    Some(k) => (
                        active.remove(k as int),
                        seq![
                            (path + ".fragment.index"@, "starts a new occurrence before "@
                                + active[k as int].start_path + " completed"@),
                        ],
                    ),
                    None => (active, seq![]),
                };
                let a2 = if f.count > 1 {
                    a1.push(
                        OpenFragment {
                            start_path: path,
                            kind,
                            part: source_of(r).part@,
                            id: source_of(r).id@,
                            count: f.count as nat,
                            next: 1,
                            previous_page: page,
                            text: text_of(r),
                        },
                    )
                } else {
                    a1
                };
                (a2, e)
            } else {
                match find_fragment(active, kind, r, 0) {
                    None => (
                        active,
                        seq![
                            (path + ".fragment.index"@,
                            "must follow fragment zero for the same source occurrence"@),
                        ],
                    ),
                    Some(k) => {
                        let s = active[k as int];
                        let next = (f.index + 1) as nat;
                        let a2 = if next == s.count {
                            active.remove(k as int)
                        } else {
                            active.update(k as int, OpenFragment { next, previous_page: page, ..s })
                        };
                        (a2, continuation_errors(path, page, f, text_of(r), s))
                    },
                }
            }
        },
    }
}

pub open spec fn fragment_scan_regions(
    active: Seq<OpenFragment>,
    page: nat,
    regions: Seq<Region>,
    k: nat,
) -> (Seq<OpenFragment>, Seq<ErrorText>)
    decreases k,
{
    if k == 0 {
        (active, seq![])
    } else {
        let (a, e) = fragment_scan_regions(active, page, regions, (k - 1) as nat);
        let (a2, e2) = fragment_step(a, page, (k - 1) as nat, regions[k - 1]);
        (a2, e + e2)
    }
}

pub open spec fn fragment_scan_pages(pages: Seq<PageLayout>, i: nat) -> (Seq<OpenFragment>, Seq<ErrorText>)
    decreases i,
{
    if i == 0 {
        (seq![], seq![])
    } else {
        let (a, e) = fragment_scan_pages(pages, (i - 1) as nat);
        let (a2, e2) = fragment_scan_regions(a, (i - 1) as nat, pages[i - 1].regions@, pages[i - 1].regions@.len());
        (a2, e + e2)
    }
}

pub open spec fn unfinished_errors(active: Seq<OpenFragment>, k: nat) -> Seq<ErrorText>
    decreases k,
{
    if k == 0 {
        seq![]
    } else {
        unfinished_errors(active, (k - 1) as nat) + seq![
            (active[k - 1].start_path + ".fragment.count"@, "sequence ended before all "@ + decimal(
                active[k - 1].count,
            ) + " fragments were present"@),
        ]
    }
}

/// The fragment errors of a document, then one error for each occurrence still
/// incomplete at the end, in the order the occurrences started.
pub open spec fn fragment_sequence_errors(pages: Seq<PageLayout>) -> Seq<ErrorText> {
    let (active, errors) = fragment_scan_pages(pages, pages.len());
    errors + unfinished_errors(active, active.len())
}

struct ActiveFragment<'a> {
    start_path: String,
    kind: FragmentKind,
    part: &'a str,
    id: &'a str,
    count: usize,
    next: usize,
    previous_page: usize,
    text: Option<&'a str>,
}

spec fn open_of(a: ActiveFragment) -> OpenFragment {
    OpenFragment {
        start_path: a.start_path@,
        kind: a.kind,
        part: a.part@,
        id: a.id@,
        count: a.count as nat,
        next: a.next as nat,
        previous_page: a.previous_page as nat,
        text: match a.text {
            Some(t) => Some(t@),
            None => None,
        },
    }
}

spec fn opens(v: Seq<ActiveFragment>) -> Seq<OpenFragment> {
    Seq::new(v.len(), |i: int| open_of(v[i]))
}

fn fragment_of_exec(r: &Region) -> (f: Option<(FragmentKind, PageFragment)>)
    ensures
        f == fragment_of(*r),
{
    match r {
        Region::Paragraph(v) => Some((FragmentKind::Paragraph, v.fragment)),
        Region::Table(v) => Some((FragmentKind::Table, v.fragment)),
        Region::TableRow(v) => Some((FragmentKind::TableRow, v.fragment)),
        Region::TableCell(v) => Some((FragmentKind::TableCell, v.fragment)),
        _ => None,
    }
}

fn text_of_exec(r: &Region) -> (t: Option<&str>)
    ensures
        match t {
            Some(s) => text_of(*r) == Some(s@),
            None => text_of(*r) is None,
        },
{
    match r {
        Region::Paragraph(v) => Some(v.text.as_str()),
        _ => None,
    }
}

fn find_fragment_exec(active: &Vec<ActiveFragment>, kind: FragmentKind, r: &Region) -> (k: Option<usize>)
    ensures
        match k {
            Some(k) => find_fragment(opens(active@), kind, *r, 0) == Some(k as nat),
            None => find_fragment(opens(active@), kind, *r, 0) is None,
        },
{
    let ghost o = opens(active@);
    let source = r.source();
    let mut i: usize = 0;
    while i < active.len()
        invariant
            i <= active.len(),
            o == opens(active@),
            *source == source_of(*r),
            find_fragment(o, kind, *r, 0) == find_fragment(o, kind, *r, i as nat),
        decreases active.len() - i,
    {
        let a = &active[i];
        if a.kind == kind && str_equal(a.part, source.part.as_str()) && str_equal(a.id, source.id.as_str()) {
            assert(same_occurrence(o[i as int], kind, *r));
            return Some(i);
        }
        assert(!same_occurrence(o[i as int], kind, *r));
        i += 1;
    }
    None
}

fn same_text(a: Option<&str>, b: Option<&str>) -> (r: bool)
    ensures
        r == ((match a {
            Some(t) => Some(t@),
            None => None::<Seq<char>>,
        }) == (match b {
            Some(t) => Some(t@),
            None => None::<Seq<char>>,
        })),
{
    match (a, b) {
        (Some(x), Some(y)) => str_equal(x, y),
        (None, None) => true,
        _ => false,
    }
}

fn fragment_step_exec<'a>(
    active: &mut Vec<ActiveFragment<'a>>,
    errors: &mut Vec<ValidationError>,
    page: usize,
    position: usize,
    r: &'a Region,
)
    ensures
        opens(final(active)@) == fragment_step(opens(old(active)@), page as nat, position as nat, *r).0,
        error_texts(final(errors)@) == error_texts(old(errors)@) + fragment_step(
            opens(old(active)@),
            page as nat,
            position as nat,
            *r,
        ).1,
{
    let ghost a0 = opens(active@);
    let ghost b0 = error_texts(errors@);
    let (kind, f) = match fragment_of_exec(r) {
        Some(v) => v,
        None => {
            assert(b0 + seq![] =~= b0);
            return;
        },
    };
    if f.count == 0 || f.index >= f.count {
        assert(b0 + seq![] =~= b0);
        return;
    }
    let path = region_path_string(page, position);
    let text = text_of_exec(r);
    let found = find_fragment_exec(active, kind, r);
    proof {
        lemma_find_fragment_bound(a0, kind, *r, 0);
    }
    if f.index == 0 {
        match found {
            Some(k) => {
                let previous = active.remove(k);
                assert(a0[k as int] == open_of(previous));
                assert(opens(active@) =~= a0.remove(k as int));
                let mut message = String::from_str("starts a new occurrence before ");
                message.append(previous.start_path.as_str());
                message.append(" completed");
                push_error(errors, concat(path.as_str(), ".fragment.index"), message);
            },
            None => {
                assert(b0 + seq![] =~= b0);
            },
        }
        if f.count > 1 {
            let ghost a1 = opens(active@);
            let source = r.source();
            let opened = ActiveFragment {
                start_path: path,
                kind,
                part: source.part.as_str(),
                id: source.id.as_str(),
                count: f.count,
                next: 1,
                previous_page: page,
                text,
            };
            active.push(opened);
            assert(opens(active@) =~= a1.push(open_of(opened)));
        }
    } else {
        match found {
            None => {
                push_error(
                    errors,
                    concat(path.as_str(), ".fragment.index"),
                    String::from_str("must follow fragment zero for the same source occurrence"),
                );
            },
            Some(k) => {
                let ghost s = a0[k as int];
                let mut sequence = active.remove(k);
                assert(open_of(sequence) == s);
                assert(opens(active@) =~= a0.remove(k as int));
                if f.index != sequence.next || f.count != sequence.count {
                    let mut message = String::from_str("must be fragment ");
                    push_decimal(&mut message, sequence.next as u64);
                    message.append(" of ");
                    push_decimal(&mut message, sequence.count as u64);
                    push_error(errors, concat(path.as_str(), ".fragment"), message);
                }
                report(
                    errors,
                    page <= sequence.previous_page,
                    concat(path.as_str(), ".fragment.index"),
                    "continuation fragments must appear on later pages",
                );
                let text_differs = match text {
                    Some(t) => !same_text(sequence.text, Some(t)),
                    None => false,
                };
                report(
                    errors,
                    text_differs,
                    concat(path.as_str(), ".text"),
                    "must match the logical text of fragment zero",
                );
                assert(error_texts(errors@) =~= b0 + continuation_errors(
                    path@,
                    page as nat,
                    f,
                    text_of(*r),
                    s,
                ));
                sequence.next = f.index + 1;
                sequence.previous_page = page;
                if sequence.next != sequence.count {
                    active.insert(k, sequence);
                    assert(opens(active@) =~= a0.update(k as int, open_of(sequence)));
                }
            },
        }
    }
}

fn check_fragment_sequences(errors: &mut Vec<ValidationError>, pages: &Vec<PageLayout>)
    ensures
        error_texts(final(errors)@) == error_texts(old(errors)@) + fragment_sequence_errors(pages@),
{
    let ghost head = error_texts(errors@);
    let mut active: Vec<ActiveFragment> = Vec::new();
    let mut i: usize = 0;
    assert(head + seq![] =~= head);
    assert(opens(active@) =~= seq![]);
    while i < pages.len()
        invariant
            i <= pages.len(),
            opens(active@) == fragment_scan_pages(pages@, i as nat).0,
            error_texts(errors@) == head + fragment_scan_pages(pages@, i as nat).1,
        decreases pages.len() - i,
    {
        let ghost before = fragment_scan_pages(pages@, i as nat);
        let regions = &pages[i].regions;
        let mut k: usize = 0;
        assert(before.1 + seq![] =~= before.1);
        while k < regions.len()
            invariant
                k <= regions.len(),
                i < pages.len(),
                regions@ == pages@[i as int].regions@,
                before == fragment_scan_pages(pages@, i as nat),
                opens(active@) == fragment_scan_regions(before.0, i as nat, regions@, k as nat).0,
                error_texts(errors@) == head + (before.1 + fragment_scan_regions(
                    before.0,
                    i as nat,
                    regions@,
                    k as nat,
                ).1),
            decreases regions.len() - k,
        {
            let ghost scan = fragment_scan_regions(before.0, i as nat, regions@, k as nat);
            fragment_step_exec(&mut active, errors, i, k, &regions[k]);
            proof {
                let step = fragment_step(scan.0, i as nat, k as nat, regions@[k as int]);
                lemma_concat_associative(head, before.1 + scan.1, step.1);
                lemma_concat_associative(before.1, scan.1, step.1);
            }
            k += 1;
        }
        proof {
            lemma_concat_associative(
                head,
                before.1,
                fragment_scan_regions(before.0, i as nat, regions@, regions@.len()).1,
            );
        }
        i += 1;
    }
    let ghost scanned = fragment_scan_pages(pages@, pages@.len());
    let ghost mid = error_texts(errors@);
    let mut j: usize = 0;
    assert(mid + seq![] =~= mid);
    while j < active.len()
        invariant
            j <= active.len(),
            opens(active@) == scanned.0,
            error_texts(errors@) == mid + unfinished_errors(scanned.0, j as nat),
        decreases active.len() - j,
    {
        let mut message = String::from_str("sequence ended before all ");
        push_decimal(&mut message, active[j].count as u64);
        message.append(" fragments were present");
        push_error(errors, concat(active[j].start_path.as_str(), ".fragment.count"), message);
        assert(opens(active@)[j as int] == open_of(active@[j as int]));
        assert(error_texts(errors@) =~= mid + unfinished_errors(scanned.0, (j + 1) as nat));
        j += 1;
    }
    proof {
        lemma_concat_associative(head, scanned.1, unfinished_errors(scanned.0, scanned.0.len()));
    }
}

} // verus!
verus! {

/// The `$` error of a document that the format-2 model cannot read.
pub open spec fn compatibility_errors(format: Seq<char>, version: Seq<char>) -> Seq<ErrorText> {
    match check_major_result(format, version, SUPPORTED_MAJOR_VERSION) {
        Some(_) => seq![],
        None => seq![("$"@, compatibility_text(format, version))],
    }
}

/// What the compatibility error of an unreadable format or version says.
pub open spec fn compatibility_text(format: Seq<char>, version: Seq<char>) -> Seq<char> {
    if format != FORMAT@ {
        "unsupported format "@ + debug_quoted(format) + " (expected \"typsastra-docx-ir\")"@
    } else {
        match parse_version(version) {
            None => "malformed format version "@ + debug_quoted(version) + " (expected major.minor)"@,
            Some(v) => "unsupported format major version "@ + decimal(v.major as nat) + " (supported: 1)"@,
        }
    }
}

/// Every error of a format-2 document, in the order `validate` reports them:
/// compatibility, generator, source, layout environment, sections, each page
/// with its regions, composition, links, reading order, then fragment sequences.
pub open spec fn document_errors(d: DocumentLayout, a: Seq<ArithmeticAnswer>) -> Seq<ErrorText> {
    compatibility_errors(d.format@, d.version@) + nonempty_errors("generator.name"@, d.generator.name@)
        + nonempty_errors("generator.version"@, d.generator.version@) + nonempty_errors(
        "source.path"@,
        d.source.path@,
    ) + optional_environment_errors(d.layout_environment) + sections_errors(d.sections@, d.pages@.len())
        + pages_errors(d.sections@, d.pages@, a, d.pages@.len()) + cross_pages(
        d.pages@,
        CrossCheck::Structure,
        d.pages@.len(),
    ) + cross_pages(d.pages@, CrossCheck::Links, d.pages@.len()) + cross_pages(
        d.pages@,
        CrossCheck::ReadingOrder,
        d.pages@.len(),
    ) + fragment_sequence_errors(d.pages@)
}

fn check_compatibility(errors: &mut Vec<ValidationError>, document: &DocumentLayout)
    ensures
        error_texts(final(errors)@) == error_texts(old(errors)@) + compatibility_errors(
            document.format@,
            document.version@,
        ),
{
    match document.compatibility() {
        Ok(_) => {
            assert(error_texts(errors@) + seq![] =~= error_texts(errors@));
        },
        Err(e) => {
            let message = e.message();
            push_error(errors, String::from_str("$"), message);
            assert(message@ == compatibility_text(document.format@, document.version@));
        },
    }
}

/// Checks every semantic invariant of a format-2 document and reports all
/// violations, with JSON-style paths. The checks that need `f32` arithmetic
/// (see [`arithmetic_queries`]) take their verdicts from `answers`.
pub fn validate(document: &DocumentLayout, answers: &Vec<ArithmeticAnswer>) -> (r: Result<(), ValidationErrors>)
    ensures
        match r {
            Ok(()) => document_errors(*document, answers@).len() == 0,
            Err(e) => error_texts(e.0@) == document_errors(*document, answers@) && e.0@.len() > 0,
        },
{
    let mut errors: Vec<ValidationError> = Vec::new();
    let ghost b0 = error_texts(errors@);
    assert(b0 =~= seq![]);
    check_compatibility(&mut errors, document);
    let ghost x1 = compatibility_errors(document.format@, document.version@);
    validate_nonempty(&mut errors, String::from_str("generator.name"), document.generator.name.as_str());
    let ghost x2 = nonempty_errors("generator.name"@, document.generator.name@);
    proof { lemma_concat_associative(b0, x1, x2); }
    validate_nonempty(&mut errors, String::from_str("generator.version"), document.generator.version.as_str());
    let ghost x3 = nonempty_errors("generator.version"@, document.generator.version@);
    proof { lemma_concat_associative(b0, x1 + x2, x3); }
    validate_nonempty(&mut errors, String::from_str("source.path"), document.source.path.as_str());
    let ghost x4 = nonempty_errors("source.path"@, document.source.path@);
    proof { lemma_concat_associative(b0, x1 + x2 + x3, x4); }
    match &document.layout_environment {
        Some(e) => validate_layout_environment(&mut errors, e),
        None => {
            assert(error_texts(errors@) + seq![] =~= error_texts(errors@));
        },
    }
    let ghost x5 = optional_environment_errors(document.layout_environment);
    proof { lemma_concat_associative(b0, x1 + x2 + x3 + x4, x5); }
    check_sections(&mut errors, &document.sections, document.pages.len());
    let ghost x6 = sections_errors(document.sections@, document.pages@.len());
    proof { lemma_concat_associative(b0, x1 + x2 + x3 + x4 + x5, x6); }
    check_pages(&mut errors, &document.sections, &document.pages, answers);
    let ghost x7 = pages_errors(document.sections@, document.pages@, answers@, document.pages@.len());
    proof { lemma_concat_associative(b0, x1 + x2 + x3 + x4 + x5 + x6, x7); }
    let fuel = region_count_exec(&document.pages) + 1;
    check_cross(&mut errors, &document.pages, CrossCheck::Structure, fuel);
    let ghost x8 = cross_pages(document.pages@, CrossCheck::Structure, document.pages@.len());
    proof { lemma_concat_associative(b0, x1 + x2 + x3 + x4 + x5 + x6 + x7, x8); }
    check_cross(&mut errors, &document.pages, CrossCheck::Links, fuel);
    let ghost x9 = cross_pages(document.pages@, CrossCheck::Links, document.pages@.len());
    proof { lemma_concat_associative(b0, x1 + x2 + x3 + x4 + x5 + x6 + x7 + x8, x9); }
    check_cross(&mut errors, &document.pages, CrossCheck::ReadingOrder, fuel);
    let ghost x10 = cross_pages(document.pages@, CrossCheck::ReadingOrder, document.pages@.len());
    proof { lemma_concat_associative(b0, x1 + x2 + x3 + x4 + x5 + x6 + x7 + x8 + x9, x10); }
    check_fragment_sequences(&mut errors, &document.pages);
    let ghost x11 = fragment_sequence_errors(document.pages@);
    proof {
        lemma_concat_associative(b0, x1 + x2 + x3 + x4 + x5 + x6 + x7 + x8 + x9 + x10, x11);
        assert(b0 + document_errors(*document, answers@) =~= document_errors(*document, answers@));
    }
    if errors.len() == 0 {
        Ok(())
    } else {
        Err(ValidationErrors(errors))
    }
}

impl DocumentLayout {
    /// Checks every semantic invariant of the document; see [`validate`].
    pub fn validate(&self, answers: &Vec<ArithmeticAnswer>) -> (r: Result<(), ValidationErrors>)
        ensures
            match r {
                Ok(()) => document_errors(*self, answers@).len() == 0,
                Err(e) => error_texts(e.0@) == document_errors(*self, answers@) && e.0@.len() > 0,
            },
    {
        validate(self, answers)
    }
}

/// The `f32` questions that validating a region asks.
pub open spec fn region_queries(r: Region) -> Seq<ArithmeticQuery> {
    seq![ArithmeticQuery::Singular(common_of(r).geometry.local_to_parent)] + match r {
        Region::Paragraph(p) => Seq::new(p.lines@.len(), |i: int| baseline_query(p.lines@[i])),
        Region::TableCell(c) => match c.fill {
            Some(f) => fill_queries(f),
            None => seq![],
        },
        Region::Image(i) => match i.crop {
            Some(c) => crop_queries(c),
            None => seq![],
        },
        Region::Shape(s) => fill_queries(s.fill),
        _ => seq![],
    }
}

pub open spec fn regions_queries(regions: Seq<Region>, k: nat) -> Seq<ArithmeticQuery>
    decreases k,
{
    if k == 0 {
        seq![]
    } else {
        regions_queries(regions, (k - 1) as nat) + region_queries(regions[k - 1])
    }
}

/// The `f32` questions that validating a document asks, region by region.
pub open spec fn document_queries(pages: Seq<PageLayout>, k: nat) -> Seq<ArithmeticQuery>
    decreases k,
{
    if k == 0 {
        seq![]
    } else {
        document_queries(pages, (k - 1) as nat) + regions_queries(pages[k - 1].regions@, pages[k - 1].regions@.len())
    }
}

fn push_fill_queries(out: &mut Vec<ArithmeticQuery>, f: &Fill)
    ensures
        final(out)@ == old(out)@ + fill_queries(*f),
{
    match f {
        Fill::Image { crop: Some(c), .. } => {
            out.push(ArithmeticQuery::CropWidthExhausted(*c));
            out.push(ArithmeticQuery::CropHeightExhausted(*c));
            assert(out@ =~= old(out)@ + fill_queries(*f));
        },
        _ => {
            assert(out@ =~= old(out)@ + fill_queries(*f));
        },
    }
}

fn push_region_queries(out: &mut Vec<ArithmeticQuery>, r: &Region)
    ensures
        final(out)@ == old(out)@ + region_queries(*r),
{
    let ghost start = out@;
    out.push(ArithmeticQuery::Singular(r.common().geometry.local_to_parent));
    let ghost head = out@;
    match r {
        Region::Paragraph(p) => {
            let mut i: usize = 0;
            while i < p.lines.len()
                invariant
                    i <= p.lines.len(),
                    out@ == head + Seq::new(i as nat, |j: int| baseline_query(p.lines@[j])),
                decreases p.lines.len() - i,
            {
                out.push(
                    ArithmeticQuery::BaselineOutside {
                        baseline: p.lines[i].baseline_y_pt,
                        bbox: p.lines[i].bbox_pt,
                    },
                );
                assert(out@ =~= head + Seq::new((i + 1) as nat, |j: int| baseline_query(p.lines@[j])));
                i += 1;
            }
        },
        Region::TableCell(c) => {
            match &c.fill {
                Some(f) => push_fill_queries(out, f),
                None => {},
            }
        },
        Region::Image(i) => {
            match i.crop {
                Some(c) => {
                    out.push(ArithmeticQuery::CropWidthExhausted(c));
                    out.push(ArithmeticQuery::CropHeightExhausted(c));
                },
                None => {},
            }
        },
        Region::Shape(s) => push_fill_queries(out, &s.fill),
        _ => {},
    }
    assert(out@ =~= start + region_queries(*r));
}

/// The `f32` questions that [`validate`] asks of a document, in document
/// order; answering them lets a caller build the answers it takes.
pub fn arithmetic_queries(document: &DocumentLayout) -> (r: Vec<ArithmeticQuery>)
    ensures
        r@ == document_queries(document.pages@, document.pages@.len()),
{
    let pages = &document.pages;
    let mut out: Vec<ArithmeticQuery> = Vec::new();
    let mut p: usize = 0;
    while p < pages.len()
        invariant
            p <= pages.len(),
            out@ == document_queries(pages@, p as nat),
        decreases pages.len() - p,
    {
        let ghost before = out@;
        let mut q: usize = 0;
        while q < pages[p].regions.len()
            invariant
                p < pages.len(),
                q <= pages@[p as int].regions@.len(),
                out@ == before + regions_queries(pages@[p as int].regions@, q as nat),
            decreases pages@[p as int].regions@.len() - q,
        {
            push_region_queries(&mut out, &pages[p].regions[q]);
            assert(out@ =~= before + regions_queries(pages@[p as int].regions@, (q + 1) as nat));
            q += 1;
        }
        p += 1;
    }
    out
}

} // verus!
verus! {

proof fn lemma_no_last_in_regions(regions: Seq<Region>, id: Seq<char>, k: nat, q: nat)
    requires
        last_in_regions(regions, id, k) is None,
        q < k,
    ensures
        region_id(regions[q as int]) != id,
    decreases k,
{
    if q < k - 1 {
        lemma_no_last_in_regions(regions, id, (k - 1) as nat, q);
    }
}

proof fn lemma_no_last_in_pages(pages: Seq<PageLayout>, id: Seq<char>, k: nat, p: nat, q: nat)
    requires
        last_in_pages(pages, id, k) is None,
        p < k,
        q < pages[p as int].regions@.len(),
    ensures
        region_id(region_at(pages, (p, q))) != id,
    decreases k,
{
    if p == k - 1 {
        lemma_no_last_in_regions(pages[p as int].regions@, id, pages[p as int].regions@.len(), q);
    } else {
        lemma_no_last_in_pages(pages, id, (k - 1) as nat, p, q);
    }
}

proof fn lemma_placed_regions_clean(
    pages: Seq<PageLayout>,
    p: nat,
    a: Seq<ArithmeticAnswer>,
    k: nat,
    q: nat,
)
    requires
        placed_regions_errors(pages, p, a, k).len() == 0,
        q < k,
    ensures
        duplicate_errors(pages, p, q).len() == 0,
    decreases k,
{
    if q < k - 1 {
        lemma_placed_regions_clean(pages, p, a, (k - 1) as nat, q);
    }
}

proof fn lemma_pages_clean(
    sections: Seq<SectionLayout>,
    pages: Seq<PageLayout>,
    a: Seq<ArithmeticAnswer>,
    k: nat,
    p: nat,
    q: nat,
)
    requires
        pages_errors(sections, pages, a, k).len() == 0,
        p < k,
        q < pages[p as int].regions@.len(),
    ensures
        duplicate_errors(pages, p, q).len() == 0,
    decreases k,
{
    if p == k - 1 {
        lemma_placed_regions_clean(pages, p, a, pages[p as int].regions@.len(), q);
    } else {
        lemma_pages_clean(sections, pages, a, (k - 1) as nat, p, q);
    }
}

/// In a document that validates, no two regions share an ID: region IDs are
/// unique across the whole document.
pub proof fn lemma_valid_region_ids_are_unique(
    d: DocumentLayout,
    a: Seq<ArithmeticAnswer>,
    first: (nat, nat),
    second: (nat, nat),
)
    requires
        document_errors(d, a).len() == 0,
        first.0 < d.pages@.len(),
        first.1 < d.pages@[first.0 as int].regions@.len(),
        second.0 < d.pages@.len(),
        second.1 < d.pages@[second.0 as int].regions@.len(),
        first != second,
    ensures
        region_id(region_at(d.pages@, first)) != region_id(region_at(d.pages@, second)),
{
    let pages = d.pages@;
    assert(pages_errors(d.sections@, pages, a, pages.len()).len() == 0);
    // Let `later` be the one that comes second in document order.
    let (earlier, later) = if first.0 < second.0 || (first.0 == second.0 && first.1 < second.1) {
        (first, second)
    } else {
        (second, first)
    };
    lemma_pages_clean(d.sections@, pages, a, pages.len(), later.0, later.1);
    let id = region_id(region_at(pages, later));
    assert(earlier_use(pages, later.0, later.1) is None);
    if earlier.0 == later.0 {
        assert(last_in_regions(pages[later.0 as int].regions@, id, later.1) is None);
        lemma_no_last_in_regions(pages[later.0 as int].regions@, id, later.1, earlier.1);
    } else {
        assert(last_in_regions(pages[later.0 as int].regions@, id, later.1) is None);
        lemma_no_last_in_pages(pages, id, later.0, earlier.0, earlier.1);
    }
}

} // verus!
verus! {

proof fn lemma_last_in_regions_finds(regions: Seq<Region>, id: Seq<char>, k: nat, q: nat)
    requires
        q < k <= regions.len(),
        region_id(regions[q as int]) == id,
        forall|i: int| q < i < k ==> region_id(#[trigger] regions[i]) != id,
    ensures
        last_in_regions(regions, id, k) == Some(q),
    decreases k,
{
    if k - 1 > q {
        lemma_last_in_regions_finds(regions, id, (k - 1) as nat, q);
    }
}

proof fn lemma_last_in_regions_absent(regions: Seq<Region>, id: Seq<char>, k: nat)
    requires
        k <= regions.len(),
        forall|i: int| 0 <= i < k ==> region_id(#[trigger] regions[i]) != id,
    ensures
        last_in_regions(regions, id, k) is None,
    decreases k,
{
    if k > 0 {
        lemma_last_in_regions_absent(regions, id, (k - 1) as nat);
    }
}

/// With unique IDs, a region's own ID leads back to it.
proof fn lemma_unique_id_is_kept(d: DocumentLayout, a: Seq<ArithmeticAnswer>, p: nat, q: nat)
    requires
        document_errors(d, a).len() == 0,
        p < d.pages@.len(),
        q < d.pages@[p as int].regions@.len(),
    ensures
        kept(d.pages@, p, q),
{
    let pages = d.pages@;
    let id = region_id(region_at(pages, (p, q)));
    assert forall|i: int| q < i < pages[p as int].regions@.len() implies region_id(
        #[trigger] pages[p as int].regions@[i],
    ) != id by {
        lemma_valid_region_ids_are_unique(d, a, (p, q), (p, i as nat));
    }
    lemma_last_in_regions_finds(pages[p as int].regions@, id, pages[p as int].regions@.len(), q);
    lemma_later_pages_skip_id(d, a, p, q, pages.len());
}

/// Pages after `p` do not carry the ID of the region at `(p, q)`.
proof fn lemma_later_pages_skip_id(d: DocumentLayout, a: Seq<ArithmeticAnswer>, p: nat, q: nat, k: nat)
    requires
        document_errors(d, a).len() == 0,
        p < k <= d.pages@.len(),
        q < d.pages@[p as int].regions@.len(),
    ensures
        last_in_pages(d.pages@, region_id(region_at(d.pages@, (p, q))), k) == last_in_pages(
            d.pages@,
            region_id(region_at(d.pages@, (p, q))),
            p + 1,
        ),
    decreases k,
{
    let pages = d.pages@;
    let id = region_id(region_at(pages, (p, q)));
    if k > p + 1 {
        let later = (k - 1) as nat;
        assert forall|i: int| 0 <= i < pages[later as int].regions@.len() implies region_id(
            #[trigger] pages[later as int].regions@[i],
        ) != id by {
            lemma_valid_region_ids_are_unique(d, a, (p, q), (later, i as nat));
        }
        lemma_last_in_regions_absent(pages[later as int].regions@, id, pages[later as int].regions@.len());
        lemma_later_pages_skip_id(d, a, p, q, later);
    }
}

proof fn lemma_cross_regions_clean(pages: Seq<PageLayout>, check: CrossCheck, p: nat, k: nat, q: nat)
    requires
        cross_regions(pages, check, p, k).len() == 0,
        q < k,
    ensures
        cross_errors(pages, check, p, q).len() == 0,
    decreases k,
{
    if q < k - 1 {
        lemma_cross_regions_clean(pages, check, p, (k - 1) as nat, q);
    }
}

proof fn lemma_cross_pages_clean(pages: Seq<PageLayout>, check: CrossCheck, k: nat, p: nat, q: nat)
    requires
        cross_pages(pages, check, k).len() == 0,
        p < k,
        q < pages[p as int].regions@.len(),
    ensures
        cross_errors(pages, check, p, q).len() == 0,
    decreases k,
{
    if p == k - 1 {
        lemma_cross_regions_clean(pages, check, p, pages[p as int].regions@.len(), q);
    } else {
        lemma_cross_pages_clean(pages, check, (k - 1) as nat, p, q);
    }
}

/// In a document that validates, every region sits in a sound composition
/// tree: a story may stand alone and every other region names a parent; a
/// named parent exists and may hold it; a named owner is another existing
/// region; following parents never comes back to an ID; and a reading order
/// is the region's place, from zero, among its ordered siblings.
pub proof fn lemma_valid_composition(d: DocumentLayout, a: Seq<ArithmeticAnswer>, p: nat, q: nat)
    requires
        document_errors(d, a).len() == 0,
        p < d.pages@.len(),
        q < d.pages@[p as int].regions@.len(),
    ensures
        ({
            let pages = d.pages@;
            let r = region_at(pages, (p, q));
            &&& parent_key(r) is None ==> r is Story
            &&& parent_key(r) matches Some(pid) ==> (lookup(pages, pid) matches Some(at) && valid_parent(
                region_at(pages, at),
                r,
            ))
            &&& common_of(r).owner_id matches Some(o) ==> o.0@ != region_id(r) && lookup(pages, o.0@) is Some
            &&& !walk_revisits(pages, region_id(r), seq![], walk_fuel(pages))
            &&& common_of(r).reading_order matches Some(o) ==> o == reading_rank(pages, p, q)
        }),
{
    let pages = d.pages@;
    let n = pages.len();
    let r = region_at(pages, (p, q));
    lemma_unique_id_is_kept(d, a, p, q);
    assert(cross_pages(pages, CrossCheck::Structure, n).len() == 0);
    assert(cross_pages(pages, CrossCheck::ReadingOrder, n).len() == 0);
    lemma_cross_pages_clean(pages, CrossCheck::Structure, n, p, q);
    lemma_cross_pages_clean(pages, CrossCheck::ReadingOrder, n, p, q);
    assert(structure_errors(pages, p, q).len() == 0);
    assert(reading_errors(pages, p, q).len() == 0);
    assert(parent_errors(pages, region_path(p, q), r).len() == 0);
    assert(!parent_missing(pages, r));
}

} // verus!
verus! {

/// A format-2 document of this version with no sections, no pages and no
/// environment metadata is valid exactly when its generator name and version
/// and its source path are not blank: validity asks for no measurements.
pub proof fn lemma_empty_document_validity(d: DocumentLayout, a: Seq<ArithmeticAnswer>)
    requires
        d.format@ == FORMAT@,
        d.version@ == crate::v2::model::VERSION@,
        d.layout_environment is None,
        d.sections@.len() == 0,
        d.pages@.len() == 0,
    ensures
        document_errors(d, a).len() == 0 <==> (!is_blank(d.generator.name@) && !is_blank(
            d.generator.version@,
        ) && !is_blank(d.source.path@)),
{
    crate::compatibility::lemma_version_round_trip(2, 0);
    reveal_strlit("2.0");
    reveal_strlit(".");
    assert(decimal(2) =~= seq!['2']);
    assert(decimal(0) =~= seq!['0']);
    assert(crate::v2::model::VERSION@ =~= decimal(2) + "."@ + decimal(0));
    assert(compatibility_errors(d.format@, d.version@) =~= seq![]);
    assert(sections_errors(d.sections@, 0) =~= seq![]);
    assert(fragment_sequence_errors(d.pages@) =~= seq![]);
}

} // verus!
verus! {

/// The paragraph that a page holds as its only region.
pub open spec fn sole_paragraph(page: PageLayout) -> Option<ParagraphRegion> {
    if page.regions@.len() == 1 {
        match page.regions@[0] {
            Region::Paragraph(p) => Some(p),
            _ => None,
        }
    } else {
        None
    }
}

/// Page `i` holds fragment `i` of `n` of one paragraph occurrence, whose
/// source and text are those of `first`.
pub open spec fn is_fragment_of(page: PageLayout, i: nat, n: nat, first: ParagraphRegion) -> bool {
    sole_paragraph(page) matches Some(p) && p.fragment.index == i && p.fragment.count == n
        && p.source.part@ == first.source.part@ && p.source.id@ == first.source.id@ && p.text@
        == first.text@
}

/// Pages that each hold the next fragment of one paragraph occurrence.
pub open spec fn is_fragment_cycle(pages: Seq<PageLayout>) -> bool {
    &&& pages.len() >= 1
    &&& sole_paragraph(pages[0]) is Some
    &&& forall|i: int|
        0 <= i < pages.len() ==> is_fragment_of(
            #[trigger] pages[i],
            i as nat,
            pages.len(),
            sole_paragraph(pages[0])->0,
        )
}

/// The occurrence still open after `k` fragments of a cycle.
pub open spec fn open_cycle(pages: Seq<PageLayout>, k: nat) -> OpenFragment {
    let first = sole_paragraph(pages[0])->0;
    OpenFragment {
        start_path: region_path(0, 0),
        kind: FragmentKind::Paragraph,
        part: first.source.part@,
        id: first.source.id@,
        count: pages.len(),
        next: k,
        previous_page: (k - 1) as nat,
        text: Some(first.text@),
    }
}

proof fn lemma_fragment_cycle_prefix(pages: Seq<PageLayout>, k: nat)
    requires
        is_fragment_cycle(pages),
        1 <= k <= pages.len(),
    ensures
        fragment_scan_pages(pages, k).1 == Seq::<ErrorText>::empty(),
        fragment_scan_pages(pages, k).0 == if k < pages.len() {
            seq![open_cycle(pages, k)]
        } else {
            Seq::<OpenFragment>::empty()
        },
    decreases k,
{
    let n = pages.len();
    let i = (k - 1) as nat;
    assert(is_fragment_of(pages[i as int], i, n, sole_paragraph(pages[0])->0));
    let r = pages[i as int].regions@[0];
    let previous = fragment_scan_pages(pages, i);
    if i == 0 {
        assert(previous == (Seq::<OpenFragment>::empty(), Seq::<ErrorText>::empty()));
    } else {
        lemma_fragment_cycle_prefix(pages, i);
        let active = previous.0;
        assert(active == seq![open_cycle(pages, i)]);
        assert(same_occurrence(active[0], FragmentKind::Paragraph, r));
        assert(find_fragment(active, FragmentKind::Paragraph, r, 0) == Some(0nat));
        assert(continuation_errors(
            region_path(i, 0),
            i,
            pages[i as int].regions@[0]->Paragraph_0.fragment,
            text_of(r),
            active[0],
        ) =~= Seq::<ErrorText>::empty());
        if k < n {
            assert(active.update(0, OpenFragment { next: k, previous_page: i, ..active[0] }) =~= seq![
                open_cycle(pages, k),
            ]);
        } else {
            assert(active.remove(0) =~= Seq::<OpenFragment>::empty());
        }
    }
    let step = fragment_step(previous.0, i, 0, r);
    assert(fragment_scan_regions(previous.0, i, pages[i as int].regions@, 0) == (
        previous.0,
        Seq::<ErrorText>::empty(),
    ));
    assert(fragment_scan_regions(previous.0, i, pages[i as int].regions@, 1) == (
        step.0,
        Seq::<ErrorText>::empty() + step.1,
    ));
    assert(step.1 =~= Seq::<ErrorText>::empty());
    assert(previous.1 + (Seq::<ErrorText>::empty() + step.1) =~= Seq::<ErrorText>::empty());
    if i == 0 && k < n {
        assert(Seq::<OpenFragment>::empty().push(open_cycle(pages, k)) =~= seq![open_cycle(pages, k)]);
    }
}

/// A paragraph split into fragments `0, 1, …, n - 1` of `n` on consecutive
/// pages, with one source and one logical text, raises no fragment-sequence
/// error: every fragment continues the occurrence and the last completes it.
pub proof fn lemma_complete_fragments_are_accepted(pages: Seq<PageLayout>)
    requires
        is_fragment_cycle(pages),
    ensures
        fragment_sequence_errors(pages).len() == 0,
{
    lemma_fragment_cycle_prefix(pages, pages.len());
}

} // verus!
verus! {


/// An error of a paragraph region is an error of the document.
proof fn lemma_paragraph_error_reaches_document(
    d: DocumentLayout,
    a: Seq<ArithmeticAnswer>,
    page: nat,
    region: nat,
    p: ParagraphRegion,
    x: ErrorText,
)
    requires
        page < d.pages@.len(),
        region < d.pages@[page as int].regions@.len(),
        d.pages@[page as int].regions@[region as int] == Region::Paragraph(p),
        paragraph_errors(region_path(page, region), p, a).contains(x),
    ensures
        document_errors(d, a).contains(x),
{
    let path = region_path(page, region);
    let r = Region::Paragraph(p);
    let own = source_errors(path + ".source"@, source_of(r)) + geometry_errors(path + ".geometry"@, common_of(r).geometry, a)
        + match common_of(r).role {
        Some(role) => role_errors(path + ".role"@, role),
        None => seq![],
    };
    lemma_contains_after(own, kind_errors(path, r, a), x);
    let pages = d.pages@;
    lemma_contains_before(region_errors(path, r, a), nonempty_errors(path + ".id"@, region_id(r)), x);
    lemma_contains_before(
        region_errors(path, r, a) + nonempty_errors(path + ".id"@, region_id(r)),
        duplicate_errors(pages, page, region),
        x,
    );
    lemma_placed_regions_keep(pages, page, a, region, pages[page as int].regions@.len(), x);
    lemma_pages_errors_keep(d.sections@, pages, a, page, pages.len(), x);
    let front = compatibility_errors(d.format@, d.version@) + nonempty_errors("generator.name"@, d.generator.name@)
        + nonempty_errors("generator.version"@, d.generator.version@) + nonempty_errors("source.path"@, d.source.path@)
        + optional_environment_errors(d.layout_environment) + sections_errors(d.sections@, pages.len());
    let all_pages = pages_errors(d.sections@, pages, a, pages.len());
    lemma_contains_after(front, all_pages, x);
    let c1 = cross_pages(pages, CrossCheck::Structure, pages.len());
    let c2 = cross_pages(pages, CrossCheck::Links, pages.len());
    let c3 = cross_pages(pages, CrossCheck::ReadingOrder, pages.len());
    lemma_contains_before(front + all_pages, c1, x);
    lemma_contains_before(front + all_pages + c1, c2, x);
    lemma_contains_before(front + all_pages + c1 + c2, c3, x);
    lemma_contains_before(front + all_pages + c1 + c2 + c3, fragment_sequence_errors(pages), x);
}

proof fn lemma_runs_errors_keep(path: Seq<char>, text: Seq<char>, runs: Seq<ResolvedRun>, m: nat, k: nat, x: ErrorText)
    requires
        m <= k <= runs.len(),
        runs_errors(path, text, runs, m).contains(x),
    ensures
        runs_errors(path, text, runs, k).contains(x),
    decreases k - m,
{
    if k > m {
        lemma_runs_errors_keep(path, text, runs, m, (k - 1) as nat, x);
        let i = (k - 1) as nat;
        lemma_contains_before(
            runs_errors(path, text, runs, i),
            run_errors(indexed(path + ".runs"@, i), text, runs[i as int], end_before(run_ranges(runs), i)),
            x,
        );
    }
}

proof fn lemma_placed_regions_keep(pages: Seq<PageLayout>, page: nat, a: Seq<ArithmeticAnswer>, r: nat, k: nat, x: ErrorText)
    requires
        r < k <= pages[page as int].regions@.len(),
        placed_region_errors(pages, page, r, a).contains(x),
    ensures
        placed_regions_errors(pages, page, a, k).contains(x),
    decreases k,
{
    if k == r + 1 {
        lemma_contains_after(placed_regions_errors(pages, page, a, r), placed_region_errors(pages, page, r, a), x);
    } else {
        lemma_placed_regions_keep(pages, page, a, r, (k - 1) as nat, x);
        lemma_contains_before(
            placed_regions_errors(pages, page, a, (k - 1) as nat),
            placed_region_errors(pages, page, (k - 1) as nat, a),
            x,
        );
    }
}

proof fn lemma_pages_errors_keep(sections: Seq<SectionLayout>, pages: Seq<PageLayout>, a: Seq<ArithmeticAnswer>, page: nat, k: nat, x: ErrorText)
    requires
        page < k <= pages.len(),
        placed_regions_errors(pages, page, a, pages[page as int].regions@.len()).contains(x),
    ensures
        pages_errors(sections, pages, a, k).contains(x),
    decreases k,
{
    if k == page + 1 {
        lemma_contains_after(
            pages_errors(sections, pages, a, page) + page_errors(sections, page, pages[page as int]),
            placed_regions_errors(pages, page, a, pages[page as int].regions@.len()),
            x,
        );
    } else {
        lemma_pages_errors_keep(sections, pages, a, page, (k - 1) as nat, x);
        let q = (k - 1) as nat;
        lemma_contains_before(pages_errors(sections, pages, a, q), page_errors(sections, q, pages[q as int]), x);
        lemma_contains_before(
            pages_errors(sections, pages, a, q) + page_errors(sections, q, pages[q as int]),
            placed_regions_errors(pages, q, a, pages[q as int].regions@.len()),
            x,
        );
    }
}

/// A run whose range starts before the end of the previous run of its
/// paragraph is reported as overlapping, at its own `range_utf8` path,
/// whatever the answers, so `validate` fails.
pub proof fn lemma_overlapping_runs_are_reported(
    d: DocumentLayout,
    a: Seq<ArithmeticAnswer>,
    page: nat,
    region: nat,
    p: ParagraphRegion,
    i: nat,
)
    requires
        page < d.pages@.len(),
        region < d.pages@[page as int].regions@.len(),
        d.pages@[page as int].regions@[region as int] == Region::Paragraph(p),
        0 < i < p.runs@.len(),
        p.runs@[i as int].range_utf8[0] < p.runs@[i - 1].range_utf8[1],
    ensures
        document_errors(d, a).contains(
            (
                indexed(indexed(indexed("pages"@, page) + ".regions"@, region) + ".runs"@, i) + ".range_utf8"@,
                "must not overlap the previous run"@,
            ),
        ),
{
    let path = region_path(page, region);
    let run_path = indexed(path + ".runs"@, i);
    let x = (run_path + ".range_utf8"@, "must not overlap the previous run"@);
    let text = p.text@;
    let runs = p.runs@;
    let run = runs[i as int];
    assert(end_before(run_ranges(runs), i) == runs[i - 1].range_utf8[1]);
    let overlap = when(
        (run.range_utf8[0] as nat) < end_before(run_ranges(runs), i),
        run_path + ".range_utf8"@,
        "must not overlap the previous run"@,
    );
    assert(overlap == seq![x]);
    assert(seq![x][0] == x);
    let range = range_errors(run_path + ".range_utf8"@, run.range_utf8, text);
    lemma_contains_after(range, overlap, x);
    lemma_contains_before(range + overlap, optional_source_errors(run_path + ".source"@, run.source), x);
    lemma_contains_before(
        range + overlap + optional_source_errors(run_path + ".source"@, run.source),
        typography_errors(run_path + ".typography"@, run.typography),
        x,
    );
    lemma_contains_after(runs_errors(path, text, runs, i), run_errors(run_path, text, run, end_before(run_ranges(runs), i)), x);
    lemma_runs_errors_keep(path, text, runs, i + 1, runs.len(), x);
    let before_runs = fragment_errors(path + ".fragment"@, p.fragment) + rect_errors(path + ".frame_bbox_pt"@, p.frame_bbox_pt)
        + optional_rect_errors(path + ".content_bbox_pt"@, p.content_bbox_pt) + style_errors(path + ".style"@, p.style)
        + overflow_errors(path, p.overflow) + lines_errors(path, text, p.lines@, a, p.lines@.len());
    let runs_all = runs_errors(path, text, runs, runs.len());
    lemma_contains_after(before_runs, runs_all, x);
    lemma_contains_before(before_runs + runs_all, inlines_errors(path, text, p.content@, p.content@.len()), x);
    lemma_paragraph_error_reaches_document(d, a, page, region, p, x);
}


proof fn lemma_lines_errors_keep(
    path: Seq<char>,
    text: Seq<char>,
    lines: Seq<LineLayout>,
    a: Seq<ArithmeticAnswer>,
    m: nat,
    k: nat,
    x: ErrorText,
)
    requires
        m <= k <= lines.len(),
        lines_errors(path, text, lines, a, m).contains(x),
    ensures
        lines_errors(path, text, lines, a, k).contains(x),
    decreases k - m,
{
    if k > m {
        lemma_lines_errors_keep(path, text, lines, a, m, (k - 1) as nat, x);
        let i = (k - 1) as nat;
        lemma_contains_before(
            lines_errors(path, text, lines, a, i),
            line_errors(indexed(path + ".lines"@, i), text, lines[i as int], end_before(line_ranges(lines), i), a),
            x,
        );
    }
}

/// A line whose range starts before the end of the previous line of its
/// paragraph is reported as overlapping, at its own `range_utf8` path,
/// whatever the answers, so `validate` fails.
pub proof fn lemma_overlapping_lines_are_reported(
    d: DocumentLayout,
    a: Seq<ArithmeticAnswer>,
    page: nat,
    region: nat,
    p: ParagraphRegion,
    i: nat,
)
    requires
        page < d.pages@.len(),
        region < d.pages@[page as int].regions@.len(),
        d.pages@[page as int].regions@[region as int] == Region::Paragraph(p),
        0 < i < p.lines@.len(),
        p.lines@[i as int].range_utf8[0] < p.lines@[i - 1].range_utf8[1],
    ensures
        document_errors(d, a).contains(
            (
                indexed(indexed(indexed("pages"@, page) + ".regions"@, region) + ".lines"@, i) + ".range_utf8"@,
                "must not overlap the previous line"@,
            ),
        ),
{
    let path = region_path(page, region);
    let line_path = indexed(path + ".lines"@, i);
    let x = (line_path + ".range_utf8"@, "must not overlap the previous line"@);
    let text = p.text@;
    let lines = p.lines@;
    let line = lines[i as int];
    let previous = end_before(line_ranges(lines), i);
    assert(previous == lines[i - 1].range_utf8[1]);
    let range = range_errors(line_path + ".range_utf8"@, line.range_utf8, text);
    let overlap = when((line.range_utf8[0] as nat) < previous, line_path + ".range_utf8"@, "must not overlap the previous line"@);
    assert(overlap == seq![x]);
    assert(seq![x][0] == x);
    lemma_contains_after(range, overlap, x);
    let e1 = range + overlap;
    let e2 = e1 + rect_errors(line_path + ".bbox_pt"@, line.bbox_pt);
    lemma_contains_before(e1, rect_errors(line_path + ".bbox_pt"@, line.bbox_pt), x);
    let e3 = e2 + finite_errors(line_path + ".baseline_y_pt"@, line.baseline_y_pt);
    lemma_contains_before(e2, finite_errors(line_path + ".baseline_y_pt"@, line.baseline_y_pt), x);
    let e4 = e3 + nonnegative_errors(line_path + ".ascent_pt"@, line.ascent_pt);
    lemma_contains_before(e3, nonnegative_errors(line_path + ".ascent_pt"@, line.ascent_pt), x);
    let e5 = e4 + nonnegative_errors(line_path + ".descent_pt"@, line.descent_pt);
    lemma_contains_before(e4, nonnegative_errors(line_path + ".descent_pt"@, line.descent_pt), x);
    lemma_contains_before(
        e5,
        when(answer_of(a, baseline_query(line)), line_path + ".baseline_y_pt"@, "must lie within line bbox_pt"@),
        x,
    );
    lemma_contains_after(lines_errors(path, text, lines, a, i), line_errors(line_path, text, line, previous, a), x);
    lemma_lines_errors_keep(path, text, lines, a, i + 1, lines.len(), x);
    let before_lines = fragment_errors(path + ".fragment"@, p.fragment) + rect_errors(path + ".frame_bbox_pt"@, p.frame_bbox_pt)
        + optional_rect_errors(path + ".content_bbox_pt"@, p.content_bbox_pt) + style_errors(path + ".style"@, p.style)
        + overflow_errors(path, p.overflow);
    let lines_all = lines_errors(path, text, lines, a, lines.len());
    lemma_contains_after(before_lines, lines_all, x);
    lemma_contains_before(before_lines + lines_all, runs_errors(path, text, p.runs@, p.runs@.len()), x);
    lemma_contains_before(
        before_lines + lines_all + runs_errors(path, text, p.runs@, p.runs@.len()),
        inlines_errors(path, text, p.content@, p.content@.len()),
        x,
    );
    lemma_paragraph_error_reaches_document(d, a, page, region, p, x);
}

} // verus!
