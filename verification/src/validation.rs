//! Semantic validation of format-1 documents with path-aware errors.

use vstd::prelude::*;

use crate::compatibility::{check_major_error, check_major_result, compatibility_message, parse_version};
use crate::model::{
    pt_is_finite, pt_is_nonnegative, pt_is_positive, same_source, DocumentLayout, FontInfo, FontSubstitution,
    IdentityKind, ImageRegion, LayoutEnvironment, LineLayout, Overflow, PageLayout, ParagraphRegion,
    Pt, Rect,
    Region, SourceRef,
};
use crate::source_identity::{
    is_canonical_part_name, is_ncname, is_structural_path, is_upper_hex, is_valid_structural_path,
    is_xml_local_name, validate_part_name,
};
use crate::text::{
    blank, chars_of, concat, concat_indexed, debug_quoted, decimal, indexed, is_blank, push_decimal,
};
use crate::{FORMAT, SUPPORTED_MAJOR_VERSION};
use vstd::seq_lib::lemma_concat_associative;

verus! {

/// One violated invariant, located by a JSON-style path.
#[derive(Clone, Debug, PartialEq, Eq)]
pub struct ValidationError {
    pub path: String,
    pub message: String,
}

/// Every violated invariant, in document order.
#[derive(Clone, Debug, PartialEq, Eq)]
pub struct ValidationErrors(pub Vec<ValidationError>);

/// An error as text: `(path, message)`.
pub type ErrorText = (Seq<char>, Seq<char>);

/// The `(path, message)` texts of a list of errors.
pub open spec fn error_texts(v: Seq<ValidationError>) -> Seq<ErrorText> {
    Seq::new(v.len(), |i: int| (v[i].path@, v[i].message@))
}

pub fn push_error(errors: &mut Vec<ValidationError>, path: String, message: String)
    ensures
        error_texts(final(errors)@) == error_texts(old(errors)@).push((path@, message@)),
{
    let ghost before = errors@;
    errors.push(ValidationError { path, message });
    assert(error_texts(errors@) =~= error_texts(before).push(
        (errors@.last().path@, errors@.last().message@),
    ));
}

/// The lines `path: message`, separated by newlines.
pub open spec fn errors_text(v: Seq<ErrorText>) -> Seq<char>
    decreases v.len(),
{
    if v.len() == 0 {
        Seq::empty()
    } else if v.len() == 1 {
        v[0].0 + ": "@ + v[0].1
    } else {
        errors_text(v.drop_last()) + "\n"@ + v.last().0 + ": "@ + v.last().1
    }
}

impl ValidationErrors {
    /// Renders every error as `path: message`, one per line.
    pub fn message(&self) -> (r: String)
        ensures
            r@ == errors_text(error_texts(self.0@)),
    {
        let mut out = String::new();
        let mut i: usize = 0;
        while i < self.0.len()
            invariant
                i <= self.0.len(),
                out@ == errors_text(error_texts(self.0@).take(i as int)),
            decreases self.0.len() - i,
        {
            let ghost t = error_texts(self.0@).take(i + 1);
            assert(t.drop_last() =~= error_texts(self.0@).take(i as int));
            if i > 0 {
                out.append("\n");
            }
            out.append(self.0[i].path.as_str());
            out.append(": ");
            out.append(self.0[i].message.as_str());
            i += 1;
        }
        assert(error_texts(self.0@).take(i as int) =~= error_texts(self.0@));
        out
    }
}

// ---------------------------------------------------------------------------
// Small checks
// ---------------------------------------------------------------------------

pub open spec fn nonempty_errors(path: Seq<char>, value: Seq<char>) -> Seq<ErrorText> {
    if is_blank(value) {
        seq![(path, "must not be empty"@)]
    } else {
        seq![]
    }
}

pub open spec fn optional_nonempty_errors(path: Seq<char>, value: Option<String>) -> Seq<ErrorText> {
    match value {
        Some(v) => if is_blank(v@) {
            seq![(path, "must not be empty when present"@)]
        } else {
            seq![]
        },
        None => seq![],
    }
}

pub fn validate_nonempty(errors: &mut Vec<ValidationError>, path: String, value: &str)
    ensures
        error_texts(final(errors)@) == error_texts(old(errors)@) + nonempty_errors(path@, value@),
{
    if blank(value) {
        push_error(errors, path, String::from_str("must not be empty"));
    } else {
        assert(error_texts(errors@) + seq![] =~= error_texts(errors@));
    }
}

pub fn validate_optional_nonempty(errors: &mut Vec<ValidationError>, path: String, value: &Option<String>)
    ensures
        error_texts(final(errors)@) == error_texts(old(errors)@) + optional_nonempty_errors(
            path@,
            *value,
        ),
{
    match value {
        Some(v) => {
            if blank(v.as_str()) {
                push_error(errors, path, String::from_str("must not be empty when present"));
                return;
            }
        },
        None => {},
    }
    assert(error_texts(errors@) + seq![] =~= error_texts(errors@));
}

pub open spec fn finite_errors(path: Seq<char>, v: Pt) -> Seq<ErrorText> {
    if !pt_is_finite(v) {
        seq![(path, "must be finite"@)]
    } else {
        seq![]
    }
}

pub open spec fn extent_errors(path: Seq<char>, v: Pt) -> Seq<ErrorText> {
    if !pt_is_finite(v) {
        seq![(path, "must be finite"@)]
    } else if !pt_is_nonnegative(v) {
        seq![(path, "must be non-negative"@)]
    } else {
        seq![]
    }
}

/// Coordinates must be finite; extents finite and non-negative.
pub open spec fn rect_errors(path: Seq<char>, r: Rect) -> Seq<ErrorText> {
    finite_errors(path + ".x"@, r.x) + finite_errors(path + ".y"@, r.y) + extent_errors(
        path + ".width"@,
        r.width,
    ) + extent_errors(path + ".height"@, r.height)
}

pub open spec fn positive_errors(path: Seq<char>, v: Pt) -> Seq<ErrorText> {
    if !pt_is_positive(v) {
        seq![(path, "must be finite and greater than zero"@)]
    } else {
        seq![]
    }
}

fn validate_coordinate(errors: &mut Vec<ValidationError>, path: String, v: Pt, extent: bool)
    ensures
        error_texts(final(errors)@) == error_texts(old(errors)@) + (if extent {
            extent_errors(path@, v)
        } else {
            finite_errors(path@, v)
        }),
{
    if !v.is_finite() {
        push_error(errors, path, String::from_str("must be finite"));
    } else if extent && !v.is_nonnegative() {
        push_error(errors, path, String::from_str("must be non-negative"));
    } else {
        assert(error_texts(errors@) + seq![] =~= error_texts(errors@));
    }
}

pub fn validate_rect(errors: &mut Vec<ValidationError>, path: &str, rect: Rect)
    ensures
        error_texts(final(errors)@) == error_texts(old(errors)@) + rect_errors(path@, rect),
{
    let ghost before = error_texts(errors@);
    validate_coordinate(errors, concat(path, ".x"), rect.x, false);
    validate_coordinate(errors, concat(path, ".y"), rect.y, false);
    validate_coordinate(errors, concat(path, ".width"), rect.width, true);
    validate_coordinate(errors, concat(path, ".height"), rect.height, true);
    assert(error_texts(errors@) =~= before + rect_errors(path@, rect));
}

pub fn validate_positive(errors: &mut Vec<ValidationError>, path: String, v: Pt)
    ensures
        error_texts(final(errors)@) == error_texts(old(errors)@) + positive_errors(path@, v),
{
    if !v.is_positive() {
        push_error(errors, path, String::from_str("must be finite and greater than zero"));
    } else {
        assert(error_texts(errors@) + seq![] =~= error_texts(errors@));
    }
}

} // verus!
verus! {

// ---------------------------------------------------------------------------
// Layout environment
// ---------------------------------------------------------------------------

pub open spec fn is_lower_hex(c: char) -> bool {
    ('0' <= c && c <= '9') || ('a' <= c && c <= 'f')
}

/// 64 lowercase hexadecimal characters.
pub open spec fn is_sha256_hex(s: Seq<char>) -> bool {
    s.len() == 64 && forall|i: int| 0 <= i < s.len() ==> is_lower_hex(#[trigger] s[i])
}

pub open spec fn font_errors(i: nat, font: FontInfo) -> Seq<ErrorText> {
    let p = indexed("layout_environment.fonts"@, i);
    nonempty_errors(p + ".family"@, font.family@) + optional_nonempty_errors(
        p + ".postscript_name"@,
        font.postscript_name,
    ) + optional_nonempty_errors(p + ".version"@, font.version) + match font.file_sha256 {
        Some(h) => if !is_sha256_hex(h@) {
            seq![(p + ".file_sha256"@, "must be 64 lowercase hexadecimal characters"@)]
        } else {
            seq![]
        },
        None => seq![],
    }
}

pub open spec fn fonts_errors(fonts: Seq<FontInfo>, k: nat) -> Seq<ErrorText>
    decreases k,
{
    if k == 0 {
        seq![]
    } else {
        fonts_errors(fonts, (k - 1) as nat) + font_errors((k - 1) as nat, fonts[k - 1])
    }
}

pub open spec fn substitution_errors(i: nat, s: FontSubstitution) -> Seq<ErrorText> {
    let p = indexed("layout_environment.font_substitutions"@, i);
    nonempty_errors(p + ".requested_family"@, s.requested_family@) + nonempty_errors(
        p + ".resolved_family"@,
        s.resolved_family@,
    ) + optional_nonempty_errors(p + ".resolved_postscript_name"@, s.resolved_postscript_name)
}

pub open spec fn substitutions_errors(subs: Seq<FontSubstitution>, k: nat) -> Seq<ErrorText>
    decreases k,
{
    if k == 0 {
        seq![]
    } else {
        substitutions_errors(subs, (k - 1) as nat) + substitution_errors(
            (k - 1) as nat,
            subs[k - 1],
        )
    }
}

pub open spec fn environment_name_errors(env: LayoutEnvironment) -> Seq<ErrorText> {
    nonempty_errors("layout_environment.engine.name"@, env.engine.name@) + nonempty_errors(
        "layout_environment.engine.version"@,
        env.engine.version@,
    ) + nonempty_errors("layout_environment.platform.os"@, env.platform.os@) + nonempty_errors(
        "layout_environment.platform.architecture"@,
        env.platform.architecture@,
    ) + optional_nonempty_errors("layout_environment.platform.version"@, env.platform.version)
}

/// Engine and platform names are non-empty; optional names are non-empty when
/// present; font hashes are lowercase SHA-256 hex.
pub open spec fn environment_errors(env: LayoutEnvironment) -> Seq<ErrorText> {
    environment_name_errors(env) + fonts_errors(env.fonts@, env.fonts@.len())
        + substitutions_errors(env.font_substitutions@, env.font_substitutions@.len())
}

fn sha256_hex(s: &str) -> (r: bool)
    ensures
        r == is_sha256_hex(s@),
{
    let v = chars_of(s);
    if v.len() != 64 {
        return false;
    }
    let mut i: usize = 0;
    while i < v.len()
        invariant
            v@ == s@,
            i <= v.len(),
            forall|j: int| 0 <= j < i ==> is_lower_hex(#[trigger] v@[j]),
        decreases v.len() - i,
    {
        let c = v[i];
        if !(('0' <= c && c <= '9') || ('a' <= c && c <= 'f')) {
            return false;
        }
        i += 1;
    }
    true
}

fn validate_font(errors: &mut Vec<ValidationError>, i: usize, font: &FontInfo)
    ensures
        error_texts(final(errors)@) == error_texts(old(errors)@) + font_errors(i as nat, *font),
{
    let ghost before = error_texts(errors@);
    let p = concat_indexed("layout_environment.fonts", "", i);
    assert(p@ == indexed("layout_environment.fonts"@, i as nat)) by {
        assert("layout_environment.fonts"@ + ""@ =~= "layout_environment.fonts"@) by {
            reveal_strlit("");
        }
    }
    validate_nonempty(errors, concat(p.as_str(), ".family"), font.family.as_str());
    validate_optional_nonempty(errors, concat(p.as_str(), ".postscript_name"), &font.postscript_name);
    validate_optional_nonempty(errors, concat(p.as_str(), ".version"), &font.version);
    let ghost mid = error_texts(errors@);
    match &font.file_sha256 {
        Some(hash) => {
            if !sha256_hex(hash.as_str()) {
                push_error(
                    errors,
                    concat(p.as_str(), ".file_sha256"),
                    String::from_str("must be 64 lowercase hexadecimal characters"),
                );
            }
        },
        None => {},
    }
    assert(error_texts(errors@) =~= before + font_errors(i as nat, *font));
}

fn validate_substitution(errors: &mut Vec<ValidationError>, i: usize, s: &FontSubstitution)
    ensures
        error_texts(final(errors)@) == error_texts(old(errors)@) + substitution_errors(
            i as nat,
            *s,
        ),
{
    let ghost before = error_texts(errors@);
    let p = concat_indexed("layout_environment.font_substitutions", "", i);
    assert(p@ == indexed("layout_environment.font_substitutions"@, i as nat)) by {
        assert("layout_environment.font_substitutions"@ + ""@
            =~= "layout_environment.font_substitutions"@) by {
            reveal_strlit("");
        }
    }
    validate_nonempty(errors, concat(p.as_str(), ".requested_family"), s.requested_family.as_str());
    validate_nonempty(errors, concat(p.as_str(), ".resolved_family"), s.resolved_family.as_str());
    validate_optional_nonempty(
        errors,
        concat(p.as_str(), ".resolved_postscript_name"),
        &s.resolved_postscript_name,
    );
    assert(error_texts(errors@) =~= before + substitution_errors(i as nat, *s));
}

fn validate_environment_names(errors: &mut Vec<ValidationError>, env: &LayoutEnvironment)
    ensures
        error_texts(final(errors)@) == error_texts(old(errors)@) + environment_name_errors(*env),
{
    let ghost b0 = error_texts(errors@);
    validate_nonempty(
        errors,
        String::from_str("layout_environment.engine.name"),
        env.engine.name.as_str(),
    );
    let ghost x1 = nonempty_errors("layout_environment.engine.name"@, env.engine.name@);
    validate_nonempty(
        errors,
        String::from_str("layout_environment.engine.version"),
        env.engine.version.as_str(),
    );
    let ghost x2 = nonempty_errors("layout_environment.engine.version"@, env.engine.version@);
    proof {
        lemma_concat_associative(b0, x1, x2);
    }
    validate_nonempty(
        errors,
        String::from_str("layout_environment.platform.os"),
        env.platform.os.as_str(),
    );
    let ghost x3 = nonempty_errors("layout_environment.platform.os"@, env.platform.os@);
    proof {
        lemma_concat_associative(b0, x1 + x2, x3);
    }
    validate_nonempty(
        errors,
        String::from_str("layout_environment.platform.architecture"),
        env.platform.architecture.as_str(),
    );
    let ghost x4 = nonempty_errors(
        "layout_environment.platform.architecture"@,
        env.platform.architecture@,
    );
    proof {
        lemma_concat_associative(b0, x1 + x2 + x3, x4);
    }
    validate_optional_nonempty(
        errors,
        String::from_str("layout_environment.platform.version"),
        &env.platform.version,
    );
    let ghost x5 = optional_nonempty_errors(
        "layout_environment.platform.version"@,
        env.platform.version,
    );
    proof {
        lemma_concat_associative(b0, x1 + x2 + x3 + x4, x5);
    }
}

fn validate_fonts(errors: &mut Vec<ValidationError>, fonts: &Vec<FontInfo>)
    ensures
        error_texts(final(errors)@) == error_texts(old(errors)@) + fonts_errors(
            fonts@,
            fonts@.len(),
        ),
{
    let ghost head = error_texts(errors@);
    let mut i: usize = 0;
    assert(head + seq![] =~= head);
    while i < fonts.len()
        invariant
            i <= fonts.len(),
            error_texts(errors@) == head + fonts_errors(fonts@, i as nat),
        decreases fonts.len() - i,
    {
        validate_font(errors, i, &fonts[i]);
        proof {
            lemma_concat_associative(
                head,
                fonts_errors(fonts@, i as nat),
                font_errors(i as nat, fonts@[i as int]),
            );
        }
        i += 1;
    }
}

fn validate_substitutions(errors: &mut Vec<ValidationError>, subs: &Vec<FontSubstitution>)
    ensures
        error_texts(final(errors)@) == error_texts(old(errors)@) + substitutions_errors(
            subs@,
            subs@.len(),
        ),
{
    let ghost head = error_texts(errors@);
    let mut j: usize = 0;
    assert(head + seq![] =~= head);
    while j < subs.len()
        invariant
            j <= subs.len(),
            error_texts(errors@) == head + substitutions_errors(subs@, j as nat),
        decreases subs.len() - j,
    {
        validate_substitution(errors, j, &subs[j]);
        proof {
            lemma_concat_associative(
                head,
                substitutions_errors(subs@, j as nat),
                substitution_errors(j as nat, subs@[j as int]),
            );
        }
        j += 1;
    }
}

pub fn validate_layout_environment(errors: &mut Vec<ValidationError>, env: &LayoutEnvironment)
    ensures
        error_texts(final(errors)@) == error_texts(old(errors)@) + environment_errors(*env),
{
    let ghost b0 = error_texts(errors@);
    validate_environment_names(errors, env);
    validate_fonts(errors, &env.fonts);
    let ghost x1 = environment_name_errors(*env);
    let ghost x2 = fonts_errors(env.fonts@, env.fonts@.len());
    proof {
        lemma_concat_associative(b0, x1, x2);
    }
    validate_substitutions(errors, &env.font_substitutions);
    let ghost x3 = substitutions_errors(env.font_substitutions@, env.font_substitutions@.len());
    proof {
        lemma_concat_associative(b0, x1 + x2, x3);
    }
}

} // verus!
verus! {

// ---------------------------------------------------------------------------
// Sources
// ---------------------------------------------------------------------------

/// Eight uppercase hexadecimal digits: the canonical spelling of a `w14:paraId`.
pub open spec fn is_canonical_para_id(s: Seq<char>) -> bool {
    s.len() == 8 && forall|i: int| 0 <= i < s.len() ==> is_upper_hex(#[trigger] s[i])
}

pub open spec fn source_id_errors(path: Seq<char>, source: SourceRef) -> Seq<ErrorText> {
    let id_path = path + ".source.id"@;
    if is_blank(source.id@) {
        seq![(id_path, "must not be empty"@)]
    } else {
        match source.identity {
            IdentityKind::ParaId => if !is_canonical_para_id(source.id@) {
                seq![(id_path, "must contain exactly eight uppercase hexadecimal digits"@)]
            } else {
                seq![]
            },
            IdentityKind::GeneratedPath => if !is_structural_path(source.id@) {
                seq![(id_path, "must be a versioned structural path"@)]
            } else {
                seq![]
            },
            IdentityKind::RelationshipId => if !is_ncname(source.id@) {
                seq![(id_path, "must be an XML NCName relationship ID"@)]
            } else {
                seq![]
            },
        }
    }
}

/// The part must be a canonical OPC part name and the ID must match its identity kind.
pub open spec fn source_errors(path: Seq<char>, source: SourceRef) -> Seq<ErrorText> {
    (if !is_canonical_part_name(source.part@) {
        seq![(path + ".source.part"@, "must be a canonical package-relative OPC part name"@)]
    } else {
        seq![]
    }) + source_id_errors(path, source)
}

/// Whether `s` is eight uppercase hexadecimal digits.
pub fn canonical_para_id(s: &str) -> (r: bool)
    ensures
        r == is_canonical_para_id(s@),
{
    let v = chars_of(s);
    if v.len() != 8 {
        return false;
    }
    let mut i: usize = 0;
    while i < v.len()
        invariant
            v@ == s@,
            i <= v.len(),
            forall|j: int| 0 <= j < i ==> is_upper_hex(#[trigger] v@[j]),
        decreases v.len() - i,
    {
        let c = v[i];
        if !(('0' <= c && c <= '9') || ('A' <= c && c <= 'F')) {
            return false;
        }
        i += 1;
    }
    true
}

pub fn validate_source(errors: &mut Vec<ValidationError>, path: &str, source: &SourceRef)
    ensures
        error_texts(final(errors)@) == error_texts(old(errors)@) + source_errors(path@, *source),
{
    let ghost b0 = error_texts(errors@);
    let part_ok = validate_part_name(source.part.as_str()).is_ok();
    if !part_ok {
        push_error(
            errors,
            concat(path, ".source.part"),
            String::from_str("must be a canonical package-relative OPC part name"),
        );
    }
    let ghost x1 = if !is_canonical_part_name(source.part@) {
        seq![(path@ + ".source.part"@, "must be a canonical package-relative OPC part name"@)]
    } else {
        seq![]
    };
    assert(error_texts(errors@) =~= b0 + x1);
    let id_path = concat(path, ".source.id");
    if blank(source.id.as_str()) {
        push_error(errors, id_path, String::from_str("must not be empty"));
    } else {
        match source.identity {
            IdentityKind::ParaId => {
                if !canonical_para_id(source.id.as_str()) {
                    push_error(
                        errors,
                        id_path,
                        String::from_str("must contain exactly eight uppercase hexadecimal digits"),
                    );
                }
            },
            IdentityKind::GeneratedPath => {
                if !is_valid_structural_path(source.id.as_str()) {
                    push_error(errors, id_path, String::from_str("must be a versioned structural path"));
                }
            },
            IdentityKind::RelationshipId => {
                if !is_xml_local_name(source.id.as_str()) {
                    push_error(
                        errors,
                        id_path,
                        String::from_str("must be an XML NCName relationship ID"),
                    );
                }
            },
        }
    }
    let ghost x2 = source_id_errors(path@, *source);
    assert(error_texts(errors@) =~= b0 + x1 + x2);
    proof {
        lemma_concat_associative(b0, x1, x2);
    }
}

} // verus!
verus! {

// ---------------------------------------------------------------------------
// Paragraph segments
// ---------------------------------------------------------------------------

/// The UTF-8 encoding of a paragraph's text; line ranges index into it.
pub open spec fn utf8(s: Seq<char>) -> Seq<u8> {
    vstd::utf8::encode_utf8(s)
}

/// The byte length of a string, as `str::len` reports it.
pub open spec fn utf8_len(s: Seq<char>) -> nat {
    (utf8(s).len() as usize) as nat
}

pub open spec fn on_char_boundary(text: Seq<char>, index: nat) -> bool {
    vstd::utf8::is_char_boundary(utf8(text), index as int)
}

pub open spec fn segment_errors(path: Seq<char>, p: ParagraphRegion) -> Seq<ErrorText> {
    if p.segment_count == 0 {
        seq![(path + ".segment_count"@, "must be greater than zero"@)]
    } else if p.segment >= p.segment_count {
        seq![
            (path + ".segment"@, "must be less than segment_count "@ + decimal(
                p.segment_count as nat,
            ) + ", got "@ + decimal(p.segment as nat)),
        ]
    } else {
        seq![]
    }
}

pub open spec fn optional_rect_errors(path: Seq<char>, r: Option<Rect>) -> Seq<ErrorText> {
    match r {
        Some(r) => rect_errors(path, r),
        None => seq![],
    }
}

pub open spec fn overflow_errors(path: Seq<char>, o: Option<Overflow>) -> Seq<ErrorText> {
    match o {
        Some(o) => if !pt_is_nonnegative(o.past_content_area_pt) {
            seq![(path + ".overflow.past_content_area_pt"@, "must be finite and non-negative"@)]
        } else {
            seq![]
        },
        None => seq![],
    }
}

/// The errors for line `i` given the end of the previous in-range line, and
/// the end that the next line is compared with.
pub open spec fn line_step(
    path: Seq<char>,
    text: Seq<char>,
    i: nat,
    line: LineLayout,
    previous_end: nat,
) -> (Seq<ErrorText>, nat) {
    let line_path = indexed(path + ".lines"@, i);
    let range_path = line_path + ".range_utf8"@;
    let start = line.range_utf8[0] as nat;
    let end = line.range_utf8[1] as nat;
    let len = utf8_len(text);
    if start > end || end > len {
        (
            seq![
                (range_path, "must be an ordered range within text length "@ + decimal(len)
                    + ", got ["@ + decimal(start) + ", "@ + decimal(end) + "]"@),
            ] + rect_errors(line_path + ".bbox_pt"@, line.bbox_pt),
            previous_end,
        )
    } else {
        (
            (if !on_char_boundary(text, start) || !on_char_boundary(text, end) {
                seq![(range_path, "must fall on UTF-8 code point boundaries"@)]
            } else {
                seq![]
            }) + (if start < previous_end {
                seq![(range_path, "must not overlap the previous line range"@)]
            } else {
                seq![]
            }) + rect_errors(line_path + ".bbox_pt"@, line.bbox_pt),
            end,
        )
    }
}

/// The line errors of the first `k` lines, and the running end offset.
pub open spec fn lines_scan(path: Seq<char>, text: Seq<char>, lines: Seq<LineLayout>, k: nat) -> (
    Seq<ErrorText>,
    nat,
)
    decreases k,
{
    if k == 0 {
        (seq![], 0)
    } else {
        let (e, previous) = lines_scan(path, text, lines, (k - 1) as nat);
        let (e2, next) = line_step(path, text, (k - 1) as nat, lines[k - 1], previous);
        (e + e2, next)
    }
}

/// A paragraph segment's own invariants: source, segment index, geometry,
/// overflow and ordered, in-range, code-point-aligned line ranges.
pub open spec fn paragraph_errors(path: Seq<char>, p: ParagraphRegion) -> Seq<ErrorText> {
    source_errors(path, p.source) + segment_errors(path, p) + rect_errors(
        path + ".frame_bbox_pt"@,
        p.frame_bbox_pt,
    ) + optional_rect_errors(path + ".content_bbox_pt"@, p.content_bbox_pt) + overflow_errors(
        path,
        p.overflow,
    ) + lines_scan(path, p.text@, p.lines@, p.lines@.len()).0
}

fn validate_line(
    errors: &mut Vec<ValidationError>,
    path: &str,
    text: &str,
    i: usize,
    line: &LineLayout,
    previous_end: usize,
) -> (r: usize)
    ensures
        error_texts(final(errors)@) == error_texts(old(errors)@) + line_step(
            path@,
            text@,
            i as nat,
            *line,
            previous_end as nat,
        ).0,
        r as nat == line_step(path@, text@, i as nat, *line, previous_end as nat).1,
{
    let ghost b0 = error_texts(errors@);
    let line_path = concat_indexed(path, ".lines", i);
    let range_path = concat(line_path.as_str(), ".range_utf8");
    let start = line.range_utf8[0];
    let end = line.range_utf8[1];
    let len = text.len();
    let mut next = previous_end;
    if start > end || end > len {
        let mut message = String::from_str("must be an ordered range within text length ");
        push_decimal(&mut message, len as u64);
        message.append(", got [");
        push_decimal(&mut message, start as u64);
        message.append(", ");
        push_decimal(&mut message, end as u64);
        message.append("]");
        push_error(errors, range_path, message);
    } else {
        if !text.is_char_boundary(start) || !text.is_char_boundary(end) {
            push_error(
                errors,
                concat(line_path.as_str(), ".range_utf8"),
                String::from_str("must fall on UTF-8 code point boundaries"),
            );
        }
        let ghost x1 = error_texts(errors@);
        if start < previous_end {
            push_error(
                errors,
                range_path,
                String::from_str("must not overlap the previous line range"),
            );
        }
        next = end;
    }
    let ghost mid = error_texts(errors@);
    validate_rect(errors, concat(line_path.as_str(), ".bbox_pt").as_str(), line.bbox_pt);
    assert(error_texts(errors@) =~= b0 + line_step(
        path@,
        text@,
        i as nat,
        *line,
        previous_end as nat,
    ).0);
    next
}

fn validate_lines(errors: &mut Vec<ValidationError>, path: &str, text: &str, lines: &Vec<LineLayout>)
    ensures
        error_texts(final(errors)@) == error_texts(old(errors)@) + lines_scan(
            path@,
            text@,
            lines@,
            lines@.len(),
        ).0,
{
    let ghost head = error_texts(errors@);
    let mut previous_end: usize = 0;
    let mut i: usize = 0;
    assert(head + seq![] =~= head);
    while i < lines.len()
        invariant
            i <= lines.len(),
            error_texts(errors@) == head + lines_scan(path@, text@, lines@, i as nat).0,
            previous_end as nat == lines_scan(path@, text@, lines@, i as nat).1,
        decreases lines.len() - i,
    {
        let ghost scan = lines_scan(path@, text@, lines@, i as nat);
        previous_end = validate_line(errors, path, text, i, &lines[i], previous_end);
        proof {
            lemma_concat_associative(
                head,
                scan.0,
                line_step(path@, text@, i as nat, lines@[i as int], scan.1).0,
            );
        }
        i += 1;
    }
}

fn validate_segment(errors: &mut Vec<ValidationError>, path: &str, p: &ParagraphRegion)
    ensures
        error_texts(final(errors)@) == error_texts(old(errors)@) + segment_errors(path@, *p),
{
    if p.segment_count == 0 {
        push_error(
            errors,
            concat(path, ".segment_count"),
            String::from_str("must be greater than zero"),
        );
    } else if p.segment >= p.segment_count {
        let mut message = String::from_str("must be less than segment_count ");
        push_decimal(&mut message, p.segment_count as u64);
        message.append(", got ");
        push_decimal(&mut message, p.segment as u64);
        push_error(errors, concat(path, ".segment"), message);
    } else {
        assert(error_texts(errors@) + seq![] =~= error_texts(errors@));
    }
}

fn validate_optional_rect(errors: &mut Vec<ValidationError>, path: &str, r: Option<Rect>)
    ensures
        error_texts(final(errors)@) == error_texts(old(errors)@) + optional_rect_errors(path@, r),
{
    match r {
        Some(rect) => validate_rect(errors, path, rect),
        None => {
            assert(error_texts(errors@) + seq![] =~= error_texts(errors@));
        },
    }
}

fn validate_overflow(errors: &mut Vec<ValidationError>, path: &str, o: Option<Overflow>)
    ensures
        error_texts(final(errors)@) == error_texts(old(errors)@) + overflow_errors(path@, o),
{
    match o {
        Some(overflow) => {
            if !overflow.past_content_area_pt.is_nonnegative() {
                push_error(
                    errors,
                    concat(path, ".overflow.past_content_area_pt"),
                    String::from_str("must be finite and non-negative"),
                );
                return;
            }
        },
        None => {},
    }
    assert(error_texts(errors@) + seq![] =~= error_texts(errors@));
}

pub fn validate_paragraph(errors: &mut Vec<ValidationError>, path: &str, p: &ParagraphRegion)
    ensures
        error_texts(final(errors)@) == error_texts(old(errors)@) + paragraph_errors(path@, *p),
{
    let ghost b0 = error_texts(errors@);
    validate_source(errors, path, &p.source);
    let ghost x1 = source_errors(path@, p.source);
    validate_segment(errors, path, p);
    let ghost x2 = segment_errors(path@, *p);
    proof {
        lemma_concat_associative(b0, x1, x2);
    }
    validate_rect(errors, concat(path, ".frame_bbox_pt").as_str(), p.frame_bbox_pt);
    let ghost x3 = rect_errors(path@ + ".frame_bbox_pt"@, p.frame_bbox_pt);
    proof {
        lemma_concat_associative(b0, x1 + x2, x3);
    }
    validate_optional_rect(errors, concat(path, ".content_bbox_pt").as_str(), p.content_bbox_pt);
    let ghost x4 = optional_rect_errors(path@ + ".content_bbox_pt"@, p.content_bbox_pt);
    proof {
        lemma_concat_associative(b0, x1 + x2 + x3, x4);
    }
    validate_overflow(errors, path, p.overflow);
    let ghost x5 = overflow_errors(path@, p.overflow);
    proof {
        lemma_concat_associative(b0, x1 + x2 + x3 + x4, x5);
    }
    validate_lines(errors, path, p.text.as_str(), &p.lines);
    let ghost x6 = lines_scan(path@, p.text@, p.lines@, p.lines@.len()).0;
    proof {
        lemma_concat_associative(b0, x1 + x2 + x3 + x4 + x5, x6);
    }
}

} // verus!
verus! {

// ---------------------------------------------------------------------------
// Pages and regions
// ---------------------------------------------------------------------------

pub open spec fn region_errors(path: Seq<char>, region: Region) -> Seq<ErrorText> {
    match region {
        Region::Paragraph(p) => paragraph_errors(path, p),
        Region::Image(image) => source_errors(path, image.source) + rect_errors(
            path + ".bbox_pt"@,
            image.bbox_pt,
        ),
    }
}

pub open spec fn regions_errors(page_path: Seq<char>, regions: Seq<Region>, k: nat) -> Seq<
    ErrorText,
>
    decreases k,
{
    if k == 0 {
        seq![]
    } else {
        regions_errors(page_path, regions, (k - 1) as nat) + region_errors(
            indexed(page_path + ".regions"@, (k - 1) as nat),
            regions[k - 1],
        )
    }
}

/// A page's index is its position, its size is positive, its content box is
/// a valid rectangle and its regions are valid.
pub open spec fn page_errors(position: nat, page: PageLayout) -> Seq<ErrorText> {
    page_header_errors(position, page) + regions_errors(
        indexed("pages"@, position),
        page.regions@,
        page.regions@.len(),
    )
}

pub open spec fn pages_errors(pages: Seq<PageLayout>, k: nat) -> Seq<ErrorText>
    decreases k,
{
    if k == 0 {
        seq![]
    } else {
        pages_errors(pages, (k - 1) as nat) + page_errors((k - 1) as nat, pages[k - 1])
    }
}

fn validate_region(errors: &mut Vec<ValidationError>, path: &str, region: &Region)
    ensures
        error_texts(final(errors)@) == error_texts(old(errors)@) + region_errors(path@, *region),
{
    match region {
        Region::Paragraph(p) => validate_paragraph(errors, path, p),
        Region::Image(image) => {
            let ghost b0 = error_texts(errors@);
            validate_source(errors, path, &image.source);
            validate_rect(errors, concat(path, ".bbox_pt").as_str(), image.bbox_pt);
            proof {
                lemma_concat_associative(
                    b0,
                    source_errors(path@, image.source),
                    rect_errors(path@ + ".bbox_pt"@, image.bbox_pt),
                );
            }
        },
    }
}

fn validate_page_header(errors: &mut Vec<ValidationError>, position: usize, page: &PageLayout)
    ensures
        error_texts(final(errors)@) == error_texts(old(errors)@) + page_header_errors(
            position as nat,
            *page,
        ),
{
    let ghost b0 = error_texts(errors@);
    let path = concat_indexed("pages", "", position);
    assert(path@ == indexed("pages"@, position as nat)) by {
        assert("pages"@ + ""@ =~= "pages"@) by {
            reveal_strlit("");
        }
    }
    if page.index != position {
        let mut message = String::from_str("must be ");
        push_decimal(&mut message, position as u64);
        message.append(", got ");
        push_decimal(&mut message, page.index as u64);
        push_error(errors, concat(path.as_str(), ".index"), message);
    }
    let ghost x1 = error_texts(errors@).skip(b0.len() as int);
    assert(error_texts(errors@) =~= b0 + x1);
    validate_positive(errors, concat(path.as_str(), ".size_pt.width"), page.size_pt.width);
    let ghost x2 = positive_errors(path@ + ".size_pt.width"@, page.size_pt.width);
    proof {
        lemma_concat_associative(b0, x1, x2);
    }
    validate_positive(errors, concat(path.as_str(), ".size_pt.height"), page.size_pt.height);
    let ghost x3 = positive_errors(path@ + ".size_pt.height"@, page.size_pt.height);
    proof {
        lemma_concat_associative(b0, x1 + x2, x3);
    }
    validate_optional_rect(errors, concat(path.as_str(), ".content_bbox_pt").as_str(), page.content_bbox_pt);
    let ghost x4 = optional_rect_errors(path@ + ".content_bbox_pt"@, page.content_bbox_pt);
    proof {
        lemma_concat_associative(b0, x1 + x2 + x3, x4);
    }
}

/// Everything in `page_errors` before the regions.
pub open spec fn page_header_errors(position: nat, page: PageLayout) -> Seq<ErrorText> {
    let path = indexed("pages"@, position);
    (if page.index != position {
        seq![
            (path + ".index"@, "must be "@ + decimal(position) + ", got "@ + decimal(
                page.index as nat,
            )),
        ]
    } else {
        seq![]
    }) + positive_errors(path + ".size_pt.width"@, page.size_pt.width) + positive_errors(
        path + ".size_pt.height"@,
        page.size_pt.height,
    ) + optional_rect_errors(path + ".content_bbox_pt"@, page.content_bbox_pt)
}

fn validate_page(errors: &mut Vec<ValidationError>, position: usize, page: &PageLayout)
    ensures
        error_texts(final(errors)@) == error_texts(old(errors)@) + page_errors(
            position as nat,
            *page,
        ),
{
    let ghost b0 = error_texts(errors@);
    validate_page_header(errors, position, page);
    let ghost head = error_texts(errors@);
    let path = concat_indexed("pages", "", position);
    assert(path@ == indexed("pages"@, position as nat)) by {
        assert("pages"@ + ""@ =~= "pages"@) by {
            reveal_strlit("");
        }
    }
    let mut k: usize = 0;
    assert(head + seq![] =~= head);
    while k < page.regions.len()
        invariant
            k <= page.regions.len(),
            path@ == indexed("pages"@, position as nat),
            error_texts(errors@) == head + regions_errors(path@, page.regions@, k as nat),
        decreases page.regions.len() - k,
    {
        let region_path = concat_indexed(path.as_str(), ".regions", k);
        validate_region(errors, region_path.as_str(), &page.regions[k]);
        proof {
            lemma_concat_associative(
                head,
                regions_errors(path@, page.regions@, k as nat),
                region_errors(region_path@, page.regions@[k as int]),
            );
        }
        k += 1;
    }
    proof {
        lemma_concat_associative(
            b0,
            page_header_errors(position as nat, *page),
            regions_errors(path@, page.regions@, page.regions@.len()),
        );
    }
}

fn validate_pages(errors: &mut Vec<ValidationError>, pages: &Vec<PageLayout>)
    ensures
        error_texts(final(errors)@) == error_texts(old(errors)@) + pages_errors(
            pages@,
            pages@.len(),
        ),
{
    let ghost head = error_texts(errors@);
    let mut i: usize = 0;
    assert(head + seq![] =~= head);
    while i < pages.len()
        invariant
            i <= pages.len(),
            error_texts(errors@) == head + pages_errors(pages@, i as nat),
        decreases pages.len() - i,
    {
        validate_page(errors, i, &pages[i]);
        proof {
            lemma_concat_associative(
                head,
                pages_errors(pages@, i as nat),
                page_errors(i as nat, pages@[i as int]),
            );
        }
        i += 1;
    }
}

} // verus!
verus! {

// ---------------------------------------------------------------------------
// Segment sequences across pages
// ---------------------------------------------------------------------------

/// A paragraph occurrence whose later segments are still expected.
pub struct OpenSequence {
    pub start_path: Seq<char>,
    pub source: SourceRef,
    pub text: Seq<char>,
    pub segment_count: nat,
    pub next_segment: nat,
    pub previous_end: nat,
    pub previous_page: nat,
}

/// The first open sequence of `source`, if any.
#[verifier::opaque]
pub open spec fn find_open(active: Seq<OpenSequence>, source: SourceRef) -> Option<nat> {
    if exists|k: int| 0 <= k < active.len() && same_source(#[trigger] active[k].source, source) {
        Some(
            (choose|k: int|
                0 <= k < active.len() && same_source(#[trigger] active[k].source, source) && forall|
                    j: int,
                | 0 <= j < k ==> !same_source(#[trigger] active[j].source, source)) as nat,
        )
    } else {
        None
    }
}

pub open spec fn last_line_end(lines: Seq<LineLayout>) -> nat {
    if lines.len() == 0 {
        0
    } else {
        lines.last().range_utf8[1] as nat
    }
}

pub open spec fn region_path(page: nat, region: nat) -> Seq<char> {
    indexed(indexed("pages"@, page) + ".regions"@, region)
}

pub open spec fn later_page_errors(path: Seq<char>, page: nat, s: OpenSequence) -> Seq<ErrorText> {
    if page <= s.previous_page {
        seq![(path + ".segment"@, "continuation segments must appear on later physical pages"@)]
    } else {
        seq![]
    }
}

pub open spec fn next_segment_errors(path: Seq<char>, p: ParagraphRegion, s: OpenSequence) -> Seq<
    ErrorText,
> {
    if p.segment != s.next_segment {
        seq![
            (path + ".segment"@, "must be "@ + decimal(s.next_segment) + ", got "@ + decimal(
                p.segment as nat,
            )),
        ]
    } else {
        seq![]
    }
}

pub open spec fn same_count_errors(path: Seq<char>, p: ParagraphRegion, s: OpenSequence) -> Seq<
    ErrorText,
> {
    if p.segment_count != s.segment_count {
        seq![
            (path + ".segment_count"@, "must match first segment count "@ + decimal(s.segment_count)
                + ", got "@ + decimal(p.segment_count as nat)),
        ]
    } else {
        seq![]
    }
}

pub open spec fn same_text_errors(path: Seq<char>, p: ParagraphRegion, s: OpenSequence) -> Seq<
    ErrorText,
> {
    if p.text@ != s.text {
        seq![(path + ".text"@, "must match the logical text of the first segment"@)]
    } else {
        seq![]
    }
}

pub open spec fn no_overlap_errors(path: Seq<char>, p: ParagraphRegion, s: OpenSequence) -> Seq<
    ErrorText,
> {
    if p.lines@.len() > 0 && p.lines@[0].range_utf8[0] < s.previous_end {
        seq![(path + ".lines[0].range_utf8"@, "must not overlap a previous page segment"@)]
    } else {
        seq![]
    }
}

/// Errors of a continuation segment against its open sequence.
pub open spec fn continuation_errors(
    path: Seq<char>,
    page: nat,
    p: ParagraphRegion,
    s: OpenSequence,
) -> Seq<ErrorText> {
    later_page_errors(path, page, s) + next_segment_errors(path, p, s) + same_count_errors(path, p, s)
        + same_text_errors(path, p, s) + no_overlap_errors(path, p, s)
}

/// Segment zero of an occurrence: an occurrence of the same source still
/// open is reported and dropped, and the new one stays open when it has
/// further segments.
pub open spec fn open_step(
    active: Seq<OpenSequence>,
    path: Seq<char>,
    page: nat,
    p: ParagraphRegion,
) -> (Seq<OpenSequence>, Seq<ErrorText>) {
    let (active1, errors) = match find_open(active, p.source) {
        Some(k) => (
            active.remove(k as int),
            seq![
                (path + ".segment"@, "starts a new occurrence before the sequence at "@
                    + active[k as int].start_path + " reached segment_count "@ + decimal(
                    active[k as int].segment_count,
                )),
            ],
        ),
        None => (active, seq![]),
    };
    let active2 = if p.segment_count > 1 {
        active1.push(
            OpenSequence {
                start_path: path,
                source: p.source,
                text: p.text@,
                segment_count: p.segment_count as nat,
                next_segment: 1,
                previous_end: last_line_end(p.lines@),
                previous_page: page,
            },
        )
    } else {
        active1
    };
    (active2, errors)
}

/// A later segment: it must continue an open occurrence of its source, which
/// then advances, and closes with its last segment.
pub open spec fn continue_step(
    active: Seq<OpenSequence>,
    path: Seq<char>,
    page: nat,
    p: ParagraphRegion,
) -> (Seq<OpenSequence>, Seq<ErrorText>) {
    match find_open(active, p.source) {
        None => (
            active,
            seq![(path + ".segment"@, "must follow segment zero for the same source occurrence"@)],
        ),
        Some(k) => {
            let s = active[k as int];
            let updated = OpenSequence {
                previous_end: if p.lines@.len() > 0 {
                    last_line_end(p.lines@)
                } else {
                    s.previous_end
                },
                next_segment: (p.segment + 1) as nat,
                previous_page: page,
                ..s
            };
            let active2 = if p.segment + 1 == s.segment_count {
                active.remove(k as int)
            } else {
                active.update(k as int, updated)
            };
            (active2, continuation_errors(path, page, p, s))
        },
    }
}

/// One paragraph segment advances the open sequences: segment zero opens an
/// occurrence (reporting one left open for the same source), continuations
/// must follow in order on later pages with the same count and text and
/// non-overlapping line ranges, and the last segment closes the occurrence.
/// Segments with an invalid index are reported elsewhere and skipped here.
pub open spec fn sequence_step(
    active: Seq<OpenSequence>,
    page: nat,
    region: nat,
    p: ParagraphRegion,
) -> (Seq<OpenSequence>, Seq<ErrorText>) {
    if p.segment_count == 0 || p.segment >= p.segment_count {
        (active, seq![])
    } else if p.segment == 0 {
        open_step(active, region_path(page, region), page, p)
    } else {
        continue_step(active, region_path(page, region), page, p)
    }
}

pub open spec fn sequence_scan_regions(
    active: Seq<OpenSequence>,
    page: nat,
    regions: Seq<Region>,
    k: nat,
) -> (Seq<OpenSequence>, Seq<ErrorText>)
    decreases k,
{
    if k == 0 {
        (active, seq![])
    } else {
        let (a, e) = sequence_scan_regions(active, page, regions, (k - 1) as nat);
        match regions[k - 1] {
            Region::Paragraph(p) => {
                let (a2, e2) = sequence_step(a, page, (k - 1) as nat, p);
                (a2, e + e2)
            },
            Region::Image(_) => (a, e),
        }
    }
}

pub open spec fn sequence_scan_pages(pages: Seq<PageLayout>, i: nat) -> (
    Seq<OpenSequence>,
    Seq<ErrorText>,
)
    decreases i,
{
    if i == 0 {
        (seq![], seq![])
    } else {
        let (a, e) = sequence_scan_pages(pages, (i - 1) as nat);
        let (a2, e2) = sequence_scan_regions(
            a,
            (i - 1) as nat,
            pages[i - 1].regions@,
            pages[i - 1].regions@.len(),
        );
        (a2, e + e2)
    }
}

pub open spec fn unfinished_errors(active: Seq<OpenSequence>, k: nat) -> Seq<ErrorText>
    decreases k,
{
    if k == 0 {
        seq![]
    } else {
        unfinished_errors(active, (k - 1) as nat) + seq![
            (active[k - 1].start_path + ".segment_count"@, "sequence ended before all "@ + decimal(
                active[k - 1].segment_count,
            ) + " segments were present"@),
        ]
    }
}

/// Segment-sequence errors of a document, then one error for each occurrence
/// still incomplete at the end, in the order the occurrences started.
pub open spec fn sequence_errors(pages: Seq<PageLayout>) -> Seq<ErrorText> {
    let (active, errors) = sequence_scan_pages(pages, pages.len());
    errors + unfinished_errors(active, active.len())
}

} // verus!
verus! {

struct ActiveSequence {
    start_path: String,
    source: SourceRef,
    text: String,
    segment_count: usize,
    next_segment: usize,
    previous_end: usize,
    previous_page: usize,
}

spec fn open_of(a: ActiveSequence) -> OpenSequence {
    OpenSequence {
        start_path: a.start_path@,
        source: a.source,
        text: a.text@,
        segment_count: a.segment_count as nat,
        next_segment: a.next_segment as nat,
        previous_end: a.previous_end as nat,
        previous_page: a.previous_page as nat,
    }
}

spec fn opens(v: Seq<ActiveSequence>) -> Seq<OpenSequence> {
    Seq::new(v.len(), |i: int| open_of(v[i]))
}

fn find_active(active: &Vec<ActiveSequence>, source: &SourceRef) -> (r: Option<usize>)
    ensures
        r is None <==> find_open(opens(active@), *source) is None,
        r matches Some(k) ==> k < active@.len() && find_open(opens(active@), *source) == Some(
            k as nat,
        ),
{
    let ghost o = opens(active@);
    let mut i: usize = 0;
    while i < active.len()
        invariant
            i <= active.len(),
            o == opens(active@),
            forall|j: int| 0 <= j < i ==> !same_source(#[trigger] o[j].source, *source),
        decreases active.len() - i,
    {
        if active[i].source.same_as(source) {
            proof {
                reveal(find_open);
                assert(same_source(o[i as int].source, *source));
                let k = choose|k: int|
                    0 <= k < o.len() && same_source(#[trigger] o[k].source, *source) && forall|
                        j: int,
                    | 0 <= j < k ==> !same_source(#[trigger] o[j].source, *source);
                assert(k == i) by {
                    if k > i {
                        assert(!same_source(o[i as int].source, *source));
                    }
                }
            }
            return Some(i);
        }
        i += 1;
    }
    proof {
        reveal(find_open);
    }
    None
}

fn last_end(lines: &Vec<LineLayout>) -> (r: usize)
    ensures
        r as nat == last_line_end(lines@),
{
    if lines.len() == 0 {
        0
    } else {
        lines[lines.len() - 1].range_utf8[1]
    }
}

fn check_later_page(errors: &mut Vec<ValidationError>, path: &str, page: usize, s: &ActiveSequence)
    ensures
        error_texts(final(errors)@) == error_texts(old(errors)@) + later_page_errors(
            path@,
            page as nat,
            open_of(*s),
        ),
{
    if page <= s.previous_page {
        push_error(
            errors,
            concat(path, ".segment"),
            String::from_str("continuation segments must appear on later physical pages"),
        );
    } else {
        assert(error_texts(errors@) + seq![] =~= error_texts(errors@));
    }
}

fn check_next_segment(
    errors: &mut Vec<ValidationError>,
    path: &str,
    p: &ParagraphRegion,
    s: &ActiveSequence,
)
    ensures
        error_texts(final(errors)@) == error_texts(old(errors)@) + next_segment_errors(
            path@,
            *p,
            open_of(*s),
        ),
{
    if p.segment != s.next_segment {
        let mut message = String::from_str("must be ");
        push_decimal(&mut message, s.next_segment as u64);
        message.append(", got ");
        push_decimal(&mut message, p.segment as u64);
        push_error(errors, concat(path, ".segment"), message);
    } else {
        assert(error_texts(errors@) + seq![] =~= error_texts(errors@));
    }
}

fn check_same_count(
    errors: &mut Vec<ValidationError>,
    path: &str,
    p: &ParagraphRegion,
    s: &ActiveSequence,
)
    ensures
        error_texts(final(errors)@) == error_texts(old(errors)@) + same_count_errors(
            path@,
            *p,
            open_of(*s),
        ),
{
    if p.segment_count != s.segment_count {
        let mut message = String::from_str("must match first segment count ");
        push_decimal(&mut message, s.segment_count as u64);
        message.append(", got ");
        push_decimal(&mut message, p.segment_count as u64);
        push_error(errors, concat(path, ".segment_count"), message);
    } else {
        assert(error_texts(errors@) + seq![] =~= error_texts(errors@));
    }
}

fn check_same_text(
    errors: &mut Vec<ValidationError>,
    path: &str,
    p: &ParagraphRegion,
    s: &ActiveSequence,
)
    ensures
        error_texts(final(errors)@) == error_texts(old(errors)@) + same_text_errors(
            path@,
            *p,
            open_of(*s),
        ),
{
    if !crate::text::str_equal(p.text.as_str(), s.text.as_str()) {
        push_error(
            errors,
            concat(path, ".text"),
            String::from_str("must match the logical text of the first segment"),
        );
    } else {
        assert(error_texts(errors@) + seq![] =~= error_texts(errors@));
    }
}

fn check_no_overlap(
    errors: &mut Vec<ValidationError>,
    path: &str,
    p: &ParagraphRegion,
    s: &ActiveSequence,
)
    ensures
        error_texts(final(errors)@) == error_texts(old(errors)@) + no_overlap_errors(
            path@,
            *p,
            open_of(*s),
        ),
{
    if p.lines.len() > 0 && p.lines[0].range_utf8[0] < s.previous_end {
        push_error(
            errors,
            concat(path, ".lines[0].range_utf8"),
            String::from_str("must not overlap a previous page segment"),
        );
    } else {
        assert(error_texts(errors@) + seq![] =~= error_texts(errors@));
    }
}

fn validate_continuation(
    errors: &mut Vec<ValidationError>,
    path: &str,
    page: usize,
    p: &ParagraphRegion,
    s: &ActiveSequence,
)
    ensures
        error_texts(final(errors)@) == error_texts(old(errors)@) + continuation_errors(
            path@,
            page as nat,
            *p,
            open_of(*s),
        ),
{
    let ghost b0 = error_texts(errors@);
    let ghost o = open_of(*s);
    check_later_page(errors, path, page, s);
    let ghost x1 = later_page_errors(path@, page as nat, o);
    check_next_segment(errors, path, p, s);
    let ghost x2 = next_segment_errors(path@, *p, o);
    proof {
        lemma_concat_associative(b0, x1, x2);
    }
    check_same_count(errors, path, p, s);
    let ghost x3 = same_count_errors(path@, *p, o);
    proof {
        lemma_concat_associative(b0, x1 + x2, x3);
    }
    check_same_text(errors, path, p, s);
    let ghost x4 = same_text_errors(path@, *p, o);
    proof {
        lemma_concat_associative(b0, x1 + x2 + x3, x4);
    }
    check_no_overlap(errors, path, p, s);
    let ghost x5 = no_overlap_errors(path@, *p, o);
    proof {
        lemma_concat_associative(b0, x1 + x2 + x3 + x4, x5);
    }
}

fn region_path_string(page: usize, region: usize) -> (r: String)
    ensures
        r@ == region_path(page as nat, region as nat),
{
    let page_path = concat_indexed("pages", "", page);
    assert(page_path@ == indexed("pages"@, page as nat)) by {
        assert("pages"@ + ""@ =~= "pages"@) by {
            reveal_strlit("");
        }
    }
    concat_indexed(page_path.as_str(), ".regions", region)
}

fn open_step_exec(
    active: &mut Vec<ActiveSequence>,
    errors: &mut Vec<ValidationError>,
    path: String,
    page: usize,
    p: &ParagraphRegion,
)
    ensures
        opens(final(active)@) == open_step(opens(old(active)@), path@, page as nat, *p).0,
        error_texts(final(errors)@) == error_texts(old(errors)@) + open_step(
            opens(old(active)@),
            path@,
            page as nat,
            *p,
        ).1,
{
    let ghost a0 = opens(active@);
    let ghost b0 = error_texts(errors@);
    let ghost spec_step = open_step(a0, path@, page as nat, *p);
    match find_active(active, &p.source) {
        Some(k) => {
            let previous = active.remove(k);
            assert(a0[k as int] == open_of(previous));
            assert(opens(active@) =~= a0.remove(k as int));
            let mut message = String::from_str("starts a new occurrence before the sequence at ");
            message.append(previous.start_path.as_str());
            message.append(" reached segment_count ");
            push_decimal(&mut message, previous.segment_count as u64);
            let ghost entry = (path@ + ".segment"@, message@);
            push_error(errors, concat(path.as_str(), ".segment"), message);
            assert(spec_step.1 == seq![entry]);
            assert(error_texts(errors@) =~= b0 + seq![entry]);
        },
        None => {
            assert(b0 + seq![] =~= b0);
        },
    }
    assert(error_texts(errors@) == b0 + spec_step.1);
    if p.segment_count > 1 {
        let ghost a1 = opens(active@);
        let sequence = ActiveSequence {
            start_path: path,
            source: p.source.duplicate(),
            text: p.text.clone(),
            segment_count: p.segment_count,
            next_segment: 1,
            previous_end: last_end(&p.lines),
            previous_page: page,
        };
        active.push(sequence);
        assert(opens(active@) =~= a1.push(open_of(sequence)));
    }
}

fn continue_step_exec(
    active: &mut Vec<ActiveSequence>,
    errors: &mut Vec<ValidationError>,
    path: String,
    page: usize,
    p: &ParagraphRegion,
)
    requires
        p.segment < p.segment_count,
    ensures
        opens(final(active)@) == continue_step(opens(old(active)@), path@, page as nat, *p).0,
        error_texts(final(errors)@) == error_texts(old(errors)@) + continue_step(
            opens(old(active)@),
            path@,
            page as nat,
            *p,
        ).1,
{
    let ghost a0 = opens(active@);
    match find_active(active, &p.source) {
        None => {
            push_error(
                errors,
                concat(path.as_str(), ".segment"),
                String::from_str("must follow segment zero for the same source occurrence"),
            );
        },
        Some(k) => {
            validate_continuation(errors, path.as_str(), page, p, &active[k]);
            let mut sequence = active.remove(k);
            if p.lines.len() > 0 {
                sequence.previous_end = last_end(&p.lines);
            }
            sequence.next_segment = p.segment + 1;
            sequence.previous_page = page;
            if p.segment + 1 != sequence.segment_count {
                active.insert(k, sequence);
                assert(opens(active@) =~= a0.update(k as int, open_of(sequence)));
            } else {
                assert(opens(active@) =~= a0.remove(k as int));
            }
        },
    }
}

fn sequence_step_exec(
    active: &mut Vec<ActiveSequence>,
    errors: &mut Vec<ValidationError>,
    page: usize,
    region: usize,
    p: &ParagraphRegion,
)
    ensures
        opens(final(active)@) == sequence_step(
            opens(old(active)@),
            page as nat,
            region as nat,
            *p,
        ).0,
        error_texts(final(errors)@) == error_texts(old(errors)@) + sequence_step(
            opens(old(active)@),
            page as nat,
            region as nat,
            *p,
        ).1,
{
    if p.segment_count == 0 || p.segment >= p.segment_count {
        assert(error_texts(errors@) + seq![] =~= error_texts(errors@));
        return;
    }
    let path = region_path_string(page, region);
    if p.segment == 0 {
        open_step_exec(active, errors, path, page, p);
    } else {
        continue_step_exec(active, errors, path, page, p);
    }
}

fn validate_paragraph_sequences(errors: &mut Vec<ValidationError>, pages: &Vec<PageLayout>)
    ensures
        error_texts(final(errors)@) == error_texts(old(errors)@) + sequence_errors(pages@),
{
    let ghost head = error_texts(errors@);
    let mut active: Vec<ActiveSequence> = Vec::new();
    let mut i: usize = 0;
    assert(head + seq![] =~= head);
    assert(opens(active@) =~= seq![]);
    while i < pages.len()
        invariant
            i <= pages.len(),
            opens(active@) == sequence_scan_pages(pages@, i as nat).0,
            error_texts(errors@) == head + sequence_scan_pages(pages@, i as nat).1,
        decreases pages.len() - i,
    {
        let ghost before = sequence_scan_pages(pages@, i as nat);
        let regions = &pages[i].regions;
        let mut k: usize = 0;
        assert(before.1 + seq![] =~= before.1);
        while k < regions.len()
            invariant
                k <= regions.len(),
                i < pages.len(),
                regions@ == pages@[i as int].regions@,
                before == sequence_scan_pages(pages@, i as nat),
                opens(active@) == sequence_scan_regions(before.0, i as nat, regions@, k as nat).0,
                error_texts(errors@) == head + (before.1 + sequence_scan_regions(
                    before.0,
                    i as nat,
                    regions@,
                    k as nat,
                ).1),
            decreases regions.len() - k,
        {
            let ghost scan = sequence_scan_regions(before.0, i as nat, regions@, k as nat);
            match &regions[k] {
                Region::Paragraph(p) => {
                    sequence_step_exec(&mut active, errors, i, k, p);
                    proof {
                        let step = sequence_step(scan.0, i as nat, k as nat, *p);
                        lemma_concat_associative(head, before.1 + scan.1, step.1);
                        lemma_concat_associative(before.1, scan.1, step.1);
                    }
                },
                Region::Image(_) => {},
            }
            k += 1;
        }
        proof {
            lemma_concat_associative(
                head,
                before.1,
                sequence_scan_regions(before.0, i as nat, regions@, regions@.len()).1,
            );
        }
        i += 1;
    }
    let ghost scanned = sequence_scan_pages(pages@, pages@.len());
    let ghost mid = error_texts(errors@);
    let mut j: usize = 0;
    assert(mid + seq![] =~= mid);
    while j < active.len()
        invariant
            j <= active.len(),
            opens(active@) == scanned.0,
            error_texts(errors@) == mid + unfinished_errors(scanned.0, j as nat),
        decreases active.len() - j,
    {
        let mut message = String::from_str("sequence ended before all ");
        push_decimal(&mut message, active[j].segment_count as u64);
        message.append(" segments were present");
        push_error(errors, concat(active[j].start_path.as_str(), ".segment_count"), message);
        assert(opens(active@)[j as int] == open_of(active@[j as int]));
        proof {
            lemma_concat_associative(
                mid,
                unfinished_errors(scanned.0, j as nat),
                unfinished_errors(scanned.0, (j + 1) as nat).skip(
                    unfinished_errors(scanned.0, j as nat).len() as int,
                ),
            );
        }
        assert(error_texts(errors@) =~= mid + unfinished_errors(scanned.0, (j + 1) as nat));
        j += 1;
    }
    proof {
        lemma_concat_associative(head, scanned.1, unfinished_errors(scanned.0, scanned.0.len()));
    }
}

} // verus!
verus! {

// ---------------------------------------------------------------------------
// Whole documents
// ---------------------------------------------------------------------------

/// The `$` error of a document whose format or version this model cannot read.
pub open spec fn compatibility_errors(format: Seq<char>, version: Seq<char>) -> Seq<ErrorText> {
    if format != FORMAT@ {
        seq![
            ("$"@, "unsupported format "@ + debug_quoted(format)
                + " (expected \"typsastra-docx-ir\")"@),
        ]
    } else {
        match parse_version(version) {
            None => seq![
                ("$"@, "malformed format version "@ + debug_quoted(version)
                    + " (expected major.minor)"@),
            ],
            Some(v) => if v.major == SUPPORTED_MAJOR_VERSION {
                seq![]
            } else {
                seq![
                    ("$"@, "unsupported format major version "@ + decimal(v.major as nat)
                        + " (supported: 1)"@),
                ]
            },
        }
    }
}

pub open spec fn optional_environment_errors(env: Option<LayoutEnvironment>) -> Seq<ErrorText> {
    match env {
        Some(e) => environment_errors(e),
        None => seq![],
    }
}

/// Every error of a format-1 document, in the order `validate` reports them:
/// compatibility, generator, layout environment, source, each page with its
/// regions, then segment sequences.
pub open spec fn document_errors(d: DocumentLayout) -> Seq<ErrorText> {
    compatibility_errors(d.format@, d.version@) + nonempty_errors(
        "generator.name"@,
        d.generator.name@,
    ) + nonempty_errors("generator.version"@, d.generator.version@) + optional_environment_errors(
        d.layout_environment,
    ) + nonempty_errors("source.path"@, d.source.path@) + pages_errors(d.pages@, d.pages@.len())
        + sequence_errors(d.pages@)
}

fn validate_compatibility(errors: &mut Vec<ValidationError>, document: &DocumentLayout)
    ensures
        error_texts(final(errors)@) == error_texts(old(errors)@) + compatibility_errors(
            document.format@,
            document.version@,
        ),
{
    match document.compatibility() {
        Ok(_) => {
            assert(error_texts(errors@) + seq![] =~= error_texts(errors@));
        },
        Err(e) => {
            let message = e.message();
            let ghost entry = ("$"@, message@);
            push_error(errors, String::from_str("$"), message);
            assert(compatibility_errors(document.format@, document.version@) == seq![entry]);
            assert(error_texts(errors@) =~= error_texts(old(errors)@) + seq![entry]);
        },
    }
}

fn validate_optional_environment(errors: &mut Vec<ValidationError>, env: &Option<LayoutEnvironment>)
    ensures
        error_texts(final(errors)@) == error_texts(old(errors)@) + optional_environment_errors(
            *env,
        ),
{
    match env {
        Some(e) => validate_layout_environment(errors, e),
        None => {
            assert(error_texts(errors@) + seq![] =~= error_texts(errors@));
        },
    }
}

/// Checks every semantic invariant of a format-1 document and reports all
/// violations, with JSON-style paths, in document order.
pub fn validate(document: &DocumentLayout) -> (r: Result<(), ValidationErrors>)
    ensures
        match r {
            Ok(()) => document_errors(*document).len() == 0,
            Err(e) => error_texts(e.0@) == document_errors(*document) && e.0@.len() > 0,
        },
{
    let mut errors: Vec<ValidationError> = Vec::new();
    let ghost b0 = error_texts(errors@);
    assert(b0 =~= seq![]);
    validate_compatibility(&mut errors, document);
    let ghost x1 = compatibility_errors(document.format@, document.version@);
    validate_nonempty(&mut errors, String::from_str("generator.name"), document.generator.name.as_str());
    let ghost x2 = nonempty_errors("generator.name"@, document.generator.name@);
    proof {
        lemma_concat_associative(b0, x1, x2);
    }
    validate_nonempty(
        &mut errors,
        String::from_str("generator.version"),
        document.generator.version.as_str(),
    );
    let ghost x3 = nonempty_errors("generator.version"@, document.generator.version@);
    proof {
        lemma_concat_associative(b0, x1 + x2, x3);
    }
    validate_optional_environment(&mut errors, &document.layout_environment);
    let ghost x4 = optional_environment_errors(document.layout_environment);
    proof {
        lemma_concat_associative(b0, x1 + x2 + x3, x4);
    }
    validate_nonempty(&mut errors, String::from_str("source.path"), document.source.path.as_str());
    let ghost x5 = nonempty_errors("source.path"@, document.source.path@);
    proof {
        lemma_concat_associative(b0, x1 + x2 + x3 + x4, x5);
    }
    validate_pages(&mut errors, &document.pages);
    let ghost x6 = pages_errors(document.pages@, document.pages@.len());
    proof {
        lemma_concat_associative(b0, x1 + x2 + x3 + x4 + x5, x6);
    }
    validate_paragraph_sequences(&mut errors, &document.pages);
    let ghost x7 = sequence_errors(document.pages@);
    proof {
        lemma_concat_associative(b0, x1 + x2 + x3 + x4 + x5 + x6, x7);
        assert(b0 + document_errors(*document) =~= document_errors(*document));
    }
    if errors.len() == 0 {
        Ok(())
    } else {
        Err(ValidationErrors(errors))
    }
}

impl DocumentLayout {
    /// Checks every semantic invariant of the document; see [`validate`].
    pub fn validate(&self) -> (r: Result<(), ValidationErrors>)
        ensures
            match r {
                Ok(()) => document_errors(*self).len() == 0,
                Err(e) => error_texts(e.0@) == document_errors(*self) && e.0@.len() > 0,
            },
    {
        validate(self)
    }
}

} // verus!
verus! {

// ---------------------------------------------------------------------------
// Complete segment cycles
// ---------------------------------------------------------------------------

/// The paragraph that page `i` holds as its only region.
pub open spec fn segment_at(pages: Seq<PageLayout>, i: int) -> ParagraphRegion {
    pages[i].regions@[0]->Paragraph_0
}

/// One paragraph occurrence split over consecutive pages: page `i` holds
/// exactly segment `i` of `pages.len()`, all of one source and one text.
pub open spec fn is_segment_cycle(pages: Seq<PageLayout>, source: SourceRef, text: Seq<char>) -> bool {
    forall|i: int|
        0 <= i < pages.len() ==> {
            &&& (#[trigger] pages[i]).regions@.len() == 1
            &&& pages[i].regions@[0] is Paragraph
            &&& same_source(segment_at(pages, i).source, source)
            &&& segment_at(pages, i).segment == i
            &&& segment_at(pages, i).segment_count == pages.len()
            &&& segment_at(pages, i).text@ == text
        }
}

/// Line ranges only move forward from one segment to the next.
pub open spec fn lines_flow_forward(pages: Seq<PageLayout>) -> bool {
    forall|i: int, j: int, a: int, b: int|
        0 <= i < j < pages.len() && 0 <= a < segment_at(pages, i).lines@.len() && 0 <= b
            < segment_at(pages, j).lines@.len() ==> (#[trigger] segment_at(pages, i).lines@[a]).range_utf8[1]
            <= (#[trigger] segment_at(pages, j).lines@[b]).range_utf8[0]
}

/// The occurrence still open after the first `k` pages of a cycle.
pub open spec fn cycle_open(pages: Seq<PageLayout>, k: nat, end: nat) -> OpenSequence {
    OpenSequence {
        start_path: region_path(0, 0),
        source: segment_at(pages, 0).source,
        text: segment_at(pages, 0).text@,
        segment_count: pages.len(),
        next_segment: k,
        previous_end: end,
        previous_page: (k - 1) as nat,
    }
}

proof fn lemma_find_open_single(s: OpenSequence, source: SourceRef)
    requires
        same_source(s.source, source),
    ensures
        find_open(seq![s], source) == Some(0nat),
{
    reveal(find_open);
    let active = seq![s];
    assert(same_source(active[0].source, source));
    let k = choose|k: int|
        0 <= k < active.len() && same_source(#[trigger] active[k].source, source) && forall|j: int|
            0 <= j < k ==> !same_source(#[trigger] active[j].source, source);
    assert(k == 0);
}

proof fn lemma_find_open_empty(source: SourceRef)
    ensures
        find_open(seq![], source) is None,
{
    reveal(find_open);
}

/// After `k` pages of a cycle the scan reported nothing, and the occurrence
/// is open (until its last page) with an end no later than any later line.
proof fn lemma_cycle_prefix(pages: Seq<PageLayout>, source: SourceRef, text: Seq<char>, k: nat)
    requires
        pages.len() > 0,
        k <= pages.len(),
        is_segment_cycle(pages, source, text),
        lines_flow_forward(pages),
    ensures
        sequence_scan_pages(pages, k).1 == Seq::<ErrorText>::empty(),
        k == 0 || k == pages.len() ==> sequence_scan_pages(pages, k).0 == Seq::<OpenSequence>::empty(),
        0 < k < pages.len() ==> exists|end: nat|
            {
                &&& sequence_scan_pages(pages, k).0 == seq![cycle_open(pages, k, end)]
                &&& forall|j: int, b: int|
                    k <= j < pages.len() && 0 <= b < segment_at(pages, j).lines@.len() ==> end
                        <= (#[trigger] segment_at(pages, j).lines@[b]).range_utf8[0]
            },
    decreases k,
{
    if k > 0 {
        let i = (k - 1) as nat;
        lemma_cycle_prefix(pages, source, text, i);
        let (a, e) = sequence_scan_pages(pages, i);
        let page = pages[i as int];
        assert(page.regions@.len() == 1);
        let p = segment_at(pages, i as int);
        assert(page.regions@[0] == Region::Paragraph(p));
        let scan1 = sequence_scan_regions(a, i, page.regions@, 1);
        assert(sequence_scan_regions(a, i, page.regions@, 0) == (a, Seq::<ErrorText>::empty()));
        let step = sequence_step(a, i, 0, p);
        assert(scan1 == (step.0, Seq::<ErrorText>::empty() + step.1));
        assert(sequence_scan_pages(pages, k) == (scan1.0, e + scan1.1));
        let n = pages.len();
        if i == 0 {
            lemma_find_open_empty(p.source);
            let end = last_line_end(p.lines@);
            assert(step.1 =~= Seq::<ErrorText>::empty());
            if n > 1 {
                assert(step.0 == seq![cycle_open(pages, 1, end)]);
                assert forall|j: int, b: int|
                    1 <= j < n && 0 <= b < segment_at(pages, j).lines@.len() implies end
                        <= (#[trigger] segment_at(pages, j).lines@[b]).range_utf8[0] by {
                    if p.lines@.len() > 0 {
                        assert(segment_at(pages, 0).lines@[p.lines@.len() - 1].range_utf8[1]
                            <= segment_at(pages, j).lines@[b].range_utf8[0]);
                    }
                }
            } else {
                assert(step.0 =~= Seq::<OpenSequence>::empty());
            }
        } else {
            let end = choose|end: nat|
                {
                    &&& a == seq![cycle_open(pages, i, end)]
                    &&& forall|j: int, b: int|
                        i <= j < pages.len() && 0 <= b < segment_at(pages, j).lines@.len() ==> end
                            <= (#[trigger] segment_at(pages, j).lines@[b]).range_utf8[0]
                };
            let s = cycle_open(pages, i, end);
            assert(same_source(segment_at(pages, 0).source, source));
            lemma_find_open_single(s, p.source);
            assert(p.segment == i && p.segment != 0);
            if p.lines@.len() > 0 {
                assert(end <= segment_at(pages, i as int).lines@[0].range_utf8[0]);
            }
            assert(continuation_errors(region_path(i, 0), i, p, s) =~= Seq::<ErrorText>::empty());
            assert(step.1 =~= Seq::<ErrorText>::empty());
            let new_end = if p.lines@.len() > 0 {
                last_line_end(p.lines@)
            } else {
                end
            };
            if k == n {
                assert(step.0 =~= Seq::<OpenSequence>::empty());
            } else {
                assert(step.0 =~= seq![cycle_open(pages, k, new_end)]);
                assert forall|j: int, b: int|
                    k <= j < n && 0 <= b < segment_at(pages, j).lines@.len() implies new_end
                        <= (#[trigger] segment_at(pages, j).lines@[b]).range_utf8[0] by {
                    if p.lines@.len() > 0 {
                        assert(segment_at(pages, i as int).lines@[p.lines@.len() - 1].range_utf8[1]
                            <= segment_at(pages, j).lines@[b].range_utf8[0]);
                    }
                }
            }
        }
        assert(e + scan1.1 =~= Seq::<ErrorText>::empty());
    }
}

/// Semantic validation accepts a complete segment cycle: a paragraph whose
/// segments `0/n, 1/n, ..., n-1/n` stand alone on consecutive pages with one
/// source and one text, and whose line ranges move forward, raises no
/// segment-sequence error.
pub proof fn lemma_complete_cycle_is_accepted(
    pages: Seq<PageLayout>,
    source: SourceRef,
    text: Seq<char>,
)
    requires
        pages.len() > 0,
        is_segment_cycle(pages, source, text),
        lines_flow_forward(pages),
    ensures
        sequence_errors(pages) == Seq::<ErrorText>::empty(),
{
    lemma_cycle_prefix(pages, source, text, pages.len());
    let (active, errors) = sequence_scan_pages(pages, pages.len());
    assert(unfinished_errors(active, active.len()) =~= Seq::<ErrorText>::empty());
    assert(errors + unfinished_errors(active, active.len()) =~= Seq::<ErrorText>::empty());
}

} // verus!
verus! {

/// A format-1 document of this version with no pages and no environment
/// metadata is valid exactly when its generator name and version and its
/// source path are not blank: validity asks for no measurements.
pub proof fn lemma_empty_document_validity(d: DocumentLayout)
    requires
        d.format@ == FORMAT@,
        d.version@ == crate::VERSION@,
        d.layout_environment is None,
        d.pages@.len() == 0,
    ensures
        document_errors(d).len() == 0 <==> (!is_blank(d.generator.name@) && !is_blank(
            d.generator.version@,
        ) && !is_blank(d.source.path@)),
{
    crate::compatibility::lemma_version_round_trip(1, 0);
    reveal_strlit("1.0");
    reveal_strlit(".");
    assert(decimal(1) =~= seq!['1']);
    assert(decimal(0) =~= seq!['0']);
    assert(crate::VERSION@ =~= decimal(1) + "."@ + decimal(0));
    assert(compatibility_errors(d.format@, d.version@) =~= seq![]);
    assert(sequence_errors(d.pages@) =~= seq![]);
}

} // verus!
verus! {

/// Every paragraph is a whole occurrence: segment `0` of `1`.
pub open spec fn all_single_segments(pages: Seq<PageLayout>) -> bool {
    forall|i: int, j: int|
        0 <= i < pages.len() && 0 <= j < pages[i].regions@.len() ==> (#[trigger] pages[i].regions@[j] matches Region::Paragraph(
            p,
        ) ==> p.segment == 0 && p.segment_count == 1)
}

proof fn lemma_single_segments_scan_regions(pages: Seq<PageLayout>, i: nat, k: nat)
    requires
        all_single_segments(pages),
        i < pages.len(),
        k <= pages[i as int].regions@.len(),
    ensures
        sequence_scan_regions(seq![], i, pages[i as int].regions@, k) == (
            Seq::<OpenSequence>::empty(),
            Seq::<ErrorText>::empty(),
        ),
    decreases k,
{
    if k > 0 {
        lemma_single_segments_scan_regions(pages, i, (k - 1) as nat);
        let r = pages[i as int].regions@[k - 1];
        if let Region::Paragraph(p) = r {
            lemma_find_open_empty(p.source);
            assert(sequence_step(seq![], i, (k - 1) as nat, p).1 =~= Seq::<ErrorText>::empty());
        }
        assert(Seq::<ErrorText>::empty() + Seq::<ErrorText>::empty() =~= Seq::<ErrorText>::empty());
    }
}

proof fn lemma_single_segments_scan_pages(pages: Seq<PageLayout>, k: nat)
    requires
        all_single_segments(pages),
        k <= pages.len(),
    ensures
        sequence_scan_pages(pages, k) == (Seq::<OpenSequence>::empty(), Seq::<ErrorText>::empty()),
    decreases k,
{
    if k > 0 {
        lemma_single_segments_scan_pages(pages, (k - 1) as nat);
        lemma_single_segments_scan_regions(pages, (k - 1) as nat, pages[k - 1].regions@.len());
        assert(Seq::<ErrorText>::empty() + Seq::<ErrorText>::empty() =~= Seq::<ErrorText>::empty());
    }
}

/// Paragraphs that are each a whole occurrence, segment `0` of `1`, never
/// form a segment-sequence error, however many repeat one source: repeated
/// independent occurrences are accepted.
pub proof fn lemma_independent_occurrences_are_accepted(pages: Seq<PageLayout>)
    requires
        all_single_segments(pages),
    ensures
        sequence_errors(pages).len() == 0,
{
    lemma_single_segments_scan_pages(pages, pages.len());
}

} // verus!
verus! {

/// The lines of later drafts start no earlier than the lines of earlier ones end.
pub open spec fn drafts_flow_forward(drafts: Seq<crate::provenance::ParagraphSegmentDraft>) -> bool {
    forall|i: int, j: int, a: int, b: int|
        0 <= i < j < drafts.len() && 0 <= a < drafts[i].lines@.len() && 0 <= b < drafts[j].lines@.len()
            ==> (#[trigger] drafts[i].lines@[a]).range_utf8[1] <= (#[trigger] drafts[j].lines@[b]).range_utf8[0]
}

/// The segments that `finish_paginated_paragraph` makes of one paragraph,
/// laid one per page on consecutive pages, pass the segment-sequence checks
/// when the drafts' lines move forward through the text: pagination output
/// is a complete cycle.
pub proof fn lemma_finished_segments_are_accepted(
    source: SourceRef,
    text: Seq<char>,
    drafts: Seq<crate::provenance::ParagraphSegmentDraft>,
    segments: Seq<ParagraphRegion>,
    pages: Seq<PageLayout>,
)
    requires
        segments.len() > 0,
        drafts.len() == segments.len(),
        forall|i: int|
            0 <= i < segments.len() ==> crate::provenance::segment_region(
                source,
                text,
                i,
                segments.len() as int,
                drafts[i],
                #[trigger] segments[i],
            ),
        drafts_flow_forward(drafts),
        pages.len() == segments.len(),
        forall|i: int| 0 <= i < pages.len() ==> (#[trigger] pages[i]).regions@ == seq![Region::Paragraph(segments[i])],
    ensures
        sequence_errors(pages).len() == 0,
{
    assert forall|i: int| 0 <= i < pages.len() implies {
        &&& (#[trigger] pages[i]).regions@.len() == 1
        &&& pages[i].regions@[0] is Paragraph
        &&& same_source(segment_at(pages, i).source, source)
        &&& segment_at(pages, i).segment == i
        &&& segment_at(pages, i).segment_count == pages.len()
        &&& segment_at(pages, i).text@ == text
    } by {
        assert(pages[i].regions@[0] == Region::Paragraph(segments[i]));
        assert(segment_at(pages, i) == segments[i]);
    }
    assert forall|i: int, j: int, a: int, b: int|
        0 <= i < j < pages.len() && 0 <= a < segment_at(pages, i).lines@.len() && 0 <= b < segment_at(
            pages,
            j,
        ).lines@.len() implies (#[trigger] segment_at(pages, i).lines@[a]).range_utf8[1] <= (
    #[trigger] segment_at(pages, j).lines@[b]).range_utf8[0] by {
        assert(pages[i].regions@[0] == Region::Paragraph(segments[i]));
        assert(pages[j].regions@[0] == Region::Paragraph(segments[j]));
        assert(segments[i].lines@ == drafts[i].lines@);
        assert(segments[j].lines@ == drafts[j].lines@);
        assert(drafts[i].lines@[a] == segment_at(pages, i).lines@[a]);
        assert(drafts[j].lines@[b] == segment_at(pages, j).lines@[b]);
    }
    lemma_complete_cycle_is_accepted(pages, source, text);
}

} // verus!
verus! {

/// An entry of `a` is still there once `b` is appended.
pub proof fn lemma_contains_before<A>(a: Seq<A>, b: Seq<A>, x: A)
    requires
        a.contains(x),
    ensures
        (a + b).contains(x),
{
    let i = choose|i: int| 0 <= i < a.len() && a[i] == x;
    assert((a + b)[i] == x);
}

/// An entry of `b` is still there once `a` is put before it.
pub proof fn lemma_contains_after<A>(a: Seq<A>, b: Seq<A>, x: A)
    requires
        b.contains(x),
    ensures
        (a + b).contains(x),
{
    let i = choose|i: int| 0 <= i < b.len() && b[i] == x;
    assert((a + b)[a.len() + i] == x);
}

/// A line range that is ordered and within a text of `len` bytes.
pub open spec fn line_in_range(line: LineLayout, len: nat) -> bool {
    line.range_utf8[0] <= line.range_utf8[1] <= len
}

proof fn lemma_running_end(path: Seq<char>, text: Seq<char>, lines: Seq<LineLayout>, j: nat, m: nat)
    requires
        j < m <= lines.len(),
        line_in_range(lines[j as int], utf8_len(text)),
        forall|q: int| j < q < m ==> !line_in_range(#[trigger] lines[q], utf8_len(text)),
    ensures
        lines_scan(path, text, lines, m).1 == lines[j as int].range_utf8[1],
    decreases m - j,
{
    if m > j + 1 {
        lemma_running_end(path, text, lines, j, (m - 1) as nat);
        assert(!line_in_range(lines[m - 1], utf8_len(text)));
    }
}

proof fn lemma_lines_scan_keeps(path: Seq<char>, text: Seq<char>, lines: Seq<LineLayout>, m: nat, k: nat, x: ErrorText)
    requires
        m <= k <= lines.len(),
        lines_scan(path, text, lines, m).0.contains(x),
    ensures
        lines_scan(path, text, lines, k).0.contains(x),
    decreases k - m,
{
    if k > m {
        lemma_lines_scan_keeps(path, text, lines, m, (k - 1) as nat, x);
        let (e, previous) = lines_scan(path, text, lines, (k - 1) as nat);
        lemma_contains_before(e, line_step(path, text, (k - 1) as nat, lines[k - 1], previous).0, x);
    }
}

proof fn lemma_regions_errors_keep(page_path: Seq<char>, regions: Seq<Region>, r: nat, k: nat, x: ErrorText)
    requires
        r < k <= regions.len(),
        region_errors(indexed(page_path + ".regions"@, r), regions[r as int]).contains(x),
    ensures
        regions_errors(page_path, regions, k).contains(x),
    decreases k,
{
    if k == r + 1 {
        lemma_contains_after(regions_errors(page_path, regions, r), region_errors(indexed(page_path + ".regions"@, r), regions[r as int]), x);
    } else {
        lemma_regions_errors_keep(page_path, regions, r, (k - 1) as nat, x);
        lemma_contains_before(
            regions_errors(page_path, regions, (k - 1) as nat),
            region_errors(indexed(page_path + ".regions"@, (k - 1) as nat), regions[k - 1]),
            x,
        );
    }
}

proof fn lemma_pages_errors_keep(pages: Seq<PageLayout>, p: nat, k: nat, x: ErrorText)
    requires
        p < k <= pages.len(),
        page_errors(p, pages[p as int]).contains(x),
    ensures
        pages_errors(pages, k).contains(x),
    decreases k,
{
    if k == p + 1 {
        lemma_contains_after(pages_errors(pages, p), page_errors(p, pages[p as int]), x);
    } else {
        lemma_pages_errors_keep(pages, p, (k - 1) as nat, x);
        lemma_contains_before(pages_errors(pages, (k - 1) as nat), page_errors((k - 1) as nat, pages[k - 1]), x);
    }
}

/// A line whose range starts before the end of the previous in-range line of
/// its paragraph is reported as overlapping, at its own `range_utf8` path, so
/// `validate` fails. Line `j` is the previous in-range line of line `i`: it
/// is ordered and within the text, and every line between them is not.
pub proof fn lemma_overlapping_lines_are_reported(
    d: DocumentLayout,
    page: nat,
    region: nat,
    p: ParagraphRegion,
    j: nat,
    i: nat,
)
    requires
        page < d.pages@.len(),
        region < d.pages@[page as int].regions@.len(),
        d.pages@[page as int].regions@[region as int] == Region::Paragraph(p),
        j < i < p.lines@.len(),
        line_in_range(p.lines@[j as int], utf8_len(p.text@)),
        line_in_range(p.lines@[i as int], utf8_len(p.text@)),
        forall|q: int| j < q < i ==> !line_in_range(#[trigger] p.lines@[q], utf8_len(p.text@)),
        p.lines@[i as int].range_utf8[0] < p.lines@[j as int].range_utf8[1],
    ensures
        document_errors(d).contains(
            (
                indexed(indexed(indexed("pages"@, page) + ".regions"@, region) + ".lines"@, i)
                    + ".range_utf8"@,
                "must not overlap the previous line range"@,
            ),
        ),
{
    let page_path = indexed("pages"@, page);
    let path = indexed(page_path + ".regions"@, region);
    let x = (indexed(path + ".lines"@, i) + ".range_utf8"@, "must not overlap the previous line range"@);
    let text = p.text@;
    let lines = p.lines@;
    lemma_running_end(path, text, lines, j, i);
    let (e, previous) = lines_scan(path, text, lines, i);
    let step = line_step(path, text, i, lines[i as int], previous);
    let boundary = if !on_char_boundary(text, lines[i as int].range_utf8[0] as nat) || !on_char_boundary(
        text,
        lines[i as int].range_utf8[1] as nat,
    ) {
        seq![(indexed(path + ".lines"@, i) + ".range_utf8"@, "must fall on UTF-8 code point boundaries"@)]
    } else {
        seq![]
    };
    assert(step.0 == boundary + seq![x] + rect_errors(indexed(path + ".lines"@, i) + ".bbox_pt"@, lines[i as int].bbox_pt));
    assert((boundary + seq![x])[boundary.len() as int] == x);
    lemma_contains_before(boundary + seq![x], rect_errors(indexed(path + ".lines"@, i) + ".bbox_pt"@, lines[i as int].bbox_pt), x);
    lemma_contains_after(e, step.0, x);
    lemma_lines_scan_keeps(path, text, lines, i + 1, lines.len(), x);
    let head = source_errors(path, p.source) + segment_errors(path, p) + rect_errors(
        path + ".frame_bbox_pt"@,
        p.frame_bbox_pt,
    ) + optional_rect_errors(path + ".content_bbox_pt"@, p.content_bbox_pt) + overflow_errors(path, p.overflow);
    lemma_contains_after(head, lines_scan(path, text, lines, lines.len()).0, x);
    let pg = d.pages@[page as int];
    lemma_regions_errors_keep(page_path, pg.regions@, region, pg.regions@.len(), x);
    lemma_contains_after(page_header_errors(page, pg), regions_errors(page_path, pg.regions@, pg.regions@.len()), x);
    lemma_pages_errors_keep(d.pages@, page, d.pages@.len(), x);
    let front = compatibility_errors(d.format@, d.version@) + nonempty_errors("generator.name"@, d.generator.name@)
        + nonempty_errors("generator.version"@, d.generator.version@) + optional_environment_errors(
        d.layout_environment,
    ) + nonempty_errors("source.path"@, d.source.path@);
    lemma_contains_after(front, pages_errors(d.pages@, d.pages@.len()), x);
    lemma_contains_before(front + pages_errors(d.pages@, d.pages@.len()), sequence_errors(d.pages@), x);
}


/// An error of a paragraph region is an error of the document.
proof fn lemma_paragraph_error_reaches_document(d: DocumentLayout, page: nat, region: nat, p: ParagraphRegion, x: ErrorText)
    requires
        page < d.pages@.len(),
        region < d.pages@[page as int].regions@.len(),
        d.pages@[page as int].regions@[region as int] == Region::Paragraph(p),
        paragraph_errors(indexed(indexed("pages"@, page) + ".regions"@, region), p).contains(x),
    ensures
        document_errors(d).contains(x),
{
    let page_path = indexed("pages"@, page);
    let pg = d.pages@[page as int];
    lemma_regions_errors_keep(page_path, pg.regions@, region, pg.regions@.len(), x);
    lemma_contains_after(page_header_errors(page, pg), regions_errors(page_path, pg.regions@, pg.regions@.len()), x);
    lemma_pages_errors_keep(d.pages@, page, d.pages@.len(), x);
    let front = compatibility_errors(d.format@, d.version@) + nonempty_errors("generator.name"@, d.generator.name@)
        + nonempty_errors("generator.version"@, d.generator.version@) + optional_environment_errors(
        d.layout_environment,
    ) + nonempty_errors("source.path"@, d.source.path@);
    lemma_contains_after(front, pages_errors(d.pages@, d.pages@.len()), x);
    lemma_contains_before(front + pages_errors(d.pages@, d.pages@.len()), sequence_errors(d.pages@), x);
}

/// A line whose range is not ordered or reaches past the end of its
/// paragraph's UTF-8 text is reported at its `range_utf8` path, with the text
/// length and the range, so `validate` fails.
pub proof fn lemma_out_of_range_lines_are_reported(d: DocumentLayout, page: nat, region: nat, p: ParagraphRegion, i: nat)
    requires
        page < d.pages@.len(),
        region < d.pages@[page as int].regions@.len(),
        d.pages@[page as int].regions@[region as int] == Region::Paragraph(p),
        i < p.lines@.len(),
        !line_in_range(p.lines@[i as int], utf8_len(p.text@)),
    ensures
        document_errors(d).contains(
            (
                indexed(indexed(indexed("pages"@, page) + ".regions"@, region) + ".lines"@, i) + ".range_utf8"@,
                "must be an ordered range within text length "@ + decimal(utf8_len(p.text@)) + ", got ["@
                    + decimal(p.lines@[i as int].range_utf8[0] as nat) + ", "@ + decimal(
                    p.lines@[i as int].range_utf8[1] as nat,
                ) + "]"@,
            ),
        ),
{
    let path = indexed(indexed("pages"@, page) + ".regions"@, region);
    let line = p.lines@[i as int];
    let x = (
        indexed(path + ".lines"@, i) + ".range_utf8"@,
        "must be an ordered range within text length "@ + decimal(utf8_len(p.text@)) + ", got ["@
            + decimal(line.range_utf8[0] as nat) + ", "@ + decimal(line.range_utf8[1] as nat) + "]"@,
    );
    let text = p.text@;
    let lines = p.lines@;
    let (e, previous) = lines_scan(path, text, lines, i);
    let step = line_step(path, text, i, line, previous);
    assert(step.0 == seq![x] + rect_errors(indexed(path + ".lines"@, i) + ".bbox_pt"@, line.bbox_pt));
    assert(seq![x][0] == x);
    lemma_contains_before(seq![x], rect_errors(indexed(path + ".lines"@, i) + ".bbox_pt"@, line.bbox_pt), x);
    lemma_contains_after(e, step.0, x);
    lemma_lines_scan_keeps(path, text, lines, i + 1, lines.len(), x);
    let head = source_errors(path, p.source) + segment_errors(path, p) + rect_errors(
        path + ".frame_bbox_pt"@,
        p.frame_bbox_pt,
    ) + optional_rect_errors(path + ".content_bbox_pt"@, p.content_bbox_pt) + overflow_errors(path, p.overflow);
    lemma_contains_after(head, lines_scan(path, text, lines, lines.len()).0, x);
    lemma_paragraph_error_reaches_document(d, page, region, p, x);
}

} // verus!
