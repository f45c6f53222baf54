//! Canonical order of records that have no semantic order: sorted bytewise
//! by their identity fields, exact duplicates removed.

use vstd::prelude::*;

use crate::model::{FontInfo, FontSubstitution, LayoutEnvironment};
use crate::text::chars_of;

verus! {

/// One field of a record's identity, as it is ordered.
pub enum Field {
    /// An absent optional field, before any present value.
    Missing,
    Text(Seq<char>),
    Number(nat),
}

/// Text ordered by code point, which is the order of its UTF-8 bytes; a
/// proper prefix comes first.
pub open spec fn text_less(a: Seq<char>, b: Seq<char>) -> bool
    decreases a.len(),
{
    if a.len() == 0 {
        b.len() > 0
    } else if b.len() == 0 {
        false
    } else if a[0] != b[0] {
        (a[0] as int) < (b[0] as int)
    } else {
        text_less(a.drop_first(), b.drop_first())
    }
}

pub open spec fn field_less(x: Field, y: Field) -> bool {
    match (x, y) {
        (Field::Missing, Field::Missing) => false,
        (Field::Missing, _) => true,
        (_, Field::Missing) => false,
        (Field::Text(a), Field::Text(b)) => text_less(a, b),
        (Field::Text(_), Field::Number(_)) => true,
        (Field::Number(_), Field::Text(_)) => false,
        (Field::Number(m), Field::Number(n)) => m < n,
    }
}

/// Keys ordered field by field; a proper prefix comes first.
pub open spec fn key_less(a: Seq<Field>, b: Seq<Field>) -> bool
    decreases a.len(),
{
    if a.len() == 0 {
        b.len() > 0
    } else if b.len() == 0 {
        false
    } else if a[0] != b[0] {
        field_less(a[0], b[0])
    } else {
        key_less(a.drop_first(), b.drop_first())
    }
}

proof fn lemma_text_irreflexive(a: Seq<char>)
    ensures
        !text_less(a, a),
    decreases a.len(),
{
    if a.len() > 0 {
        lemma_text_irreflexive(a.drop_first());
    }
}

proof fn lemma_text_transitive(a: Seq<char>, b: Seq<char>, c: Seq<char>)
    requires
        text_less(a, b),
        text_less(b, c),
    ensures
        text_less(a, c),
    decreases a.len(),
{
    if a.len() > 0 && b.len() > 0 && c.len() > 0 && a[0] == b[0] && b[0] == c[0] {
        lemma_text_transitive(a.drop_first(), b.drop_first(), c.drop_first());
    }
}

proof fn lemma_text_total(a: Seq<char>, b: Seq<char>)
    requires
        a != b,
    ensures
        text_less(a, b) || text_less(b, a),
    decreases a.len(),
{
    if a.len() == 0 && b.len() == 0 {
        assert(a =~= b);
    } else if a.len() > 0 && b.len() > 0 && a[0] == b[0] {
        if a.drop_first() == b.drop_first() {
            assert(a =~= seq![a[0]] + a.drop_first());
            assert(b =~= seq![b[0]] + b.drop_first());
        }
        lemma_text_total(a.drop_first(), b.drop_first());
    }
}

proof fn lemma_field_irreflexive(x: Field)
    ensures
        !field_less(x, x),
{
    if let Field::Text(a) = x {
        lemma_text_irreflexive(a);
    }
}

proof fn lemma_field_transitive(x: Field, y: Field, z: Field)
    requires
        field_less(x, y),
        field_less(y, z),
    ensures
        field_less(x, z),
{
    if let (Field::Text(a), Field::Text(b), Field::Text(c)) = (x, y, z) {
        lemma_text_transitive(a, b, c);
    }
}

proof fn lemma_field_total(x: Field, y: Field)
    requires
        x != y,
    ensures
        field_less(x, y) || field_less(y, x),
{
    if let (Field::Text(a), Field::Text(b)) = (x, y) {
        lemma_text_total(a, b);
    }
}

proof fn lemma_key_irreflexive(a: Seq<Field>)
    ensures
        !key_less(a, a),
    decreases a.len(),
{
    if a.len() > 0 {
        lemma_key_irreflexive(a.drop_first());
    }
}

proof fn lemma_key_transitive(a: Seq<Field>, b: Seq<Field>, c: Seq<Field>)
    requires
        key_less(a, b),
        key_less(b, c),
    ensures
        key_less(a, c),
    decreases a.len(),
{
    if a.len() > 0 && b.len() > 0 && c.len() > 0 {
        if a[0] == b[0] && b[0] == c[0] {
            lemma_key_transitive(a.drop_first(), b.drop_first(), c.drop_first());
        } else if a[0] != b[0] && b[0] != c[0] {
            if a[0] == c[0] {
                lemma_field_transitive(a[0], b[0], a[0]);
                lemma_field_irreflexive(a[0]);
            } else {
                lemma_field_transitive(a[0], b[0], c[0]);
            }
        }
    }
}

proof fn lemma_key_total(a: Seq<Field>, b: Seq<Field>)
    requires
        a != b,
    ensures
        key_less(a, b) || key_less(b, a),
    decreases a.len(),
{
    if a.len() == 0 && b.len() == 0 {
        assert(a =~= b);
    } else if a.len() > 0 && b.len() > 0 {
        if a[0] == b[0] {
            if a.drop_first() == b.drop_first() {
                assert(a =~= seq![a[0]] + a.drop_first());
                assert(b =~= seq![b[0]] + b.drop_first());
            }
            lemma_key_total(a.drop_first(), b.drop_first());
        } else {
            lemma_field_total(a[0], b[0]);
        }
    }
}

/// The order of keys is a strict total order.
pub proof fn lemma_key_order()
    ensures
        forall|a: Seq<Field>| !#[trigger] key_less(a, a),
        forall|a: Seq<Field>, b: Seq<Field>, c: Seq<Field>|
            #[trigger] key_less(a, b) && #[trigger] key_less(b, c) ==> key_less(a, c),
        forall|a: Seq<Field>, b: Seq<Field>| a != b ==> #[trigger] key_less(a, b) || #[trigger] key_less(b, a),
{
    assert forall|a: Seq<Field>| !#[trigger] key_less(a, a) by {
        lemma_key_irreflexive(a);
    }
    assert forall|a: Seq<Field>, b: Seq<Field>, c: Seq<Field>|
        #[trigger] key_less(a, b) && #[trigger] key_less(b, c) implies key_less(a, c) by {
        lemma_key_transitive(a, b, c);
    }
    assert forall|a: Seq<Field>, b: Seq<Field>| a != b implies #[trigger] key_less(a, b) || #[trigger] key_less(
        b,
        a,
    ) by {
        lemma_key_total(a, b);
    }
}

/// Each key comes before every later one.
pub open spec fn strictly_sorted(keys: Seq<Seq<Field>>) -> bool {
    forall|i: int, j: int| 0 <= i < j < keys.len() ==> key_less(#[trigger] keys[i], #[trigger] keys[j])
}

/// The same keys occur in both, however often.
pub open spec fn same_keys(a: Seq<Seq<Field>>, b: Seq<Seq<Field>>) -> bool {
    &&& forall|i: int| 0 <= i < a.len() ==> b.contains(#[trigger] a[i])
    &&& forall|i: int| 0 <= i < b.len() ==> a.contains(#[trigger] b[i])
}

/// Two strictly sorted key lists with the same keys are the same list: the
/// canonical order of records depends on neither their input order nor
/// their duplicates.
pub proof fn lemma_canonical_order_is_unique(a: Seq<Seq<Field>>, b: Seq<Seq<Field>>)
    requires
        strictly_sorted(a),
        strictly_sorted(b),
        same_keys(a, b),
    ensures
        a == b,
    decreases a.len() + b.len(),
{
    lemma_key_order();
    if a.len() == 0 || b.len() == 0 {
        if a.len() > 0 {
            assert(b.contains(a[0]));
        }
        if b.len() > 0 {
            assert(a.contains(b[0]));
        }
        assert(a =~= b);
    } else {
        // The first keys are the least of the same set, so they agree.
        assert(b.contains(a[0]));
        let j = choose|j: int| 0 <= j < b.len() && b[j] == a[0];
        assert(a.contains(b[0]));
        let i = choose|i: int| 0 <= i < a.len() && a[i] == b[0];
        if i > 0 {
            assert(key_less(a[0], a[i]));
        }
        if j > 0 {
            assert(key_less(b[0], b[j]));
        }
        if i > 0 && j > 0 {
            assert(key_less(a[0], b[0]) && key_less(b[0], a[0]));
            assert(key_less(a[0], a[0]));
        }
        assert(a[0] == b[0]);
        let ra = a.drop_first();
        let rb = b.drop_first();
        assert forall|k: int| 0 <= k < ra.len() implies rb.contains(#[trigger] ra[k]) by {
            assert(a[k + 1] == ra[k]);
            assert(key_less(a[0], a[k + 1]));
            assert(b.contains(a[k + 1]));
            let m = choose|m: int| 0 <= m < b.len() && b[m] == a[k + 1];
            if m == 0 {
                assert(key_less(a[0], a[0]));
            }
            assert(rb[m - 1] == b[m]);
        }
        assert forall|k: int| 0 <= k < rb.len() implies ra.contains(#[trigger] rb[k]) by {
            assert(b[k + 1] == rb[k]);
            assert(key_less(b[0], b[k + 1]));
            assert(a.contains(b[k + 1]));
            let m = choose|m: int| 0 <= m < a.len() && a[m] == b[k + 1];
            if m == 0 {
                assert(key_less(b[0], b[0]));
            }
            assert(ra[m - 1] == a[m]);
        }
        assert forall|x: int, y: int| 0 <= x < y < ra.len() implies key_less(
            #[trigger] ra[x],
            #[trigger] ra[y],
        ) by {
            assert(ra[x] == a[x + 1] && ra[y] == a[y + 1]);
        }
        assert forall|x: int, y: int| 0 <= x < y < rb.len() implies key_less(
            #[trigger] rb[x],
            #[trigger] rb[y],
        ) by {
            assert(rb[x] == b[x + 1] && rb[y] == b[y + 1]);
        }
        lemma_canonical_order_is_unique(ra, rb);
        assert(a =~= seq![a[0]] + ra);
        assert(b =~= seq![b[0]] + rb);
    }
}

/// Where two records stand in the canonical order.
#[derive(Clone, Copy, Debug, PartialEq, Eq, Structural)]
pub enum Rank {
    Before,
    Same,
    After,
}

/// `r` tells how key `a` stands to key `b`.
pub open spec fn ranks(r: Rank, a: Seq<Field>, b: Seq<Field>) -> bool {
    match r {
        Rank::Before => key_less(a, b),
        Rank::Same => a == b,
        Rank::After => key_less(b, a),
    }
}

/// A record ordered by the fields of its identity.
pub trait CanonicalRecord: Sized {
    spec fn key(&self) -> Seq<Field>;

    fn rank(&self, other: &Self) -> (r: Rank)
        ensures
            ranks(r, self.key(), other.key()),
    ;

    fn copy(&self) -> (r: Self)
        ensures
            r.key() == self.key(),
    ;
}

pub open spec fn keys<R: CanonicalRecord>(s: Seq<R>) -> Seq<Seq<Field>> {
    Seq::new(s.len(), |i: int| s[i].key())
}

/// The first place in a sorted list whose record does not come before `x`,
/// and whether that record has the same key.
fn find_place<R: CanonicalRecord>(out: &Vec<R>, x: &R) -> (r: (usize, bool))
    ensures
        r.0 <= out@.len(),
        forall|i: int| 0 <= i < r.0 ==> key_less(#[trigger] keys(out@)[i], x.key()),
        r.1 ==> r.0 < out@.len() && keys(out@)[r.0 as int] == x.key(),
        !r.1 && r.0 < out@.len() ==> key_less(x.key(), keys(out@)[r.0 as int]),
{
    let mut j: usize = 0;
    while j < out.len()
        invariant
            j <= out.len(),
            forall|i: int| 0 <= i < j ==> key_less(#[trigger] keys(out@)[i], x.key()),
        decreases out.len() - j,
    {
        match out[j].rank(x) {
            Rank::Before => {
                j += 1;
            },
            Rank::Same => {
                return (j, true);
            },
            Rank::After => {
                return (j, false);
            },
        }
    }
    (j, false)
}

/// The records sorted by their identity fields with exact duplicates removed.
pub fn canonical_order<R: CanonicalRecord>(records: &Vec<R>) -> (r: Vec<R>)
    ensures
        strictly_sorted(keys(r@)),
        same_keys(keys(r@), keys(records@)),
{
    proof {
        lemma_key_order();
    }
    let mut out: Vec<R> = Vec::new();
    let mut k: usize = 0;
    while k < records.len()
        invariant
            k <= records.len(),
            strictly_sorted(keys(out@)),
            same_keys(keys(out@), keys(records@.take(k as int))),
        decreases records.len() - k,
    {
        let ghost before = keys(out@);
        let ghost seen = keys(records@.take(k as int));
        let ghost x = records@[k as int].key();
        proof {
            lemma_key_order();
        }
        assert(keys(records@.take(k + 1)) =~= seen.push(x));
        let (j, same) = find_place(&out, &records[k]);
        if same {
            assert(before[j as int] == x);
            assert(keys(records@.take(k + 1)) =~= seen.push(x));
            assert forall|i: int| 0 <= i < seen.push(x).len() implies before.contains(
                #[trigger] seen.push(x)[i],
            ) by {
                if i == seen.len() {
                    assert(before[j as int] == seen.push(x)[i]);
                }
            }
            assert forall|i: int| 0 <= i < before.len() implies seen.push(x).contains(#[trigger] before[i]) by {
                assert(seen.contains(before[i]));
                let m = choose|m: int| 0 <= m < seen.len() && seen[m] == before[i];
                assert(seen.push(x)[m] == before[i]);
            }
        } else {
            let item = records[k].copy();
            out.insert(j, item);
            let ghost after = keys(out@);
            assert(after =~= before.insert(j as int, x));
            assert forall|a: int, b: int| 0 <= a < b < after.len() implies key_less(
                #[trigger] after[a],
                #[trigger] after[b],
            ) by {
                if b < j {
                    assert(after[a] == before[a] && after[b] == before[b]);
                } else if b == j {
                    assert(after[a] == before[a]);
                } else if a < j {
                    assert(after[a] == before[a] && after[b] == before[b - 1]);
                    assert(key_less(before[a], x));
                    assert(j < before.len());
                    assert(key_less(x, before[j as int]));
                    if j < b - 1 {
                        assert(key_less(before[j as int], before[b - 1]));
                    }
                } else if a == j {
                    assert(after[b] == before[b - 1]);
                    assert(key_less(x, before[j as int]));
                    if j < b - 1 {
                        assert(key_less(before[j as int], before[b - 1]));
                    }
                } else {
                    assert(after[a] == before[a - 1] && after[b] == before[b - 1]);
                }
            }
            assert forall|i: int| 0 <= i < after.len() implies seen.push(x).contains(#[trigger] after[i]) by {
                if i < j {
                    assert(after[i] == before[i]);
                    assert(seen.contains(before[i]));
                    let m = choose|m: int| 0 <= m < seen.len() && seen[m] == before[i];
                    assert(seen.push(x)[m] == after[i]);
                } else if i == j {
                    assert(seen.push(x)[seen.len() as int] == x);
                } else {
                    assert(after[i] == before[i - 1]);
                    assert(seen.contains(before[i - 1]));
                    let m = choose|m: int| 0 <= m < seen.len() && seen[m] == before[i - 1];
                    assert(seen.push(x)[m] == after[i]);
                }
            }
            assert forall|i: int| 0 <= i < seen.push(x).len() implies after.contains(#[trigger] seen.push(x)[i]) by {
                if i == seen.len() {
                    assert(after[j as int] == x);
                } else {
                    assert(seen.push(x)[i] == seen[i]);
                    assert(before.contains(seen[i]));
                    let m = choose|m: int| 0 <= m < before.len() && before[m] == seen[i];
                    if m < j {
                        assert(after[m] == before[m]);
                    } else {
                        assert(after[m + 1] == before[m]);
                    }
                }
            }
        }
        k += 1;
    }
    assert(records@.take(records@.len() as int) =~= records@);
    out
}

/// `x` in front of `rest`.
pub open spec fn cons(x: Field, rest: Seq<Field>) -> Seq<Field> {
    seq![x] + rest
}

pub open spec fn optional_text_field(s: Option<String>) -> Field {
    match s {
        Some(s) => Field::Text(s@),
        None => Field::Missing,
    }
}

pub open spec fn optional_number_field(n: Option<u32>) -> Field {
    match n {
        Some(n) => Field::Number(n as nat),
        None => Field::Missing,
    }
}

/// `r` tells how field `x` stands to field `y`.
pub open spec fn field_ranks(r: Rank, x: Field, y: Field) -> bool {
    match r {
        Rank::Before => field_less(x, y),
        Rank::Same => x == y,
        Rank::After => field_less(y, x),
    }
}

proof fn lemma_cons(x: Field, xs: Seq<Field>, y: Field, ys: Seq<Field>)
    ensures
        key_less(cons(x, xs), cons(y, ys)) == if x != y {
            field_less(x, y)
        } else {
            key_less(xs, ys)
        },
        (cons(x, xs) == cons(y, ys)) == (x == y && xs == ys),
{
    assert(cons(x, xs)[0] == x && cons(y, ys)[0] == y);
    assert(cons(x, xs).drop_first() =~= xs);
    assert(cons(y, ys).drop_first() =~= ys);
    if cons(x, xs) == cons(y, ys) {
        assert(cons(x, xs).drop_first() == cons(y, ys).drop_first());
    }
}

/// The rank of `cons(x, xs)` against `cons(y, ys)` from the ranks of the parts.
fn then_rank(first: Rank, rest: Rank, Ghost(x): Ghost<Field>, Ghost(xs): Ghost<Seq<Field>>, Ghost(y): Ghost<Field>, Ghost(ys): Ghost<Seq<Field>>) -> (r: Rank)
    requires
        field_ranks(first, x, y),
        ranks(rest, xs, ys),
    ensures
        ranks(r, cons(x, xs), cons(y, ys)),
{
    proof {
        lemma_cons(x, xs, y, ys);
        lemma_key_order();
        if first == Rank::Before || first == Rank::After {
            lemma_field_irreflexive(x);
        }
    }
    match first {
        Rank::Same => rest,
        _ => first,
    }
}

fn rank_text(a: &str, b: &str) -> (r: Rank)
    ensures
        field_ranks(r, Field::Text(a@), Field::Text(b@)),
{
    let x = chars_of(a);
    let y = chars_of(b);
    let mut i: usize = 0;
    assert(x@.skip(0) =~= x@ && y@.skip(0) =~= y@);
    while i < x.len() && i < y.len()
        invariant
            x@ == a@,
            y@ == b@,
            i <= x.len(),
            i <= y.len(),
            x@.take(i as int) == y@.take(i as int),
            text_less(a@, b@) == text_less(x@.skip(i as int), y@.skip(i as int)),
            text_less(b@, a@) == text_less(y@.skip(i as int), x@.skip(i as int)),
        decreases x.len() - i,
    {
        let c = x[i];
        let d = y[i];
        if c != d {
            assert(x@.skip(i as int)[0] == c && y@.skip(i as int)[0] == d);
            if c < d {
                return Rank::Before;
            } else {
                return Rank::After;
            }
        }
        assert(x@.skip(i as int).drop_first() =~= x@.skip(i + 1));
        assert(y@.skip(i as int).drop_first() =~= y@.skip(i + 1));
        assert(x@.take(i + 1) =~= x@.take(i as int).push(c));
        assert(y@.take(i + 1) =~= y@.take(i as int).push(d));
        i += 1;
    }
    if i == x.len() && i == y.len() {
        assert(x@ =~= x@.take(i as int) && y@ =~= y@.take(i as int));
        Rank::Same
    } else if i == x.len() {
        Rank::Before
    } else {
        Rank::After
    }
}

fn rank_optional_text(a: &Option<String>, b: &Option<String>) -> (r: Rank)
    ensures
        field_ranks(r, optional_text_field(*a), optional_text_field(*b)),
{
    match (a, b) {
        (None, None) => Rank::Same,
        (None, Some(_)) => Rank::Before,
        (Some(_), None) => Rank::After,
        (Some(x), Some(y)) => rank_text(x.as_str(), y.as_str()),
    }
}

fn rank_optional_number(a: Option<u32>, b: Option<u32>) -> (r: Rank)
    ensures
        field_ranks(r, optional_number_field(a), optional_number_field(b)),
{
    match (a, b) {
        (None, None) => Rank::Same,
        (None, Some(_)) => Rank::Before,
        (Some(_), None) => Rank::After,
        (Some(x), Some(y)) => if x < y {
            Rank::Before
        } else if x == y {
            Rank::Same
        } else {
            Rank::After
        },
    }
}

fn copy_optional_text(s: &Option<String>) -> (r: Option<String>)
    ensures
        optional_text_field(r) == optional_text_field(*s),
{
    match s {
        Some(v) => Some(v.clone()),
        None => None,
    }
}

impl CanonicalRecord for FontInfo {
    /// Family, PostScript name, version, file hash, face index.
    open spec fn key(&self) -> Seq<Field> {
        cons(
            Field::Text(self.family@),
            cons(
                optional_text_field(self.postscript_name),
                cons(
                    optional_text_field(self.version),
                    cons(
                        optional_text_field(self.file_sha256),
                        cons(optional_number_field(self.face_index), Seq::empty()),
                    ),
                ),
            ),
        )
    }

    fn rank(&self, other: &Self) -> (r: Rank) {
        let last = then_rank(
            rank_optional_number(self.face_index, other.face_index),
            Rank::Same,
            Ghost(optional_number_field(self.face_index)),
            Ghost(Seq::empty()),
            Ghost(optional_number_field(other.face_index)),
            Ghost(Seq::empty()),
        );
        let hash = then_rank(
            rank_optional_text(&self.file_sha256, &other.file_sha256),
            last,
            Ghost(optional_text_field(self.file_sha256)),
            Ghost(cons(optional_number_field(self.face_index), Seq::empty())),
            Ghost(optional_text_field(other.file_sha256)),
            Ghost(cons(optional_number_field(other.face_index), Seq::empty())),
        );
        let version = then_rank(
            rank_optional_text(&self.version, &other.version),
            hash,
            Ghost(optional_text_field(self.version)),
            Ghost(cons(optional_text_field(self.file_sha256), cons(optional_number_field(self.face_index), Seq::empty()))),
            Ghost(optional_text_field(other.version)),
            Ghost(cons(optional_text_field(other.file_sha256), cons(optional_number_field(other.face_index), Seq::empty()))),
        );
        let postscript = then_rank(
            rank_optional_text(&self.postscript_name, &other.postscript_name),
            version,
            Ghost(optional_text_field(self.postscript_name)),
            Ghost(cons(optional_text_field(self.version), cons(optional_text_field(self.file_sha256), cons(optional_number_field(self.face_index), Seq::empty())))),
            Ghost(optional_text_field(other.postscript_name)),
            Ghost(cons(optional_text_field(other.version), cons(optional_text_field(other.file_sha256), cons(optional_number_field(other.face_index), Seq::empty())))),
        );
        then_rank(
            rank_text(self.family.as_str(), other.family.as_str()),
            postscript,
            Ghost(Field::Text(self.family@)),
            Ghost(cons(optional_text_field(self.postscript_name), cons(optional_text_field(self.version), cons(optional_text_field(self.file_sha256), cons(optional_number_field(self.face_index), Seq::empty()))))),
            Ghost(Field::Text(other.family@)),
            Ghost(cons(optional_text_field(other.postscript_name), cons(optional_text_field(other.version), cons(optional_text_field(other.file_sha256), cons(optional_number_field(other.face_index), Seq::empty()))))),
        )
    }

    fn copy(&self) -> (r: Self) {
        FontInfo {
            family: self.family.clone(),
            postscript_name: copy_optional_text(&self.postscript_name),
            version: copy_optional_text(&self.version),
            file_sha256: copy_optional_text(&self.file_sha256),
            face_index: self.face_index,
        }
    }
}

impl CanonicalRecord for FontSubstitution {
    /// Requested family, resolved family, resolved PostScript name.
    open spec fn key(&self) -> Seq<Field> {
        cons(
            Field::Text(self.requested_family@),
            cons(
                Field::Text(self.resolved_family@),
                cons(optional_text_field(self.resolved_postscript_name), Seq::empty()),
            ),
        )
    }

    fn rank(&self, other: &Self) -> (r: Rank) {
        let last = then_rank(
            rank_optional_text(&self.resolved_postscript_name, &other.resolved_postscript_name),
            Rank::Same,
            Ghost(optional_text_field(self.resolved_postscript_name)),
            Ghost(Seq::empty()),
            Ghost(optional_text_field(other.resolved_postscript_name)),
            Ghost(Seq::empty()),
        );
        let resolved = then_rank(
            rank_text(self.resolved_family.as_str(), other.resolved_family.as_str()),
            last,
            Ghost(Field::Text(self.resolved_family@)),
            Ghost(cons(optional_text_field(self.resolved_postscript_name), Seq::empty())),
            Ghost(Field::Text(other.resolved_family@)),
            Ghost(cons(optional_text_field(other.resolved_postscript_name), Seq::empty())),
        );
        then_rank(
            rank_text(self.requested_family.as_str(), other.requested_family.as_str()),
            resolved,
            Ghost(Field::Text(self.requested_family@)),
            Ghost(cons(Field::Text(self.resolved_family@), cons(optional_text_field(self.resolved_postscript_name), Seq::empty()))),
            Ghost(Field::Text(other.requested_family@)),
            Ghost(cons(Field::Text(other.resolved_family@), cons(optional_text_field(other.resolved_postscript_name), Seq::empty()))),
        )
    }

    fn copy(&self) -> (r: Self) {
        FontSubstitution {
            requested_family: self.requested_family.clone(),
            resolved_family: self.resolved_family.clone(),
            resolved_postscript_name: copy_optional_text(&self.resolved_postscript_name),
        }
    }
}

/// Puts the font and font-substitution records of an environment in their
/// canonical order: sorted by their identity fields, exact duplicates removed.
pub fn canonicalize_environment(environment: &mut LayoutEnvironment)
    ensures
        final(environment).engine == old(environment).engine,
        final(environment).platform == old(environment).platform,
        strictly_sorted(keys(final(environment).fonts@)),
        same_keys(keys(final(environment).fonts@), keys(old(environment).fonts@)),
        strictly_sorted(keys(final(environment).font_substitutions@)),
        same_keys(
            keys(final(environment).font_substitutions@),
            keys(old(environment).font_substitutions@),
        ),
{
    let fonts = canonical_order(&environment.fonts);
    environment.fonts = fonts;
    let substitutions = canonical_order(&environment.font_substitutions);
    environment.font_substitutions = substitutions;
}

} // verus!
verus! {

/// A layout environment whose font records are in canonical order, with
/// everything else as in `before`.
pub open spec fn canonical_environment_of(after: LayoutEnvironment, before: LayoutEnvironment) -> bool {
    &&& after.engine == before.engine
    &&& after.platform == before.platform
    &&& strictly_sorted(keys(after.fonts@))
    &&& same_keys(keys(after.fonts@), keys(before.fonts@))
    &&& strictly_sorted(keys(after.font_substitutions@))
    &&& same_keys(keys(after.font_substitutions@), keys(before.font_substitutions@))
}

fn canonicalize_optional_environment(environment: &mut Option<LayoutEnvironment>)
    ensures
        match (*old(environment), *final(environment)) {
            (Some(before), Some(after)) => canonical_environment_of(after, before),
            (None, None) => true,
            _ => false,
        },
{
    match environment.take() {
        Some(mut e) => {
            canonicalize_environment(&mut e);
            *environment = Some(e);
        },
        None => {},
    }
}

/// Puts the font records of a format-1 document's layout environment in
/// canonical order; nothing else changes.
pub fn canonicalize_metadata(document: &mut crate::model::DocumentLayout)
    ensures
        final(document).format == old(document).format,
        final(document).version == old(document).version,
        final(document).generator == old(document).generator,
        final(document).source == old(document).source,
        final(document).coverage == old(document).coverage,
        final(document).pages == old(document).pages,
        final(document).diagnostics == old(document).diagnostics,
        match (old(document).layout_environment, final(document).layout_environment) {
            (Some(before), Some(after)) => canonical_environment_of(after, before),
            (None, None) => true,
            _ => false,
        },
{
    canonicalize_optional_environment(&mut document.layout_environment);
}

/// Puts the font records of a format-2 document's layout environment in
/// canonical order; nothing else changes.
pub fn canonicalize_metadata_v2(document: &mut crate::v2::model::DocumentLayout)
    ensures
        final(document).format == old(document).format,
        final(document).version == old(document).version,
        final(document).generator == old(document).generator,
        final(document).source == old(document).source,
        final(document).coverage == old(document).coverage,
        final(document).sections == old(document).sections,
        final(document).pages == old(document).pages,
        final(document).diagnostics == old(document).diagnostics,
        match (old(document).layout_environment, final(document).layout_environment) {
            (Some(before), Some(after)) => canonical_environment_of(after, before),
            (None, None) => true,
            _ => false,
        },
{
    canonicalize_optional_environment(&mut document.layout_environment);
}

} // verus!
verus! {

/// Canonicalizing font records that are already canonical keeps their order:
/// the canonical form is a fixed point.
pub proof fn lemma_canonical_environment_is_stable(after: LayoutEnvironment, before: LayoutEnvironment)
    requires
        canonical_environment_of(after, before),
        strictly_sorted(keys(before.fonts@)),
        strictly_sorted(keys(before.font_substitutions@)),
    ensures
        keys(after.fonts@) == keys(before.fonts@),
        keys(after.font_substitutions@) == keys(before.font_substitutions@),
{
    lemma_canonical_order_is_unique(keys(after.fonts@), keys(before.fonts@));
    lemma_canonical_order_is_unique(keys(after.font_substitutions@), keys(before.font_substitutions@));
}

} // verus!
