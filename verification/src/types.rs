//! Record type definitions and the type registry.
//!
//! A record type is a named, ordered list of typed fields. Record types may
//! refer to other record types (nested records and arrays of records); the
//! references form a DAG. The registry stores types in registration order and
//! only accepts a type whose record references point at types registered
//! before it, so every registered type is acyclic by construction.

use vstd::prelude::*;

verus! {

/// Primitive (leaf) semantic types a record field may carry.
///
/// The 128-bit and pointer-sized integers are supported but narrow lossily to
/// 64 bits in the columnar mapping.
#[derive(Clone, Copy, PartialEq, Eq, Structural, Debug)]
pub enum PrimType {
    Bool,
    Str,
    Unit,
    I8,
    I16,
    I32,
    I64,
    I128,
    ISize,
    U8,
    U16,
    U32,
    U64,
    U128,
    USize,
    F32,
    F64,
}

/// Semantic type of a record field.
///
/// `Record` and `RecordArray` refer to another record type by its index in
/// the registry.
#[derive(Clone, Copy, PartialEq, Eq, Structural, Debug)]
pub enum FieldType {
    /// A single primitive value.
    Prim(PrimType),
    /// A homogeneous array of primitive values; `Array(U8)` is a byte blob.
    Array(PrimType),
    /// A nested record of the referenced type.
    Record(usize),
    /// An array of nested records of the referenced type.
    RecordArray(usize),
}

/// One declared field of a record type: a name and a semantic type.
#[derive(Debug)]
pub struct FieldDef {
    pub name: String,
    pub ty: FieldType,
}

/// A record type definition: a schema identifier (the string key used for
/// lookup, by convention `"<package>/msg/<TypeName>"`) and an ordered list of
/// fields.
#[derive(Debug)]
pub struct RecordTypeDef {
    pub schema_id: String,
    pub fields: Vec<FieldDef>,
}

/// Mathematical model of a [`FieldDef`].
pub ghost struct FieldDefModel {
    pub name: Seq<char>,
    pub ty: FieldType,
}

/// Mathematical model of a [`RecordTypeDef`].
pub ghost struct RecordDefModel {
    pub schema_id: Seq<char>,
    pub fields: Seq<FieldDefModel>,
}

impl FieldDef {
    pub open spec fn model(&self) -> FieldDefModel {
        FieldDefModel { name: self.name@, ty: self.ty }
    }
}

impl RecordTypeDef {
    pub open spec fn model(&self) -> RecordDefModel {
        RecordDefModel {
            schema_id: self.schema_id@,
            fields: self.fields@.map_values(|f: FieldDef| f.model()),
        }
    }
}

/// Why a single field type is refused: it escapes the columnar type mapping
/// (an array of unit values has no columnar counterpart), or its record
/// reference does not point at a type registered before it.
pub open spec fn field_offense(f: FieldType, bound: int) -> Option<RegistryError> {
    match f {
        FieldType::Prim(_) => None,
        FieldType::Array(e) => if e == PrimType::Unit {
            Some(RegistryError::UnsupportedFieldType)
        } else {
            None
        },
        FieldType::Record(t) => if t < bound {
            None
        } else {
            Some(RegistryError::UnknownTypeRef)
        },
        FieldType::RecordArray(t) => if t < bound {
            None
        } else {
            Some(RegistryError::UnknownTypeRef)
        },
    }
}

/// True when the field type is mappable and its record references point
/// below `bound`.
pub open spec fn field_ty_ok(f: FieldType, bound: int) -> bool {
    field_offense(f, bound) is None
}

/// True when every field of `d` is mappable and refers only to types below
/// `bound`.
pub open spec fn def_fields_ok(d: RecordDefModel, bound: int) -> bool {
    forall|j: int| 0 <= j < d.fields.len() ==> field_ty_ok(#[trigger] d.fields[j].ty, bound)
}

/// True when no type in `reg` already carries `id` as its schema identifier.
pub open spec fn id_fresh(reg: Seq<RecordDefModel>, id: Seq<char>) -> bool {
    forall|i: int| 0 <= i < reg.len() ==> (#[trigger] reg[i].schema_id) != id
}

/// Well-formedness of a registry model: each type holds only mappable field
/// types referring to earlier types, and schema identifiers are pairwise
/// distinct.
pub open spec fn registry_wf(reg: Seq<RecordDefModel>) -> bool {
    &&& forall|i: int| 0 <= i < reg.len() ==> def_fields_ok(#[trigger] reg[i], i)
    &&& forall|i: int, j: int|
        0 <= i < j < reg.len() ==> (#[trigger] reg[i].schema_id) != (#[trigger] reg[j].schema_id)
}

/// Strict lexicographic order on character sequences, by code point.
///
/// Rust strings sort in UTF-8 byte order, which coincides with code-point
/// order, so this is the order of a map keyed by schema identifier.
pub open spec fn chars_lt(a: Seq<char>, b: Seq<char>) -> bool
    decreases a.len(),
{
    if b.len() == 0 {
        false
    } else if a.len() == 0 {
        true
    } else if a[0] != b[0] {
        (a[0] as u32) < (b[0] as u32)
    } else {
        chars_lt(a.drop_first(), b.drop_first())
    }
}

/// Distinct characters have distinct code points, so one is below the
/// other.
proof fn lemma_char_order(c1: char, c2: char)
    requires
        c1 != c2,
    ensures
        (c1 as u32) < (c2 as u32) || (c2 as u32) < (c1 as u32),
{
}

/// The order is total: two sequences are equal or one is strictly below
/// the other, never both.
pub proof fn lemma_chars_lt_trichotomy(a: Seq<char>, b: Seq<char>)
    ensures
        a == b || chars_lt(a, b) || chars_lt(b, a),
        !(chars_lt(a, b) && chars_lt(b, a)),
    decreases a.len(),
{
    if a.len() == 0 && b.len() == 0 {
        assert(a =~= b);
    } else if a.len() > 0 && b.len() > 0 && a[0] == b[0] {
        lemma_chars_lt_trichotomy(a.drop_first(), b.drop_first());
        if a.drop_first() == b.drop_first() {
            assert forall|i: int| 0 <= i < a.len() implies a[i] == b[i] by {
                if i > 0 {
                    assert(a.drop_first()[i - 1] == a[i]);
                    assert(b.drop_first()[i - 1] == b[i]);
                }
            }
            assert(a =~= b);
        }
    } else if a.len() > 0 && b.len() > 0 && a[0] != b[0] {
        lemma_char_order(a[0], b[0]);
        assert(chars_lt(a, b) == ((a[0] as u32) < (b[0] as u32)));
        assert(chars_lt(b, a) == ((b[0] as u32) < (a[0] as u32)));
    }
}

/// The order is transitive.
pub proof fn lemma_chars_lt_transitive(a: Seq<char>, b: Seq<char>, c: Seq<char>)
    requires
        chars_lt(a, b),
        chars_lt(b, c),
    ensures
        chars_lt(a, c),
    decreases a.len(),
{
    if a.len() > 0 && b.len() > 0 && c.len() > 0 && a[0] == b[0] && b[0] == c[0] {
        lemma_chars_lt_transitive(a.drop_first(), b.drop_first(), c.drop_first());
    }
}

/// The characters of a string, in order.
fn chars_of(s: &str) -> (r: Vec<char>)
    ensures
        r@ == s@,
{
    let mut r: Vec<char> = Vec::new();
    for c in it: s.chars()
        invariant
            it.seq() == s@,
            r@ =~= s@.take(it.index() as int),
    {
        r.push(c);
    }
    proof {
        assert(r@ =~= s@);
    }
    r
}

/// Whether `a` sorts strictly before `b`, in lexicographic code-point
/// order.
fn str_lt(a: &String, b: &String) -> (r: bool)
    ensures
        r == chars_lt(a@, b@),
{
    let ca = chars_of(a.as_str());
    let cb = chars_of(b.as_str());
    let mut i: usize = 0;
    proof {
        assert(a@.skip(0) =~= a@);
        assert(b@.skip(0) =~= b@);
    }
    while i < ca.len() && i < cb.len()
        invariant
            i <= ca.len(),
            i <= cb.len(),
            ca@ == a@,
            cb@ == b@,
            chars_lt(a@, b@) == chars_lt(a@.skip(i as int), b@.skip(i as int)),
        decreases ca.len() - i,
    {
        proof {
            assert(a@.skip(i as int)[0] == a@[i as int]);
            assert(b@.skip(i as int)[0] == b@[i as int]);
            assert(a@.skip(i as int).drop_first() =~= a@.skip(i + 1));
            assert(b@.skip(i as int).drop_first() =~= b@.skip(i + 1));
        }
        let x = ca[i];
        let y = cb[i];
        if x != y {
            return (x as u32) < (y as u32);
        }
        i = i + 1;
    }
    proof {
        assert(a@.skip(i as int).len() == a@.len() - i);
        assert(b@.skip(i as int).len() == b@.len() - i);
    }
    i < cb.len()
}

/// True when `id` occurs in the list.
pub open spec fn occurs(xs: Seq<Seq<char>>, id: Seq<char>) -> bool {
    exists|i: int| 0 <= i < xs.len() && (#[trigger] xs[i]) == id
}

/// Every element of a list occurs in it.
proof fn lemma_occurs_at(xs: Seq<Seq<char>>, i: int)
    requires
        0 <= i < xs.len(),
    ensures
        occurs(xs, xs[i]),
{
}

/// True when `id` is the identifier of one of the first `k` registered
/// types.
pub open spec fn among_first(reg: Seq<RecordDefModel>, k: int, id: Seq<char>) -> bool {
    exists|t: int| 0 <= t < k && (#[trigger] reg[t]).schema_id == id
}

/// The identifier of any of the first `k` types is among the first `k`.
proof fn lemma_among_first_at(reg: Seq<RecordDefModel>, k: int, t: int)
    requires
        0 <= t < k <= reg.len(),
    ensures
        among_first(reg, k, reg[t].schema_id),
{
}

/// Inserts an identifier not yet in the list at its sorted position,
/// keeping the list strictly ascending.
#[verifier::rlimit(50)]
fn insert_sorted(r: &mut Vec<String>, new_id: String)
    requires
        forall|i: int, j: int|
            0 <= i < j < old(r).deep_view().len() ==> chars_lt(
                #[trigger] old(r).deep_view()[i],
                #[trigger] old(r).deep_view()[j],
            ),
        forall|m: int|
            0 <= m < old(r).deep_view().len() ==> (#[trigger] old(r).deep_view()[m]) != new_id@,
    ensures
        final(r).deep_view().len() == old(r).deep_view().len() + 1,
        forall|i: int, j: int|
            0 <= i < j < final(r).deep_view().len() ==> chars_lt(
                #[trigger] final(r).deep_view()[i],
                #[trigger] final(r).deep_view()[j],
            ),
        occurs(final(r).deep_view(), new_id@),
        forall|i: int|
            0 <= i < old(r).deep_view().len() ==> occurs(
                final(r).deep_view(),
                #[trigger] old(r).deep_view()[i],
            ),
        forall|m: int|
            0 <= m < final(r).deep_view().len() ==> (#[trigger] final(r).deep_view()[m]) == new_id@
                || occurs(old(r).deep_view(), final(r).deep_view()[m]),
{
    let ghost old_dv = r.deep_view();
    let ghost new_view = new_id@;
    let mut pos: usize = 0;
    while pos < r.len() && str_lt(&r[pos], &new_id)
        invariant
            pos <= r@.len(),
            r.deep_view() == old_dv,
            forall|j: int| 0 <= j < pos ==> chars_lt(#[trigger] r.deep_view()[j], new_view),
        decreases r@.len() - pos,
    {
        proof {
            assert(r.deep_view()[pos as int] == r@[pos as int]@);
        }
        pos = pos + 1;
    }
    proof {
        assert forall|m: int| pos <= m < r.deep_view().len() implies chars_lt(
            new_view,
            #[trigger] r.deep_view()[m],
        ) by {
            assert(r.deep_view()[pos as int] == r@[pos as int]@);
            assert(!chars_lt(r.deep_view()[pos as int], new_view));
            lemma_chars_lt_trichotomy(r.deep_view()[pos as int], new_view);
            assert(chars_lt(new_view, r.deep_view()[pos as int]));
            if m > pos {
                lemma_chars_lt_transitive(new_view, r.deep_view()[pos as int], r.deep_view()[m]);
            }
        }
    }
    let ghost old_view = r@;
    r.insert(pos, new_id);
    proof {
        let inserted = r@[pos as int];
        old_view.insert_ensures(pos as int, inserted);
        assert(r@ == old_view.insert(pos as int, inserted));
        assert(inserted@ == new_view);
        assert(r.deep_view().len() == old_dv.len() + 1);
        assert forall|m: int| 0 <= m < r.deep_view().len() implies #[trigger] r.deep_view()[m] == (
        if m < pos {
            old_dv[m]
        } else if m == pos {
            new_view
        } else {
            old_dv[m - 1]
        }) by {
            assert(r.deep_view()[m] == r@[m]@);
            if m < pos {
                assert(r@[m] == old_view[m]);
                assert(old_dv[m] == old_view[m]@);
            } else if m > pos {
                assert(r@[(m - 1) + 1] == old_view[m - 1]);
                assert(old_dv[m - 1] == old_view[m - 1]@);
            }
        }
        assert forall|i: int, j: int|
            0 <= i < j < r.deep_view().len() implies chars_lt(
            #[trigger] r.deep_view()[i],
            #[trigger] r.deep_view()[j],
        ) by {
            if j < pos {
            } else if j == pos {
                assert(chars_lt(old_dv[i], new_view));
            } else if i < pos {
                assert(i < j - 1 ==> chars_lt(old_dv[i], old_dv[j - 1]));
                assert(i == j - 1 ==> pos <= i);
            } else if i == pos {
                assert(chars_lt(new_view, old_dv[j - 1]));
            }
        }
        assert(r.deep_view()[pos as int] == new_view);
        lemma_occurs_at(r.deep_view(), pos as int);
        assert forall|i: int| 0 <= i < old_dv.len() implies occurs(
            r.deep_view(),
            #[trigger] old_dv[i],
        ) by {
            if i < pos {
                assert(r.deep_view()[i] == old_dv[i]);
                lemma_occurs_at(r.deep_view(), i);
            } else {
                assert(r.deep_view()[i + 1] == old_dv[i]);
                lemma_occurs_at(r.deep_view(), i + 1);
            }
        }
        assert forall|m: int|
            0 <= m < r.deep_view().len() implies (#[trigger] r.deep_view()[m]) == new_view
            || occurs(old_dv, r.deep_view()[m]) by {
            if m < pos {
                assert(r.deep_view()[m] == old_dv[m]);
                lemma_occurs_at(old_dv, m);
            } else if m > pos {
                assert(r.deep_view()[m] == old_dv[m - 1]);
                lemma_occurs_at(old_dv, m - 1);
            }
        }
    }
}

/// One sorting step preserves the membership bookkeeping: after adding
/// type `k`'s identifier to a list that held exactly the identifiers of
/// types `0..k`, the list holds exactly those of types `0..k+1`.
proof fn lemma_membership_step(
    reg: Seq<RecordDefModel>,
    prev: Seq<Seq<char>>,
    cur: Seq<Seq<char>>,
    k: int,
)
    requires
        0 <= k < reg.len(),
        forall|t: int| 0 <= t < k ==> occurs(prev, (#[trigger] reg[t]).schema_id),
        forall|i: int| 0 <= i < prev.len() ==> among_first(reg, k, #[trigger] prev[i]),
        occurs(cur, reg[k].schema_id),
        forall|i: int| 0 <= i < prev.len() ==> occurs(cur, #[trigger] prev[i]),
        forall|m: int|
            0 <= m < cur.len() ==> (#[trigger] cur[m]) == reg[k].schema_id || occurs(prev, cur[m]),
    ensures
        forall|t: int| 0 <= t < k + 1 ==> occurs(cur, (#[trigger] reg[t]).schema_id),
        forall|m: int| 0 <= m < cur.len() ==> among_first(reg, k + 1, #[trigger] cur[m]),
{
    assert forall|t: int| 0 <= t < k + 1 implies occurs(
        cur,
        (#[trigger] reg[t]).schema_id,
    ) by {
        if t < k {
            let i0 = choose|i: int| 0 <= i < prev.len() && (#[trigger] prev[i]) == reg[t].schema_id;
            assert(occurs(cur, prev[i0]));
        }
    }
    assert forall|m: int| 0 <= m < cur.len() implies among_first(
        reg,
        k + 1,
        #[trigger] cur[m],
    ) by {
        if cur[m] == reg[k].schema_id {
            lemma_among_first_at(reg, k + 1, k);
        } else {
            let i0 = choose|i: int| 0 <= i < prev.len() && (#[trigger] prev[i]) == cur[m];
            assert(among_first(reg, k, prev[i0]));
            let t0 = choose|t: int| 0 <= t < k && (#[trigger] reg[t]).schema_id == prev[i0];
            lemma_among_first_at(reg, k + 1, t0);
        }
    }
}

/// Why a record type definition was refused by the registry.
#[derive(Clone, Copy, PartialEq, Eq, Structural, Debug)]
pub enum RegistryError {
    /// A field's semantic type has no columnar counterpart (an array of
    /// unit values).
    UnsupportedFieldType,
    /// A `Record` or `RecordArray` field refers to a type that is not yet
    /// registered.
    UnknownTypeRef,
    /// Another type with the same schema identifier is already registered.
    DuplicateSchemaId,
}

/// The type registry: record type definitions in registration order,
/// acyclic by construction.
pub struct TypeRegistry {
    pub types: Vec<RecordTypeDef>,
}

impl TypeRegistry {
    /// Model: the sequence of registered type definitions.
    pub open spec fn model(&self) -> Seq<RecordDefModel> {
        self.types@.map_values(|d: RecordTypeDef| d.model())
    }

    /// Registry invariant; established by `new` and preserved by `add_type`.
    pub open spec fn wf(&self) -> bool {
        registry_wf(self.model())
    }

    /// An empty registry.
    pub fn new() -> (r: TypeRegistry)
        ensures
            r.model() == Seq::<RecordDefModel>::empty(),
            r.wf(),
    {
        let r = TypeRegistry { types: Vec::new() };
        proof {
            assert(r.model() =~= Seq::<RecordDefModel>::empty());
        }
        r
    }

    /// Number of registered types.
    pub fn len(&self) -> (n: usize)
        ensures
            n == self.model().len(),
    {
        self.types.len()
    }

    /// The type definition at index `tid`.
    pub fn def_at(&self, tid: usize) -> (d: &RecordTypeDef)
        requires
            tid < self.model().len(),
        ensures
            d.model() == self.model()[tid as int],
    {
        &self.types[tid]
    }

    /// Registers a type definition and returns its index.
    ///
    /// The definition is refused — and the registry left unchanged — when a
    /// field's type is not mappable, when a record reference points at an
    /// unregistered type (references must point at earlier registrations;
    /// this keeps the type graph acyclic), or, the fields being in order,
    /// when its schema identifier is already taken. Field checks run in
    /// declaration order and the first offending field decides the error.
    pub fn add_type(&mut self, def: RecordTypeDef) -> (r: Result<usize, RegistryError>)
        requires
            old(self).wf(),
        ensures
            final(self).wf(),
            match r {
                Ok(tid) => {
                    &&& tid == old(self).model().len()
                    &&& final(self).model() == old(self).model().push(def.model())
                    &&& def_fields_ok(def.model(), old(self).model().len() as int)
                    &&& id_fresh(old(self).model(), def.model().schema_id)
                },
                Err(e) => {
                    &&& final(self).model() == old(self).model()
                    &&& match e {
                        RegistryError::DuplicateSchemaId => def_fields_ok(
                            def.model(),
                            old(self).model().len() as int,
                        ) && !id_fresh(old(self).model(), def.model().schema_id),
                        _ => exists|j: int|
                            0 <= j < def.model().fields.len() && field_offense(
                                (#[trigger] def.model().fields[j]).ty,
                                old(self).model().len() as int,
                            ) == Some(e) && forall|k: int|
                                0 <= k < j ==> field_ty_ok(
                                    def.model().fields[k].ty,
                                    old(self).model().len() as int,
                                ),
                    }
                },
            },
    {
        let bound = self.types.len();
        let mut j: usize = 0;
        while j < def.fields.len()
            invariant
                j <= def.fields.len(),
                bound == self.model().len(),
                forall|k: int|
                    0 <= k < j ==> field_ty_ok(#[trigger] def.model().fields[k].ty, bound as int),
            decreases def.fields.len() - j,
        {
            let off: Option<RegistryError> = match def.fields[j].ty {
                FieldType::Prim(_) => None,
                FieldType::Array(e) => if matches!(e, PrimType::Unit) {
                    Some(RegistryError::UnsupportedFieldType)
                } else {
                    None
                },
                FieldType::Record(t) => if t < bound {
                    None
                } else {
                    Some(RegistryError::UnknownTypeRef)
                },
                FieldType::RecordArray(t) => if t < bound {
                    None
                } else {
                    Some(RegistryError::UnknownTypeRef)
                },
            };
            if let Some(e) = off {
                assert(field_offense(def.model().fields[j as int].ty, bound as int) == Some(e));
                return Err(e);
            }
            j = j + 1;
        }
        assert(def_fields_ok(def.model(), bound as int));
        let mut i: usize = 0;
        while i < self.types.len()
            invariant
                i <= self.types.len(),
                forall|k: int| 0 <= k < i ==> (#[trigger] self.model()[k].schema_id) != def.model().schema_id,
            decreases self.types.len() - i,
        {
            if self.types[i].schema_id == def.schema_id {
                assert(self.model()[i as int].schema_id == def.model().schema_id);
                assert(!id_fresh(self.model(), def.model().schema_id));
                return Err(RegistryError::DuplicateSchemaId);
            }
            i = i + 1;
        }
        assert(id_fresh(self.model(), def.model().schema_id));
        let tid = self.types.len();
        let ghost old_model = self.model();
        let ghost def_model = def.model();
        self.types.push(def);
        proof {
            assert(self.model() =~= old_model.push(def_model));
        }
        Ok(tid)
    }

    /// Finds the index of the type whose schema identifier equals `schema_id`.
    ///
    /// Returns the first match in registration order, or `None` when no
    /// registered type carries that identifier.
    pub fn lookup(&self, schema_id: &String) -> (r: Option<usize>)
        ensures
            match r {
                Some(tid) => {
                    &&& tid < self.model().len()
                    &&& self.model()[tid as int].schema_id == schema_id@
                    &&& forall|k: int|
                        0 <= k < tid ==> (#[trigger] self.model()[k].schema_id) != schema_id@
                },
                None => id_fresh(self.model(), schema_id@),
            },
    {
        let mut i: usize = 0;
        while i < self.types.len()
            invariant
                i <= self.types.len(),
                forall|k: int| 0 <= k < i ==> (#[trigger] self.model()[k].schema_id) != schema_id@,
            decreases self.types.len() - i,
        {
            if self.types[i].schema_id == *schema_id {
                return Some(i);
            }
            i = i + 1;
        }
        None
    }

    /// The full list of registered schema identifiers, in ascending
    /// lexicographic order of identifier — the order a map keyed by
    /// identifier iterates in.
    ///
    /// The list holds exactly the registered identifiers: each occurs,
    /// nothing else occurs, and — the identifiers being pairwise distinct
    /// under the registry invariant — the order is strictly ascending, so
    /// the list is free of duplicates.
    pub fn get_supported_schemas(&self) -> (r: Vec<String>)
        requires
            self.wf(),
        ensures
            r.deep_view().len() == self.model().len(),
            forall|i: int, j: int|
                0 <= i < j < r.deep_view().len() ==> chars_lt(
                    #[trigger] r.deep_view()[i],
                    #[trigger] r.deep_view()[j],
                ),
            forall|t: int|
                0 <= t < self.model().len() ==> occurs(
                    r.deep_view(),
                    (#[trigger] self.model()[t]).schema_id,
                ),
            forall|m: int|
                0 <= m < r.deep_view().len() ==> among_first(
                    self.model(),
                    self.model().len() as int,
                    #[trigger] r.deep_view()[m],
                ),
    {
        let mut r: Vec<String> = Vec::new();
        let mut k: usize = 0;
        while k < self.types.len()
            invariant
                k <= self.types@.len(),
                r.deep_view().len() == k,
                forall|i: int, j: int|
                    0 <= i < j < r.deep_view().len() ==> chars_lt(
                        #[trigger] r.deep_view()[i],
                        #[trigger] r.deep_view()[j],
                    ),
                forall|t: int|
                    0 <= t < k ==> occurs(r.deep_view(), (#[trigger] self.model()[t]).schema_id),
                forall|m: int|
                    0 <= m < r.deep_view().len() ==> among_first(
                        self.model(),
                        k as int,
                        #[trigger] r.deep_view()[m],
                    ),
            decreases self.types@.len() - k,
        {
            let ghost prev_dv = r.deep_view();
            let new_id = self.types[k].schema_id.clone();
            let ghost new_view = new_id@;
            proof {
                assert(new_view == self.model()[k as int].schema_id);
                assert forall|m: int|
                    0 <= m < r.deep_view().len() implies (#[trigger] r.deep_view()[m])
                    != new_view by {
                    let t = choose|t: int|
                        0 <= t < k && (#[trigger] self.model()[t]).schema_id == r.deep_view()[m];
                    assert(self.model()[t].schema_id != self.model()[k as int].schema_id);
                }
            }
            insert_sorted(&mut r, new_id);
            proof {
                lemma_membership_step(self.model(), prev_dv, r.deep_view(), k as int);
            }
            k = k + 1;
        }
        r
    }
}

} // verus!
