//! The row builder: a stateful accumulator bound to a projection.
//!
//! A builder is constructed from a compiled schema and a projection — an
//! ordered list of output names, each selecting the first schema descriptor
//! of that name. An unknown name is an error in strict mode and is skipped
//! in lenient mode. Each appended record feeds every selected column; the
//! finalizer drains the columns in projection order and resets the builder
//! for the next batch.
//!
//! A failed append surfaces the offending field and leaves partial row
//! state: columns before the failing one keep the appended value, the
//! failing one and those after it are unchanged. Callers needing atomicity
//! must validate records before appending.

use vstd::prelude::*;
use vstd::pervasive::VecAdditionalExecFns;
use crate::column::{
    Column, ColModel, append_record_value, append_value, child_accepts, child_append, col_accepts,
    col_append, col_len, col_matches, col_model, col_wf, lemma_col_append_len,
    lemma_col_append_matches, lemma_col_append_preserves_accepts, lemma_col_append_wf, new_column,
    record_value_fits, value_fits,
};
use crate::schema::{DescModel, FieldDescriptor, copy_desc, desc_model, schema_model};
use crate::value::{RecordModel, RecordValue, ValueModel, rec_extract, record_model, resolve_path};

verus! {

/// The first descriptor of the given output name, if any.
pub open spec fn find_desc(schema: Seq<DescModel>, name: Seq<char>) -> Option<DescModel>
    decreases schema.len(),
{
    if schema.len() == 0 {
        None
    } else if schema[0].name == name {
        Some(schema[0])
    } else {
        find_desc(schema.drop_first(), name)
    }
}

/// A found descriptor carries the requested name and stands in the schema.
pub proof fn lemma_find_desc_found(schema: Seq<DescModel>, name: Seq<char>)
    requires
        find_desc(schema, name) is Some,
    ensures
        find_desc(schema, name)->0.name == name,
        schema.contains(find_desc(schema, name)->0),
    decreases schema.len(),
{
    if schema[0].name == name {
        assert(schema.contains(schema[0]));
    } else {
        lemma_find_desc_found(schema.drop_first(), name);
        let d = find_desc(schema.drop_first(), name)->0;
        let i = choose|i: int| 0 <= i < schema.drop_first().len() && schema.drop_first()[i] == d;
        assert(schema[i + 1] == d);
        assert(schema.contains(d));
    }
}

/// The descriptors selected by the projection names from position `k` on:
/// for each name, the first schema descriptor of that name, kept in
/// projection order; names that match nothing select nothing.
pub open spec fn spec_project_from(
    schema: Seq<DescModel>,
    names: Seq<Seq<char>>,
    k: int,
) -> Seq<DescModel>
    decreases names.len() - k,
{
    if k < 0 || k >= names.len() {
        Seq::empty()
    } else {
        match find_desc(schema, names[k]) {
            Some(d) => seq![d] + spec_project_from(schema, names, k + 1),
            None => spec_project_from(schema, names, k + 1),
        }
    }
}

/// The descriptors selected by a projection, in projection order.
pub open spec fn spec_project(schema: Seq<DescModel>, names: Seq<Seq<char>>) -> Seq<DescModel> {
    spec_project_from(schema, names, 0)
}

/// Projection law: when every projected name is found, the selected
/// descriptors are exactly the projection's names in the projection's
/// order — one column per projected name, each the first schema descriptor
/// of that name, and nothing else.
pub proof fn lemma_projection_identity(schema: Seq<DescModel>, names: Seq<Seq<char>>)
    requires
        forall|k: int| 0 <= k < names.len() ==> find_desc(schema, #[trigger] names[k]) is Some,
    ensures
        spec_project(schema, names).len() == names.len(),
        forall|k: int|
            0 <= k < names.len() ==> #[trigger] spec_project(schema, names)[k] == find_desc(
                schema,
                names[k],
            )->0,
        forall|k: int|
            0 <= k < names.len() ==> (#[trigger] spec_project(schema, names)[k]).name == names[k],
{
    lemma_projection_identity_from(schema, names, 0);
    assert forall|k: int|
        0 <= k < names.len() implies #[trigger] spec_project(schema, names)[k] == find_desc(
        schema,
        names[k],
    )->0 by {
        assert(spec_project_from(schema, names, 0)[k] == find_desc(schema, names[0 + k])->0);
    }
    assert forall|k: int|
        0 <= k < names.len() implies (#[trigger] spec_project(schema, names)[k]).name
        == names[k] by {
        assert(spec_project_from(schema, names, 0)[k] == find_desc(schema, names[0 + k])->0);
        lemma_find_desc_found(schema, names[k]);
    }
}

proof fn lemma_projection_identity_from(schema: Seq<DescModel>, names: Seq<Seq<char>>, k: int)
    requires
        0 <= k <= names.len(),
        forall|j: int| 0 <= j < names.len() ==> find_desc(schema, #[trigger] names[j]) is Some,
    ensures
        spec_project_from(schema, names, k).len() == names.len() - k,
        forall|m: int|
            0 <= m < names.len() - k ==> #[trigger] spec_project_from(schema, names, k)[m]
                == find_desc(schema, names[k + m])->0,
    decreases names.len() - k,
{
    if k < names.len() {
        lemma_projection_identity_from(schema, names, k + 1);
        assert forall|m: int|
            0 <= m < names.len() - k implies #[trigger] spec_project_from(schema, names, k)[m]
            == find_desc(schema, names[k + m])->0 by {
            if m > 0 {
                assert(spec_project_from(schema, names, k + 1)[m - 1] == find_desc(
                    schema,
                    names[k + 1 + (m - 1)],
                )->0);
            }
        }
    }
}

/// The projection names as character sequences.
pub open spec fn names_model(names: Seq<String>) -> Seq<Seq<char>> {
    names.map_values(|s: String| s@)
}

/// Whether a selected column takes the value its descriptor names within
/// the record: a descriptor with an empty index path takes the whole
/// record.
pub open spec fn slot_accepts(desc: DescModel, col: ColModel, rm: RecordModel) -> bool {
    if desc.index_path.len() == 0 {
        col_accepts(col, ValueModel::Record(rm))
    } else {
        child_accepts(col, rm, desc.index_path)
    }
}

/// A selected column after receiving its descriptor's value from a record.
pub open spec fn slot_appended(desc: DescModel, col: ColModel, rm: RecordModel) -> ColModel {
    if desc.index_path.len() == 0 {
        col_append(col, ValueModel::Record(rm))
    } else {
        child_append(col, rm, desc.index_path)
    }
}

/// Row-count law, one step: a successful append adds exactly one row to
/// every selected column, so columns that were level stay level.
pub proof fn lemma_row_count_step(
    descs: Seq<DescModel>,
    cols: Seq<ColModel>,
    rm: RecordModel,
    k: nat,
)
    requires
        cols.len() == descs.len(),
        forall|i: int| 0 <= i < cols.len() ==> col_len(#[trigger] cols[i]) == k,
        forall|i: int| 0 <= i < cols.len() ==> slot_accepts(descs[i], #[trigger] cols[i], rm),
    ensures
        forall|i: int|
            0 <= i < cols.len() ==> col_len(
                #[trigger] slot_appended(descs[i], cols[i], rm),
            ) == k + 1,
{
    assert forall|i: int| 0 <= i < cols.len() implies col_len(
        #[trigger] slot_appended(descs[i], cols[i], rm),
    ) == k + 1 by {
        if descs[i].index_path.len() == 0 {
            lemma_col_append_len(cols[i], ValueModel::Record(rm));
        } else {
            lemma_col_append_len(cols[i], rec_extract(rm, descs[i].index_path)->0);
        }
    }
}

/// A selected column after receiving its descriptor's value from each
/// record of a sequence, in order.
pub open spec fn slot_after_rows(desc: DescModel, col: ColModel, rows: Seq<RecordModel>) -> ColModel
    decreases rows.len(),
{
    if rows.len() == 0 {
        col
    } else {
        slot_after_rows(desc, slot_appended(desc, col, rows[0]), rows.drop_first())
    }
}

/// Appending one value never changes which records a selected column takes.
pub proof fn lemma_slot_append_preserves_accepts(
    desc: DescModel,
    col: ColModel,
    rm1: RecordModel,
    rm2: RecordModel,
)
    ensures
        slot_accepts(desc, slot_appended(desc, col, rm1), rm2) == slot_accepts(desc, col, rm2),
{
    if desc.index_path.len() == 0 {
        lemma_col_append_preserves_accepts(col, ValueModel::Record(rm1), ValueModel::Record(rm2));
    } else {
        let ev1 = rec_extract(rm1, desc.index_path);
        let ev2 = rec_extract(rm2, desc.index_path);
        if ev1 is Some && ev2 is Some {
            lemma_col_append_preserves_accepts(col, ev1->0, ev2->0);
        }
    }
}

/// Row-count law: a selected column that takes every record of a batch ends
/// the batch with exactly one more row per record — K appended records give
/// a column of length K over a fresh builder.
pub proof fn lemma_row_count(desc: DescModel, col: ColModel, rows: Seq<RecordModel>)
    requires
        forall|k: int| 0 <= k < rows.len() ==> slot_accepts(desc, col, #[trigger] rows[k]),
    ensures
        col_len(slot_after_rows(desc, col, rows)) == col_len(col) + rows.len(),
    decreases rows.len(),
{
    if rows.len() > 0 {
        let col1 = slot_appended(desc, col, rows[0]);
        assert(slot_accepts(desc, col, rows[0]));
        if desc.index_path.len() == 0 {
            lemma_col_append_len(col, ValueModel::Record(rows[0]));
        } else {
            lemma_col_append_len(col, rec_extract(rows[0], desc.index_path)->0);
        }
        assert forall|k: int| 0 <= k < rows.drop_first().len() implies slot_accepts(
            desc,
            col1,
            #[trigger] rows.drop_first()[k],
        ) by {
            assert(rows.drop_first()[k] == rows[k + 1]);
            assert(slot_accepts(desc, col, rows[k + 1]));
            lemma_slot_append_preserves_accepts(desc, col, rows[0], rows[k + 1]);
        }
        lemma_row_count(desc, col1, rows.drop_first());
    }
}

/// True when every selected column takes the record's value for its
/// descriptor.
pub open spec fn accepts_all(
    descs: Seq<DescModel>,
    cols: Seq<ColModel>,
    rm: RecordModel,
) -> bool {
    forall|i: int| 0 <= i < cols.len() ==> slot_accepts(descs[i], #[trigger] cols[i], rm)
}

/// True when `after` is `before` with one record's values appended to every
/// selected column.
pub open spec fn appended_with(
    descs: Seq<DescModel>,
    before: Seq<ColModel>,
    after: Seq<ColModel>,
    rm: RecordModel,
) -> bool {
    forall|i: int|
        0 <= i < before.len() ==> after[i] == #[trigger] slot_appended(descs[i], before[i], rm)
}

/// True when an append of the record failed at column `slot`: that column
/// refuses the record's value, every earlier column took and received it,
/// and it and every later column are unchanged.
pub open spec fn partially_appended_with(
    descs: Seq<DescModel>,
    before: Seq<ColModel>,
    after: Seq<ColModel>,
    rm: RecordModel,
    slot: int,
) -> bool {
    &&& !slot_accepts(descs[slot], before[slot], rm)
    &&& forall|i: int|
        0 <= i < slot ==> slot_accepts(descs[i], #[trigger] before[i], rm) && after[i]
            == slot_appended(descs[i], before[i], rm)
    &&& forall|i: int| slot <= i < before.len() ==> #[trigger] after[i] == before[i]
}

/// Why a byte buffer could not be deserialized into a record instance.
#[derive(Debug)]
pub struct DeserializeError {
    /// The collaborator's description of the failure.
    pub message: String,
}

/// The deserialization collaborator: turns raw bytes into a typed record
/// instance. Integrators implement this for the wire format their records
/// arrive in; the library promises nothing about what an implementation
/// returns and checks every produced record against the columns as usual.
pub trait Deserializer {
    /// Deserializes one record from `bytes`.
    fn deserialize(&self, bytes: &[u8]) -> Result<RecordValue, DeserializeError>;
}

/// Why a raw row could not be appended.
#[derive(Debug)]
pub enum RawRowError {
    /// The bytes did not deserialize; no builder state was touched.
    Deserialize(DeserializeError),
    /// The deserialized record did not fit the selected columns.
    Append(AppendError),
}

/// Why a projection was refused in strict mode.
#[derive(Clone, Copy, PartialEq, Eq, Structural, Debug)]
pub struct ProjectionError {
    /// Position in the projection of the first name that matches no schema
    /// descriptor.
    pub position: usize,
}

/// Why a record could not be appended.
#[derive(Clone, Copy, PartialEq, Eq, Structural, Debug)]
pub struct AppendError {
    /// Index of the first selected column whose value the record does not
    /// supply: its index path does not resolve within the record, or the
    /// resolved value does not fit the column's type.
    pub slot: usize,
}

/// The row builder: one descriptor and one column per selected field, in
/// projection order.
#[derive(Debug)]
pub struct RowBuilder {
    pub descs: Vec<FieldDescriptor>,
    pub cols: Vec<Column>,
}

impl RowBuilder {
    /// Model: the selected descriptors in order.
    pub open spec fn descs_model(&self) -> Seq<DescModel> {
        schema_model(self.descs@)
    }

    /// Model: the selected columns in order.
    pub open spec fn cols_model(&self) -> Seq<ColModel> {
        Seq::new(
            self.cols@.len(),
            |i: int|
                if 0 <= i < self.cols@.len() {
                    col_model(self.cols@[i])
                } else {
                    arbitrary()
                },
        )
    }

    /// Builder invariant: one column per descriptor, each well-formed and
    /// of its descriptor's columnar type.
    pub open spec fn wf(&self) -> bool {
        &&& self.cols@.len() == self.descs@.len()
        &&& forall|i: int|
            0 <= i < self.cols@.len() ==> {
                &&& col_wf(#[trigger] self.cols_model()[i])
                &&& col_matches(self.cols_model()[i], self.descs_model()[i].column_type)
            }
    }

    /// Builds a row builder over `schema`, selecting the projected names in
    /// order. In strict mode an unknown name is refused — reporting the
    /// first offending position — and nothing is built; in lenient mode it
    /// is skipped. Every selected column starts empty.
    pub fn new(
        schema: &Vec<FieldDescriptor>,
        projection: &Vec<String>,
        strict: bool,
    ) -> (r: Result<RowBuilder, ProjectionError>)
        ensures
            match r {
                Ok(b) => {
                    &&& b.wf()
                    &&& b.descs_model() == spec_project(
                        schema_model(schema@),
                        names_model(projection@),
                    )
                    &&& forall|i: int|
                        0 <= i < b.cols_model().len() ==> col_len(#[trigger] b.cols_model()[i])
                            == 0
                    &&& (strict ==> forall|k: int|
                        0 <= k < projection@.len() ==> find_desc(
                            schema_model(schema@),
                            #[trigger] names_model(projection@)[k],
                        ) is Some)
                },
                Err(e) => {
                    &&& strict
                    &&& e.position < projection@.len()
                    &&& find_desc(
                        schema_model(schema@),
                        names_model(projection@)[e.position as int],
                    ) is None
                    &&& forall|k: int|
                        0 <= k < e.position ==> find_desc(
                            schema_model(schema@),
                            #[trigger] names_model(projection@)[k],
                        ) is Some
                },
            },
            !strict ==> r is Ok,
    {
        let ghost sm = schema_model(schema@);
        let ghost nm = names_model(projection@);
        let mut descs: Vec<FieldDescriptor> = Vec::new();
        let mut cols: Vec<Column> = Vec::new();
        let mut k: usize = 0;
        proof {
            assert(nm.len() == projection@.len());
        }
        while k < projection.len()
            invariant
                k <= projection.len(),
                cols@.len() == descs@.len(),
                spec_project_from(sm, nm, 0) == schema_model(descs@) + spec_project_from(
                    sm,
                    nm,
                    k as int,
                ),
                forall|i: int|
                    0 <= i < cols@.len() ==> {
                        &&& col_wf(col_model(#[trigger] cols@[i]))
                        &&& col_matches(
                            col_model(cols@[i]),
                            schema_model(descs@)[i].column_type,
                        )
                        &&& col_len(col_model(cols@[i])) == 0
                    },
                strict ==> forall|j: int| 0 <= j < k ==> find_desc(sm, #[trigger] nm[j]) is Some,
            decreases projection.len() - k,
        {
            let ghost descs_before = descs@;
            proof {
                assert(nm[k as int] == projection@[k as int]@);
            }
            let name = &projection[k];
            let mut j: usize = 0;
            let mut found: Option<usize> = None;
            proof {
                assert(sm.skip(0) =~= sm);
            }
            while j < schema.len() && found.is_none()
                invariant
                    j <= schema.len(),
                    match found {
                        Some(fj) => {
                            &&& fj < schema@.len()
                            &&& find_desc(sm, name@) == Some(desc_model(schema@[fj as int]))
                        },
                        None => find_desc(sm.skip(j as int), name@) == find_desc(sm, name@),
                    },
                decreases schema.len() - j,
            {
                proof {
                    assert(sm.skip(j as int)[0] == sm[j as int]);
                    assert(sm[j as int] == desc_model(schema@[j as int]));
                    assert(sm.skip(j as int).drop_first() =~= sm.skip(j + 1));
                }
                if schema[j].name == *name {
                    proof {
                        assert(sm.skip(j as int).len() > 0);
                        assert(find_desc(sm.skip(j as int), name@) == Some(sm[j as int]));
                    }
                    found = Some(j);
                } else {
                    proof {
                        assert(find_desc(sm.skip(j as int), name@) == find_desc(
                            sm.skip(j + 1),
                            name@,
                        ));
                    }
                }
                j = j + 1;
            }
            proof {
                if found is None {
                    assert(sm.skip(schema@.len() as int) =~= Seq::<DescModel>::empty());
                }
            }
            match found {
                Some(fj) => {
                    let d = copy_desc(&schema[fj]);
                    let col = new_column(&schema[fj].column_type);
                    descs.push(d);
                    cols.push(col);
                    proof {
                        assert(schema_model(descs@) =~= schema_model(descs_before).push(
                            desc_model(schema@[fj as int]),
                        ));
                        assert(spec_project_from(sm, nm, k as int) == seq![
                            desc_model(schema@[fj as int]),
                        ] + spec_project_from(sm, nm, k + 1));
                        assert(schema_model(descs@) + spec_project_from(sm, nm, k + 1)
                            =~= schema_model(descs_before) + spec_project_from(sm, nm, k as int));
                    }
                },
                None => {
                    if strict {
                        return Err(ProjectionError { position: k });
                    }
                    proof {
                        assert(spec_project_from(sm, nm, k as int) == spec_project_from(
                            sm,
                            nm,
                            k + 1,
                        ));
                    }
                },
            }
            k = k + 1;
        }
        proof {
            assert(spec_project_from(sm, nm, projection@.len() as int)
                =~= Seq::<DescModel>::empty());
            assert(schema_model(descs@) + Seq::<DescModel>::empty() =~= schema_model(descs@));
        }
        let b = RowBuilder { descs, cols };
        proof {
            assert forall|i: int| 0 <= i < b.cols@.len() implies {
                &&& col_wf(#[trigger] b.cols_model()[i])
                &&& col_matches(b.cols_model()[i], b.descs_model()[i].column_type)
                &&& col_len(b.cols_model()[i]) == 0
            } by {
                assert(b.cols_model()[i] == col_model(b.cols@[i]));
            }
        }
        Ok(b)
    }

    /// Appends one record: every selected column receives the value its
    /// descriptor names within the record, in projection order.
    ///
    /// Fails at the first column whose value the record does not supply,
    /// with partial row state: columns before the failing one keep the
    /// appended value, the failing one and those after it are unchanged.
    pub fn add_row(&mut self, rec: &RecordValue) -> (r: Result<(), AppendError>)
        requires
            old(self).wf(),
        ensures
            final(self).wf(),
            final(self).descs_model() == old(self).descs_model(),
            final(self).cols_model().len() == old(self).cols_model().len(),
            match r {
                Ok(()) => {
                    &&& forall|i: int|
                        0 <= i < old(self).cols_model().len() ==> slot_accepts(
                            old(self).descs_model()[i],
                            #[trigger] old(self).cols_model()[i],
                            record_model(*rec),
                        )
                    &&& forall|i: int|
                        0 <= i < old(self).cols_model().len()
                            ==> #[trigger] final(self).cols_model()[i] == slot_appended(
                            old(self).descs_model()[i],
                            old(self).cols_model()[i],
                            record_model(*rec),
                        )
                },
                Err(e) => {
                    &&& e.slot < old(self).cols_model().len()
                    &&& !slot_accepts(
                        old(self).descs_model()[e.slot as int],
                        old(self).cols_model()[e.slot as int],
                        record_model(*rec),
                    )
                    &&& forall|i: int|
                        0 <= i < e.slot ==> slot_accepts(
                            old(self).descs_model()[i],
                            #[trigger] old(self).cols_model()[i],
                            record_model(*rec),
                        ) && final(self).cols_model()[i] == slot_appended(
                            old(self).descs_model()[i],
                            old(self).cols_model()[i],
                            record_model(*rec),
                        )
                    &&& forall|i: int|
                        e.slot <= i < old(self).cols_model().len()
                            ==> #[trigger] final(self).cols_model()[i] == old(
                            self,
                        ).cols_model()[i]
                },
            },
    {
        let ghost dm = old(self).descs_model();
        let ghost cm0 = old(self).cols_model();
        let ghost rm = record_model(*rec);
        let n = self.cols.len();
        proof {
            assert forall|k: int| 0 <= k < self.cols@.len() implies col_wf(
                col_model(#[trigger] self.cols@[k]),
            ) && col_matches(col_model(self.cols@[k]), dm[k].column_type) && col_model(
                self.cols@[k],
            ) == cm0[k] by {
                assert(old(self).cols_model()[k] == col_model(self.cols@[k]));
                assert(old(self).descs_model()[k] == dm[k]);
            }
        }
        let mut i: usize = 0;
        while i < n
            invariant
                i <= n,
                n == self.cols@.len(),
                self.descs@ == old(self).descs@,
                self.cols@.len() == old(self).cols@.len(),
                forall|k: int|
                    0 <= k < n ==> col_wf(col_model(#[trigger] self.cols@[k])) && col_matches(
                        col_model(self.cols@[k]),
                        dm[k].column_type,
                    ),
                forall|k: int|
                    0 <= k < i ==> slot_accepts(dm[k], #[trigger] cm0[k], rm) && col_model(
                        self.cols@[k],
                    ) == slot_appended(dm[k], cm0[k], rm),
                forall|k: int| i <= k < n ==> col_model(#[trigger] self.cols@[k]) == cm0[k],
            decreases n - i,
        {
            proof {
                assert(dm[i as int] == desc_model(self.descs@[i as int]));
                assert(col_model(self.cols@[i as int]) == cm0[i as int]);
            }
            let path_len = self.descs[i].index_path.len();
            let ok: bool = if path_len == 0 {
                record_value_fits(&self.cols[i], rec)
            } else {
                match resolve_path(rec, &self.descs[i].index_path) {
                    Some(x) => value_fits(&self.cols[i], x),
                    None => false,
                }
            };
            if !ok {
                proof {
                    assert(!slot_accepts(dm[i as int], cm0[i as int], rm));
                    assert forall|k: int|
                        0 <= k < n implies #[trigger] self.cols_model()[k] == col_model(
                        self.cols@[k],
                    ) by {
                    }
                }
                return Err(AppendError { slot: i });
            }
            let ghost prev_cols = self.cols@;
            let mut tmp = Column::Null(Vec::new());
            self.cols.set_and_swap(i, &mut tmp);
            if path_len == 0 {
                tmp = append_record_value(tmp, rec);
            } else {
                match resolve_path(rec, &self.descs[i].index_path) {
                    Some(x) => {
                        tmp = append_value(tmp, x);
                    },
                    None => {
                    },
                }
            }
            self.cols.set_and_swap(i, &mut tmp);
            proof {
                assert(forall|k: int|
                    0 <= k < prev_cols.len() && k != i ==> #[trigger] self.cols@[k]
                        == prev_cols[k]);
                assert(col_model(prev_cols[i as int]) == cm0[i as int]);
                assert(col_model(self.cols@[i as int]) == slot_appended(
                    dm[i as int],
                    cm0[i as int],
                    rm,
                ));
                assert(slot_accepts(dm[i as int], cm0[i as int], rm));
                if dm[i as int].index_path.len() == 0 {
                    lemma_col_append_wf(cm0[i as int], ValueModel::Record(rm));
                    lemma_col_append_matches(
                        cm0[i as int],
                        ValueModel::Record(rm),
                        dm[i as int].column_type,
                    );
                } else {
                    let ev = rec_extract(rm, dm[i as int].index_path);
                    lemma_col_append_wf(cm0[i as int], ev->0);
                    lemma_col_append_matches(cm0[i as int], ev->0, dm[i as int].column_type);
                }
                assert(col_wf(col_model(self.cols@[i as int])));
                assert(col_matches(col_model(self.cols@[i as int]), dm[i as int].column_type));
                assert forall|k: int|
                    0 <= k < n && k != i implies #[trigger] self.cols@[k] == prev_cols[k] by {
                }
            }
            i = i + 1;
        }
        proof {
            assert forall|k: int|
                0 <= k < n implies #[trigger] self.cols_model()[k] == col_model(
                self.cols@[k],
            ) by {
            }
        }
        Ok(())
    }

    /// Deserializes one record from raw bytes through the collaborator and
    /// appends it.
    ///
    /// A deserialization failure surfaces as an error without mutating any
    /// builder state; a record that deserializes is appended exactly as by
    /// [`RowBuilder::add_row`] — on success, some record every selected
    /// column takes was appended everywhere; on an append failure, some
    /// record was partially appended with the failing column identified.
    pub fn add_raw_row<D: Deserializer>(&mut self, d: &D, bytes: &[u8]) -> (r: Result<
        (),
        RawRowError,
    >)
        requires
            old(self).wf(),
        ensures
            final(self).wf(),
            final(self).descs_model() == old(self).descs_model(),
            final(self).cols_model().len() == old(self).cols_model().len(),
            match r {
                Ok(()) => exists|rm: RecordModel|
                    #[trigger] accepts_all(old(self).descs_model(), old(self).cols_model(), rm)
                        && appended_with(
                        old(self).descs_model(),
                        old(self).cols_model(),
                        final(self).cols_model(),
                        rm,
                    ),
                Err(RawRowError::Deserialize(_)) => final(self).cols_model() == old(
                    self,
                ).cols_model(),
                Err(RawRowError::Append(e)) => {
                    &&& e.slot < old(self).cols_model().len()
                    &&& exists|rm: RecordModel| #[trigger] partially_appended_with(
                        old(self).descs_model(),
                        old(self).cols_model(),
                        final(self).cols_model(),
                        rm,
                        e.slot as int,
                    )
                },
            },
    {
        match d.deserialize(bytes) {
            Ok(rec) => {
                match self.add_row(&rec) {
                    Ok(()) => {
                        proof {
                            assert(accepts_all(
                                old(self).descs_model(),
                                old(self).cols_model(),
                                record_model(rec),
                            ));
                            assert(appended_with(
                                old(self).descs_model(),
                                old(self).cols_model(),
                                final(self).cols_model(),
                                record_model(rec),
                            ));
                        }
                        Ok(())
                    },
                    Err(e) => {
                        proof {
                            assert(partially_appended_with(
                                old(self).descs_model(),
                                old(self).cols_model(),
                                final(self).cols_model(),
                                record_model(rec),
                                e.slot as int,
                            ));
                        }
                        Err(RawRowError::Append(e))
                    },
                }
            },
            Err(e) => {
                proof {
                    assert(final(self).cols_model() =~= old(self).cols_model());
                }
                Err(RawRowError::Deserialize(e))
            },
        }
    }

    /// Drains every selected column into the result, in projection order,
    /// and resets the builder to its empty state so it can accumulate a new
    /// batch. The output holds exactly one column per selected descriptor —
    /// fields outside the projection never appear.
    pub fn to_columns(&mut self) -> (r: Vec<Column>)
        requires
            old(self).wf(),
        ensures
            final(self).wf(),
            final(self).descs_model() == old(self).descs_model(),
            r@.len() == old(self).cols_model().len(),
            forall|i: int|
                0 <= i < r@.len() ==> col_model(#[trigger] r@[i]) == old(self).cols_model()[i],
            final(self).cols_model().len() == old(self).cols_model().len(),
            forall|i: int|
                0 <= i < final(self).cols_model().len() ==> col_len(
                    #[trigger] final(self).cols_model()[i],
                ) == 0,
    {
        let ghost dm = old(self).descs_model();
        let ghost cm0 = old(self).cols_model();
        let mut out: Vec<Column> = Vec::new();
        let n = self.cols.len();
        proof {
            assert forall|k: int| 0 <= k < self.cols@.len() implies col_wf(
                col_model(#[trigger] self.cols@[k]),
            ) && col_matches(col_model(self.cols@[k]), dm[k].column_type) && col_model(
                self.cols@[k],
            ) == cm0[k] by {
                assert(old(self).cols_model()[k] == col_model(self.cols@[k]));
                assert(old(self).descs_model()[k] == dm[k]);
            }
        }
        let mut i: usize = 0;
        while i < n
            invariant
                i <= n,
                n == self.cols@.len(),
                self.descs@ == old(self).descs@,
                self.cols@.len() == old(self).cols@.len(),
                forall|k: int|
                    0 <= k < n ==> col_wf(col_model(#[trigger] self.cols@[k])) && col_matches(
                        col_model(self.cols@[k]),
                        dm[k].column_type,
                    ),
                out@.len() == i,
                forall|k: int| 0 <= k < i ==> col_model(#[trigger] out@[k]) == cm0[k],
                forall|k: int|
                    0 <= k < i ==> col_len(col_model(#[trigger] self.cols@[k])) == 0,
                forall|k: int| i <= k < n ==> col_model(#[trigger] self.cols@[k]) == cm0[k],
            decreases n - i,
        {
            proof {
                assert(dm[i as int] == desc_model(self.descs@[i as int]));
            }
            let ghost prev_cols = self.cols@;
            let mut fresh = new_column(&self.descs[i].column_type);
            self.cols.set_and_swap(i, &mut fresh);
            out.push(fresh);
            proof {
                assert forall|k: int|
                    0 <= k < n && k != i implies #[trigger] self.cols@[k] == prev_cols[k] by {
                }
                assert(col_model(out@[i as int]) == cm0[i as int]);
            }
            i = i + 1;
        }
        proof {
            assert forall|k: int|
                0 <= k < n implies #[trigger] self.cols_model()[k] == col_model(
                self.cols@[k],
            ) by {
            }
        }
        out
    }
}

} // verus!
