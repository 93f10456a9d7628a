//! An ordered mapping from column name to logical type: names unique,
//! insertion order significant.

use vstd::prelude::*;

use crate::dtype::dtype_view;
use crate::dtype::DTypeV;
use crate::dtype::LogicalType;

verus! {

broadcast use vstd::std_specs::vec::group_vec_axioms;

/// One schema entry.
#[derive(Debug)]
pub struct SchemaField {
    pub name: String,
    pub dtype: LogicalType,
}

/// An ordered name-to-type mapping with unique names.
#[derive(Debug)]
pub struct Schema {
    fields: Vec<SchemaField>,
}

/// The models of schema entries, in order.
pub open spec fn fields_view(fields: Seq<SchemaField>) -> Seq<(Seq<char>, DTypeV)>
    decreases fields,
{
    if fields.len() == 0 {
        Seq::empty()
    } else {
        fields_view(fields.drop_last()).push(
            (fields.last().name@, dtype_view(&fields.last().dtype)),
        )
    }
}

/// Pointwise characterization of `fields_view`.
pub proof fn lemma_fields_view(fields: Seq<SchemaField>)
    ensures
        fields_view(fields).len() == fields.len(),
        forall|i: int|
            0 <= i < fields.len() ==> #[trigger] fields_view(fields)[i] == (
            fields[i].name@,
            dtype_view(&fields[i].dtype),
            ),
    decreases fields,
{
    if fields.len() > 0 {
        lemma_fields_view(fields.drop_last());
    }
}

/// Whether the names of a model schema are pairwise distinct.
pub open spec fn names_unique(entries: Seq<(Seq<char>, DTypeV)>) -> bool {
    forall|i: int, j: int| 0 <= i < j < entries.len() ==> entries[i].0 != entries[j].0
}

impl Schema {
    /// The ordered (name, type) entries.
    pub closed spec fn spec_entries(&self) -> Seq<(Seq<char>, DTypeV)> {
        fields_view(self.fields@)
    }

    /// Names are unique.
    pub open spec fn wf(&self) -> bool {
        names_unique(self.spec_entries())
    }

    /// The index of a name, if present.
    pub open spec fn spec_index_of(entries: Seq<(Seq<char>, DTypeV)>, name: Seq<char>) -> Option<
        int,
    >
        decreases entries.len(),
    {
        if entries.len() == 0 {
            None
        } else if entries[0].0 == name {
            Some(0)
        } else {
            match Self::spec_index_of(entries.skip(1), name) {
                Some(i) => Some(i + 1),
                None => None,
            }
        }
    }

    /// What `spec_index_of` means: a found index is in range, carries the
    /// name, and is the first such; absence means no entry has the name.
    pub proof fn lemma_index_of(entries: Seq<(Seq<char>, DTypeV)>, name: Seq<char>)
        ensures
            match Self::spec_index_of(entries, name) {
                Some(i) => 0 <= i < entries.len() && entries[i].0 == name && (forall|j: int|
                    0 <= j < i ==> (#[trigger] entries[j]).0 != name),
                None => forall|j: int|
                    0 <= j < entries.len() ==> (#[trigger] entries[j]).0 != name,
            },
        decreases entries.len(),
    {
        if entries.len() > 0 && entries[0].0 != name {
            Self::lemma_index_of(entries.skip(1), name);
            let r = Self::spec_index_of(entries.skip(1), name);
            if r is Some {
                let i = r->0;
                assert(entries.skip(1)[i] == entries[i + 1]);
                assert forall|j: int| 0 <= j < i + 1 implies (#[trigger] entries[j]).0 != name by {
                    if j > 0 {
                        assert(entries.skip(1)[j - 1] == entries[j]);
                    }
                }
            } else {
                assert forall|j: int| 0 <= j < entries.len() implies (#[trigger] entries[j]).0
                    != name by {
                    if j > 0 {
                        assert(entries.skip(1)[j - 1] == entries[j]);
                    }
                }
            }
        }
    }

    /// An empty schema.
    pub fn new() -> (s: Schema)
        ensures
            s.spec_entries() =~= Seq::<(Seq<char>, DTypeV)>::empty(),
            s.wf(),
    {
        Schema { fields: Vec::new() }
    }

    /// The number of entries.
    pub fn len(&self) -> (n: usize)
        ensures
            n == self.spec_entries().len(),
    {
        proof {
            lemma_fields_view(self.fields@);
        }
        self.fields.len()
    }

    /// The entry at an index, or nothing when out of range — never an
    /// error.
    pub fn get_at_index(&self, index: usize) -> (r: Option<(&String, &LogicalType)>)
        ensures
            match r {
                Some((name, dtype)) => index < self.spec_entries().len() && (
                name@,
                dtype@,
                ) == self.spec_entries()[index as int],
                None => index >= self.spec_entries().len(),
            },
    {
        proof {
            lemma_fields_view(self.fields@);
        }
        if index < self.fields.len() {
            let f = &self.fields[index];
            Some((&f.name, &f.dtype))
        } else {
            None
        }
    }

    /// The index of a column name.
    #[verifier::loop_isolation(false)]
    pub fn index_of(&self, name: &str) -> (r: Option<usize>)
        ensures
            match r {
                Some(i) => Self::spec_index_of(self.spec_entries(), name@) == Some(i as int),
                None => Self::spec_index_of(self.spec_entries(), name@) is None,
            },
    {
        proof {
            lemma_fields_view(self.fields@);
            Self::lemma_index_of(self.spec_entries(), name@);
        }
        let n = self.fields.len();
        let mut i: usize = 0;
        while i < n
            invariant
                i <= n,
                forall|j: int| 0 <= j < i ==> (#[trigger] self.spec_entries()[j]).0 != name@,
            decreases n - i,
        {
            if self.fields[i].name.eq(&name.to_owned()) {
                proof {
                    lemma_index_first(self.spec_entries(), name@, i as int);
                }
                return Some(i);
            }
            i = i + 1;
        }
        proof {
            let ghost found = Self::spec_index_of(self.spec_entries(), name@);
            if found is Some {
                assert(self.spec_entries()[found->0].0 != name@);
            }
        }
        None
    }

    /// Inserts a name-to-type pair: a known name keeps its first-seen
    /// position and gets the new type; a new name appends.
    #[verifier::loop_isolation(false)]
    pub fn insert(&mut self, name: &str, dtype: LogicalType)
        requires
            old(self).wf(),
        ensures
            final (self).wf(),
            final (self).spec_entries() == spec_insert(old(self).spec_entries(), name@, dtype@),
    {
        let ghost old_entries = self.spec_entries();
        let idx = self.index_of(name);
        proof {
            Self::lemma_index_of(old_entries, name@);
        }
        match idx {
            Some(i) => {
                proof {
                    lemma_fields_view(self.fields@);
                }
                let name_copy: String = name.to_owned();
                self.fields.set(i, SchemaField { name: name_copy, dtype });
                proof {
                    lemma_fields_view(self.fields@);
                    assert(self.spec_entries() =~= spec_insert(old_entries, name@, dtype_view(&dtype)));
                    assert forall|a: int, b: int|
                        0 <= a < b < self.spec_entries().len() implies (
                    #[trigger] self.spec_entries()[a]).0 != (#[trigger] self.spec_entries()[b]).0 by {
                        assert(old_entries[a].0 != old_entries[b].0);
                        assert(old_entries[i as int].0 == name@);
                    }
                }
            },
            None => {
                proof {
                    lemma_fields_view(self.fields@);
                }
                let name_copy: String = name.to_owned();
                self.fields.push(SchemaField { name: name_copy, dtype });
                proof {
                    lemma_fields_view(self.fields@);
                    assert(self.fields@.drop_last() =~= old(self).fields@);
                    assert(self.spec_entries() =~= spec_insert(old_entries, name@, dtype_view(&dtype)));
                    assert forall|a: int, b: int|
                        0 <= a < b < self.spec_entries().len() implies (
                    #[trigger] self.spec_entries()[a]).0 != (#[trigger] self.spec_entries()[b]).0 by {
                        if b < old_entries.len() {
                            assert(old_entries[a].0 != old_entries[b].0);
                        } else {
                            assert(old_entries[a].0 != name@);
                        }
                    }
                }
            },
        }
    }
}

/// The first index at which a name occurs, given that the prefix before
/// `i` lacks it and entry `i` has it.
pub proof fn lemma_index_first(entries: Seq<(Seq<char>, DTypeV)>, name: Seq<char>, i: int)
    requires
        0 <= i < entries.len(),
        entries[i].0 == name,
        forall|j: int| 0 <= j < i ==> (#[trigger] entries[j]).0 != name,
    ensures
        Schema::spec_index_of(entries, name) == Some(i),
    decreases i,
{
    if i == 0 {
    } else {
        assert forall|j: int| 0 <= j < i - 1 implies (#[trigger] entries.skip(1)[j]).0 != name by {
            assert(entries.skip(1)[j] == entries[j + 1]);
        }
        assert(entries.skip(1)[i - 1] == entries[i]);
        lemma_index_first(entries.skip(1), name, i - 1);
    }
}

/// The model of `insert`: update in place when the name is present,
/// append otherwise.
pub open spec fn spec_insert(
    entries: Seq<(Seq<char>, DTypeV)>,
    name: Seq<char>,
    dtype: DTypeV,
) -> Seq<(Seq<char>, DTypeV)> {
    match Schema::spec_index_of(entries, name) {
        Some(i) => entries.update(i, (name, dtype)),
        None => entries.push((name, dtype)),
    }
}

} // verus!
