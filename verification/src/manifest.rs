//! The list of the indexes that belong to a base file.
use vstd::prelude::*;

verus! {

/// The base file that an index was built from, as it was then.
#[derive(Clone, Debug)]
pub struct BaseFileBinding {
    pub path: String,
    pub size: u64,
    pub schema_checksum: u64,
    pub data_checksum: u64,
}

#[derive(Clone, Copy, Debug, PartialEq, Eq, Structural)]
pub enum IndexKind {
    IvfFlat,
    IvfPq,
}

/// One index. `build_params` and `quantization` hold JSON text.
#[derive(Clone, Debug)]
pub struct IndexEntry {
    pub name: String,
    pub path: String,
    pub kind: IndexKind,
    pub vector_leaf_index: u32,
    pub dim: u32,
    pub metric: String,
    pub build_params: String,
    pub quantization: Option<String>,
}

#[derive(Clone, Debug)]
pub struct IndexManifest {
    pub base: BaseFileBinding,
    pub indexes: Vec<IndexEntry>,
}

/// No index has the name that was asked for.
#[derive(Clone, Debug)]
pub struct IndexNotFound {
    pub name: String,
}

/// The base file is no longer the one that the index was built from.
#[derive(Clone, Copy, Debug, PartialEq, Eq, Structural)]
pub enum BaseMismatch {
    Size { expected: u64, got: u64 },
    SchemaChecksum { expected: u64, got: u64 },
    DataChecksum { expected: u64, got: u64 },
}

/// The place of the first index with this name.
pub open spec fn place_of(indexes: Seq<IndexEntry>, name: Seq<char>) -> Option<int>
    decreases indexes.len(),
{
    if indexes.len() == 0 {
        None
    } else {
        match place_of(indexes.drop_last(), name) {
            Some(i) => Some(i),
            None => if indexes.last().name@ == name {
                Some(indexes.len() - 1)
            } else {
                None
            },
        }
    }
}

/// The indexes once `entry` has been put in.
pub open spec fn with_entry(indexes: Seq<IndexEntry>, entry: IndexEntry) -> Seq<IndexEntry> {
    match place_of(indexes, entry.name@) {
        Some(i) => indexes.update(i, entry),
        None => indexes.push(entry),
    }
}

/// The place found is that of an index with the name, and none with the name
/// stands in front of it; where none is found, no index has the name.
pub proof fn place_of_is_first(indexes: Seq<IndexEntry>, name: Seq<char>)
    ensures
        match place_of(indexes, name) {
            Some(i) => 0 <= i < indexes.len() && indexes[i].name@ == name && forall|j: int|
                0 <= j < i ==> (#[trigger] indexes[j]).name@ != name,
            None => forall|j: int|
                0 <= j < indexes.len() ==> (#[trigger] indexes[j]).name@ != name,
        },
    decreases indexes.len(),
{
    if indexes.len() > 0 {
        let front = indexes.drop_last();
        place_of_is_first(front, name);
        assert forall|j: int| 0 <= j < front.len() implies front[j] == #[trigger] indexes[j] by {}
    }
}

proof fn place_is_unique(indexes: Seq<IndexEntry>, name: Seq<char>, i: int)
    requires
        0 <= i < indexes.len(),
        indexes[i].name@ == name,
        forall|j: int| 0 <= j < i ==> (#[trigger] indexes[j]).name@ != name,
    ensures
        place_of(indexes, name) == Some(i),
{
    place_of_is_first(indexes, name);
}

/// An index that was put in is found under its name.
pub proof fn added_is_found(indexes: Seq<IndexEntry>, entry: IndexEntry)
    ensures
        place_of(with_entry(indexes, entry), entry.name@) matches Some(i) && with_entry(
            indexes,
            entry,
        )[i] == entry,
{
    let name = entry.name@;
    let after = with_entry(indexes, entry);
    place_of_is_first(indexes, name);
    match place_of(indexes, name) {
        Some(i) => {
            assert forall|j: int| 0 <= j < i implies (#[trigger] after[j]).name@ != name by {
                assert(after[j] == indexes[j]);
            }
            place_is_unique(after, name, i);
        },
        None => {
            assert forall|j: int| 0 <= j < indexes.len() implies (#[trigger] after[j]).name@
                != name by {
                assert(after[j] == indexes[j]);
            }
            place_is_unique(after, name, indexes.len() as int);
        },
    }
}

/// Putting an index in leaves what is found under every other name.
pub proof fn others_are_kept(indexes: Seq<IndexEntry>, entry: IndexEntry, name: Seq<char>)
    requires
        name != entry.name@,
    ensures
        place_of(with_entry(indexes, entry), name) == place_of(indexes, name),
        place_of(indexes, name) matches Some(i) ==> with_entry(indexes, entry)[i] == indexes[i],
{
    let after = with_entry(indexes, entry);
    place_of_is_first(indexes, name);
    place_of_is_first(indexes, entry.name@);
    match place_of(indexes, name) {
        Some(i) => {
            assert(after[i] == indexes[i]);
            assert forall|j: int| 0 <= j < i implies (#[trigger] after[j]).name@ != name by {
                assert(after[j] == indexes[j] || after[j] == entry);
            }
            place_is_unique(after, name, i);
        },
        None => {
            place_of_is_first(after, name);
            if let Some(i) = place_of(after, name) {
                assert(after[i] == entry || after[i] == indexes[i]);
                assert(false);
            }
        },
    }
}

fn find_place(indexes: &Vec<IndexEntry>, name: &str) -> (r: Option<usize>)
    ensures
        match r {
            Some(i) => place_of(indexes@, name@) == Some(i as int) && i < indexes@.len(),
            None => place_of(indexes@, name@) == None::<int>,
        },
{
    let mut i: usize = 0;
    assert(indexes@.take(0) =~= Seq::<IndexEntry>::empty());
    while i < indexes.len()
        invariant
            i <= indexes@.len(),
            place_of(indexes@.take(i as int), name@) == None::<int>,
        decreases indexes@.len() - i,
    {
        assert(indexes@.take(i + 1).drop_last() =~= indexes@.take(i as int));
        if same_text(indexes[i].name.as_str(), name) {
            proof {
                place_of_is_first(indexes@.take(i as int), name@);
                assert forall|j: int| 0 <= j < i implies (#[trigger] indexes@[j]).name@
                    != name@ by {
                    assert(indexes@.take(i as int)[j] == indexes@[j]);
                }
                place_is_unique(indexes@, name@, i as int);
            }
            return Some(i);
        }
        i = i + 1;
    }
    assert(indexes@.take(i as int) =~= indexes@);
    None
}

/// Compares two texts.
pub fn same_text(a: &str, b: &str) -> (r: bool)
    ensures
        r == (a@ == b@),
{
    let left = a.to_owned();
    let right = b.to_owned();
    left == right
}

impl IndexManifest {
    /// Puts `entry` in the place of the index with its name, or behind all
    /// others if there is none.
    pub fn add_or_replace_index(&mut self, entry: IndexEntry)
        ensures
            final(self).base == old(self).base,
            final(self).indexes@ == with_entry(old(self).indexes@, entry),
    {
        match find_place(&self.indexes, entry.name.as_str()) {
            Some(i) => {
                self.indexes[i] = entry;
            },
            None => {
                self.indexes.push(entry);
            },
        }
    }

    /// The index with this name.
    pub fn get_by_name(&self, name: &str) -> (r: Result<&IndexEntry, IndexNotFound>)
        ensures
            match r {
                Ok(e) => place_of(self.indexes@, name@) matches Some(i) && *e == self.indexes@[i],
                Err(e) => place_of(self.indexes@, name@) == None::<int> && e.name@ == name@,
            },
    {
        match find_place(&self.indexes, name) {
            Some(i) => Ok(&self.indexes[i]),
            None => Err(IndexNotFound { name: name.to_owned() }),
        }
    }

    /// Holds the size of the base file, as found now, against the one it had.
    pub fn validate_base(&self, actual_size: u64) -> (r: Result<(), BaseMismatch>)
        ensures
            r == self.base.size_check(actual_size),
    {
        self.base.validate_size(actual_size)
    }
}

impl IndexManifest {
    /// The manifest with an index that was built now: the one there was, or a new
    /// one, bound to the base file as it is now.
    pub fn with_index(existing: Option<IndexManifest>, base: BaseFileBinding, entry: IndexEntry) -> (r:
        Self)
        ensures
            r.base == base,
            r.indexes@ == with_entry(
                match existing {
                    Some(m) => m.indexes@,
                    None => Seq::empty(),
                },
                entry,
            ),
    {
        let indexes = match existing {
            Some(m) => m.indexes,
            None => Vec::new(),
        };
        let mut r = IndexManifest { base, indexes };
        r.add_or_replace_index(entry);
        r
    }

    /// The manifest with an index of quantized vectors that was built now. A manifest
    /// that there was keeps the path of the base file.
    pub fn with_pq_index(
        existing: Option<IndexManifest>,
        base: BaseFileBinding,
        entry: IndexEntry,
    ) -> (r: Self)
        ensures
            r.base == (match existing {
                Some(m) => BaseFileBinding { path: m.base.path, ..base },
                None => base,
            }),
            r.indexes@ == with_entry(
                match existing {
                    Some(m) => m.indexes@,
                    None => Seq::empty(),
                },
                entry,
            ),
    {
        let mut r = match existing {
            Some(m) => IndexManifest {
                base: BaseFileBinding {
                    path: m.base.path,
                    size: base.size,
                    schema_checksum: base.schema_checksum,
                    data_checksum: base.data_checksum,
                },
                indexes: m.indexes,
            },
            None => IndexManifest { base, indexes: Vec::new() },
        };
        r.add_or_replace_index(entry);
        r
    }
}

/// The directory with the indexes of a base file.
pub fn index_dir(base_path: &str) -> (r: String)
    ensures
        r@ == base_path@ + ".vindex"@,
{
    let mut dir = base_path.to_owned();
    dir.append(".vindex");
    dir
}

/// How an index is stored.
#[derive(Clone, Copy, Debug, PartialEq, Eq, Structural)]
pub enum IndexFile {
    IvfFlat,
    IvfFlatArtifact,
    IvfPq,
}

/// The ending of the name of an index file.
pub open spec fn suffix_of(file: IndexFile) -> Seq<char> {
    match file {
        IndexFile::IvfFlat => ".ivf_flat"@,
        IndexFile::IvfFlatArtifact => ".ivf_flat.artifact"@,
        IndexFile::IvfPq => ".ivf_pq"@,
    }
}

/// The name of the file of an index.
pub fn index_file_name(index_name: &str, file: IndexFile) -> (r: String)
    ensures
        r@ == index_name@ + suffix_of(file),
{
    let mut name = index_name.to_owned();
    match file {
        IndexFile::IvfFlat => name.append(".ivf_flat"),
        IndexFile::IvfFlatArtifact => name.append(".ivf_flat.artifact"),
        IndexFile::IvfPq => name.append(".ivf_pq"),
    }
    name
}

impl BaseFileBinding {
    pub open spec fn size_check(self, actual_size: u64) -> Result<(), BaseMismatch> {
        if actual_size != self.size {
            Err(BaseMismatch::Size { expected: self.size, got: actual_size })
        } else {
            Ok(())
        }
    }

    /// Holds a file size against the one recorded.
    pub fn validate_size(&self, actual_size: u64) -> (r: Result<(), BaseMismatch>)
        ensures
            r == self.size_check(actual_size),
    {
        if actual_size != self.size {
            return Err(BaseMismatch::Size { expected: self.size, got: actual_size });
        }
        Ok(())
    }

    pub open spec fn checksum_check(self, schema_checksum: u64, data_checksum: u64) -> Result<
        (),
        BaseMismatch,
    > {
        if schema_checksum != self.schema_checksum {
            Err(
                BaseMismatch::SchemaChecksum {
                    expected: self.schema_checksum,
                    got: schema_checksum,
                },
            )
        } else if data_checksum != self.data_checksum {
            Err(BaseMismatch::DataChecksum { expected: self.data_checksum, got: data_checksum })
        } else {
            Ok(())
        }
    }

    /// Holds the checksums of a file against those recorded, the schema's first.
    pub fn validate_checksums(&self, schema_checksum: u64, data_checksum: u64) -> (r: Result<
        (),
        BaseMismatch,
    >)
        ensures
            r == self.checksum_check(schema_checksum, data_checksum),
    {
        if schema_checksum != self.schema_checksum {
            return Err(
                BaseMismatch::SchemaChecksum {
                    expected: self.schema_checksum,
                    got: schema_checksum,
                },
            );
        }
        if data_checksum != self.data_checksum {
            return Err(
                BaseMismatch::DataChecksum { expected: self.data_checksum, got: data_checksum },
            );
        }
        Ok(())
    }
}

} // verus!
