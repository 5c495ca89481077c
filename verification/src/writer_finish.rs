//! The last steps of writing a file, and how batches are cut.
use crate::checksum;
use crate::file_format::{ChecksumType, CompressionType, MAJOR_VERSION, MINOR_VERSION};
use crate::footer::MetadataSection;
use crate::postscript::PostScript;
use crate::vector_index::{VectorIndexConfig, VectorIndexDescriptor};
use crate::writer::FileWriteState;
use vstd::prelude::*;

verus! {

/// A batch has fewer rows than an encoding unit of a column is to have.
#[derive(Clone, Copy, Debug, PartialEq, Eq, Structural)]
pub struct BatchTooSmall;

/// The slices of `len` rows of a batch, as (start, length); rows behind the last
/// whole slice are left out.
pub open spec fn slices_of(num_rows: nat, len: nat) -> Seq<(int, int)> {
    Seq::new(num_rows / len, |j: int| (j * len as int, len as int))
}

/// How a column of a batch is cut before it is encoded: not at all, or into slices
/// with as many rows as an encoding unit of the column is to have.
pub fn batch_slices(num_rows: usize, encunit_len: Option<usize>) -> (r: Result<
    Vec<(usize, usize)>,
    BatchTooSmall,
>)
    requires
        encunit_len matches Some(len) ==> len > 0,
    ensures
        match encunit_len {
            None => r is Ok && (r->Ok_0)@ == seq![(0usize, num_rows)],
            Some(len) => if num_rows < len {
                r is Err
            } else {
                &&& r is Ok
                &&& (r->Ok_0)@.len() == slices_of(num_rows as nat, len as nat).len()
                &&& forall|j: int|
                    0 <= j < (r->Ok_0)@.len() ==> (#[trigger] (r->Ok_0)@[j]).0 == slices_of(
                        num_rows as nat,
                        len as nat,
                    )[j].0 && (r->Ok_0)@[j].1 == slices_of(num_rows as nat, len as nat)[j].1
            },
        },
{
    match encunit_len {
        None => {
            let mut whole: Vec<(usize, usize)> = Vec::new();
            whole.push((0, num_rows));
            assert(whole@ =~= seq![(0usize, num_rows)]);
            Ok(whole)
        },
        Some(len) => {
            if num_rows < len {
                return Err(BatchTooSmall);
            }
            let n: usize = num_rows / len;
            let mut slices: Vec<(usize, usize)> = Vec::new();
            let mut j: usize = 0;
            while j < n
                invariant
                    len > 0,
                    n == num_rows / len,
                    j <= n,
                    slices@.len() == j,
                    forall|i: int|
                        0 <= i < j ==> (#[trigger] slices@[i]).0 == i * len && slices@[i].1 == len,
                decreases n - j,
            {
                assert(j * len + len <= num_rows) by (nonlinear_arith)
                    requires
                        j + 1 <= n,
                        n == num_rows / len,
                        len > 0,
                ;
                let start: usize = j * len;
                let left: usize = num_rows - start;
                slices.push((start, if len < left { len } else { left }));
                j = j + 1;
            }
            Ok(slices)
        },
    }
}

/// How many chunks the dictionaries in front of dictionary `i` have.
pub open spec fn chunks_before(counts: Seq<usize>, i: int) -> nat
    decreases i,
{
    if i <= 0 {
        0
    } else {
        chunks_before(counts, i - 1) + counts[i - 1] as nat
    }
}

/// The chunks that dictionary `i` is made of: first that of the dictionary it has
/// been merged with, then its own.
pub open spec fn dictionary_chunks(
    counts: Seq<usize>,
    merge_peers: Seq<Option<usize>>,
    i: int,
) -> Seq<u32> {
    let own = Seq::new(counts[i] as nat, |k: int| (chunks_before(counts, i) + k) as u32);
    if i < merge_peers.len() && merge_peers[i] is Some {
        seq![chunks_before(counts, merge_peers[i]->0 as int) as u32] + own
    } else {
        own
    }
}

proof fn chunks_before_grows(counts: Seq<usize>, i: int, j: int)
    requires
        0 <= i <= j,
    ensures
        chunks_before(counts, i) <= chunks_before(counts, j),
    decreases j - i,
{
    if i < j {
        chunks_before_grows(counts, i, j - 1);
    }
}

/// The chunks that each dictionary is made of, if dictionary `i` has `counts[i]`
/// chunks of its own.
pub fn dictionary_positions(counts: &Vec<usize>, merge_peers: &Vec<Option<usize>>) -> (r: Vec<
    Vec<u32>,
>)
    requires
        chunks_before(counts@, counts@.len() as int) <= u32::MAX,
        forall|i: int|
            0 <= i < merge_peers@.len() && i < counts@.len() ==> ((
            #[trigger] merge_peers@[i]) matches Some(p) ==> p < counts@.len()),
    ensures
        r@.len() == counts@.len(),
        forall|i: int|
            0 <= i < counts@.len() ==> (#[trigger] r@[i])@ == dictionary_chunks(
                counts@,
                merge_peers@,
                i,
            ),
{
    let mut starts: Vec<usize> = Vec::new();
    let mut total: usize = 0;
    let mut i: usize = 0;
    while i < counts.len()
        invariant
            i <= counts@.len(),
            chunks_before(counts@, counts@.len() as int) <= u32::MAX,
            total == chunks_before(counts@, i as int),
            starts@.len() == i,
            forall|j: int| 0 <= j < i ==> #[trigger] starts@[j] == chunks_before(counts@, j),
        decreases counts@.len() - i,
    {
        proof {
            chunks_before_grows(counts@, i + 1, counts@.len() as int);
        }
        starts.push(total);
        total = total + counts[i];
        i = i + 1;
    }
    let mut positions: Vec<Vec<u32>> = Vec::new();
    let mut d: usize = 0;
    while d < counts.len()
        invariant
            d <= counts@.len(),
            chunks_before(counts@, counts@.len() as int) <= u32::MAX,
            forall|i: int|
                0 <= i < merge_peers@.len() && i < counts@.len() ==> ((
                #[trigger] merge_peers@[i]) matches Some(p) ==> p < counts@.len()),
            starts@.len() == counts@.len(),
            forall|j: int|
                0 <= j < counts@.len() ==> #[trigger] starts@[j] == chunks_before(counts@, j),
            positions@.len() == d,
            forall|i: int|
                0 <= i < d ==> (#[trigger] positions@[i])@ == dictionary_chunks(
                    counts@,
                    merge_peers@,
                    i,
                ),
        decreases counts@.len() - d,
    {
        let mut list: Vec<u32> = Vec::new();
        let ghost own = Seq::new(
            counts@[d as int] as nat,
            |k: int| (chunks_before(counts@, d as int) + k) as u32,
        );
        if d < merge_peers.len() {
            if let Some(peer) = merge_peers[d] {
                proof {
                    chunks_before_grows(counts@, peer as int, counts@.len() as int);
                }
                list.push(starts[peer] as u32);
            }
        }
        let ghost head = list@;
        let mut k: usize = 0;
        proof {
            chunks_before_grows(counts@, d + 1, counts@.len() as int);
        }
        while k < counts[d]
            invariant
                d < counts@.len(),
                k <= counts@[d as int],
                starts@.len() == counts@.len(),
                starts@[d as int] == chunks_before(counts@, d as int),
                chunks_before(counts@, d as int) + counts@[d as int] <= u32::MAX,
                own == Seq::new(
                    counts@[d as int] as nat,
                    |k: int| (chunks_before(counts@, d as int) + k) as u32,
                ),
                list@ =~= head + own.take(k as int),
            decreases counts@[d as int] - k,
        {
            list.push((starts[d] + k) as u32);
            k = k + 1;
        }
        assert(own.take(k as int) =~= own);
        assert(list@ =~= dictionary_chunks(counts@, merge_peers@, d as int));
        positions.push(list);
        d = d + 1;
    }
    positions
}

/// The bytes that an index takes: the index, and the module that searches it.
pub open spec fn config_bytes(c: VectorIndexConfig) -> Seq<u8> {
    c.data@ + (match c.wasm_module {
        Some(m) => m@,
        None => Seq::empty(),
    })
}

/// The bytes that indexes take.
pub open spec fn configs_bytes(configs: Seq<VectorIndexConfig>) -> Seq<u8>
    decreases configs.len(),
{
    if configs.len() == 0 {
        Seq::empty()
    } else {
        configs_bytes(configs.drop_last()) + config_bytes(configs.last())
    }
}

/// A section of `len` bytes at `at`.
pub open spec fn section_at(at: int, len: nat) -> MetadataSection {
    MetadataSection {
        offset: at as u64,
        size: len as u32,
        compression_type: CompressionType { code: 0 },
    }
}

/// The section of an index that stands at `at`.
pub open spec fn data_section_of(c: VectorIndexConfig, at: int) -> MetadataSection {
    section_at(at, c.data@.len())
}

/// The section of the module of an index that stands at `at`.
pub open spec fn wasm_section_of(c: VectorIndexConfig, at: int) -> Option<MetadataSection> {
    match c.wasm_module {
        Some(m) => Some(section_at(at + c.data@.len(), m@.len())),
        None => None,
    }
}

/// Where index `i` stands if the first stands at `at`.
pub open spec fn config_at(configs: Seq<VectorIndexConfig>, at: int, i: int) -> int {
    at + configs_bytes(configs.take(i)).len()
}

proof fn configs_bytes_grow(configs: Seq<VectorIndexConfig>, i: int)
    requires
        0 <= i < configs.len(),
    ensures
        configs_bytes(configs.take(i + 1)) == configs_bytes(configs.take(i)) + config_bytes(
            configs[i],
        ),
        configs_bytes(configs.take(i + 1)).len() <= configs_bytes(configs).len(),
        configs_bytes(configs).take(configs_bytes(configs.take(i + 1)).len() as int)
            == configs_bytes(configs.take(i + 1)),
    decreases configs.len() - i,
{
    assert(configs.take(i + 1).drop_last() =~= configs.take(i));
    assert(configs.take(i + 1).last() == configs[i]);
    if i + 1 == configs.len() {
        assert(configs.take(i + 1) =~= configs);
        assert(configs_bytes(configs).take(configs_bytes(configs).len() as int) =~= configs_bytes(
            configs,
        ));
    } else {
        configs_bytes_grow(configs, i + 1);
        let n = configs_bytes(configs.take(i + 1)).len() as int;
        let m = configs_bytes(configs.take(i + 2)).len() as int;
        assert(configs_bytes(configs).take(n) =~= configs_bytes(configs).take(m).take(n));
        assert(configs_bytes(configs.take(i + 2)).take(n) =~= configs_bytes(configs.take(i + 1)));
    }
}

/// The bytes of each index are where its section says, if `file` are the bytes of
/// the file from its start and the indexes stand at `at`.
pub proof fn sections_find_indexes(
    file: Seq<u8>,
    configs: Seq<VectorIndexConfig>,
    at: int,
    i: int,
)
    requires
        0 <= i < configs.len(),
        0 <= at,
        at + configs_bytes(configs).len() <= file.len() <= u64::MAX,
        file.subrange(at, at + configs_bytes(configs).len()) == configs_bytes(configs),
        configs[i].data@.len() <= u32::MAX,
    ensures
        ({
            let s = data_section_of(configs[i], config_at(configs, at, i));
            &&& s.offset + s.size <= file.len()
            &&& file.subrange(s.offset as int, s.offset + s.size) == configs[i].data@
        }),
{
    configs_bytes_grow(configs, i);
    let start = configs_bytes(configs.take(i)).len() as int;
    let end = configs_bytes(configs.take(i + 1)).len() as int;
    let n = configs[i].data@.len();
    let all = configs_bytes(configs);
    assert(file.subrange(at + start, at + start + n) =~= file.subrange(at, at + all.len()).subrange(
        start,
        start + n,
    ));
    assert(all.subrange(start, start + n) =~= all.take(end).subrange(start, start + n));
    assert(configs_bytes(configs.take(i + 1)).subrange(start, start + n) =~= configs[i].data@);
}

impl FileWriteState {
    /// Writes indexes and their modules, and returns their descriptors.
    pub fn write_vector_indexes(&mut self, configs: Vec<VectorIndexConfig>) -> (r: Vec<
        VectorIndexDescriptor,
    >)
        requires
            old(self).valid(),
            old(self).spec_position() + configs_bytes(configs@).len() <= u64::MAX,
        ensures
            final(self).valid(),
            old(self).wrote(*final(self), configs_bytes(configs@)),
            r@.len() == configs@.len(),
            forall|i: int|
                0 <= i < configs@.len() ==> (#[trigger] r@[i])@ == configs@[i].descriptor(
                    Some(
                        data_section_of(
                            configs@[i],
                            config_at(configs@, old(self).spec_position(), i),
                        ),
                    ),
                    wasm_section_of(
                        configs@[i],
                        config_at(configs@, old(self).spec_position(), i),
                    ),
                ),
    {
        let ghost all = configs@;
        let ghost at = self.spec_position();
        let mut descriptors: Vec<VectorIndexDescriptor> = Vec::new();
        assert(all.take(0) =~= Seq::empty());
        assert(self.out@ =~= old(self).out@ + configs_bytes(all.take(0)));
        assert(self.data_checksum@ =~= old(self).data_checksum@ + configs_bytes(all.take(0)));
        for config in it: configs
            invariant
                it.seq() == all,
                at == old(self).spec_position(),
                at + configs_bytes(all).len() <= u64::MAX,
                self.valid(),
                old(self).wrote(*self, configs_bytes(all.take(it.index() as int))),
                descriptors@.len() == it.index(),
                forall|i: int|
                    0 <= i < it.index() ==> (#[trigger] descriptors@[i])@ == all[i].descriptor(
                        Some(data_section_of(all[i], config_at(all, at, i))),
                        wasm_section_of(all[i], config_at(all, at, i)),
                    ),
        {
            let ghost k = it.index() as int;
            let ghost whole = config;
            proof {
                configs_bytes_grow(all, k);
            }
            let ghost front = configs_bytes(all.take(k));
            let data_section = self.write_section(config.data.as_slice());
            assert(data_section == data_section_of(all[k], config_at(all, at, k)));
            let mut wasm_section: Option<MetadataSection> = None;
            if let Some(module) = &config.wasm_module {
                wasm_section = Some(self.write_section(module.as_slice()));
            }
            proof {
                let done = front + config_bytes(whole);
                assert(self.out@ =~= old(self).out@ + done);
                assert(self.data_checksum@ =~= old(self).data_checksum@ + done);
            }
            descriptors.push(config.into_descriptor(Some(data_section), wasm_section));
        }
        assert(all.take(all.len() as int) =~= all);
        descriptors
    }

    /// The postscript, once the footer has been written: the metadata starts at
    /// `metadata_start` and ends here.
    pub fn postscript(&self, metadata_start: u64, footer_size: u32, schema_checksum: u64) -> (r:
        PostScript)
        requires
            self.valid(),
            metadata_start <= self.spec_position(),
        ensures
            r.metadata_size == (self.spec_position() - metadata_start) as u32,
            r.footer_size == footer_size,
            r.compression.is_uncompressed(),
            r.checksum_type.is_xx_hash(),
            r.data_checksum == checksum::xxh64_of(self.data_checksum@),
            r.schema_checksum == schema_checksum,
            r.major_version == MAJOR_VERSION,
            r.minor_version == MINOR_VERSION,
    {
        let metadata_size: u32 = #[verifier::truncate]
        ((self.stream_position() - metadata_start) as u32);
        PostScript {
            metadata_size,
            footer_size,
            compression: CompressionType::uncompressed(),
            checksum_type: ChecksumType::xx_hash(),
            data_checksum: self.data_checksum.finalize(),
            schema_checksum,
            major_version: MAJOR_VERSION,
            minor_version: MINOR_VERSION,
        }
    }
}

} // verus!
