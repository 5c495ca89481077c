//! Vector indexes that are embedded in a file: their descriptors, and how they
//! answer queries.
pub mod brute_force;
pub mod construct;
pub mod hnsw;
pub mod hnsw_build;
pub mod hnsw_file;
pub mod hnsw_index;
pub mod hnsw_link;
pub mod layer;
pub mod runtime;
pub mod wasm;

use crate::file_format;
use crate::file_format::list_or_empty;
use crate::floats;
use crate::footer::MetadataSection;
use crate::le;
use crate::vector;
use vstd::prelude::*;

verus! {

/// How an index searches.
#[derive(Clone, Copy, Debug, PartialEq, Eq, Structural)]
pub enum VectorIndexAlgorithm {
    BruteForce,
    Hnsw,
    Ivf,
    CustomWasm,
}

/// The algorithm as stored; later versions may store others.
#[derive(Clone, Copy, Debug, PartialEq, Eq, Structural)]
pub enum VectorIndexAlgorithmCode {
    BruteForce,
    Hnsw,
    Ivf,
    CustomWasm,
    Unknown,
}

impl VectorIndexAlgorithm {
    pub open spec fn stored(self) -> VectorIndexAlgorithmCode {
        match self {
            VectorIndexAlgorithm::BruteForce => VectorIndexAlgorithmCode::BruteForce,
            VectorIndexAlgorithm::Hnsw => VectorIndexAlgorithmCode::Hnsw,
            VectorIndexAlgorithm::Ivf => VectorIndexAlgorithmCode::Ivf,
            VectorIndexAlgorithm::CustomWasm => VectorIndexAlgorithmCode::CustomWasm,
        }
    }

    pub fn to_code(self) -> (r: VectorIndexAlgorithmCode)
        ensures
            r == self.stored(),
    {
        match self {
            VectorIndexAlgorithm::BruteForce => VectorIndexAlgorithmCode::BruteForce,
            VectorIndexAlgorithm::Hnsw => VectorIndexAlgorithmCode::Hnsw,
            VectorIndexAlgorithm::Ivf => VectorIndexAlgorithmCode::Ivf,
            VectorIndexAlgorithm::CustomWasm => VectorIndexAlgorithmCode::CustomWasm,
        }
    }
}

impl VectorIndexAlgorithmCode {
    /// What is read; brute force stands for what is not known.
    pub open spec fn meaning(self) -> VectorIndexAlgorithm {
        match self {
            VectorIndexAlgorithmCode::Hnsw => VectorIndexAlgorithm::Hnsw,
            VectorIndexAlgorithmCode::Ivf => VectorIndexAlgorithm::Ivf,
            VectorIndexAlgorithmCode::CustomWasm => VectorIndexAlgorithm::CustomWasm,
            _ => VectorIndexAlgorithm::BruteForce,
        }
    }

    pub fn to_algorithm(self) -> (r: VectorIndexAlgorithm)
        ensures
            r == self.meaning(),
    {
        match self {
            VectorIndexAlgorithmCode::Hnsw => VectorIndexAlgorithm::Hnsw,
            VectorIndexAlgorithmCode::Ivf => VectorIndexAlgorithm::Ivf,
            VectorIndexAlgorithmCode::CustomWasm => VectorIndexAlgorithm::CustomWasm,
            _ => VectorIndexAlgorithm::BruteForce,
        }
    }
}

/// How far apart two vectors are.
#[derive(Clone, Copy, Debug, PartialEq, Eq, Structural)]
pub enum VectorDistanceMetric {
    L2,
    Cosine,
    Dot,
}

/// The metric as stored; later versions may store others.
#[derive(Clone, Copy, Debug, PartialEq, Eq, Structural)]
pub enum VectorDistanceMetricCode {
    L2,
    Cosine,
    Dot,
    Unknown,
}

impl VectorDistanceMetric {
    pub open spec fn stored(self) -> VectorDistanceMetricCode {
        match self {
            VectorDistanceMetric::L2 => VectorDistanceMetricCode::L2,
            VectorDistanceMetric::Cosine => VectorDistanceMetricCode::Cosine,
            VectorDistanceMetric::Dot => VectorDistanceMetricCode::Dot,
        }
    }

    pub fn to_code(self) -> (r: VectorDistanceMetricCode)
        ensures
            r == self.stored(),
    {
        match self {
            VectorDistanceMetric::L2 => VectorDistanceMetricCode::L2,
            VectorDistanceMetric::Cosine => VectorDistanceMetricCode::Cosine,
            VectorDistanceMetric::Dot => VectorDistanceMetricCode::Dot,
        }
    }
}

impl VectorDistanceMetricCode {
    /// What is read; L2 stands for what is not known.
    pub open spec fn meaning(self) -> VectorDistanceMetric {
        match self {
            VectorDistanceMetricCode::Cosine => VectorDistanceMetric::Cosine,
            VectorDistanceMetricCode::Dot => VectorDistanceMetric::Dot,
            _ => VectorDistanceMetric::L2,
        }
    }

    pub fn to_metric(self) -> (r: VectorDistanceMetric)
        ensures
            r == self.meaning(),
    {
        match self {
            VectorDistanceMetricCode::Cosine => VectorDistanceMetric::Cosine,
            VectorDistanceMetricCode::Dot => VectorDistanceMetric::Dot,
            _ => VectorDistanceMetric::L2,
        }
    }
}

/// How components are made smaller.
#[derive(Clone, Copy, Debug, PartialEq, Eq, Structural)]
pub enum QuantizationMethod {
    Unquantized,
    Scalar,
    Product,
    Custom,
}

/// The method as stored; later versions may store others.
#[derive(Clone, Copy, Debug, PartialEq, Eq, Structural)]
pub enum QuantizationMethodCode {
    Unquantized,
    Scalar,
    Product,
    Custom,
    Unknown,
}

impl Default for QuantizationMethod {
    fn default() -> (r: Self)
        ensures
            r == QuantizationMethod::Unquantized,
    {
        QuantizationMethod::Unquantized
    }
}

impl QuantizationMethod {
    pub open spec fn stored(self) -> QuantizationMethodCode {
        match self {
            QuantizationMethod::Unquantized => QuantizationMethodCode::Unquantized,
            QuantizationMethod::Scalar => QuantizationMethodCode::Scalar,
            QuantizationMethod::Product => QuantizationMethodCode::Product,
            QuantizationMethod::Custom => QuantizationMethodCode::Custom,
        }
    }

    pub fn to_code(self) -> (r: QuantizationMethodCode)
        ensures
            r == self.stored(),
    {
        match self {
            QuantizationMethod::Unquantized => QuantizationMethodCode::Unquantized,
            QuantizationMethod::Scalar => QuantizationMethodCode::Scalar,
            QuantizationMethod::Product => QuantizationMethodCode::Product,
            QuantizationMethod::Custom => QuantizationMethodCode::Custom,
        }
    }
}

impl QuantizationMethodCode {
    /// What is read; no quantization stands for what is not known.
    pub open spec fn meaning(self) -> QuantizationMethod {
        match self {
            QuantizationMethodCode::Scalar => QuantizationMethod::Scalar,
            QuantizationMethodCode::Product => QuantizationMethod::Product,
            QuantizationMethodCode::Custom => QuantizationMethod::Custom,
            _ => QuantizationMethod::Unquantized,
        }
    }

    pub fn to_method(self) -> (r: QuantizationMethod)
        ensures
            r == self.meaning(),
    {
        match self {
            QuantizationMethodCode::Scalar => QuantizationMethod::Scalar,
            QuantizationMethodCode::Product => QuantizationMethod::Product,
            QuantizationMethodCode::Custom => QuantizationMethod::Custom,
            _ => QuantizationMethod::Unquantized,
        }
    }
}

/// What is stored for an algorithm, a metric and a method is read as the same.
pub proof fn codes_round_trip(
    a: VectorIndexAlgorithm,
    m: VectorDistanceMetric,
    q: QuantizationMethod,
)
    ensures
        a.stored().meaning() == a,
        m.stored().meaning() == m,
        q.stored().meaning() == q,
{
}

/// How a range of components is made smaller.
#[derive(Clone, Debug, PartialEq, Eq)]
pub struct QuantizationSegment {
    pub start_dim: u32,
    pub end_dim: u32,
    pub method: QuantizationMethod,
    pub bits: u8,
    pub params: Vec<u8>,
}

/// What a segment says.
#[verifier::ext_equal]
pub struct Segment {
    pub start_dim: u32,
    pub end_dim: u32,
    pub method: QuantizationMethod,
    pub bits: u8,
    pub params: Seq<u8>,
}

/// The table of a segment as stored; the parameters may be missing.
#[derive(Clone, Debug)]
pub struct QuantizationSegmentNode {
    pub start_dim: u32,
    pub end_dim: u32,
    pub method: QuantizationMethodCode,
    pub bits: u8,
    pub params: Option<Vec<u8>>,
}

impl View for QuantizationSegment {
    type V = Segment;

    open spec fn view(&self) -> Segment {
        Segment {
            start_dim: self.start_dim,
            end_dim: self.end_dim,
            method: self.method,
            bits: self.bits,
            params: self.params@,
        }
    }
}

impl QuantizationSegmentNode {
    /// What is read of it.
    pub open spec fn meaning(self) -> Segment {
        Segment {
            start_dim: self.start_dim,
            end_dim: self.end_dim,
            method: self.method.meaning(),
            bits: self.bits,
            params: file_format::or_empty(self.params),
        }
    }
}

/// The bytes, none if there are none.
pub fn bytes_or_none(v: &Vec<u8>) -> (r: Option<Vec<u8>>)
    ensures
        r is None <==> v@.len() == 0,
        file_format::or_empty(r) == v@,
{
    if v.len() == 0 {
        None
    } else {
        let mut copy: Vec<u8> = Vec::new();
        copy.extend_from_slice(v.as_slice());
        assert(copy@ =~= v@);
        Some(copy)
    }
}

impl QuantizationSegment {
    /// The table; parameters are left out where there are none.
    pub fn to_fb(&self) -> (r: QuantizationSegmentNode)
        ensures
            r.meaning() == self@,
            r.params is None <==> self.params@.len() == 0,
    {
        QuantizationSegmentNode {
            start_dim: self.start_dim,
            end_dim: self.end_dim,
            method: self.method.to_code(),
            bits: self.bits,
            params: bytes_or_none(&self.params),
        }
    }

    /// What the table says.
    pub fn from_fb(node: QuantizationSegmentNode) -> (r: Self)
        ensures
            r@ == node.meaning(),
    {
        QuantizationSegment {
            start_dim: node.start_dim,
            end_dim: node.end_dim,
            method: node.method.to_method(),
            bits: node.bits,
            params: list_or_empty(node.params),
        }
    }
}

/// How the vectors of an index are made smaller.
#[derive(Clone, Debug, PartialEq, Eq)]
pub struct QuantizationSpec {
    pub dimension: u32,
    pub segments: Vec<QuantizationSegment>,
}

/// What a quantization says.
#[verifier::ext_equal]
pub struct Quantization {
    pub dimension: u32,
    pub segments: Seq<Segment>,
}

/// The table of a quantization as stored; the segments may be missing.
#[derive(Clone, Debug)]
pub struct QuantizationSpecNode {
    pub dimension: u32,
    pub segments: Option<Vec<QuantizationSegmentNode>>,
}

impl View for QuantizationSpec {
    type V = Quantization;

    open spec fn view(&self) -> Quantization {
        Quantization {
            dimension: self.dimension,
            segments: self.segments@.map_values(|s: QuantizationSegment| s@),
        }
    }
}

impl QuantizationSpecNode {
    /// What is read of it.
    pub open spec fn meaning(self) -> Quantization {
        Quantization {
            dimension: self.dimension,
            segments: file_format::or_empty(self.segments).map_values(
                |s: QuantizationSegmentNode| s.meaning(),
            ),
        }
    }
}

/// What is read where there may be no table: with none, nothing is quantized.
pub open spec fn quantization_of(node: Option<QuantizationSpecNode>) -> Quantization {
    match node {
        Some(n) => n.meaning(),
        None => Quantization { dimension: 0, segments: Seq::empty() },
    }
}

impl Default for QuantizationSpec {
    fn default() -> (r: Self)
        ensures
            r@ == quantization_of(None),
    {
        let r = QuantizationSpec { dimension: 0, segments: Vec::new() };
        assert(r@.segments =~= Seq::empty());
        r
    }
}

impl QuantizationSpec {
    /// The table; none if nothing is quantized.
    pub fn to_fb(&self) -> (r: Option<QuantizationSpecNode>)
        ensures
            r is None <==> self.dimension == 0 && self.segments@.len() == 0,
            quantization_of(r) == self@,
    {
        if self.dimension == 0 && self.segments.len() == 0 {
            assert(self@.segments =~= Seq::empty());
            return None;
        }
        if self.segments.len() == 0 {
            let r = QuantizationSpecNode { dimension: self.dimension, segments: None };
            assert(r.meaning().segments =~= self@.segments);
            return Some(r);
        }
        let mut segments: Vec<QuantizationSegmentNode> = Vec::new();
        let mut i: usize = 0;
        while i < self.segments.len()
            invariant
                i <= self.segments@.len(),
                segments@.len() == i,
                forall|j: int|
                    0 <= j < i ==> (#[trigger] segments@[j]).meaning() == self.segments@[j]@,
            decreases self.segments@.len() - i,
        {
            segments.push(self.segments[i].to_fb());
            i = i + 1;
        }
        let r = QuantizationSpecNode { dimension: self.dimension, segments: Some(segments) };
        assert(r.meaning().segments =~= self@.segments);
        Some(r)
    }

    /// What the table says.
    pub fn from_fb(node: QuantizationSpecNode) -> (r: Self)
        ensures
            r@ == node.meaning(),
    {
        let dimension: u32 = node.dimension;
        let ghost all = file_format::or_empty(node.segments);
        let nodes: Vec<QuantizationSegmentNode> = list_or_empty(node.segments);
        let mut segments: Vec<QuantizationSegment> = Vec::new();
        for segment in it: nodes
            invariant
                it.seq() == all,
                segments@.len() == it.index(),
                forall|j: int|
                    0 <= j < segments@.len() ==> (#[trigger] segments@[j])@ == all[j].meaning(),
        {
            segments.push(QuantizationSegment::from_fb(segment));
        }
        let r = QuantizationSpec { dimension, segments };
        assert(r@.segments =~= node.meaning().segments);
        r
    }
}

/// An index that a file holds.
#[derive(Clone, Debug)]
pub struct VectorIndexDescriptor {
    pub index_id: u32,
    pub column: String,
    pub algorithm: VectorIndexAlgorithm,
    pub distance_metric: VectorDistanceMetric,
    pub priority: u16,
    pub usage_hint: Option<String>,
    pub quantization: QuantizationSpec,
    pub custom_params: Vec<u8>,
    /// Where the index is.
    pub data_section: Option<MetadataSection>,
    /// Where the module that searches it is.
    pub wasm_section: Option<MetadataSection>,
}

/// What a descriptor says.
#[verifier::ext_equal]
pub struct Descriptor {
    pub index_id: u32,
    pub column: Seq<char>,
    pub algorithm: VectorIndexAlgorithm,
    pub distance_metric: VectorDistanceMetric,
    pub priority: u16,
    pub usage_hint: Option<Seq<char>>,
    pub quantization: Quantization,
    pub custom_params: Seq<u8>,
    pub data_section: Option<MetadataSection>,
    pub wasm_section: Option<MetadataSection>,
}

/// The table of a descriptor as stored; parts may be missing.
#[derive(Clone, Debug)]
pub struct VectorIndexDescriptorNode {
    pub index_id: u32,
    pub column: Option<String>,
    pub algorithm: VectorIndexAlgorithmCode,
    pub metric: VectorDistanceMetricCode,
    pub priority: u16,
    pub usage_hint: Option<String>,
    pub data_section: Option<MetadataSection>,
    pub wasm_section: Option<MetadataSection>,
    pub quantization: Option<QuantizationSpecNode>,
    pub custom_params: Option<Vec<u8>>,
}

/// The text, if there is one.
pub open spec fn text_of(s: Option<String>) -> Option<Seq<char>> {
    match s {
        Some(t) => Some(t@),
        None => None,
    }
}

/// The text; an empty one if it is missing.
pub open spec fn text_or_empty(s: Option<String>) -> Seq<char> {
    match s {
        Some(t) => t@,
        None => Seq::empty(),
    }
}

impl View for VectorIndexDescriptor {
    type V = Descriptor;

    open spec fn view(&self) -> Descriptor {
        Descriptor {
            index_id: self.index_id,
            column: self.column@,
            algorithm: self.algorithm,
            distance_metric: self.distance_metric,
            priority: self.priority,
            usage_hint: text_of(self.usage_hint),
            quantization: self.quantization@,
            custom_params: self.custom_params@,
            data_section: self.data_section,
            wasm_section: self.wasm_section,
        }
    }
}

impl VectorIndexDescriptorNode {
    /// What is read of it.
    pub open spec fn meaning(self) -> Descriptor {
        Descriptor {
            index_id: self.index_id,
            column: text_or_empty(self.column),
            algorithm: self.algorithm.meaning(),
            distance_metric: self.metric.meaning(),
            priority: self.priority,
            usage_hint: text_of(self.usage_hint),
            quantization: quantization_of(self.quantization),
            custom_params: file_format::or_empty(self.custom_params),
            data_section: self.data_section,
            wasm_section: self.wasm_section,
        }
    }
}

/// Copies a text that may be missing.
fn copy_text(s: &Option<String>) -> (r: Option<String>)
    ensures
        text_of(r) == text_of(*s),
{
    match s {
        Some(t) => Some(t.as_str().to_owned()),
        None => None,
    }
}

/// Copies a section that may be missing.
fn copy_section(s: &Option<MetadataSection>) -> (r: Option<MetadataSection>)
    ensures
        r == *s,
{
    match s {
        Some(m) => Some(*m),
        None => None,
    }
}

impl VectorIndexDescriptor {
    /// Where the index is.
    pub fn data_section(&self) -> (r: Option<&MetadataSection>)
        ensures
            r matches Some(m) ==> self.data_section == Some(*m),
            r is None <==> self.data_section is None,
    {
        self.data_section.as_ref()
    }

    /// Where the module that searches the index is.
    pub fn wasm_section(&self) -> (r: Option<&MetadataSection>)
        ensures
            r matches Some(m) ==> self.wasm_section == Some(*m),
            r is None <==> self.wasm_section is None,
    {
        self.wasm_section.as_ref()
    }

    /// The table; parameters and quantization are left out where there are none.
    pub fn to_fb(&self) -> (r: VectorIndexDescriptorNode)
        ensures
            r.meaning() == self@,
            r.column is Some,
            r.custom_params is None <==> self.custom_params@.len() == 0,
            r.quantization is None <==> self.quantization.dimension == 0
                && self.quantization.segments@.len() == 0,
    {
        let column: String = self.column.as_str().to_owned();
        VectorIndexDescriptorNode {
            index_id: self.index_id,
            column: Some(column),
            algorithm: self.algorithm.to_code(),
            metric: self.distance_metric.to_code(),
            priority: self.priority,
            usage_hint: copy_text(&self.usage_hint),
            data_section: copy_section(&self.data_section),
            wasm_section: copy_section(&self.wasm_section),
            quantization: self.quantization.to_fb(),
            custom_params: bytes_or_none(&self.custom_params),
        }
    }

    /// What the table says.
    pub fn from_fb(node: VectorIndexDescriptorNode) -> (r: Self)
        ensures
            r@ == node.meaning(),
    {
        let quantization = match node.quantization {
            Some(q) => QuantizationSpec::from_fb(q),
            None => QuantizationSpec::default(),
        };
        let column = match node.column {
            Some(c) => c,
            None => String::new(),
        };
        VectorIndexDescriptor {
            index_id: node.index_id,
            column,
            algorithm: node.algorithm.to_algorithm(),
            distance_metric: node.metric.to_metric(),
            priority: node.priority,
            usage_hint: node.usage_hint,
            quantization,
            custom_params: list_or_empty(node.custom_params),
            data_section: node.data_section,
            wasm_section: node.wasm_section,
        }
    }
}

/// An index to be embedded in a file.
#[derive(Clone, Debug)]
pub struct VectorIndexConfig {
    pub index_id: u32,
    pub column: String,
    pub algorithm: VectorIndexAlgorithm,
    pub distance_metric: VectorDistanceMetric,
    pub priority: u16,
    pub usage_hint: Option<String>,
    pub quantization: QuantizationSpec,
    pub custom_params: Vec<u8>,
    /// The bytes of the index.
    pub data: Vec<u8>,
    /// The bytes of the module that searches it.
    pub wasm_module: Option<Vec<u8>>,
}

impl VectorIndexConfig {
    /// The descriptor of the index once it stands in these sections.
    pub open spec fn descriptor(
        self,
        data_section: Option<MetadataSection>,
        wasm_section: Option<MetadataSection>,
    ) -> Descriptor {
        Descriptor {
            index_id: self.index_id,
            column: self.column@,
            algorithm: self.algorithm,
            distance_metric: self.distance_metric,
            priority: self.priority,
            usage_hint: text_of(self.usage_hint),
            quantization: self.quantization@,
            custom_params: self.custom_params@,
            data_section,
            wasm_section,
        }
    }

    /// The descriptor of the index once it stands in these sections.
    pub fn into_descriptor(
        self,
        data_section: Option<MetadataSection>,
        wasm_section: Option<MetadataSection>,
    ) -> (r: VectorIndexDescriptor)
        ensures
            r@ == self.descriptor(data_section, wasm_section),
    {
        VectorIndexDescriptor {
            index_id: self.index_id,
            column: self.column,
            algorithm: self.algorithm,
            distance_metric: self.distance_metric,
            priority: self.priority,
            usage_hint: self.usage_hint,
            quantization: self.quantization,
            custom_params: self.custom_params,
            data_section,
            wasm_section,
        }
    }
}

impl Default for VectorIndexConfig {
    fn default() -> (r: Self)
        ensures
            r.index_id == 0,
            r.column@.len() == 0,
            r.algorithm == VectorIndexAlgorithm::BruteForce,
            r.distance_metric == VectorDistanceMetric::L2,
            r.priority == 0,
            r.usage_hint is None,
            r.quantization@ == quantization_of(None),
            r.custom_params@.len() == 0,
            r.data@.len() == 0,
            r.wasm_module is None,
    {
        VectorIndexConfig {
            index_id: 0,
            column: String::new(),
            algorithm: VectorIndexAlgorithm::BruteForce,
            distance_metric: VectorDistanceMetric::L2,
            priority: 0,
            usage_hint: None,
            quantization: QuantizationSpec::default(),
            custom_params: Vec::new(),
            data: Vec::new(),
            wasm_module: None,
        }
    }
}

/// How an index is built from a column.
#[derive(Clone, Debug)]
pub enum VectorIndexBuildAlgorithm {
    BruteForce,
    Hnsw { max_neighbors: usize, ef_search: usize },
}

/// An index to be built from a column.
#[derive(Clone, Debug)]
pub struct VectorIndexBuildConfig {
    pub index_id: u32,
    pub column: String,
    pub algorithm: VectorIndexBuildAlgorithm,
    pub distance_metric: VectorDistanceMetric,
    pub priority: u16,
    pub usage_hint: Option<String>,
    pub quantization: QuantizationSpec,
    pub custom_params: Vec<u8>,
}

/// Something found: a row, and the pattern of its distance.
#[derive(Clone, Copy, Debug, PartialEq, Eq, Structural)]
pub struct VectorSearchResult {
    pub row_id: u64,
    pub distance: u32,
}

/// Why an index cannot be built, read or searched.
#[derive(Clone, Copy, Debug, PartialEq, Eq, Structural)]
pub enum VectorIndexError {
    /// There are no vectors.
    NoVectors,
    /// Vectors have no components.
    ZeroDimension,
    /// Vectors differ in how many components they have.
    DimensionMismatch,
    /// There are no neighbors to be kept.
    ZeroNeighbors,
    /// The search would look at nothing.
    ZeroSearch,
    /// The bytes end within the header.
    HeaderTruncated,
    /// The vectors would take more bytes than can be counted.
    SizeOverflow,
    /// The bytes are not as many as the header says.
    SizeMismatch,
    /// The search would start at a vector that is not there.
    EntryPoint,
    /// The graph has no level.
    NoLevels,
    /// The bytes end within the vectors.
    VectorsTruncated,
    /// The bytes end in front of the lists of a vector.
    AdjacencyTruncated,
    /// The bytes end within a list of neighbors.
    NeighborsTruncated,
    /// A neighbor is not there.
    NeighborOutOfBounds,
    /// The bytes end within the filling behind the lists of a vector.
    PaddingTruncated,
    /// The filling is not made of zeros.
    PaddingNotZero,
    /// There are more bytes than the index takes.
    TrailingBytes,
    /// The query has not as many components as the vectors.
    QueryDimension,
    /// A distance is not a number.
    NanDistance,
    /// The index knows other metrics than this one.
    UnsupportedMetric,
    /// There is no search with this algorithm.
    UnsupportedAlgorithm,
    /// The module that searches the index is missing.
    MissingModule,
    /// The module did not do its work.
    ModuleFailed,
    /// The answer ends within its count.
    AnswerTooSmall,
    /// The answer is not as long as its count says.
    AnswerSizeMismatch,
    /// The answer is for another number of queries.
    BatchCountMismatch,
    /// The answer ends in front of the count of a query.
    BatchTruncated,
    /// The answer ends within the results of a query.
    BatchPayloadTruncated,
    /// The answer goes on behind its results.
    BatchTrailingBytes,
}

/// The vectors one behind the other.
pub open spec fn flat(vectors: Seq<Seq<u32>>) -> Seq<u32>
    decreases vectors.len(),
{
    if vectors.len() == 0 {
        Seq::empty()
    } else {
        flat(vectors.drop_last()) + vectors.last()
    }
}

/// The components of the vectors.
pub open spec fn components(vectors: Seq<Vec<u32>>) -> Seq<Seq<u32>> {
    vectors.map_values(|v: Vec<u32>| v@)
}

/// Whether all vectors have `dim` components.
pub open spec fn all_of_dim(vectors: Seq<Seq<u32>>, dim: nat) -> bool {
    forall|i: int| 0 <= i < vectors.len() ==> (#[trigger] vectors[i]).len() == dim
}

/// Vectors of `dim` components take so much, and vector `i` is the one there.
pub proof fn flat_rows(vectors: Seq<Seq<u32>>, dim: nat)
    requires
        all_of_dim(vectors, dim),
    ensures
        flat(vectors).len() == vectors.len() * dim,
        forall|i: int|
            0 <= i < vectors.len() ==> #[trigger] floats::row_of(flat(vectors), dim, i)
                == vectors[i],
    decreases vectors.len(),
{
    if vectors.len() > 0 {
        let front = vectors.drop_last();
        let n = front.len() as int;
        assert(all_of_dim(front, dim)) by {
            assert forall|i: int| 0 <= i < front.len() implies (#[trigger] front[i]).len()
                == dim by {
                assert(vectors[i].len() == dim);
            }
        }
        flat_rows(front, dim);
        assert(vectors[n].len() == dim);
        floats::row_fits(dim, n, n + 1);
        assert forall|i: int| 0 <= i < vectors.len() implies #[trigger] floats::row_of(
            flat(vectors),
            dim,
            i,
        ) == vectors[i] by {
            if i < n {
                floats::row_fits(dim, i, n);
                assert(floats::row_of(flat(vectors), dim, i) =~= floats::row_of(
                    flat(front),
                    dim,
                    i,
                ));
                assert(floats::row_of(flat(front), dim, i) == front[i]);
            } else {
                assert(floats::row_of(flat(vectors), dim, i) =~= vectors[i]);
            }
        }
    } else {
        assert(vectors.len() * dim == 0) by (nonlinear_arith)
            requires
                vectors.len() == 0,
        ;
    }
}

/// Appends the bytes of all components.
pub fn put_vectors(out: &mut Vec<u8>, vectors: &[Vec<u32>])
    ensures
        final(out)@ == old(out)@ + le::bytes_of_u32s(flat(components(vectors@))),
{
    let ghost front = out@;
    let ghost all = components(vectors@);
    let mut i: usize = 0;
    assert(all.take(0) =~= Seq::empty());
    assert(le::bytes_of_u32s(flat(all.take(0))) =~= Seq::empty());
    while i < vectors.len()
        invariant
            i <= vectors@.len(),
            all == components(vectors@),
            out@ == front + le::bytes_of_u32s(flat(all.take(i as int))),
        decreases vectors@.len() - i,
    {
        let v = &vectors[i];
        let ghost done = flat(all.take(i as int));
        let mut j: usize = 0;
        assert(done + v@.take(0) =~= done);
        while j < v.len()
            invariant
                j <= v@.len(),
                out@ == front + le::bytes_of_u32s(done + v@.take(j as int)),
            decreases v@.len() - j,
        {
            le::put_u32(out, v[j]);
            proof {
                let now = done + v@.take(j as int);
                assert(done + v@.take(j + 1) =~= now.push(v@[j as int]));
                vector::u32s_grow(now, v@[j as int]);
            }
            j = j + 1;
        }
        proof {
            let next = all.take(i + 1);
            assert(next.drop_last() =~= all.take(i as int));
            assert(next.last() == v@);
            assert(v@.take(j as int) =~= v@);
        }
        i = i + 1;
    }
    assert(all.take(i as int) =~= all);
}

/// What is wrong with vectors that an index is to be built of.
pub open spec fn vectors_check(vectors: Seq<Seq<u32>>) -> Option<VectorIndexError> {
    if vectors.len() == 0 {
        Some(VectorIndexError::NoVectors)
    } else if vectors[0].len() == 0 {
        Some(VectorIndexError::ZeroDimension)
    } else if !all_of_dim(vectors, vectors[0].len()) {
        Some(VectorIndexError::DimensionMismatch)
    } else {
        None
    }
}

/// Checks vectors that an index is to be built of.
pub fn check_vectors(vectors: &[Vec<u32>]) -> (r: Option<VectorIndexError>)
    ensures
        r == vectors_check(components(vectors@)),
{
    if vectors.len() == 0 {
        return Some(VectorIndexError::NoVectors);
    }
    let ghost all = components(vectors@);
    assert(all[0] == vectors@[0]@);
    let dim: usize = vectors[0].len();
    if dim == 0 {
        return Some(VectorIndexError::ZeroDimension);
    }
    let mut i: usize = 0;
    while i < vectors.len()
        invariant
            i <= vectors@.len(),
            all == components(vectors@),
            vectors@.len() > 0,
            dim == all[0].len(),
            dim > 0,
            forall|j: int| 0 <= j < i ==> (#[trigger] all[j]).len() == dim,
        decreases vectors@.len() - i,
    {
        assert(all[i as int] == vectors@[i as int]@);
        if vectors[i].len() != dim {
            return Some(VectorIndexError::DimensionMismatch);
        }
        i = i + 1;
    }
    None
}

} // verus!
