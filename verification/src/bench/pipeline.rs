//! Which index a measurement builds and asks.
use crate::vector_index::VectorIndexAlgorithm;
use vstd::prelude::*;

verus! {

/// How a measurement searches.
#[derive(Clone, Copy, Debug, PartialEq, Eq, Structural)]
pub enum PipelineAlgorithm {
    Brute,
    Hnsw,
    Wasm,
}

/// A character with a capital letter of ASCII made small.
pub open spec fn lowered_char(c: char) -> char {
    if 'A' <= c <= 'Z' {
        (c as int + 32) as char
    } else {
        c
    }
}

/// A text with the capital letters of ASCII made small.
pub open spec fn lowered(s: Seq<char>) -> Seq<char> {
    s.map_values(|c: char| lowered_char(c))
}

/// Tells whether a text is another one once its capital letters are made small.
pub fn lowers_to(s: &str, small: &str) -> (r: bool)
    ensures
        r == (lowered(s@) == small@),
{
    let n: usize = s.unicode_len();
    if small.unicode_len() != n {
        assert(lowered(s@).len() != small@.len());
        return false;
    }
    let mut i: usize = 0;
    while i < n
        invariant
            n == s@.len(),
            n == small@.len(),
            i <= n,
            forall|j: int| 0 <= j < i ==> lowered(s@)[j] == small@[j],
        decreases n - i,
    {
        let c: char = s.get_char(i);
        let d: char = small.get_char(i);
        let code: u32 = c as u32;
        let low: u32 = if 65 <= code && code <= 90 { code + 32 } else { code };
        assert(lowered(s@)[i as int] == lowered_char(c));
        if low != d as u32 {
            return false;
        }
        i = i + 1;
    }
    assert(lowered(s@) =~= small@);
    true
}

/// The algorithm that a name stands for.
pub open spec fn algorithm_of(name: Seq<char>) -> Option<PipelineAlgorithm> {
    let small = lowered(name);
    if small == "brute"@ || small == "bruteforce"@ || small == "brute-force"@ {
        Some(PipelineAlgorithm::Brute)
    } else if small == "hnsw"@ || small == "hnsw-native"@ {
        Some(PipelineAlgorithm::Hnsw)
    } else if small == "wasm"@ || small == "custom"@ {
        Some(PipelineAlgorithm::Wasm)
    } else {
        None
    }
}

/// Reads the name of an algorithm.
pub fn parse_algorithm(value: &str) -> (r: Option<PipelineAlgorithm>)
    ensures
        r == algorithm_of(value@),
{
    if lowers_to(value, "brute") || lowers_to(value, "bruteforce") || lowers_to(
        value,
        "brute-force",
    ) {
        Some(PipelineAlgorithm::Brute)
    } else if lowers_to(value, "hnsw") || lowers_to(value, "hnsw-native") {
        Some(PipelineAlgorithm::Hnsw)
    } else if lowers_to(value, "wasm") || lowers_to(value, "custom") {
        Some(PipelineAlgorithm::Wasm)
    } else {
        None
    }
}

/// What an algorithm is called in reports.
pub open spec fn label_of(algorithm: PipelineAlgorithm) -> Seq<char> {
    match algorithm {
        PipelineAlgorithm::Brute => "brute-force"@,
        PipelineAlgorithm::Hnsw => "native-hnsw"@,
        PipelineAlgorithm::Wasm => "wasm-hnsw"@,
    }
}

/// Gives what an algorithm is called in reports.
pub fn algorithm_label(algorithm: PipelineAlgorithm) -> (r: &'static str)
    ensures
        r@ == label_of(algorithm),
{
    match algorithm {
        PipelineAlgorithm::Brute => "brute-force",
        PipelineAlgorithm::Hnsw => "native-hnsw",
        PipelineAlgorithm::Wasm => "wasm-hnsw",
    }
}

/// Why a measurement cannot run.
#[derive(Clone, Copy, Debug, PartialEq, Eq, Structural)]
pub enum PipelineError {
    NoVectors,
    NoQueries,
    DimMismatch { base: usize, query: usize },
    ZeroBatch,
    UnknownAlgorithm,
    /// Only a module is compared with the native search.
    NothingToCompare,
    NoModule,
}

/// What a measurement is asked to do.
#[derive(Clone, Copy, Debug)]
pub struct RunRequest<'a> {
    pub algorithm: &'a str,
    pub compare_native: bool,
    pub has_module: bool,
    pub batch_size: usize,
}

/// The algorithm of a measurement, or the first thing that is wrong with it.
pub open spec fn run_of(
    base: Seq<Vec<u32>>,
    queries: Seq<Vec<u32>>,
    request: RunRequest,
) -> Result<PipelineAlgorithm, PipelineError> {
    if base.len() == 0 {
        Err(PipelineError::NoVectors)
    } else if queries.len() == 0 {
        Err(PipelineError::NoQueries)
    } else if base[0]@.len() != queries[0]@.len() {
        Err(
            PipelineError::DimMismatch {
                base: base[0]@.len() as usize,
                query: queries[0]@.len() as usize,
            },
        )
    } else if request.batch_size == 0 {
        Err(PipelineError::ZeroBatch)
    } else {
        match algorithm_of(request.algorithm@) {
            None => Err(PipelineError::UnknownAlgorithm),
            Some(a) => if request.compare_native && a != PipelineAlgorithm::Wasm {
                Err(PipelineError::NothingToCompare)
            } else if a == PipelineAlgorithm::Wasm && !request.has_module {
                Err(PipelineError::NoModule)
            } else {
                Ok(a)
            },
        }
    }
}

/// Checks a measurement and gives its algorithm.
pub fn check_run(base: &[Vec<u32>], queries: &[Vec<u32>], request: &RunRequest) -> (r: Result<
    PipelineAlgorithm,
    PipelineError,
>)
    ensures
        r == run_of(base@, queries@, *request),
{
    if base.len() == 0 {
        return Err(PipelineError::NoVectors);
    }
    if queries.len() == 0 {
        return Err(PipelineError::NoQueries);
    }
    if base[0].len() != queries[0].len() {
        return Err(
            PipelineError::DimMismatch { base: base[0].len(), query: queries[0].len() },
        );
    }
    if request.batch_size == 0 {
        return Err(PipelineError::ZeroBatch);
    }
    match parse_algorithm(request.algorithm) {
        None => Err(PipelineError::UnknownAlgorithm),
        Some(a) => if request.compare_native && a != PipelineAlgorithm::Wasm {
            Err(PipelineError::NothingToCompare)
        } else if a == PipelineAlgorithm::Wasm && !request.has_module {
            Err(PipelineError::NoModule)
        } else {
            Ok(a)
        },
    }
}

/// How one algorithm is measured.
#[derive(Clone, Copy, Debug, PartialEq, Eq, Structural)]
pub struct VariantPlan {
    /// Whether the index is a graph; else it is searched from end to end.
    pub graph: bool,
    /// What the file says of the index.
    pub algorithm: VectorIndexAlgorithm,
    /// Whether several queries go into one call.
    pub batched: bool,
}

/// How an algorithm is measured. A module that is needed has to be there.
pub fn plan_variant(algorithm: PipelineAlgorithm, has_module: bool, batch_size: usize) -> (r: Result<
    VariantPlan,
    PipelineError,
>)
    ensures
        r == (match algorithm {
            PipelineAlgorithm::Brute => Ok::<VariantPlan, PipelineError>(
                VariantPlan {
                    graph: false,
                    algorithm: VectorIndexAlgorithm::BruteForce,
                    batched: false,
                },
            ),
            PipelineAlgorithm::Hnsw => Ok(
                VariantPlan {
                    graph: true,
                    algorithm: VectorIndexAlgorithm::Hnsw,
                    batched: false,
                },
            ),
            PipelineAlgorithm::Wasm => if has_module {
                Ok(
                    VariantPlan {
                        graph: true,
                        algorithm: VectorIndexAlgorithm::CustomWasm,
                        batched: batch_size > 1,
                    },
                )
            } else {
                Err(PipelineError::NoModule)
            },
        }),
{
    match algorithm {
        PipelineAlgorithm::Brute => Ok(
            VariantPlan {
                graph: false,
                algorithm: VectorIndexAlgorithm::BruteForce,
                batched: false,
            },
        ),
        PipelineAlgorithm::Hnsw => Ok(
            VariantPlan { graph: true, algorithm: VectorIndexAlgorithm::Hnsw, batched: false },
        ),
        PipelineAlgorithm::Wasm => if has_module {
            Ok(
                VariantPlan {
                    graph: true,
                    algorithm: VectorIndexAlgorithm::CustomWasm,
                    batched: batch_size > 1,
                },
            )
        } else {
            Err(PipelineError::NoModule)
        },
    }
}

} // verus!
