//! The F3 columnar file format and its vector indexes.
use vstd::prelude::*;

pub mod artifact;
pub mod assemble;
pub mod bench;
pub mod buffers;
pub mod checksum;
pub mod chunk_decoder;
pub mod column_reader;
pub mod column_stats;
pub mod decoder;
pub mod dict_decoder;
pub mod dict_sharing;
pub mod encoded_chunk;
pub mod encoder;
pub mod file_footer;
pub mod file_format;
pub mod file_writer;
pub mod floats;
pub mod footer;
pub mod ivf_assign;
pub mod ivf_build;
pub mod ivf_columns;
pub mod ivf_file;
pub mod ivf_flat;
pub mod kmeans;
pub mod laws;
pub mod le;
pub mod manifest;
pub mod num;
pub mod options;
pub mod postscript;
pub mod random;
pub mod read_plan;
pub mod reader;
pub mod row_groups;
pub mod schema;
pub mod selection;
pub mod tables;
pub mod topk;
pub mod training;
pub mod ude_wasm;
pub mod uleb128;
pub mod vector;
pub mod vector_encoder;
pub mod vector_index;
pub mod write_history;
pub mod writer;
pub mod writer_finish;

verus! {

/// Whether `r` is the first multiple of `a` that is not below `v`.
pub open spec fn is_aligned_up(r: int, v: int, a: int) -> bool {
    r % a == 0 && v <= r < v + a
}

/// Rounds `v` up to the next multiple of `a`.
pub fn align_up(v: u64, a: u64) -> (r: u64)
    requires
        a > 0,
        v + a <= u64::MAX,
    ensures
        is_aligned_up(r as int, v as int, a as int),
{
    let ghost last = v + a - 1;
    let ghost q = last / a as int;
    proof {
        vstd::arithmetic::div_mod::lemma_fundamental_div_mod(last, a as int);
        vstd::arithmetic::div_mod::lemma_mod_multiples_basic(q, a as int);
        assert(q * a == a * q) by (nonlinear_arith);
        assert(0 <= last % (a as int) < a);
    }
    (v + a - 1) / a * a
}

} // verus!
